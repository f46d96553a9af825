//! The simulator: the clock and the event loop.
use super::event::Event;
use super::queue::EventQueue;
use crate::{EntityId, SimTime};
use std::collections::HashMap;
use vstd::multiset::Multiset;
use vstd::prelude::*;

verus! {

use super::event::before;
use super::queue::{cancelled, is_first};

broadcast use vstd::std_specs::hash::group_hash_axioms;

/// One call of a handler: the event, the time, and the events that it gave back.
#[verifier::ext_equal]
pub struct HandlerCall {
    pub ev: Event,
    pub now: SimTime,
    pub spawned: Seq<Event>,
}

/// What an entity does with an event: it returns the events that follow from it.
pub trait EventHandler {
    /// The calls that the handler has had, in order.
    open spec fn calls(&self) -> Seq<HandlerCall> {
        vstd::pervasive::arbitrary()
    }

    /// Handles an event at the time `now`.
    fn handle(&mut self, ev: &Event, now: SimTime) -> (spawned: Vec<Event>)
        ensures
            final(self).calls() == old(self).calls().push(
                HandlerCall { ev: *ev, now, spawned: spawned@ },
            ),
    ;
}

/// A handler to register.
pub struct Handler {
    pub action: Box<dyn EventHandler>,
}

/// The simulator keeps the clock and the queue and hands each event, in order,
/// to the handler of its target.
pub struct Simulator {
    clock: SimTime,
    queue: EventQueue,
    handlers: HashMap<EntityId, Handler>,
    processed: u64,
    stopped: bool,
}

/// What can be observed of a simulator.
#[verifier::ext_equal]
pub struct SimulatorView {
    /// The current time.
    pub clock: SimTime,
    /// The pending events.
    pub events: Multiset<Event>,
    /// The handlers of the entities that have one.
    pub handlers: Map<EntityId, Handler>,
    /// How many events have been processed.
    pub processed: u64,
    /// Whether the simulator was told to stop.
    pub stopped: bool,
}

impl View for Simulator {
    type V = SimulatorView;

    closed spec fn view(&self) -> SimulatorView {
        SimulatorView {
            clock: self.clock,
            events: self.queue@,
            handlers: self.handlers@,
            processed: self.processed,
            stopped: self.stopped,
        }
    }
}

/// The event with its time lifted to `clock` where it lies in the past.
pub open spec fn lifted(ev: Event, clock: SimTime) -> Event {
    Event {
        time: if ev.time < clock {
            clock
        } else {
            ev.time
        },
        ..ev
    }
}

/// The handlers after the one of `target`, if there is one, has been called once for `ev` and has
/// given back `spawned`. The others are as they were.
pub open spec fn handled(
    pre: Map<EntityId, Handler>,
    post: Map<EntityId, Handler>,
    ev: Event,
    spawned: Seq<Event>,
) -> bool {
    let id = ev.target;
    if pre.contains_key(id) {
        &&& post == pre.insert(id, post[id])
        &&& post[id].action.calls() == pre[id].action.calls().push(
            HandlerCall { ev, now: ev.time, spawned },
        )
    } else {
        &&& post == pre
        &&& spawned.len() == 0
    }
}

/// How one step takes a simulator from `pre` to `post`: it takes the first event, `ev`, hands it to
/// the handler of its target, if there is one, and queues the events `spawned` that this gives back.
pub open spec fn stepped(
    pre: SimulatorView,
    post: SimulatorView,
    ev: Event,
    spawned: Seq<Event>,
) -> bool {
    &&& is_first(pre.events, ev)
    &&& handled(pre.handlers, post.handlers, ev, spawned)
    &&& post.clock == ev.time
    &&& post.events == pre.events.remove(ev).add(spawned.to_multiset())
    &&& post.processed == pre.processed + 1
    &&& post.stopped == pre.stopped
}

/// An event that was handled, and the events that its handler gave back.
#[verifier::ext_equal]
pub struct Dispatch {
    pub ev: Event,
    pub spawned: Seq<Event>,
}

/// How the event loop takes a simulator from `pre` to `post`: by one step for each entry of `log`,
/// each on an event that is due by `until`.
pub open spec fn stepped_through(
    pre: SimulatorView,
    post: SimulatorView,
    until: int,
    log: Seq<Dispatch>,
) -> bool
    decreases log.len(),
{
    if log.len() == 0 {
        post == pre
    } else {
        exists|mid: SimulatorView|
            {
                &&& stepped_through(pre, mid, until, log.drop_last())
                &&& !mid.stopped
                &&& log.last().ev.time <= until
                &&& #[trigger] stepped(mid, post, log.last().ev, log.last().spawned)
            }
    }
}

/// What the event loop does: it takes steps on events that are due by `until` until there is none
/// left, or the simulator is stopped, or the counter is exhausted.
pub open spec fn ran_until(
    pre: SimulatorView,
    post: SimulatorView,
    until: int,
    log: Seq<Dispatch>,
) -> bool {
    &&& stepped_through(pre, post, until, log)
    &&& post.processed == pre.processed + log.len()
    &&& post.clock == if log.len() > 0 {
        log.last().ev.time
    } else {
        pre.clock
    }
    &&& post.stopped || post.processed == u64::MAX || forall|ev: Event| #[trigger]
        post.events.contains(ev) ==> ev.time > until
}

/// The calls among `log` that the handler of `id` gets.
pub open spec fn calls_for(log: Seq<Dispatch>, id: EntityId) -> Seq<HandlerCall>
    decreases log.len(),
{
    if log.len() == 0 {
        Seq::empty()
    } else {
        let before = calls_for(log.drop_last(), id);
        let d = log.last();
        if d.ev.target == id {
            before.push(HandlerCall { ev: d.ev, now: d.ev.time, spawned: d.spawned })
        } else {
            before
        }
    }
}

/// The events of `events` that are due after `until`.
pub open spec fn due_after(events: Multiset<Event>, until: int) -> Multiset<Event> {
    events.filter(|ev: Event| ev.time > until)
}

/// What is left when a simulator to which no events are added has taken every event up to `until`.
pub open spec fn drained(pre: SimulatorView, post: SimulatorView, until: int) -> bool {
    &&& post.events == due_after(pre.events, until)
    &&& post.processed == pre.processed + pre.events.len() - post.events.len()
    &&& post.stopped == pre.stopped
    &&& post.events.len() == pre.events.len() ==> post.clock == pre.clock
    &&& post.events.len() < pre.events.len() ==> {
        &&& post.clock <= until
        &&& exists|ev: Event| #[trigger] pre.events.contains(ev) && ev.time == post.clock
        &&& forall|ev: Event| #[trigger]
            pre.events.contains(ev) && ev.time <= until ==> ev.time <= post.clock
    }
}

impl Simulator {
    /// A simulator at time zero with nothing pending.
    pub fn new() -> (s: Self)
        ensures
            s@ == (SimulatorView {
                clock: 0,
                events: Multiset::empty(),
                handlers: Map::empty(),
                processed: 0,
                stopped: false,
            }),
    {
        let s = Simulator {
            clock: 0,
            queue: EventQueue::new(),
            handlers: HashMap::new(),
            processed: 0,
            stopped: false,
        };
        assert(s@.handlers =~= Map::empty());
        s
    }

    /// The current time in nanoseconds.
    pub fn now(&self) -> (t: SimTime)
        ensures
            t == self@.clock,
    {
        self.clock
    }

    /// The number of events processed so far.
    pub fn processed(&self) -> (n: u64)
        ensures
            n == self@.processed,
    {
        self.processed
    }

    /// The number of pending events.
    pub fn pending(&self) -> (n: usize)
        ensures
            n == self@.events.len(),
    {
        self.queue.len()
    }

    /// Takes the next event for an outside loop, without calling a handler; the clock never goes
    /// back.
    pub fn pop_event(&mut self) -> (r: Option<Event>)
        requires
            old(self)@.processed < u64::MAX,
        ensures
            match r {
                None => old(self)@.events.len() == 0 && final(self)@ == old(self)@,
                Some(ev) => is_first(old(self)@.events, ev) && final(self)@ == (SimulatorView {
                    clock: if ev.time > old(self)@.clock {
                        ev.time
                    } else {
                        old(self)@.clock
                    },
                    events: old(self)@.events.remove(ev),
                    processed: (old(self)@.processed + 1) as u64,
                    ..old(self)@
                }),
            },
    {
        match self.queue.pop() {
            None => None,
            Some(ev) => {
                if ev.time > self.clock {
                    self.clock = ev.time;
                }
                self.processed = self.processed + 1;
                Some(ev)
            },
        }
    }

    /// The time of the next event.
    pub fn peek_time(&self) -> (r: Option<SimTime>)
        ensures
            match r {
                None => self@.events.len() == 0,
                Some(t) => exists|ev: Event| #[trigger]
                    is_first(self@.events, ev) && ev.time == t,
            },
    {
        match self.queue.peek() {
            None => None,
            Some(ev) => {
                assert(is_first(self@.events, *ev));
                Some(ev.time)
            },
        }
    }

    /// Adds an event; one that lies in the past is lifted to the present.
    pub fn schedule(&mut self, ev: Event)
        ensures
            final(self)@ == (SimulatorView {
                events: old(self)@.events.insert(lifted(ev, old(self)@.clock)),
                ..old(self)@
            }),
    {
        let mut ev = ev;
        if ev.time < self.clock {
            ev.time = self.clock;
        }
        self.queue.push(ev);
    }

    /// Removes every pending event that `predicate` accepts and returns how many there were.
    pub fn cancel_where<F: Fn(&Event) -> bool>(&mut self, predicate: F) -> (removed: usize)
        requires
            forall|ev: &Event| #[trigger] call_requires(predicate, (ev,)),
        ensures
            final(self)@ == (SimulatorView { events: final(self)@.events, ..old(self)@ }),
            cancelled(old(self)@.events, final(self)@.events, predicate),
            removed == old(self)@.events.len() - final(self)@.events.len(),
    {
        self.queue.cancel_where(predicate)
    }

    /// Sets the handler of `entity`.
    pub fn register_handler(&mut self, entity: EntityId, handler: Handler)
        ensures
            final(self)@ == (SimulatorView {
                handlers: old(self)@.handlers.insert(entity, handler),
                ..old(self)@
            }),
    {
        self.handlers.insert(entity, handler);
    }

    /// Processes one event and returns its time.
    pub fn step(&mut self) -> (r: Option<SimTime>)
        requires
            old(self)@.processed < u64::MAX,
        ensures
            match r {
                None => old(self)@.events.len() == 0 && final(self)@ == old(self)@,
                Some(t) => t == final(self)@.clock && exists|ev: Event, spawned: Seq<Event>|
                    #[trigger] stepped(old(self)@, final(self)@, ev, spawned),
            },
    {
        broadcast use vstd::seq_lib::group_to_multiset_ensures;

        let ev = match self.queue.pop() {
            None => {
                return None;
            },
            Some(ev) => ev,
        };
        self.clock = ev.time;
        self.processed = self.processed + 1;
        let mut spawned: Vec<Event> = Vec::new();
        if let Some(mut handler) = self.handlers.remove(&ev.target) {
            spawned = handler.action.handle(&ev, self.clock);
            self.handlers.insert(ev.target, handler);
            assert(self@.handlers =~= old(self)@.handlers.insert(ev.target, handler));
        } else {
            assert(self@.handlers =~= old(self)@.handlers);
        }
        let ghost all = spawned@;
        let ghost base = self.queue@;
        let ghost clock = self.clock;
        let ghost processed = self.processed;
        let ghost stopped = self.stopped;
        let ghost handlers = self@.handlers;
        assert(all.skip(all.len() as int).to_multiset() =~= Multiset::<Event>::empty());
        assert(base.add(Multiset::empty()) =~= base);
        while spawned.len() > 0
            invariant
                spawned@ == all.take(spawned@.len() as int),
                spawned@.len() <= all.len(),
                self.queue@ == base.add(all.skip(spawned@.len() as int).to_multiset()),
                self.clock == clock,
                self.processed == processed,
                self.stopped == stopped,
                self@.handlers == handlers,
            decreases spawned@.len(),
        {
            let ghost rest = all.skip(spawned@.len() as int);
            let ghost n = spawned@.len();
            if let Some(next) = spawned.pop() {
                proof {
                    assert(all.skip(n - 1) =~= rest.insert(0, next));
                    vstd::seq_lib::to_multiset_insert(rest, 0, next);
                    assert(base.add(rest.to_multiset().insert(next)) =~= base.add(
                        rest.to_multiset(),
                    ).insert(next));
                }
                self.queue.push(next);
            }
        }
        proof {
            assert(all.skip(0) =~= all);
            assert(stepped(old(self)@, self@, ev, all));
        }
        Some(self.clock)
    }

    /// Processes events until none is pending that is due by `until`.
    ///
    /// The loop also ends when the simulator is stopped or the counter of processed
    /// events is exhausted.
    pub fn run_until(&mut self, until: SimTime)
        ensures
            exists|log: Seq<Dispatch>| #[trigger]
                ran_until(old(self)@, final(self)@, until as int, log),
    {
        let ghost start = self@;
        let ghost mut log: Seq<Dispatch> = Seq::empty();
        let mut go_on: bool = !self.stopped;
        while go_on && self.processed < u64::MAX
            invariant
                stepped_through(start, self@, until as int, log),
                self@.processed == start.processed + log.len(),
                self@.clock == if log.len() > 0 {
                    log.last().ev.time
                } else {
                    start.clock
                },
                self@.stopped == start.stopped,
                start.stopped ==> !go_on,
                !start.stopped && !go_on ==> forall|ev: Event| #[trigger]
                    self@.events.contains(ev) ==> ev.time > until,
            decreases u64::MAX - self@.processed, (if go_on { 1int } else { 0int }),
        {
            let ghost pre = self@;
            match self.peek_time() {
                Some(t) if t <= until => {
                    let r = self.step();
                    proof {
                        let (ev, spawned) = choose|ev: Event, spawned: Seq<Event>| #[trigger]
                            stepped(pre, self@, ev, spawned);
                        let other = choose|other: Event| #[trigger]
                            is_first(pre.events, other) && other.time == t;
                        assert(!before(other, ev));
                        lemma_one_more_step(start, pre, self@, until as int, log, ev, spawned);
                        log = log.push(Dispatch { ev, spawned });
                    }
                },
                _ => {
                    go_on = false;
                },
            }
        }
        assert(ran_until(start, self@, until as int, log));
    }

    /// Processes events until none is pending.
    ///
    /// The loop also ends when the simulator is stopped or the counter of processed
    /// events is exhausted.
    pub fn run(&mut self)
        ensures
            exists|log: Seq<Dispatch>| #[trigger]
                ran_until(old(self)@, final(self)@, u64::MAX as int, log),
            final(self)@.stopped || final(self)@.processed == u64::MAX
                || final(self)@.events.len() == 0,
    {
        self.run_until(u64::MAX);
        proof {
            if self@.events.len() != 0 {
                let ev = self@.events.choose();
                assert(self@.events.contains(ev));
            }
        }
    }

    /// Whether the simulator was told to stop.
    pub fn is_stopped(&self) -> (r: bool)
        ensures
            r == self@.stopped,
    {
        self.stopped
    }

    /// Makes the event loop end before the next event.
    pub fn stop(&mut self)
        ensures
            final(self)@ == (SimulatorView { stopped: true, ..old(self)@ }),
    {
        self.stopped = true;
    }
}

proof fn lemma_one_more_step(
    start: SimulatorView,
    pre: SimulatorView,
    post: SimulatorView,
    until: int,
    log: Seq<Dispatch>,
    ev: Event,
    spawned: Seq<Event>,
)
    requires
        stepped_through(start, pre, until, log),
        !pre.stopped,
        ev.time <= until,
        stepped(pre, post, ev, spawned),
    ensures
        stepped_through(start, post, until, log.push(Dispatch { ev, spawned })),
{
    let longer = log.push(Dispatch { ev, spawned });
    assert(longer.drop_last() =~= log);
    assert(longer.last() == Dispatch { ev, spawned });
    assert(stepped(pre, post, longer.last().ev, longer.last().spawned));
}

/// A run of the event loop counts its events, calls the handler of an entity exactly for the events
/// that are meant for it, in order, and calls no other; a stopped simulator does nothing.
pub proof fn law_run_calls_handlers(
    pre: SimulatorView,
    post: SimulatorView,
    until: int,
    log: Seq<Dispatch>,
    id: EntityId,
)
    requires
        stepped_through(pre, post, until, log),
    ensures
        post.processed == pre.processed + log.len(),
        post.stopped == pre.stopped,
        pre.stopped ==> log.len() == 0,
        post.handlers.dom() == pre.handlers.dom(),
        pre.handlers.contains_key(id) ==> post.handlers[id].action.calls()
            == pre.handlers[id].action.calls() + calls_for(log, id),
    decreases log.len(),
{
    if log.len() > 0 {
        let mid = choose|mid: SimulatorView|
            {
                &&& stepped_through(pre, mid, until, log.drop_last())
                &&& !mid.stopped
                &&& log.last().ev.time <= until
                &&& #[trigger] stepped(mid, post, log.last().ev, log.last().spawned)
            };
        law_run_calls_handlers(pre, mid, until, log.drop_last(), id);
        assert(post.handlers.dom() =~= mid.handlers.dom());
        if pre.handlers.contains_key(id) {
            assert(mid.handlers.contains_key(id));
            assert(post.handlers[id].action.calls() =~= pre.handlers[id].action.calls() + calls_for(
                log,
                id,
            ));
        }
    } else {
        if pre.handlers.contains_key(id) {
            assert(pre.handlers[id].action.calls() + calls_for(log, id)
                =~= pre.handlers[id].action.calls());
        }
    }
}

/// No handler gave back an event of the past.
pub open spec fn looks_ahead(log: Seq<Dispatch>) -> bool {
    forall|k: int, e: Event|
        0 <= k < log.len() && #[trigger] log[k].spawned.contains(e) ==> log[k].ev.time <= e.time
}

/// Where no handler gives back an event of the past, events are handled in the order of their
/// times, and what is still pending is not earlier than what was handled.
pub proof fn law_run_is_in_order(
    pre: SimulatorView,
    post: SimulatorView,
    until: int,
    log: Seq<Dispatch>,
)
    requires
        stepped_through(pre, post, until, log),
        looks_ahead(log),
    ensures
        forall|i: int, j: int|
            0 <= i <= j < log.len() ==> (#[trigger] log[i]).ev.time <= (#[trigger] log[j]).ev.time
                <= until,
        log.len() > 0 ==> forall|e: Event| #[trigger]
            post.events.contains(e) ==> log.last().ev.time <= e.time,
    decreases log.len(),
{
    broadcast use vstd::multiset::group_multiset_axioms;
    broadcast use vstd::multiset::group_multiset_properties;
    broadcast use vstd::seq_lib::group_to_multiset_ensures;

    if log.len() > 0 {
        let less = log.drop_last();
        let (ev, spawned) = (log.last().ev, log.last().spawned);
        let mid = choose|mid: SimulatorView|
            {
                &&& stepped_through(pre, mid, until, log.drop_last())
                &&& !mid.stopped
                &&& log.last().ev.time <= until
                &&& #[trigger] stepped(mid, post, log.last().ev, log.last().spawned)
            };
        assert forall|k: int, e: Event|
            0 <= k < less.len() && #[trigger] less[k].spawned.contains(e) implies less[k].ev.time
            <= e.time by {
            assert(log[k].spawned.contains(e));
        }
        law_run_is_in_order(pre, mid, until, less);
        assert(mid.events.contains(ev));
        assert forall|e: Event| #[trigger] post.events.contains(e) implies ev.time <= e.time by {
            if mid.events.remove(ev).contains(e) {
                assert(mid.events.contains(e));
                assert(!before(e, ev));
            } else {
                assert(spawned.to_multiset().contains(e));
                assert(log[log.len() - 1].spawned.contains(e));
            }
        }
        assert forall|i: int, j: int| 0 <= i <= j < log.len() implies (#[trigger] log[i]).ev.time <= (
        #[trigger] log[j]).ev.time <= until by {
            if i < log.len() - 1 {
                assert(less[i] == log[i]);
                assert(less.last() == log[log.len() - 2]);
                if j < log.len() - 1 {
                    assert(less[j] == log[j]);
                }
            }
        }
    }
}

/// A state on the way of draining `start` up to `until`.
spec fn partly_drained(start: SimulatorView, now: SimulatorView, until: int) -> bool {
    &&& now.processed + now.events.len() == start.processed + start.events.len()
    &&& now.events.len() <= start.events.len()
    &&& due_after(now.events, until) == due_after(start.events, until)
    &&& forall|ev: Event| #[trigger]
        now.events.contains(ev) ==> start.events.contains(ev)
    &&& now.stopped == start.stopped
    &&& now.events.len() == start.events.len() ==> now.clock == start.clock && now.events
        == start.events
    &&& now.events.len() < start.events.len() ==> {
        &&& now.clock <= until
        &&& exists|ev: Event| #[trigger] start.events.contains(ev) && ev.time == now.clock
        &&& forall|ev: Event| #[trigger]
            now.events.contains(ev) ==> now.clock <= ev.time
        &&& forall|ev: Event| #[trigger]
            start.events.contains(ev) && !now.events.contains(ev) ==> ev.time <= now.clock
    }
}

proof fn lemma_drain_step(
    start: SimulatorView,
    pre: SimulatorView,
    post: SimulatorView,
    until: int,
    ev: Event,
)
    requires
        partly_drained(start, pre, until),
        stepped(pre, post, ev, Seq::empty()),
        ev.time <= until,
    ensures
        partly_drained(start, post, until),
{
    broadcast use vstd::multiset::group_multiset_axioms;
    broadcast use vstd::multiset::group_multiset_properties;
    broadcast use vstd::seq_lib::group_to_multiset_ensures;

    assert(Seq::<Event>::empty().to_multiset() =~= Multiset::empty());
    assert(post.events =~= pre.events.remove(ev));
    assert(due_after(post.events, until) =~= due_after(pre.events, until));
    assert(pre.events.contains(ev));
    assert forall|e: Event| #[trigger] post.events.contains(e) implies pre.events.contains(e) by {
        assert(pre.events.remove(ev).count(e) <= pre.events.count(e));
    }
    assert forall|e: Event| #[trigger] post.events.contains(e) implies ev.time <= e.time by {
        assert(pre.events.contains(e));
        assert(!before(e, ev));
    }
}

proof fn lemma_quiet_steps_drain(
    pre: SimulatorView,
    post: SimulatorView,
    until: int,
    log: Seq<Dispatch>,
)
    requires
        stepped_through(pre, post, until, log),
        forall|k: int| 0 <= k < log.len() ==> (#[trigger] log[k]).spawned.len() == 0,
    ensures
        partly_drained(pre, post, until),
    decreases log.len(),
{
    if log.len() > 0 {
        let mid = choose|mid: SimulatorView|
            {
                &&& stepped_through(pre, mid, until, log.drop_last())
                &&& !mid.stopped
                &&& log.last().ev.time <= until
                &&& #[trigger] stepped(mid, post, log.last().ev, log.last().spawned)
            };
        lemma_quiet_steps_drain(pre, mid, until, log.drop_last());
        assert(log[log.len() - 1].spawned =~= Seq::empty());
        lemma_drain_step(pre, mid, post, until, log.last().ev);
    }
}

/// A run in which no handler gives back an event takes exactly the events that are due, and ends at
/// the time of the last of them.
pub proof fn law_quiet_run_drains(
    pre: SimulatorView,
    post: SimulatorView,
    until: int,
    log: Seq<Dispatch>,
)
    requires
        ran_until(pre, post, until, log),
        !pre.stopped,
        pre.processed + pre.events.len() < u64::MAX,
        forall|k: int| 0 <= k < log.len() ==> (#[trigger] log[k]).spawned.len() == 0,
    ensures
        drained(pre, post, until),
        log.len() == pre.events.len() - post.events.len(),
{
    broadcast use vstd::multiset::group_multiset_axioms;
    broadcast use vstd::multiset::group_multiset_properties;

    lemma_quiet_steps_drain(pre, post, until, log);
    assert forall|ev: Event| due_after(post.events, until).count(ev) == post.events.count(ev) by {
        if post.events.count(ev) > 0 {
            assert(post.events.contains(ev));
        }
    }
    assert(due_after(post.events, until) =~= post.events);
}

/// A simulator without handlers gets no new events.
pub proof fn law_without_handlers_a_run_is_quiet(
    pre: SimulatorView,
    post: SimulatorView,
    until: int,
    log: Seq<Dispatch>,
)
    requires
        stepped_through(pre, post, until, log),
        pre.handlers.dom().is_empty(),
    ensures
        forall|k: int| 0 <= k < log.len() ==> (#[trigger] log[k]).spawned.len() == 0,
    decreases log.len(),
{
    if log.len() > 0 {
        let mid = choose|mid: SimulatorView|
            {
                &&& stepped_through(pre, mid, until, log.drop_last())
                &&& !mid.stopped
                &&& log.last().ev.time <= until
                &&& #[trigger] stepped(mid, post, log.last().ev, log.last().spawned)
            };
        law_without_handlers_a_run_is_quiet(pre, mid, until, log.drop_last());
        law_run_calls_handlers(pre, mid, until, log.drop_last(), log.last().ev.target);
        assert(!pre.handlers.dom().contains(log.last().ev.target));
        assert(!mid.handlers.contains_key(log.last().ev.target));
        assert forall|k: int| 0 <= k < log.len() implies (#[trigger] log[k]).spawned.len() == 0 by {
            if k < log.len() - 1 {
                assert(log.drop_last()[k] == log[k]);
            }
        }
    }
}

impl Default for Simulator {
    fn default() -> (s: Self)
        ensures
            s@ == (SimulatorView {
                clock: 0,
                events: Multiset::empty(),
                handlers: Map::empty(),
                processed: 0,
                stopped: false,
            }),
    {
        Self::new()
    }
}

} // verus!
