//! What holds of the order of events and of a step of the simulator.
use super::event::Event;
use crate::{EntityId, SimTime};
use vstd::multiset::Multiset;
use vstd::prelude::*;

verus! {

use super::event::before;
use super::queue::is_first;
use super::simulator::{
    calls_for, due_after, lifted, ran_until, stepped, stepped_through, Dispatch, HandlerCall,
    SimulatorView,
};

/// Events are due by their time and, at the same time, by their number. Of two events with different numbers
/// one is due first, and the order is transitive.
pub proof fn law_events_are_ordered(a: Event, b: Event, c: Event)
    ensures
        a.time < b.time ==> before(a, b),
        a.time == b.time && a.seq < b.seq ==> before(a, b),
        before(a, b) ==> a.time <= b.time && !before(b, a),
        a.seq != b.seq ==> before(a, b) || before(b, a),
        a.seq == b.seq && a.time == b.time ==> !before(a, b),
        before(a, b) && before(b, c) ==> before(a, c),
{
}

/// The first of the pending events has the least time and, among those of this time, the least number.
pub proof fn law_first_event_is_least(events: Multiset<Event>, ev: Event)
    ensures
        is_first(events, ev) <==> events.contains(ev) && forall|o: Event| #[trigger]
            events.contains(o) ==> ev.time < o.time || (ev.time == o.time && ev.seq <= o.seq),
{
    if is_first(events, ev) {
        assert forall|o: Event| #[trigger] events.contains(o) implies ev.time < o.time || (ev.time
            == o.time && ev.seq <= o.seq) by {
            assert(!before(o, ev));
        }
    }
}

/// An event of the past is due at once; any other keeps its time. Nothing else of it changes.
pub proof fn law_past_event_is_due_now(ev: Event, clock: SimTime)
    ensures
        ev.time >= clock ==> lifted(ev, clock) == ev,
        ev.time < clock ==> lifted(ev, clock).time == clock,
        lifted(ev, clock).kind == ev.kind,
        lifted(ev, clock).target == ev.target,
        lifted(ev, clock).seq == ev.seq,
{
}

/// A step takes the event that is due first, sets the clock to its time, and counts it. The handler of its
/// target, if there is one, is called once for it at this time; what it gives back is pending afterwards, and
/// no other handler changes.
pub proof fn law_step_handles_first_event(
    pre: SimulatorView,
    post: SimulatorView,
    ev: Event,
    spawned: Seq<Event>,
    id: EntityId,
)
    requires
        stepped(pre, post, ev, spawned),
    ensures
        pre.events.contains(ev),
        forall|o: Event| #[trigger]
            pre.events.contains(o) ==> ev.time < o.time || (ev.time == o.time && ev.seq <= o.seq),
        post.clock == ev.time,
        post.processed == pre.processed + 1,
        post.stopped == pre.stopped,
        forall|o: Event| #[trigger]
            post.events.count(o) == pre.events.count(o) - (if o == ev {
                1int
            } else {
                0
            }) + spawned.to_multiset().count(o),
        pre.handlers.contains_key(ev.target) ==> {
            let calls = post.handlers[ev.target].action.calls();
            &&& post.handlers.contains_key(ev.target)
            &&& calls.drop_last() =~= pre.handlers[ev.target].action.calls()
            &&& calls.len() == pre.handlers[ev.target].action.calls().len() + 1
            &&& calls.last() == (HandlerCall { ev, now: ev.time, spawned })
        },
        !pre.handlers.contains_key(ev.target) ==> spawned.len() == 0 && post.handlers == pre.handlers,
        id != ev.target ==> (post.handlers.contains_key(id) <==> pre.handlers.contains_key(id)),
        id != ev.target && pre.handlers.contains_key(id) ==> post.handlers[id] == pre.handlers[id],
{
    broadcast use vstd::multiset::group_multiset_axioms;

    law_first_event_is_least(pre.events, ev);
}

/// A run that is neither stopped nor out of numbers ends when no event is left that is due by then, and has
/// taken only events that are. Its last event sets the clock.
pub proof fn law_run_takes_what_is_due(
    pre: SimulatorView,
    post: SimulatorView,
    until: int,
    log: Seq<Dispatch>,
)
    requires
        ran_until(pre, post, until, log),
    ensures
        !post.stopped && post.processed < u64::MAX ==> forall|ev: Event| #[trigger]
            post.events.contains(ev) ==> ev.time > until,
        forall|k: int| 0 <= k < log.len() ==> (#[trigger] log[k]).ev.time <= until,
        log.len() == 0 ==> post == pre,
        log.len() > 0 ==> post.clock == log.last().ev.time,
        post.processed == pre.processed + log.len(),
{
    lemma_log_is_due(pre, post, until, log);
}

proof fn lemma_log_is_due(
    pre: SimulatorView,
    post: SimulatorView,
    until: int,
    log: Seq<Dispatch>,
)
    requires
        stepped_through(pre, post, until, log),
    ensures
        forall|k: int| 0 <= k < log.len() ==> (#[trigger] log[k]).ev.time <= until,
    decreases log.len(),
{
    if log.len() > 0 {
        let less = log.drop_last();
        let mid = choose|mid: SimulatorView|
            {
                &&& stepped_through(pre, mid, until, log.drop_last())
                &&& !mid.stopped
                &&& log.last().ev.time <= until
                &&& #[trigger] stepped(mid, post, log.last().ev, log.last().spawned)
            };
        lemma_log_is_due(pre, mid, until, less);
        assert forall|k: int| 0 <= k < log.len() implies (#[trigger] log[k]).ev.time <= until by {
            if k < less.len() {
                assert(less[k] == log[k]);
            }
        }
    }
}

/// The calls of a handler are the events that are meant for it, in order, each with its time and what it gave
/// back.
pub proof fn law_calls_are_for_target(log: Seq<Dispatch>, id: EntityId)
    ensures
        calls_for(log, id) == log.filter(|d: Dispatch| d.ev.target == id).map_values(
            |d: Dispatch| HandlerCall { ev: d.ev, now: d.ev.time, spawned: d.spawned },
        ),
    decreases log.len(),
{
    reveal(Seq::filter);
    let call = |d: Dispatch| HandlerCall { ev: d.ev, now: d.ev.time, spawned: d.spawned };
    let mine = |d: Dispatch| d.ev.target == id;
    if log.len() > 0 {
        law_calls_are_for_target(log.drop_last(), id);
        let before = log.drop_last().filter(mine);
        assert(log.filter(mine) == if mine(log.last()) {
            before.push(log.last())
        } else {
            before
        });
        assert(calls_for(log, id) =~= log.filter(mine).map_values(call));
    } else {
        assert(calls_for(log, id) =~= log.filter(mine).map_values(call));
    }
}

/// What is due after a time is what is pending with a later time.
pub proof fn law_due_after(events: Multiset<Event>, until: int, ev: Event)
    ensures
        due_after(events, until).count(ev) == if ev.time > until {
            events.count(ev)
        } else {
            0
        },
{
    broadcast use vstd::multiset::group_multiset_axioms;

}

} // verus!
