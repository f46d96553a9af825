use std::cell::RefCell;
use std::cmp::Ordering;
use std::collections::BinaryHeap;
use std::rc::Rc;
use strack_sim::engine::{
    Event, EventHandler, EventKind, EventQueue, EventSeq, Handler, Simulator,
};

/// An event in a heap of the standard library.
struct ByDue(Event);

impl PartialEq for ByDue {
    fn eq(&self, other: &Self) -> bool {
        self.0 == other.0
    }
}

impl Eq for ByDue {}

impl PartialOrd for ByDue {
    fn partial_cmp(&self, other: &Self) -> Option<Ordering> {
        Some(self.cmp(other))
    }
}

impl Ord for ByDue {
    fn cmp(&self, other: &Self) -> Ordering {
        self.0.partial_cmp(&other.0).unwrap()
    }
}

fn named(time: u64, name: &str, target: u32, seqs: &mut EventSeq) -> Event {
    Event::new(time, EventKind::Custom(name.to_string()), target, seqs)
}

fn queue_of(times: &[u64], seqs: &mut EventSeq) -> EventQueue {
    let mut q = EventQueue::new();
    for &t in times {
        q.push(named(t, "x", 0, seqs));
    }
    q
}

#[test]
fn event_ordering_min_heap_by_time() {
    let mut seqs = EventSeq::new();
    let mut heap = BinaryHeap::new();
    heap.push(ByDue(named(300, "c", 0, &mut seqs)));
    heap.push(ByDue(named(100, "a", 0, &mut seqs)));
    heap.push(ByDue(named(200, "b", 0, &mut seqs)));

    let first = heap.pop().unwrap().0;
    let second = heap.pop().unwrap().0;
    let third = heap.pop().unwrap().0;
    assert_eq!(first.time, 100);
    assert_eq!(second.time, 200);
    assert_eq!(third.time, 300);
}

#[test]
fn event_ordering_fifo_when_same_time() {
    let mut seqs = EventSeq::new();
    let mut heap = BinaryHeap::new();
    let e1 = named(100, "first", 0, &mut seqs);
    let e2 = named(100, "second", 0, &mut seqs);
    let e3 = named(100, "third", 0, &mut seqs);
    heap.push(ByDue(e2.clone()));
    heap.push(ByDue(e3.clone()));
    heap.push(ByDue(e1.clone()));

    let a = heap.pop().unwrap().0;
    let b = heap.pop().unwrap().0;
    let c = heap.pop().unwrap().0;
    assert_eq!(a.seq, e1.seq);
    assert_eq!(b.seq, e2.seq);
    assert_eq!(c.seq, e3.seq);
}

#[test]
fn push_pop_ordered() {
    let mut seqs = EventSeq::new();
    let mut q = queue_of(&[500, 100, 300, 200, 400], &mut seqs);
    let mut last = 0u64;
    while let Some(ev) = q.pop() {
        assert!(ev.time >= last);
        last = ev.time;
    }
    assert_eq!(last, 500);
}

#[test]
fn fifo_stability_same_time() {
    let mut seqs = EventSeq::new();
    let mut q = EventQueue::new();
    let e1 = named(100, "first", 0, &mut seqs);
    let e2 = named(100, "second", 0, &mut seqs);
    let e3 = named(100, "third", 0, &mut seqs);
    q.push(e2.clone());
    q.push(e3.clone());
    q.push(e1.clone());

    let a = q.pop().unwrap();
    let b = q.pop().unwrap();
    let c = q.pop().unwrap();
    assert_eq!(a.seq, e1.seq);
    assert_eq!(b.seq, e2.seq);
    assert_eq!(c.seq, e3.seq);
}

#[test]
fn cancel_where_removes_matching() {
    let mut seqs = EventSeq::new();
    let mut q = queue_of(&[100, 200, 300, 400, 500], &mut seqs);
    let removed = q.cancel_where(|ev: &Event| ev.time >= 300);
    assert_eq!(removed, 3);
    assert_eq!(q.len(), 2);
    let a = q.pop().unwrap();
    let b = q.pop().unwrap();
    assert_eq!(a.time, 100);
    assert_eq!(b.time, 200);
}

#[test]
fn cancel_where_preserves_order() {
    let mut seqs = EventSeq::new();
    let mut q = queue_of(&[500, 100, 400, 200, 300], &mut seqs);
    q.cancel_where(|ev: &Event| ev.time > 300);
    let mut prev = 0u64;
    while let Some(ev) = q.pop() {
        assert!(ev.time >= prev);
        prev = ev.time;
    }
    assert_eq!(prev, 300);
}

#[test]
fn cancel_where_none_matching_preserves_all() {
    let mut seqs = EventSeq::new();
    let mut q = queue_of(&[100, 200, 300], &mut seqs);
    let removed = q.cancel_where(|ev: &Event| ev.time > 999);
    assert_eq!(removed, 0);
    assert_eq!(q.len(), 3);
}

#[test]
fn cancel_where_removes_all() {
    let mut seqs = EventSeq::new();
    let mut q = queue_of(&[100, 200, 300], &mut seqs);
    let removed = q.cancel_where(|_: &Event| true);
    assert_eq!(removed, 3);
    assert!(q.is_empty());
    assert!(q.pop().is_none());
}

#[test]
fn cancel_where_preserves_fifo_for_same_time() {
    let mut seqs = EventSeq::new();
    let mut q = EventQueue::new();
    let e1 = named(100, "keep1", 0, &mut seqs);
    let e2 = named(100, "drop", 0, &mut seqs);
    let e3 = named(100, "keep2", 0, &mut seqs);
    q.push(e3.clone());
    q.push(e2.clone());
    q.push(e1.clone());

    let removed =
        q.cancel_where(|ev: &Event| matches!(&ev.kind, EventKind::Custom(s) if s == "drop"));
    assert_eq!(removed, 1);

    let a = q.pop().unwrap();
    let b = q.pop().unwrap();
    assert_eq!(a.seq, e1.seq);
    assert_eq!(b.seq, e3.seq);
    assert!(q.pop().is_none());
}

#[test]
fn peek_shows_what_pop_gives() {
    let mut seqs = EventSeq::new();
    let mut q = queue_of(&[7, 3, 9], &mut seqs);
    assert_eq!(q.peek().unwrap().time, 3);
    assert_eq!(q.len(), 3);
    assert_eq!(q.pop().unwrap().time, 3);
    assert_eq!(q.peek().unwrap().time, 7);
}

#[test]
fn peek_shows_what_pop_gives_among_equal_events() {
    let mut q = EventQueue::new();
    for target in 0..6 {
        q.push(Event { time: 5, kind: EventKind::Stop, target, seq: 1 });
    }
    while !q.is_empty() {
        let shown = q.peek().unwrap().target;
        assert_eq!(q.pop().unwrap().target, shown);
    }
    assert!(q.peek().is_none());
    assert!(q.pop().is_none());
}

#[test]
fn empty_simulator_run_terminates() {
    let mut sim = Simulator::new();
    sim.run();
    assert_eq!(sim.now(), 0);
    assert_eq!(sim.processed(), 0);
}

/// Writes down the times of its events.
struct Logger {
    log: Rc<RefCell<Vec<u64>>>,
}

impl EventHandler for Logger {
    fn handle(&mut self, ev: &Event, _now: u64) -> Vec<Event> {
        self.log.borrow_mut().push(ev.time);
        Vec::new()
    }
}

#[test]
fn schedule_and_run_processes_events_in_order() {
    let mut seqs = EventSeq::new();
    let mut sim = Simulator::new();
    let log: Rc<RefCell<Vec<u64>>> = Rc::new(RefCell::new(Vec::new()));
    sim.register_handler(1, Handler { action: Box::new(Logger { log: Rc::clone(&log) }) });

    sim.schedule(named(300, "c", 1, &mut seqs));
    sim.schedule(named(100, "a", 1, &mut seqs));
    sim.schedule(named(200, "b", 1, &mut seqs));
    sim.run();

    assert_eq!(*log.borrow(), vec![100, 200, 300]);
    assert_eq!(sim.now(), 300);
    assert_eq!(sim.processed(), 3);
}

#[test]
fn run_until_stops_at_boundary() {
    let mut seqs = EventSeq::new();
    let mut sim = Simulator::new();
    sim.schedule(named(100, "a", 0, &mut seqs));
    sim.schedule(named(500, "b", 0, &mut seqs));
    sim.schedule(named(1000, "c", 0, &mut seqs));
    sim.run_until(500);
    assert_eq!(sim.now(), 500);
    assert_eq!(sim.processed(), 2);
    assert_eq!(sim.pending(), 1);
}

/// Schedules itself again until it has been called often enough.
struct Repeater {
    counter: Rc<RefCell<u32>>,
    seqs: EventSeq,
}

impl EventHandler for Repeater {
    fn handle(&mut self, ev: &Event, now: u64) -> Vec<Event> {
        *self.counter.borrow_mut() += 1;
        if *self.counter.borrow() < 5 {
            vec![Event::new(now + 100, ev.kind.clone(), ev.target, &mut self.seqs)]
        } else {
            Vec::new()
        }
    }
}

#[test]
fn handler_can_spawn_new_events() {
    let mut seqs = EventSeq::new();
    let mut sim = Simulator::new();
    let counter: Rc<RefCell<u32>> = Rc::new(RefCell::new(0));
    let again = Repeater { counter: Rc::clone(&counter), seqs: EventSeq::new() };
    sim.register_handler(7, Handler { action: Box::new(again) });
    sim.schedule(named(0, "tick", 7, &mut seqs));
    sim.run();
    assert_eq!(*counter.borrow(), 5);
    assert_eq!(sim.now(), 400);
}

#[test]
fn an_event_in_the_past_is_lifted_to_the_present() {
    let mut seqs = EventSeq::new();
    let mut sim = Simulator::new();
    sim.schedule(named(100, "a", 0, &mut seqs));
    sim.run();
    sim.schedule(named(40, "late", 0, &mut seqs));
    assert_eq!(sim.peek_time(), Some(100));
    assert_eq!(sim.pop_event().unwrap().time, 100);
    assert_eq!(sim.now(), 100);
}

#[test]
fn a_stopped_simulator_handles_nothing() {
    let mut seqs = EventSeq::new();
    let mut sim = Simulator::new();
    sim.schedule(named(100, "a", 0, &mut seqs));
    sim.stop();
    sim.run();
    assert_eq!(sim.processed(), 0);
    assert_eq!(sim.pending(), 1);
    assert_eq!(sim.cancel_where(|ev: &Event| ev.time == 100), 1);
    assert_eq!(sim.pending(), 0);
}

#[test]
fn step_handles_one_event() {
    let mut seqs = EventSeq::new();
    let mut sim = Simulator::new();
    sim.schedule(named(30, "b", 0, &mut seqs));
    sim.schedule(named(20, "a", 0, &mut seqs));
    assert_eq!(sim.step(), Some(20));
    assert_eq!(sim.now(), 20);
    assert_eq!(sim.step(), Some(30));
    assert_eq!(sim.step(), None);
}
