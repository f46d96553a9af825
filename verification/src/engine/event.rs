//! Events: the unit of scheduling.
use crate::{EntityId, SimTime};
use std::cmp::Ordering;
use vstd::prelude::*;

verus! {

use vstd::std_specs::cmp::{PartialEqSpec, PartialOrdSpec};

/// What an event announces.
#[derive(Debug, Clone)]
pub enum EventKind {
    /// A packet reaches the receiving side of a link.
    PacketArrive { packet_id: u64, src: EntityId },
    /// A packet has left an output port.
    PacketDepart { packet_id: u64, dst: EntityId, port: u8 },
    /// A retransmission timer fires.
    Timeout { timer_id: u64 },
    /// A flow begins at its source host.
    FlowStart { flow_id: u32, src: EntityId, dst: EntityId, bytes: u64 },
    /// A host gets a chance to transmit.
    TxTick { host: EntityId },
    /// The simulation ends.
    Stop,
    /// A user-defined event.
    Custom(String),
}

/// A source of event sequence numbers.
#[derive(Debug)]
pub struct EventSeq {
    /// The number that the next event gets.
    pub next: u64,
}

impl EventSeq {
    /// A source that starts at zero.
    pub fn new() -> (s: Self)
        ensures
            s.next == 0,
    {
        EventSeq { next: 0 }
    }

    /// Hands out the next number; the counter wraps around at its end.
    pub fn take(&mut self) -> (n: u64)
        ensures
            n == old(self).next,
            final(self).next == old(self).next.wrapping_add(1),
    {
        let n: u64 = self.next;
        self.next = self.next.wrapping_add(1);
        n
    }
}

impl Default for EventSeq {
    fn default() -> (s: Self)
        ensures
            s.next == 0,
    {
        Self::new()
    }
}

/// A simulation event.
#[derive(Debug, Clone)]
pub struct Event {
    /// When the event fires, in nanoseconds.
    pub time: SimTime,
    /// What the event announces.
    pub kind: EventKind,
    /// The entity that handles the event.
    pub target: EntityId,
    /// Creation order; breaks ties between events of the same time.
    pub seq: u64,
}

/// `a` is due strictly before `b`: earlier in time, or created earlier for the same time.
pub open spec fn before(a: Event, b: Event) -> bool {
    a.time < b.time || (a.time == b.time && a.seq < b.seq)
}

impl Event {
    /// A new event, numbered by `seqs`.
    pub fn new(time: SimTime, kind: EventKind, target: EntityId, seqs: &mut EventSeq) -> (ev: Self)
        ensures
            ev.time == time,
            ev.kind == kind,
            ev.target == target,
            ev.seq == old(seqs).next,
            final(seqs).next == old(seqs).next.wrapping_add(1),
    {
        let seq: u64 = seqs.take();
        Event { time, kind, target, seq }
    }
}

/// Two events made one after the other from one source, for the same time or with
/// the later one not due earlier, are due in the order in which they were made.
pub proof fn law_creation_order(a: Event, b: Event, first: u64)
    requires
        a.seq == first,
        b.seq == first.wrapping_add(1),
        first < u64::MAX,
        a.time <= b.time,
    ensures
        before(a, b),
{
}

impl PartialEq for Event {
    fn eq(&self, other: &Self) -> (r: bool) {
        self.time == other.time && self.seq == other.seq
    }
}

impl vstd::std_specs::cmp::PartialEqSpecImpl for Event {
    open spec fn obeys_eq_spec() -> bool {
        true
    }

    open spec fn eq_spec(&self, other: &Event) -> bool {
        self.time == other.time && self.seq == other.seq
    }
}

impl Eq for Event {

}

impl PartialOrd for Event {
    /// Reversed, so that a maximum heap of events yields the earliest one first.
    fn partial_cmp(&self, other: &Self) -> (r: Option<Ordering>) {
        if self.time < other.time || (self.time == other.time && self.seq < other.seq) {
            Some(Ordering::Greater)
        } else if self.time == other.time && self.seq == other.seq {
            Some(Ordering::Equal)
        } else {
            Some(Ordering::Less)
        }
    }
}

impl vstd::std_specs::cmp::PartialOrdSpecImpl for Event {
    open spec fn obeys_partial_cmp_spec() -> bool {
        true
    }

    open spec fn partial_cmp_spec(&self, other: &Event) -> Option<Ordering> {
        if before(*self, *other) {
            Some(Ordering::Greater)
        } else if before(*other, *self) {
            Some(Ordering::Less)
        } else {
            Some(Ordering::Equal)
        }
    }
}

/// The order of events is reversed: an earlier event is greater, and so is, at the same time, the one with
/// the lower number.
pub proof fn law_earlier_is_greater(a: Event, b: Event)
    ensures
        a.time < b.time ==> a.partial_cmp_spec(&b) == Some(Ordering::Greater),
        a.time > b.time ==> a.partial_cmp_spec(&b) == Some(Ordering::Less),
        a.time == b.time && a.seq < b.seq ==> a.partial_cmp_spec(&b) == Some(Ordering::Greater),
        a.time == b.time && a.seq > b.seq ==> a.partial_cmp_spec(&b) == Some(Ordering::Less),
        a.time == b.time && a.seq == b.seq ==> a.partial_cmp_spec(&b) == Some(Ordering::Equal),
        a.eq_spec(&b) <==> a.time == b.time && a.seq == b.seq,
{
}

} // verus!
