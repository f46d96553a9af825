//! What the receiving sides of the transports share.
//!
//! A receiver delivers packets in order and keeps those that arrive early.
use crate::network::packet::{FlowId, Packet, SeqNum};
use std::collections::{HashMap, HashSet};
use vstd::prelude::*;

verus! {

broadcast use vstd::std_specs::hash::group_hash_axioms;

/// The first number from `from` on that is not in `early`; the last number ends the run.
pub open spec fn run_end(early: Set<SeqNum>, from: u32) -> u32
    decreases u32::MAX - from,
{
    if from == u32::MAX || !early.contains(from) {
        from
    } else {
        run_end(early, (from + 1) as u32)
    }
}

/// The next number that a receiver expects after `seq` has arrived.
pub open spec fn expected_after(next: u32, early: Set<SeqNum>, seq: u32) -> u32 {
    if seq == next {
        run_end(early, next.saturating_add(1))
    } else {
        next
    }
}

/// The early packets that a receiver keeps after `seq` has arrived.
pub open spec fn early_after(next: u32, early: Set<SeqNum>, seq: u32) -> Set<SeqNum> {
    if seq == next {
        let first = next.saturating_add(1);
        early.difference(Set::new(|s: u32| first <= s < run_end(early, first)))
    } else if seq > next {
        early.insert(seq)
    } else {
        early
    }
}

/// Everything in a run is early.
pub proof fn lemma_run(early: Set<SeqNum>, from: u32)
    ensures
        from <= run_end(early, from),
        forall|s: u32| from <= s < run_end(early, from) ==> early.contains(s),
        run_end(early, from) < u32::MAX ==> !early.contains(run_end(early, from)),
    decreases u32::MAX - from,
{
    if from != u32::MAX && early.contains(from) {
        lemma_run(early, (from + 1) as u32);
    }
}

/// Takes in the packet `seq`.
pub fn take_in(next: &mut u32, early: &mut HashSet<SeqNum>, seq: u32)
    ensures
        *final(next) == expected_after(*old(next), old(early)@, seq),
        final(early)@ == early_after(*old(next), old(early)@, seq),
{
    let ghost next0 = *next;
    let ghost early0 = early@;
    if seq == *next {
        let first: u32 = next.saturating_add(1);
        let mut n: u32 = first;
        assert(early@ =~= early0.difference(Set::new(|s: u32| first <= s < n)));
        let mut go_on: bool = true;
        while go_on && n < u32::MAX
            invariant
                first <= n,
                early@ == early0.difference(Set::new(|s: u32| first <= s < n)),
                go_on ==> run_end(early0, first) == run_end(early0, n),
                !go_on ==> run_end(early0, first) == n,
            decreases u32::MAX - n, (if go_on { 1int } else { 0int }),
        {
            let was_early: bool = early.remove(&n);
            if was_early {
                n = n + 1;
            } else {
                go_on = false;
            }
            assert(early@ =~= early0.difference(Set::new(|s: u32| first <= s < n)));
        }
        *next = n;
        assert(early@ =~= early_after(next0, early0, seq));
    } else if seq > *next {
        early.insert(seq);
    }
}

/// A receiver delivers without gaps: everything below the number it expects next
/// had been delivered before, has just arrived, or had arrived early.
pub proof fn law_no_gaps(next: u32, early: Set<SeqNum>, seq: u32, s: u32)
    requires
        next < u32::MAX,
        s < expected_after(next, early, seq),
    ensures
        s < next || s == seq || early.contains(s),
{
    lemma_run(early, next.saturating_add(1));
}

/// A receiver forgets no packet: what had arrived early is still kept or has been delivered.
pub proof fn law_early_kept(next: u32, early: Set<SeqNum>, seq: u32, s: u32)
    requires
        early.contains(s),
    ensures
        early_after(next, early, seq).contains(s) || s < expected_after(next, early, seq),
{
}

/// The receiving side of one flow.
pub struct FlowRxState {
    pub flow_id: FlowId,
    pub next_expected: SeqNum,
    /// The packets that have arrived early.
    pub out_of_order: HashSet<SeqNum>,
}

/// What a receiving flow holds.
#[verifier::ext_equal]
pub struct RxView {
    pub flow_id: FlowId,
    pub next_expected: SeqNum,
    pub out_of_order: Set<SeqNum>,
}

impl View for FlowRxState {
    type V = RxView;

    open spec fn view(&self) -> RxView {
        RxView {
            flow_id: self.flow_id,
            next_expected: self.next_expected,
            out_of_order: self.out_of_order@,
        }
    }
}

/// A flow of which nothing has arrived.
pub open spec fn fresh_rx(flow_id: FlowId) -> RxView {
    RxView { flow_id, next_expected: 0, out_of_order: Set::empty() }
}

impl RxView {
    /// The flow after the packet `seq` has arrived.
    pub open spec fn after(self, seq: SeqNum) -> RxView {
        RxView {
            next_expected: expected_after(self.next_expected, self.out_of_order, seq),
            out_of_order: early_after(self.next_expected, self.out_of_order, seq),
            ..self
        }
    }
}

impl FlowRxState {
    /// A flow of which nothing has arrived.
    pub fn new(flow_id: FlowId) -> (f: Self)
        ensures
            f@ == fresh_rx(flow_id),
    {
        FlowRxState { flow_id, next_expected: 0, out_of_order: HashSet::new() }
    }
}

/// The views of a table of receiving flows.
pub open spec fn rx_views(flows: Map<FlowId, FlowRxState>) -> Map<FlowId, RxView> {
    flows.map_values(|f: FlowRxState| f@)
}

/// The state of a receiving flow; a flow is fresh until its first packet arrives.
pub open spec fn rx_of(flows: Map<FlowId, RxView>, id: FlowId) -> RxView {
    if flows.contains_key(id) {
        flows[id]
    } else {
        fresh_rx(id)
    }
}

/// Takes in a data packet and returns the number that its flow expects next.
pub fn receive(flows: &mut HashMap<FlowId, FlowRxState>, pkt: &Packet) -> (next: SeqNum)
    ensures
        rx_views(final(flows)@) == rx_views(old(flows)@).insert(
            pkt.flow_id,
            rx_of(rx_views(old(flows)@), pkt.flow_id).after(pkt.seq),
        ),
        next == rx_of(rx_views(old(flows)@), pkt.flow_id).after(pkt.seq).next_expected,
{
    let ghost before = rx_views(flows@);
    let mut flow: FlowRxState = match flows.remove(&pkt.flow_id) {
        Some(flow) => flow,
        None => FlowRxState::new(pkt.flow_id),
    };
    assert(flow@ == rx_of(before, pkt.flow_id));
    take_in(&mut flow.next_expected, &mut flow.out_of_order, pkt.seq);
    let next: SeqNum = flow.next_expected;
    flows.insert(pkt.flow_id, flow);
    assert(rx_views(flows@) =~= before.insert(
        pkt.flow_id,
        rx_of(before, pkt.flow_id).after(pkt.seq),
    ));
    next
}

/// The record of early packets after `seq` has arrived.
pub open spec fn record_after(next: u32, early: Map<SeqNum, bool>, seq: u32) -> Map<SeqNum, bool> {
    if seq == next {
        let first = next.saturating_add(1);
        early.remove_keys(Set::new(|s: u32| first <= s < run_end(early.dom(), first)))
    } else if seq > next {
        early.insert(seq, true)
    } else {
        early
    }
}

/// Takes in the packet `seq`, with a record of early packets.
pub fn take_in_recorded(next: &mut u32, early: &mut HashMap<SeqNum, bool>, seq: u32)
    ensures
        *final(next) == expected_after(*old(next), old(early)@.dom(), seq),
        final(early)@ == record_after(*old(next), old(early)@, seq),
{
    let ghost next0 = *next;
    let ghost early0 = early@;
    if seq == *next {
        let first: u32 = next.saturating_add(1);
        let mut n: u32 = first;
        assert(early@ =~= early0.remove_keys(Set::new(|s: u32| first <= s < n)));
        let mut go_on: bool = true;
        while go_on && n < u32::MAX
            invariant
                first <= n,
                early@ == early0.remove_keys(Set::new(|s: u32| first <= s < n)),
                go_on ==> run_end(early0.dom(), first) == run_end(early0.dom(), n),
                !go_on ==> run_end(early0.dom(), first) == n,
            decreases u32::MAX - n, (if go_on { 1int } else { 0int }),
        {
            if early.contains_key(&n) {
                early.remove(&n);
                n = n + 1;
            } else {
                go_on = false;
            }
            assert(early@ =~= early0.remove_keys(Set::new(|s: u32| first <= s < n)));
        }
        *next = n;
        assert(early@ =~= record_after(next0, early0, seq));
    } else if seq > *next {
        early.insert(seq, true);
    }
}

} // verus!
