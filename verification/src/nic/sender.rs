//! What the sending sides of the transports share.
//!
//! A flow keeps, for every packet in flight, when it was sent, and a queue of packets
//! to be sent again. On a tick it sends again what is queued or overdue and then, as
//! far as its window or its pace allows, new packets.
use crate::network::packet::{FlowId, Packet, SeqNum, MTU_BYTES};
use crate::util::{ascending_keys, holds_u32};
use crate::EntityId;
use std::collections::HashMap;
use vstd::prelude::*;

verus! {

use crate::network::packet::{data_packet, packet_views, PacketView};
use crate::util::{ascending, larger, lemma_ascending, lists_ascending};

broadcast use vstd::std_specs::hash::group_hash_axioms;

/// What a tick depends on besides the flow.
#[derive(Debug, Clone, Copy)]
pub struct TickParams {
    pub now: u64,
    /// The age at which an unacknowledged packet is sent again.
    pub rto_ns: u64,
    /// The window that a flow restarts with.
    pub init_cwnd: u32,
    /// The smallest slow-start threshold.
    pub min_cwnd: u32,
    /// Whether there is any path to send on.
    pub routable: bool,
    /// Whether a packet times out only when it is older than `rto_ns`.
    pub strict: bool,
}

/// A packet that a flow wants to have sent.
#[derive(Debug, Clone, Copy)]
pub struct Outgoing {
    pub flow_id: FlowId,
    pub dst: EntityId,
    pub seq: SeqNum,
    /// Whether the packet has been sent before.
    pub again: bool,
}

/// The packets that a flow sends on a tick: those sent again come first.
pub struct Burst {
    pub resend: Vec<SeqNum>,
    pub fresh: Vec<SeqNum>,
}

/// A flow after a tick, and what it sends.
#[verifier::ext_equal]
#[verifier::reject_recursive_types(V)]
pub struct Ticked<V> {
    pub flow: V,
    pub resend: Seq<SeqNum>,
    pub fresh: Seq<SeqNum>,
}

/// The sending side of one flow.
pub trait TxFlow: View {
    /// The flow is complete.
    spec fn done_of(s: Self::V) -> bool;

    /// Where the flow goes.
    spec fn dst_of(s: Self::V) -> EntityId;

    /// When each packet in flight was sent.
    spec fn sent_of(s: Self::V) -> Map<SeqNum, u64>;

    /// The flow has something to send that does not wait for a timeout.
    spec fn work_of(s: Self::V) -> bool;

    /// What a tick makes of the flow while it is not complete.
    spec fn ticked(s: Self::V, p: TickParams) -> Ticked<Self::V>;

    fn is_done(&self) -> (r: bool)
        ensures
            r == Self::done_of(self@),
    ;

    fn dest(&self) -> (d: EntityId)
        ensures
            d == Self::dst_of(self@),
    ;

    fn sent(&self) -> (m: &HashMap<SeqNum, u64>)
        ensures
            m@ == Self::sent_of(self@),
    ;

    fn has_work(&self) -> (r: bool)
        ensures
            r == Self::work_of(self@),
    ;

    fn tick(&mut self, p: &TickParams) -> (b: Burst)
        ensures
            (Ticked { flow: final(self)@, resend: b.resend@, fresh: b.fresh@ }) == Self::ticked(
                old(self)@,
                *p,
            ),
    ;
}

/// The views of a table of flows.
pub open spec fn flow_views<F: View>(flows: Map<FlowId, F>) -> Map<FlowId, F::V> {
    flows.map_values(|f: F| f@)
}

/// A flow after a tick; a complete flow does not change.
pub open spec fn flow_after<F: TxFlow>(s: F::V, p: TickParams) -> F::V {
    if F::done_of(s) {
        s
    } else {
        F::ticked(s, p).flow
    }
}

/// The packets of a burst, as they go out.
pub open spec fn burst_outgoing(
    id: FlowId,
    dst: EntityId,
    resend: Seq<SeqNum>,
    fresh: Seq<SeqNum>,
) -> Seq<Outgoing> {
    resend.map_values(|seq: SeqNum| Outgoing { flow_id: id, dst, seq, again: true })
        + fresh.map_values(|seq: SeqNum| Outgoing { flow_id: id, dst, seq, again: false })
}

/// What one flow sends on a tick; a complete flow sends nothing.
pub open spec fn flow_outgoing<F: TxFlow>(id: FlowId, s: F::V, p: TickParams) -> Seq<Outgoing> {
    if F::done_of(s) {
        Seq::empty()
    } else {
        let t = F::ticked(s, p);
        burst_outgoing(id, F::dst_of(s), t.resend, t.fresh)
    }
}

/// What the flows send on a tick, one after the other in the given order.
pub open spec fn outgoing_in_order<F: TxFlow>(
    order: Seq<FlowId>,
    flows: Map<FlowId, F::V>,
    p: TickParams,
) -> Seq<Outgoing>
    decreases order.len(),
{
    if order.len() == 0 {
        Seq::empty()
    } else {
        outgoing_in_order::<F>(order.drop_last(), flows, p) + flow_outgoing::<F>(
            order.last(),
            flows[order.last()],
            p,
        )
    }
}

/// What all flows send on a tick, by ascending flow number.
pub open spec fn all_outgoing<F: TxFlow>(flows: Map<FlowId, F::V>, p: TickParams) -> Seq<Outgoing> {
    outgoing_in_order::<F>(ascending(flows.dom()), flows, p)
}

/// The flows after a tick.
pub open spec fn flows_after<F: TxFlow>(
    flows: Map<FlowId, F::V>,
    p: TickParams,
) -> Map<FlowId, F::V> {
    flows.map_values(|s: F::V| flow_after::<F>(s, p))
}

/// The flows on the way through a tick, when those in `done` have had their turn.
spec fn flows_midway<F: TxFlow>(
    flows: Map<FlowId, F::V>,
    done: Seq<FlowId>,
    p: TickParams,
) -> Map<FlowId, F::V> {
    Map::new(
        |id: FlowId| flows.contains_key(id),
        |id: FlowId|
            if done.contains(id) {
                flow_after::<F>(flows[id], p)
            } else {
                flows[id]
            },
    )
}

fn push_burst(out: &mut Vec<Outgoing>, id: FlowId, dst: EntityId, seqs: &Vec<SeqNum>, again: bool)
    ensures
        final(out)@ == old(out)@ + seqs@.map_values(
            |seq: SeqNum| Outgoing { flow_id: id, dst, seq, again },
        ),
{
    let ghost one = |seq: SeqNum| Outgoing { flow_id: id, dst, seq, again };
    let mut i: usize = 0;
    assert(out@ =~= old(out)@ + seqs@.take(0).map_values(one));
    while i < seqs.len()
        invariant
            i <= seqs@.len(),
            one == (|seq: SeqNum| Outgoing { flow_id: id, dst, seq, again }),
            out@ == old(out)@ + seqs@.take(i as int).map_values(one),
        decreases seqs@.len() - i,
    {
        out.push(Outgoing { flow_id: id, dst, seq: seqs[i], again });
        i = i + 1;
        assert(out@ =~= old(out)@ + seqs@.take(i as int).map_values(one));
    }
    assert(seqs@.take(i as int) =~= seqs@);
}

/// Gives every flow its turn, by ascending flow number, and gathers what they send.
pub fn tick_flows<F: TxFlow>(flows: &mut HashMap<FlowId, F>, p: &TickParams) -> (out: Vec<Outgoing>)
    ensures
        flow_views(final(flows)@) == flows_after::<F>(flow_views(old(flows)@), *p),
        out@ == all_outgoing::<F>(flow_views(old(flows)@), *p),
{
    let ghost before = flow_views(flows@);
    let order: Vec<FlowId> = ascending_keys(flows);
    proof {
        assert(before.dom() =~= flows@.dom());
        lemma_ascending(order@, before.dom());
        assert(flow_views(flows@) =~= flows_midway::<F>(before, order@.take(0), *p));
    }
    let mut out: Vec<Outgoing> = Vec::new();
    let mut i: usize = 0;
    while i < order.len()
        invariant
            i <= order@.len(),
            lists_ascending(order@, before.dom()),
            flow_views(flows@) == flows_midway::<F>(before, order@.take(i as int), *p),
            out@ == outgoing_in_order::<F>(order@.take(i as int), before, *p),
        decreases order@.len() - i,
    {
        let id: FlowId = order[i];
        let ghost was = flows@;
        proof {
            assert(order@.to_set().contains(id));
            assert(flow_views(flows@).contains_key(id));
            assert(!order@.take(i as int).contains(id));
            assert(order@.take(i + 1).drop_last() =~= order@.take(i as int));
            assert(flow_views(was)[id] == before[id]);
        }
        if let Some(mut flow) = flows.remove(&id) {
            assert(flow@ == before[id]);
            if !flow.is_done() {
                let dst: EntityId = flow.dest();
                let burst = flow.tick(p);
                push_burst(&mut out, id, dst, &burst.resend, true);
                push_burst(&mut out, id, dst, &burst.fresh, false);
            }
            flows.insert(id, flow);
            proof {
                assert(out@ =~= outgoing_in_order::<F>(order@.take(i + 1), before, *p));
                assert(flow@ == flow_after::<F>(before[id], *p));
                assert(flow_views(flows@) =~= flows_midway::<F>(before, order@.take(i + 1), *p)) by {
                    assert forall|k: FlowId| #[trigger] before.contains_key(k) implies flow_views(
                        flows@,
                    )[k] == flows_midway::<F>(before, order@.take(i + 1), *p)[k] by {
                        assert(flow_views(was)[k] == flows_midway::<F>(
                            before,
                            order@.take(i as int),
                            *p,
                        )[k]);
                        assert(order@.take(i + 1) =~= order@.take(i as int).push(id));
                        if order@.take(i as int).contains(k) {
                            let j = order@.take(i as int).index_of(k);
                            assert(order@.take(i + 1)[j] == k);
                        }
                        if order@.take(i + 1).contains(k) && k != id {
                            let j = order@.take(i + 1).index_of(k);
                            assert(order@.take(i as int)[j] == k);
                        }
                        assert(order@.take(i + 1)[i as int] == id);
                    }
                }
            }
        }
        i = i + 1;
    }
    proof {
        assert(order@.take(i as int) =~= order@);
        assert(flow_views(flows@) =~= flows_after::<F>(before, *p)) by {
            assert forall|k: FlowId| #[trigger] before.contains_key(k) implies order@.contains(k) by {
                assert(order@.to_set().contains(k));
            }
        }
    }
    out
}

/// How many of the packets have been sent before.
pub open spec fn resent_among(sends: Seq<Outgoing>) -> int
    decreases sends.len(),
{
    if sends.len() == 0 {
        0
    } else {
        resent_among(sends.drop_last()) + if sends.last().again {
            1int
        } else {
            0int
        }
    }
}

/// Counts the packets that have been sent before.
pub fn count_resent(sends: &Vec<Outgoing>) -> (n: usize)
    ensures
        n == resent_among(sends@),
{
    let mut n: usize = 0;
    let mut i: usize = 0;
    while i < sends.len()
        invariant
            n <= i <= sends@.len(),
            n == resent_among(sends@.take(i as int)),
        decreases sends@.len() - i,
    {
        assert(sends@.take(i + 1).drop_last() =~= sends@.take(i as int));
        if sends[i].again {
            n = n + 1;
        }
        i = i + 1;
    }
    assert(sends@.take(i as int) =~= sends@);
    n
}

/// The number of the `k`-th packet after the one numbered `first`; numbers wrap around.
pub open spec fn nth_id(first: u64, k: int) -> u64 {
    ((first + k) % 0x1_0000_0000_0000_0000) as u64
}

/// The data packets for `sends`, numbered from `first` on.
pub open spec fn stamped(
    sends: Seq<Outgoing>,
    first: u64,
    host: EntityId,
    now: u64,
) -> Seq<PacketView> {
    Seq::new(
        sends.len(),
        |k: int|
            data_packet(
                nth_id(first, k),
                nth_id(first, k),
                sends[k].flow_id,
                sends[k].seq,
                host,
                sends[k].dst,
                now,
            ),
    )
}

/// Makes the data packets for `sends`, numbered from `next_id` on.
pub fn stamp(sends: &Vec<Outgoing>, next_id: &mut u64, host: EntityId, now: u64) -> (out: Vec<Packet>)
    ensures
        packet_views(out@) == stamped(sends@, *old(next_id), host, now),
        *final(next_id) == nth_id(*old(next_id), sends@.len() as int),
{
    let mut out: Vec<Packet> = Vec::new();
    let mut i: usize = 0;
    while i < sends.len()
        invariant
            i <= sends@.len(),
            out@.len() == i,
            forall|k: int|
                0 <= k < i ==> (#[trigger] out@[k])@ == stamped(
                    sends@,
                    *old(next_id),
                    host,
                    now,
                )[k],
            *next_id == nth_id(*old(next_id), i as int),
        decreases sends@.len() - i,
    {
        let id: u64 = *next_id;
        out.push(Packet::data(id, id, sends[i].flow_id, sends[i].seq, host, sends[i].dst, now));
        *next_id = id.wrapping_add(1);
        i = i + 1;
    }
    assert(packet_views(out@) =~= stamped(sends@, *old(next_id), host, now));
    out
}

/// A packet sent at `sent_at` is overdue: its age has reached the timeout or, if `strict`,
/// exceeds it.
pub open spec fn is_overdue(sent_at: u64, now: u64, rto_ns: u64, strict: bool) -> bool {
    let age = now.saturating_sub(sent_at);
    age > rto_ns || (age == rto_ns && !strict)
}

/// The packets in flight that are overdue and not queued to be sent again.
pub open spec fn overdue_set(
    sent: Map<SeqNum, u64>,
    queue: Seq<SeqNum>,
    now: u64,
    rto_ns: u64,
    strict: bool,
) -> Set<SeqNum> {
    sent.dom().filter(
        |seq: SeqNum| is_overdue(sent[seq], now, rto_ns, strict) && !queue.contains(seq),
    )
}

/// The packets in flight that are overdue and not queued to be sent again, in ascending order.
pub fn overdue_seqs(
    sent: &HashMap<SeqNum, u64>,
    queue: &Vec<SeqNum>,
    now: u64,
    rto_ns: u64,
    strict: bool,
) -> (late: Vec<SeqNum>)
    ensures
        late@ == ascending(overdue_set(sent@, queue@, now, rto_ns, strict)),
        lists_ascending(late@, overdue_set(sent@, queue@, now, rto_ns, strict)),
{
    let keys: Vec<SeqNum> = ascending_keys(sent);
    let mut late: Vec<SeqNum> = Vec::new();
    let ghost set = overdue_set(sent@, queue@, now, rto_ns, strict);
    let mut i: usize = 0;
    while i < keys.len()
        invariant
            i <= keys@.len(),
            lists_ascending(keys@, sent@.dom()),
            set == overdue_set(sent@, queue@, now, rto_ns, strict),
            forall|a: int, b: int| 0 <= a < b < late@.len() ==> late@[a] < late@[b],
            forall|a: int|
                #![trigger late@[a]]
                0 <= a < late@.len() ==> set.contains(late@[a]) && (i < keys@.len() ==> late@[a]
                    < keys@[i as int]),
            forall|k: int|
                #![trigger keys@[k]]
                0 <= k < i && set.contains(keys@[k]) ==> late@.contains(keys@[k]),
        decreases keys@.len() - i,
    {
        let seq: SeqNum = keys[i];
        assert(keys@.to_set().contains(seq));
        let ghost late0 = late@;
        match sent.get(&seq) {
            Some(at) => {
                let age: u64 = now.saturating_sub(*at);
                if (age > rto_ns || (age == rto_ns && !strict)) && !holds_u32(queue, seq) {
                    late.push(seq);
                    assert(late@[late0.len() as int] == seq);
                }
            },
            None => {},
        }
        proof {
            assert forall|k: int|
                #![trigger keys@[k]]
                0 <= k < i + 1 && set.contains(keys@[k]) implies late@.contains(keys@[k]) by {
                if k < i {
                    let j = late0.index_of(keys@[k]);
                    assert(late@[j] == keys@[k]);
                }
            }
        }
        i = i + 1;
    }
    proof {
        assert(late@.to_set() =~= set) by {
            assert forall|s: SeqNum| set.contains(s) implies late@.contains(s) by {
                assert(keys@.to_set().contains(s));
                let k = keys@.index_of(s);
                assert(keys@[k] == s);
            }
        }
        lemma_ascending(late@, set);
    }
    late
}

/// How many new packets a window lets a flow send.
pub open spec fn window_room(cwnd: u32, in_flight: u32, next_seq: u32, total: u32) -> u32 {
    if in_flight < cwnd && next_seq < total {
        if cwnd - in_flight <= total - next_seq {
            (cwnd - in_flight) as u32
        } else {
            (total - next_seq) as u32
        }
    } else {
        0
    }
}

/// The numbers `first`, `first + 1`, ... of `count` packets.
pub open spec fn numbered(first: u32, count: u32) -> Seq<SeqNum> {
    Seq::new(count as nat, |i: int| (first + i) as u32)
}

/// The first `n` elements of a queue, or all if there are fewer.
pub open spec fn front(queue: Seq<SeqNum>, n: int) -> Seq<SeqNum> {
    if n < queue.len() {
        queue.take(n)
    } else {
        queue
    }
}

/// What is left of a queue without its first `n` elements.
pub open spec fn rest(queue: Seq<SeqNum>, n: int) -> Seq<SeqNum> {
    if n < queue.len() {
        queue.skip(n)
    } else {
        Seq::empty()
    }
}

/// How many new packets a window lets a flow send.
pub fn room_in_window(cwnd: u32, in_flight: u32, next_seq: u32, total: u32) -> (k: u32)
    ensures
        k == window_room(cwnd, in_flight, next_seq, total),
{
    if in_flight < cwnd && next_seq < total {
        if cwnd - in_flight <= total - next_seq {
            cwnd - in_flight
        } else {
            total - next_seq
        }
    } else {
        0
    }
}

/// Splits a queue behind its first `n` elements.
pub fn split_queue(queue: Vec<SeqNum>, n: u32) -> (r: (Vec<SeqNum>, Vec<SeqNum>))
    ensures
        r.0@ == front(queue@, n as int),
        r.1@ == rest(queue@, n as int),
{
    let mut queue = queue;
    let ghost q0 = queue@;
    if (n as usize) < queue.len() {
        let tail = queue.split_off(n as usize);
        assert(queue@ =~= q0.take(n as int));
        assert(tail@ =~= q0.skip(n as int));
        (queue, tail)
    } else {
        (queue, Vec::new())
    }
}

/// The numbers `first`, `first + 1`, ... of `count` packets.
pub fn number_packets(first: u32, count: u32) -> (v: Vec<SeqNum>)
    requires
        first + count <= u32::MAX,
    ensures
        v@ == numbered(first, count),
{
    let mut v: Vec<SeqNum> = Vec::new();
    let mut i: u32 = 0;
    while i < count
        invariant
            i <= count,
            first + count <= u32::MAX,
            v@ == numbered(first, i),
        decreases count - i,
    {
        v.push(first + i);
        i = i + 1;
        assert(v@ =~= numbered(first, i));
    }
    v
}

/// The send times after the packets `seqs` have been sent at `now`.
pub open spec fn marked(sent: Map<SeqNum, u64>, seqs: Seq<SeqNum>, now: u64) -> Map<SeqNum, u64> {
    Map::new(
        |s: SeqNum| sent.contains_key(s) || seqs.contains(s),
        |s: SeqNum|
            if seqs.contains(s) {
                now
            } else {
                sent[s]
            },
    )
}

/// Notes that the packets `seqs` have been sent at `now`.
pub fn mark_sent(sent: &mut HashMap<SeqNum, u64>, seqs: &Vec<SeqNum>, now: u64)
    ensures
        final(sent)@ == marked(old(sent)@, seqs@, now),
{
    let mut i: usize = 0;
    assert(sent@ =~= marked(old(sent)@, seqs@.take(0), now));
    while i < seqs.len()
        invariant
            i <= seqs@.len(),
            sent@ == marked(old(sent)@, seqs@.take(i as int), now),
        decreases seqs@.len() - i,
    {
        let ghost done = seqs@.take(i as int);
        let ghost now_done = seqs@.take(i + 1);
        sent.insert(seqs[i], now);
        proof {
            assert(now_done =~= done.push(seqs@[i as int]));
            assert forall|s: SeqNum| now_done.contains(s) == (done.contains(s) || s == seqs@[i as int]) by {
                if done.contains(s) {
                    let j = done.index_of(s);
                    assert(now_done[j] == s);
                }
                if now_done.contains(s) && s != seqs@[i as int] {
                    let j = now_done.index_of(s);
                    assert(done[j] == s);
                }
                assert(now_done[i as int] == seqs@[i as int]);
            }
            assert(sent@ =~= marked(old(sent)@, now_done, now));
        }
        i = i + 1;
    }
    assert(seqs@.take(i as int) =~= seqs@);
}

/// The send times without those of the packets from `from` up to `to`.
pub open spec fn unmarked(sent: Map<SeqNum, u64>, from: u32, to: u32) -> Map<SeqNum, u64> {
    sent.remove_keys(Set::new(|s: SeqNum| from <= s < to))
}

/// Forgets the packets from `from` up to `to`, which have been acknowledged.
pub fn forget_acked(sent: &mut HashMap<SeqNum, u64>, from: u32, to: u32)
    ensures
        final(sent)@ == unmarked(old(sent)@, from, to),
{
    let mut s: u32 = from;
    assert(sent@ =~= unmarked(old(sent)@, from, from));
    while s < to
        invariant
            from <= s,
            s <= to || s == from,
            sent@ == unmarked(old(sent)@, from, s),
        decreases to - s,
    {
        sent.remove(&s);
        s = s + 1;
        assert(sent@ =~= unmarked(old(sent)@, from, s));
    }
    assert(sent@ =~= unmarked(old(sent)@, from, to));
}

/// `r` is the earliest of the send times, if there is any.
pub open spec fn is_earliest(sent: Map<SeqNum, u64>, r: Option<u64>) -> bool {
    match r {
        None => sent.dom().is_empty(),
        Some(t) => {
            &&& exists|s: SeqNum| #[trigger] sent.contains_key(s) && sent[s] == t
            &&& forall|s: SeqNum| #[trigger] sent.contains_key(s) ==> t <= sent[s]
        },
    }
}

/// The earliest of the send times.
pub fn earliest_sent(sent: &HashMap<SeqNum, u64>) -> (r: Option<u64>)
    ensures
        is_earliest(sent@, r),
{
    let keys: Vec<SeqNum> = ascending_keys(sent);
    let mut best: Option<u64> = None;
    let mut i: usize = 0;
    while i < keys.len()
        invariant
            i <= keys@.len(),
            lists_ascending(keys@, sent@.dom()),
            i == 0 ==> best is None,
            i > 0 ==> best is Some,
            best is Some ==> exists|s: SeqNum| #[trigger]
                sent@.contains_key(s) && Some(sent@[s]) == best,
            forall|k: int|
                #![trigger keys@[k]]
                0 <= k < i ==> best is Some && best->0 <= sent@[keys@[k]],
        decreases keys@.len() - i,
    {
        let seq: SeqNum = keys[i];
        assert(keys@.to_set().contains(seq));
        if let Some(at) = sent.get(&seq) {
            let t: u64 = *at;
            assert(sent@.contains_key(seq) && sent@[seq] == t);
            best = match best {
                Some(b) if b <= t => Some(b),
                _ => Some(t),
            };
        }
        i = i + 1;
    }
    proof {
        assert forall|s: SeqNum| #[trigger] sent@.contains_key(s) implies best is Some && best->0
            <= sent@[s] by {
            assert(keys@.to_set().contains(s));
            let k = keys@.index_of(s);
            assert(keys@[k] == s);
        }
        if best is None {
            assert(sent@.dom() =~= Set::empty());
        }
    }
    best
}

/// There are flows, and all of them are complete.
pub open spec fn all_done<F: TxFlow>(flows: Map<FlowId, F::V>) -> bool {
    &&& !flows.dom().is_empty()
    &&& forall|id: FlowId| #[trigger] flows.contains_key(id) ==> F::done_of(flows[id])
}

/// Some flow that is not complete has something to send.
pub open spec fn any_work<F: TxFlow>(flows: Map<FlowId, F::V>) -> bool {
    exists|id: FlowId| #[trigger]
        flows.contains_key(id) && !F::done_of(flows[id]) && F::work_of(flows[id])
}

/// A packet of a flow that is not complete times out at `d`.
pub open spec fn times_out_at<F: TxFlow>(
    flows: Map<FlowId, F::V>,
    id: FlowId,
    seq: SeqNum,
    rto_ns: u64,
    d: u64,
) -> bool {
    &&& flows.contains_key(id)
    &&& !F::done_of(flows[id])
    &&& F::sent_of(flows[id]).contains_key(seq)
    &&& d == F::sent_of(flows[id])[seq].saturating_add(rto_ns)
}

/// `r` is when the first packet in flight times out, if there is any.
pub open spec fn is_first_deadline<F: TxFlow>(
    flows: Map<FlowId, F::V>,
    rto_ns: u64,
    r: Option<u64>,
) -> bool {
    &&& r is Some ==> exists|id: FlowId, seq: SeqNum| #[trigger]
        times_out_at::<F>(flows, id, seq, rto_ns, r->0)
    &&& forall|id: FlowId, seq: SeqNum, d: u64| #[trigger]
        times_out_at::<F>(flows, id, seq, rto_ns, d) ==> r is Some && r->0 <= d
}

/// Whether there are flows and all of them are complete.
pub fn check_all_done<F: TxFlow>(flows: &HashMap<FlowId, F>) -> (r: bool)
    ensures
        r == all_done::<F>(flow_views(flows@)),
{
    let ids: Vec<FlowId> = ascending_keys(flows);
    let ghost views = flow_views(flows@);
    assert(views.dom() =~= flows@.dom());
    if ids.len() == 0 {
        assert(ids@.to_set() =~= Set::empty());
        return false;
    }
    assert(ids@.to_set().contains(ids@[0]));
    let mut i: usize = 0;
    while i < ids.len()
        invariant
            i <= ids@.len(),
            views == flow_views(flows@),
            lists_ascending(ids@, flows@.dom()),
            forall|k: int| #![trigger ids@[k]] 0 <= k < i ==> F::done_of(views[ids@[k]]),
        decreases ids@.len() - i,
    {
        let id: FlowId = ids[i];
        assert(ids@.to_set().contains(id));
        if let Some(f) = flows.get(&id) {
            assert(views.contains_key(id) && views[id] == f@);
            if !f.is_done() {
                return false;
            }
        }
        i = i + 1;
    }
    proof {
        assert forall|id: FlowId| #[trigger] views.contains_key(id) implies F::done_of(views[id]) by {
            assert(ids@.to_set().contains(id));
            let k = ids@.index_of(id);
            assert(ids@[k] == id);
        }
    }
    true
}

/// Whether some flow that is not complete has something to send.
pub fn check_any_work<F: TxFlow>(flows: &HashMap<FlowId, F>) -> (r: bool)
    ensures
        r == any_work::<F>(flow_views(flows@)),
{
    let ids: Vec<FlowId> = ascending_keys(flows);
    let ghost views = flow_views(flows@);
    let mut i: usize = 0;
    while i < ids.len()
        invariant
            i <= ids@.len(),
            views == flow_views(flows@),
            lists_ascending(ids@, flows@.dom()),
            forall|k: int|
                #![trigger ids@[k]]
                0 <= k < i ==> F::done_of(views[ids@[k]]) || !F::work_of(views[ids@[k]]),
        decreases ids@.len() - i,
    {
        let id: FlowId = ids[i];
        assert(ids@.to_set().contains(id));
        if let Some(f) = flows.get(&id) {
            assert(views.contains_key(id) && views[id] == f@);
            if !f.is_done() && f.has_work() {
                return true;
            }
        }
        i = i + 1;
    }
    proof {
        assert forall|id: FlowId| #[trigger] views.contains_key(id) implies F::done_of(views[id])
            || !F::work_of(views[id]) by {
            assert(ids@.to_set().contains(id));
            let k = ids@.index_of(id);
            assert(ids@[k] == id);
        }
    }
    false
}

/// When the first packet in flight times out.
pub fn first_deadline<F: TxFlow>(flows: &HashMap<FlowId, F>, rto_ns: u64) -> (r: Option<u64>)
    ensures
        is_first_deadline::<F>(flow_views(flows@), rto_ns, r),
{
    let ids: Vec<FlowId> = ascending_keys(flows);
    let ghost views = flow_views(flows@);
    let mut best: Option<u64> = None;
    let mut i: usize = 0;
    while i < ids.len()
        invariant
            i <= ids@.len(),
            views == flow_views(flows@),
            lists_ascending(ids@, flows@.dom()),
            best is Some ==> exists|id: FlowId, seq: SeqNum| #[trigger]
                times_out_at::<F>(views, id, seq, rto_ns, best->0),
            forall|k: int, seq: SeqNum, d: u64|
                #![trigger times_out_at::<F>(views, ids@[k], seq, rto_ns, d)]
                0 <= k < i && times_out_at::<F>(views, ids@[k], seq, rto_ns, d) ==> best is Some
                    && best->0 <= d,
        decreases ids@.len() - i,
    {
        let id: FlowId = ids[i];
        assert(ids@.to_set().contains(id));
        let ghost best0 = best;
        if let Some(f) = flows.get(&id) {
            assert(views.contains_key(id) && views[id] == f@);
            if !f.is_done() {
                let first = earliest_sent(f.sent());
                if let Some(at) = first {
                    let d: u64 = at.saturating_add(rto_ns);
                    proof {
                        let sent = F::sent_of(f@);
                        let seq = choose|s: SeqNum| #[trigger] sent.contains_key(s) && sent[s] == at;
                        assert(times_out_at::<F>(views, id, seq, rto_ns, d));
                    }
                    best = match best {
                        Some(b) if b <= d => Some(b),
                        _ => Some(d),
                    };
                }
            }
            proof {
                assert forall|seq: SeqNum, d: u64| #[trigger]
                    times_out_at::<F>(views, id, seq, rto_ns, d) implies best is Some && best->0
                    <= d by {
                    assert(F::sent_of(f@).contains_key(seq));
                }
            }
        }
        proof {
            assert forall|k: int, seq: SeqNum, d: u64|
                #![trigger times_out_at::<F>(views, ids@[k], seq, rto_ns, d)]
                0 <= k < i + 1 && times_out_at::<F>(views, ids@[k], seq, rto_ns, d) implies best
                is Some && best->0 <= d by {
                if k == i {
                    assert(ids@[k] == id);
                }
            }
        }
        i = i + 1;
    }
    proof {
        assert forall|id: FlowId, seq: SeqNum, d: u64| #[trigger]
            times_out_at::<F>(views, id, seq, rto_ns, d) implies best is Some && best->0 <= d by {
            assert(flows@.dom().contains(id));
            assert(ids@.to_set().contains(id));
            let k = ids@.index_of(id);
            assert(ids@[k] == id);
            assert(times_out_at::<F>(views, ids@[k], seq, rto_ns, d));
        }
    }
    best
}

/// How many packets of full size hold `total_bytes`; the count wraps around.
pub open spec fn packets_for(total_bytes: u64) -> u32 {
    (((total_bytes + MTU_BYTES - 1) / MTU_BYTES as int) % 0x1_0000_0000) as u32
}

/// How many packets of full size hold `total_bytes`.
pub fn packet_count(total_bytes: u64) -> (n: u32)
    ensures
        n == packets_for(total_bytes),
{
    let whole: u64 = total_bytes / MTU_BYTES as u64;
    let part: u64 = if total_bytes % MTU_BYTES as u64 != 0 {
        1
    } else {
        0
    };
    let n: u64 = whole + part;
    assert(n == (total_bytes + MTU_BYTES - 1) / MTU_BYTES as int);
    #[verifier::truncate]
    let low: u32 = n as u32;
    assert(n as u32 == n % 0x1_0000_0000) by (bit_vector);
    low
}

/// The part of a flow that a window governs.
#[verifier::ext_equal]
pub struct WindowView {
    pub in_flight: u32,
    pub next_seq: SeqNum,
    pub queue: Seq<SeqNum>,
    pub sent: Map<SeqNum, u64>,
}

/// What a window of `cwnd` packets lets a flow of `total` packets send at `now`: first up to
/// a window of the packets that are queued or late, then new packets while the window has room.
pub open spec fn window_burst(
    w: WindowView,
    late: Seq<SeqNum>,
    cwnd: u32,
    total: u32,
    now: u64,
) -> Ticked<WindowView> {
    let queue = w.queue + late;
    let resend = front(queue, cwnd as int);
    let room = window_room(cwnd, w.in_flight, w.next_seq, total);
    let fresh = numbered(w.next_seq, room);
    Ticked {
        flow: WindowView {
            in_flight: (w.in_flight + room) as u32,
            next_seq: (w.next_seq + room) as u32,
            queue: rest(queue, cwnd as int),
            sent: marked(marked(w.sent, resend, now), fresh, now),
        },
        resend,
        fresh,
    }
}

/// Sends what the window allows.
pub fn send_window(
    cwnd: u32,
    total: u32,
    now: u64,
    late: Vec<SeqNum>,
    in_flight: &mut u32,
    next_seq: &mut u32,
    queue: &mut Vec<SeqNum>,
    sent: &mut HashMap<SeqNum, u64>,
) -> (b: Burst)
    ensures
        (Ticked {
            flow: WindowView {
                in_flight: *final(in_flight),
                next_seq: *final(next_seq),
                queue: final(queue)@,
                sent: final(sent)@,
            },
            resend: b.resend@,
            fresh: b.fresh@,
        }) == window_burst(
            WindowView {
                in_flight: *old(in_flight),
                next_seq: *old(next_seq),
                queue: old(queue)@,
                sent: old(sent)@,
            },
            late@,
            cwnd,
            total,
            now,
        ),
{
    let mut late = late;
    let mut all: Vec<SeqNum> = Vec::new();
    std::mem::swap(&mut all, queue);
    all.append(&mut late);
    let (resend, keep) = split_queue(all, cwnd);
    *queue = keep;
    let room: u32 = room_in_window(cwnd, *in_flight, *next_seq, total);
    let fresh: Vec<SeqNum> = number_packets(*next_seq, room);
    mark_sent(sent, &resend, now);
    mark_sent(sent, &fresh, now);
    *in_flight = *in_flight + room;
    *next_seq = *next_seq + room;
    Burst { resend, fresh }
}

/// The send times after the NIC has reported that packet `seq` left at `at`; only a packet
/// in flight is updated.
pub open spec fn departed(sent: Map<SeqNum, u64>, seq: SeqNum, at: u64) -> Map<SeqNum, u64> {
    if sent.contains_key(seq) {
        sent.insert(seq, at)
    } else {
        sent
    }
}

/// Notes when the NIC reports that packet `seq` has left.
pub fn note_departure(sent: &mut HashMap<SeqNum, u64>, seq: SeqNum, at: u64)
    ensures
        final(sent)@ == departed(old(sent)@, seq, at),
{
    if sent.contains_key(&seq) {
        sent.insert(seq, at);
    }
}

/// The part of a flow that a pace governs.
#[verifier::ext_equal]
pub struct PacedView {
    pub next_seq: SeqNum,
    pub queue: Seq<SeqNum>,
    pub sent: Map<SeqNum, u64>,
    /// When the flow may send next.
    pub next_tx_time_ns: u64,
}

/// How many packets a paced flow may send at `now`: none before its time; one, if the
/// time to the next one is not zero; otherwise a batch.
pub open spec fn pace_budget(now: u64, next_tx_time_ns: u64, interval_ns: u64, batch: u32) -> u32 {
    if now < next_tx_time_ns || batch == 0 {
        0
    } else if now < now.saturating_add(interval_ns) {
        1
    } else {
        batch
    }
}

/// What a pace of one packet per `interval_ns` lets a flow of `total` packets send at `now`:
/// first packets that are queued or late, then new packets.
pub open spec fn paced_burst(
    w: PacedView,
    late: Seq<SeqNum>,
    total: u32,
    interval_ns: u64,
    batch: u32,
    now: u64,
) -> Ticked<PacedView> {
    let queue = w.queue + late;
    let budget = pace_budget(now, w.next_tx_time_ns, interval_ns, batch);
    let resend = front(queue, budget as int);
    let room = window_room(budget, resend.len() as u32, w.next_seq, total);
    let fresh = numbered(w.next_seq, room);
    Ticked {
        flow: PacedView {
            next_seq: (w.next_seq + room) as u32,
            queue: rest(queue, budget as int),
            sent: marked(marked(w.sent, resend, now), fresh, now),
            next_tx_time_ns: if resend.len() + fresh.len() > 0 {
                now.saturating_add(interval_ns)
            } else {
                w.next_tx_time_ns
            },
        },
        resend,
        fresh,
    }
}

/// Sends what the pace allows.
pub fn send_paced(
    total: u32,
    interval_ns: u64,
    batch: u32,
    now: u64,
    late: Vec<SeqNum>,
    next_seq: &mut u32,
    queue: &mut Vec<SeqNum>,
    sent: &mut HashMap<SeqNum, u64>,
    next_tx_time_ns: &mut u64,
) -> (b: Burst)
    ensures
        (Ticked {
            flow: PacedView {
                next_seq: *final(next_seq),
                queue: final(queue)@,
                sent: final(sent)@,
                next_tx_time_ns: *final(next_tx_time_ns),
            },
            resend: b.resend@,
            fresh: b.fresh@,
        }) == paced_burst(
            PacedView {
                next_seq: *old(next_seq),
                queue: old(queue)@,
                sent: old(sent)@,
                next_tx_time_ns: *old(next_tx_time_ns),
            },
            late@,
            total,
            interval_ns,
            batch,
            now,
        ),
{
    let next_slot: u64 = now.saturating_add(interval_ns);
    let budget: u32 = if now < *next_tx_time_ns || batch == 0 {
        0
    } else if now < next_slot {
        1
    } else {
        batch
    };
    let mut late = late;
    let mut all: Vec<SeqNum> = Vec::new();
    std::mem::swap(&mut all, queue);
    all.append(&mut late);
    let (resend, keep) = split_queue(all, budget);
    *queue = keep;
    let room: u32 = room_in_window(budget, resend.len() as u32, *next_seq, total);
    let fresh: Vec<SeqNum> = number_packets(*next_seq, room);
    mark_sent(sent, &resend, now);
    mark_sent(sent, &fresh, now);
    *next_seq = *next_seq + room;
    if resend.len() > 0 || fresh.len() > 0 {
        *next_tx_time_ns = next_slot;
    }
    Burst { resend, fresh }
}

/// The sending side of one flow that is paced.
pub trait PacedFlow: TxFlow {
    /// When the flow may send next.
    spec fn next_tx_of(s: Self::V) -> u64;

    fn next_tx(&self) -> (t: u64)
        ensures
            t == Self::next_tx_of(self@),
    ;
}

/// A flow that is not complete and has something to send may send at `t`.
pub open spec fn may_send_at<F: PacedFlow>(
    flows: Map<FlowId, F::V>,
    id: FlowId,
    t: u64,
) -> bool {
    &&& flows.contains_key(id)
    &&& !F::done_of(flows[id])
    &&& F::work_of(flows[id])
    &&& t == F::next_tx_of(flows[id])
}

/// `r` is when the first flow with something to send may send, if there is any.
pub open spec fn is_first_tx<F: PacedFlow>(flows: Map<FlowId, F::V>, r: Option<u64>) -> bool {
    &&& r is Some ==> exists|id: FlowId| #[trigger] may_send_at::<F>(flows, id, r->0)
    &&& forall|id: FlowId, t: u64| #[trigger]
        may_send_at::<F>(flows, id, t) ==> r is Some && r->0 <= t
}

/// When the first flow with something to send may send.
pub fn first_tx<F: PacedFlow>(flows: &HashMap<FlowId, F>) -> (r: Option<u64>)
    ensures
        is_first_tx::<F>(flow_views(flows@), r),
{
    let ids: Vec<FlowId> = ascending_keys(flows);
    let ghost views = flow_views(flows@);
    let mut best: Option<u64> = None;
    let mut i: usize = 0;
    while i < ids.len()
        invariant
            i <= ids@.len(),
            views == flow_views(flows@),
            lists_ascending(ids@, flows@.dom()),
            best is Some ==> exists|id: FlowId| #[trigger] may_send_at::<F>(views, id, best->0),
            forall|k: int, t: u64|
                #![trigger may_send_at::<F>(views, ids@[k], t)]
                0 <= k < i && may_send_at::<F>(views, ids@[k], t) ==> best is Some && best->0 <= t,
        decreases ids@.len() - i,
    {
        let id: FlowId = ids[i];
        assert(ids@.to_set().contains(id));
        if let Some(f) = flows.get(&id) {
            assert(views.contains_key(id) && views[id] == f@);
            if !f.is_done() && f.has_work() {
                let t: u64 = f.next_tx();
                assert(may_send_at::<F>(views, id, t));
                best = match best {
                    Some(b) if b <= t => Some(b),
                    _ => Some(t),
                };
            }
        }
        proof {
            assert forall|k: int, t: u64|
                #![trigger may_send_at::<F>(views, ids@[k], t)]
                0 <= k < i + 1 && may_send_at::<F>(views, ids@[k], t) implies best is Some
                && best->0 <= t by {
                if k == i {
                    assert(ids@[k] == id);
                }
            }
        }
        i = i + 1;
    }
    proof {
        assert forall|id: FlowId, t: u64| #[trigger]
            may_send_at::<F>(views, id, t) implies best is Some && best->0 <= t by {
            assert(flows@.dom().contains(id));
            assert(ids@.to_set().contains(id));
            let k = ids@.index_of(id);
            assert(ids@[k] == id);
            assert(may_send_at::<F>(views, ids@[k], t));
        }
    }
    best
}

/// A window is kept: no more is in flight after a burst than the window allows, or than was before,
/// no more than a window is sent again, and new packets are numbered on from the last.
pub proof fn law_window_is_kept(w: WindowView, late: Seq<SeqNum>, cwnd: u32, total: u32, now: u64)
    ensures
        ({
            let b = window_burst(w, late, cwnd, total, now);
            &&& b.flow.in_flight <= larger(w.in_flight, cwnd)
            &&& b.flow.next_seq <= larger(w.next_seq, total)
            &&& b.resend.len() <= cwnd
            &&& b.flow.in_flight == w.in_flight + b.fresh.len()
            &&& b.flow.next_seq == w.next_seq + b.fresh.len()
            &&& b.resend + b.flow.queue == w.queue + late
        }),
{
    let b = window_burst(w, late, cwnd, total, now);
    assert(b.resend + b.flow.queue =~= w.queue + late);
}

} // verus!
