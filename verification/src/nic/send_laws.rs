//! What holds of the packets that a sender puts on the network.
use crate::network::packet::{FlowId, PacketId, PacketKind, SeqNum};
use crate::EntityId;
use vstd::prelude::*;

verus! {

use super::sender::{
    all_outgoing, flow_outgoing, outgoing_in_order, paced_burst, resent_among, stamped,
    window_burst, Outgoing, PacedView, TickParams, TxFlow, WindowView,
};
use crate::network::packet::PacketView;
use crate::util::{ascending, law_listing_ascends};

/// The numbers of the packets of flow `id` among `out`, in the order in which they go out.
pub open spec fn seqs_of(out: Seq<PacketView>, id: FlowId) -> Seq<SeqNum> {
    out.filter(|q: PacketView| q.flow_id == id).map_values(|q: PacketView| q.seq)
}

/// The plain data packets that `host` makes at `now`, numbered one after the other from `first` on,
/// where the numbers start again behind the largest.
pub open spec fn are_fresh_data(
    out: Seq<PacketView>,
    first: PacketId,
    host: EntityId,
    now: u64,
) -> bool {
    forall|k: int|
        0 <= k < out.len() ==> {
            let q = #[trigger] out[k];
            &&& q.kind == PacketKind::Data
            &&& q.id == q.trace_id
            &&& q.id == (first + k) % 0x1_0000_0000_0000_0000
            &&& q.src == host
            &&& q.size == 1024
            &&& !q.ecn
            &&& q.depart_time == now
            &&& q.payload.len() == 0
            &&& q.qpn == 0 && q.psn == 0 && q.msg_flags == 0 && q.rdma_opcode == 0
        }
}

/// `late` lists, in rising order, the packets in flight that are overdue at `now` and not queued to be
/// sent again. A packet is overdue from the age `rto_ns` on or, if `strict`, beyond it.
pub open spec fn lists_late(
    late: Seq<SeqNum>,
    sent: Map<SeqNum, u64>,
    queue: Seq<SeqNum>,
    now: u64,
    rto_ns: u64,
    strict: bool,
) -> bool {
    &&& forall|i: int, j: int| 0 <= i < j < late.len() ==> late[i] < late[j]
    &&& forall|s: SeqNum| #[trigger]
        late.contains(s) <==> {
            &&& sent.contains_key(s)
            &&& !queue.contains(s)
            &&& sent[s] + rto_ns < now || (sent[s] + rto_ns == now && !strict) || (sent[s] > now
                && rto_ns == 0 && !strict)
        }
}

/// What lists the overdue packets is their listing.
pub proof fn lemma_late(
    late: Seq<SeqNum>,
    sent: Map<SeqNum, u64>,
    queue: Seq<SeqNum>,
    now: u64,
    rto_ns: u64,
    strict: bool,
)
    requires
        lists_late(late, sent, queue, now, rto_ns, strict),
    ensures
        late == ascending(super::sender::overdue_set(sent, queue, now, rto_ns, strict)),
{
    let set = super::sender::overdue_set(sent, queue, now, rto_ns, strict);
    assert forall|s: SeqNum| late.to_set().contains(s) <==> set.contains(s) by {
        assert(late.to_set().contains(s) <==> late.contains(s));
    }
    assert(late.to_set() =~= set);
    crate::util::lemma_ascending(late, set);
}

proof fn lemma_filter_step(out: Seq<PacketView>, id: FlowId)
    requires
        out.len() > 0,
    ensures
        seqs_of(out, id) == if out.last().flow_id == id {
            seqs_of(out.drop_last(), id).push(out.last().seq)
        } else {
            seqs_of(out.drop_last(), id)
        },
{
    reveal(Seq::filter);
    let mine = |q: PacketView| q.flow_id == id;
    assert(out.filter(mine) == {
        let before = out.drop_last().filter(mine);
        if mine(out.last()) {
            before.push(out.last())
        } else {
            before
        }
    });
    assert(seqs_of(out, id) =~= if out.last().flow_id == id {
        seqs_of(out.drop_last(), id).push(out.last().seq)
    } else {
        seqs_of(out.drop_last(), id)
    });
}

/// The numbers of a burst of flow `id`.
spec fn burst_seqs(sends: Seq<Outgoing>) -> Seq<SeqNum> {
    sends.map_values(|o: Outgoing| o.seq)
}

/// `out` carries the packets of `sends`.
pub open spec fn carries(out: Seq<PacketView>, sends: Seq<Outgoing>) -> bool {
    &&& out.len() == sends.len()
    &&& forall|k: int|
        0 <= k < out.len() ==> (#[trigger] out[k]).flow_id == sends[k].flow_id && out[k].seq
            == sends[k].seq && out[k].dst == sends[k].dst
}

proof fn lemma_burst_filter(
    out: Seq<PacketView>,
    before: Seq<Outgoing>,
    burst: Seq<Outgoing>,
    owner: FlowId,
    id: FlowId,
)
    requires
        carries(out, before + burst),
        forall|k: int| 0 <= k < burst.len() ==> (#[trigger] burst[k]).flow_id == owner,
    ensures
        seqs_of(out, id) == if owner == id {
            seqs_of(out.take(before.len() as int), id) + burst_seqs(burst)
        } else {
            seqs_of(out.take(before.len() as int), id)
        },
    decreases burst.len(),
{
    let start = out.take(before.len() as int);
    if burst.len() == 0 {
        assert(start =~= out);
        assert(seqs_of(out, id) =~= seqs_of(out, id) + burst_seqs(burst));
    } else {
        let less = burst.drop_last();
        assert((before + burst).drop_last() =~= before + less);
        assert(carries(out.drop_last(), before + less)) by {
            assert forall|k: int| 0 <= k < out.len() - 1 implies (#[trigger] out.drop_last()[k]).flow_id
                == (before + less)[k].flow_id && out.drop_last()[k].seq == (before + less)[k].seq
                && out.drop_last()[k].dst == (before + less)[k].dst by {
                assert(out[k].flow_id == (before + burst)[k].flow_id);
            }
        }
        assert forall|k: int| 0 <= k < less.len() implies (#[trigger] less[k]).flow_id == owner by {
            assert(burst[k].flow_id == owner);
        }
        lemma_burst_filter(out.drop_last(), before, less, owner, id);
        assert(out.drop_last().take(before.len() as int) =~= start);
        lemma_filter_step(out, id);
        let n = out.len() - 1;
        assert(out[n].flow_id == (before + burst)[n].flow_id);
        assert(burst[burst.len() - 1].flow_id == owner);
        if owner == id {
            assert(seqs_of(out, id) =~= seqs_of(start, id) + burst_seqs(burst));
        }
    }
}

proof fn lemma_in_order<F: TxFlow>(
    order: Seq<FlowId>,
    flows: Map<FlowId, F::V>,
    p: TickParams,
    out: Seq<PacketView>,
    id: FlowId,
)
    requires
        forall|i: int, j: int| 0 <= i < j < order.len() ==> order[i] < order[j],
        carries(out, outgoing_in_order::<F>(order, flows, p)),
    ensures
        seqs_of(out, id) == if order.contains(id) && !F::done_of(flows[id]) {
            F::ticked(flows[id], p).resend + F::ticked(flows[id], p).fresh
        } else {
            Seq::empty()
        },
        forall|k: int|
            0 <= k < out.len() ==> order.contains((#[trigger] out[k]).flow_id) && !F::done_of(
                flows[out[k].flow_id],
            ) && out[k].dst == F::dst_of(flows[out[k].flow_id]),
        forall|k: int, l: int| 0 <= k <= l < out.len() ==> out[k].flow_id <= out[l].flow_id,
    decreases order.len(),
{
    if order.len() == 0 {
        assert(out =~= Seq::empty());
        reveal(Seq::filter);
        assert(seqs_of(out, id) =~= Seq::empty());
    } else {
        let less = order.drop_last();
        let owner = order.last();
        let before = outgoing_in_order::<F>(less, flows, p);
        let burst = flow_outgoing::<F>(owner, flows[owner], p);
        let start = out.take(before.len() as int);
        assert(carries(start, before)) by {
            assert forall|k: int| 0 <= k < start.len() implies (#[trigger] start[k]).flow_id
                == before[k].flow_id && start[k].seq == before[k].seq && start[k].dst
                == before[k].dst by {
                assert(out[k].flow_id == (before + burst)[k].flow_id);
            }
        }
        lemma_in_order::<F>(less, flows, p, start, id);
        lemma_burst_filter(out, before, burst, owner, id);
        let t = F::ticked(flows[owner], p);
        if !F::done_of(flows[owner]) {
            assert(burst_seqs(burst) =~= t.resend + t.fresh);
        } else {
            assert(burst_seqs(burst) =~= Seq::empty());
        }
        assert(order.contains(id) <==> less.contains(id) || id == owner) by {
            if order.contains(id) && id != owner {
                let k = choose|k: int| 0 <= k < order.len() && order[k] == id;
                assert(less[k] == id);
            }
            if less.contains(id) {
                let k = choose|k: int| 0 <= k < less.len() && less[k] == id;
                assert(order[k] == id);
            }
            assert(order[order.len() - 1] == owner);
        }
        if id == owner {
            assert(!less.contains(id)) by {
                if less.contains(id) {
                    let k = choose|k: int| 0 <= k < less.len() && less[k] == id;
                    assert(order[k] < order[order.len() - 1]);
                }
            }
            assert(seqs_of(start, id) =~= Seq::empty());
            assert(seqs_of(out, id) =~= burst_seqs(burst));
        }
        assert forall|k: int| 0 <= k < out.len() implies order.contains(
            (#[trigger] out[k]).flow_id,
        ) && !F::done_of(flows[out[k].flow_id]) && out[k].dst == F::dst_of(flows[out[k].flow_id]) && (k
            >= start.len() ==> out[k].flow_id == owner) by {
            assert(out[k].flow_id == (before + burst)[k].flow_id);
            if k < start.len() {
                assert(start[k] == out[k]);
                let m = choose|m: int| 0 <= m < less.len() && less[m] == out[k].flow_id;
                assert(order[m] == out[k].flow_id);
            } else {
                assert((before + burst)[k] == burst[k - before.len()]);
                assert(order[order.len() - 1] == owner);
            }
        }
        assert forall|k: int, l: int| 0 <= k <= l < out.len() implies out[k].flow_id
            <= out[l].flow_id by {
            if l < start.len() {
                assert(start[k].flow_id <= start[l].flow_id);
            } else if k < start.len() {
                assert(less.contains(start[k].flow_id));
                let m = choose|m: int| 0 <= m < less.len() && less[m] == out[k].flow_id;
                assert(order[m] < order[order.len() - 1]);
            }
        }
    }
}

/// What one flow sends on a tick is what its own burst holds; what goes out belongs to a flow that is
/// not complete, goes where this flow goes, and goes out by rising flow number.
pub proof fn lemma_tick<F: TxFlow>(
    flows: Map<FlowId, F::V>,
    p: TickParams,
    out: Seq<PacketView>,
    id: FlowId,
)
    requires
        carries(out, all_outgoing::<F>(flows, p)),
    ensures
        seqs_of(out, id) == if flows.contains_key(id) && !F::done_of(flows[id]) {
            F::ticked(flows[id], p).resend + F::ticked(flows[id], p).fresh
        } else {
            Seq::empty()
        },
        forall|k: int|
            0 <= k < out.len() ==> flows.contains_key((#[trigger] out[k]).flow_id) && !F::done_of(
                flows[out[k].flow_id],
            ) && out[k].dst == F::dst_of(flows[out[k].flow_id]),
        forall|k: int, l: int| 0 <= k <= l < out.len() ==> out[k].flow_id <= out[l].flow_id,
{
    law_listing_ascends(flows.dom());
    lemma_in_order::<F>(ascending(flows.dom()), flows, p, out, id);
    assert forall|k: int| 0 <= k < out.len() implies flows.contains_key(
        (#[trigger] out[k]).flow_id,
    ) by {
        assert(ascending(flows.dom()).contains(out[k].flow_id));
    }
}

/// Which of the packets are sent again can be told from their numbers, when those of flow `id` below
/// `nexts[id]` have been sent before and the others have not.
pub proof fn lemma_resent<F: TxFlow>(
    order: Seq<FlowId>,
    flows: Map<FlowId, F::V>,
    p: TickParams,
    out: Seq<PacketView>,
    nexts: Map<FlowId, SeqNum>,
)
    requires
        carries(out, outgoing_in_order::<F>(order, flows, p)),
        forall|i: int, k: int|
            0 <= i < order.len() && 0 <= k < F::ticked(flows[order[i]], p).resend.len()
                ==> #[trigger] F::ticked(flows[order[i]], p).resend[k] < nexts[order[i]],
        forall|i: int, k: int|
            0 <= i < order.len() && 0 <= k < F::ticked(flows[order[i]], p).fresh.len()
                ==> #[trigger] F::ticked(flows[order[i]], p).fresh[k] >= nexts[order[i]],
    ensures
        resent_among(outgoing_in_order::<F>(order, flows, p)) == out.filter(
            |q: PacketView| q.seq < nexts[q.flow_id],
        ).len(),
{
    let sends = outgoing_in_order::<F>(order, flows, p);
    lemma_again::<F>(order, flows, p, nexts);
    assert forall|k: int| 0 <= k < sends.len() implies sends[k].again == (out[k].seq
        < nexts[out[k].flow_id]) by {
        assert(out[k].flow_id == sends[k].flow_id);
    }
    lemma_count_again(sends, out, nexts);
}

proof fn lemma_again<F: TxFlow>(
    order: Seq<FlowId>,
    flows: Map<FlowId, F::V>,
    p: TickParams,
    nexts: Map<FlowId, SeqNum>,
)
    requires
        forall|i: int, k: int|
            0 <= i < order.len() && 0 <= k < F::ticked(flows[order[i]], p).resend.len()
                ==> #[trigger] F::ticked(flows[order[i]], p).resend[k] < nexts[order[i]],
        forall|i: int, k: int|
            0 <= i < order.len() && 0 <= k < F::ticked(flows[order[i]], p).fresh.len()
                ==> #[trigger] F::ticked(flows[order[i]], p).fresh[k] >= nexts[order[i]],
    ensures
        forall|k: int|
            0 <= k < outgoing_in_order::<F>(order, flows, p).len() ==> (
            #[trigger] outgoing_in_order::<F>(order, flows, p)[k]).again == (outgoing_in_order::<F>(
                order,
                flows,
                p,
            )[k].seq < nexts[outgoing_in_order::<F>(order, flows, p)[k].flow_id]),
    decreases order.len(),
{
    if order.len() > 0 {
        let less = order.drop_last();
        let last = order.len() - 1;
        let id = order[last];
        assert forall|i: int, k: int|
            0 <= i < less.len() && 0 <= k < F::ticked(
                flows[less[i]],
                p,
            ).resend.len() implies #[trigger] F::ticked(flows[less[i]], p).resend[k]
            < nexts[less[i]] by {
            assert(F::ticked(flows[order[i]], p).resend[k] < nexts[order[i]]);
        }
        assert forall|i: int, k: int|
            0 <= i < less.len() && 0 <= k < F::ticked(
                flows[less[i]],
                p,
            ).fresh.len() implies #[trigger] F::ticked(flows[less[i]], p).fresh[k]
            >= nexts[less[i]] by {
            assert(F::ticked(flows[order[i]], p).fresh[k] >= nexts[order[i]]);
        }
        lemma_again::<F>(less, flows, p, nexts);
        let before = outgoing_in_order::<F>(less, flows, p);
        let all = outgoing_in_order::<F>(order, flows, p);
        let t = F::ticked(flows[id], p);
        assert forall|k: int| 0 <= k < all.len() implies (#[trigger] all[k]).again == (all[k].seq
            < nexts[all[k].flow_id]) by {
            if k < before.len() {
                assert(all[k] == before[k]);
            } else {
                let m = k - before.len();
                if m < t.resend.len() {
                    assert(F::ticked(flows[order[last]], p).resend[m] < nexts[order[last]]);
                } else {
                    assert(F::ticked(flows[order[last]], p).fresh[m - t.resend.len()]
                        >= nexts[order[last]]);
                }
            }
        }
    }
}

proof fn lemma_count_again(
    sends: Seq<Outgoing>,
    out: Seq<PacketView>,
    nexts: Map<FlowId, SeqNum>,
)
    requires
        out.len() == sends.len(),
        forall|k: int|
            0 <= k < sends.len() ==> (#[trigger] sends[k]).again == (out[k].seq
                < nexts[out[k].flow_id]),
    ensures
        resent_among(sends) == out.filter(|q: PacketView| q.seq < nexts[q.flow_id]).len(),
    decreases sends.len(),
{
    reveal(Seq::filter);
    if sends.len() > 0 {
        lemma_count_again(sends.drop_last(), out.drop_last(), nexts);
        assert(sends[sends.len() - 1].again == (out.last().seq < nexts[out.last().flow_id]));
    }
}

/// What a window lets a flow of `total` packets send at `now`, when `late` are its overdue packets:
/// packets to send again come first, from the queue and then from the overdue ones, as many as the
/// window is wide; the others stay queued. New packets follow in order for as long as there are any
/// and fewer are in flight than the window allows. What has been sent is noted with its time.
pub open spec fn keeps_to_window(
    cwnd: u32,
    total: u32,
    late: Seq<SeqNum>,
    now: u64,
    in_flight: (u32, u32),
    next_seq: (SeqNum, SeqNum),
    queue: (Seq<SeqNum>, Seq<SeqNum>),
    sent: (Map<SeqNum, u64>, Map<SeqNum, u64>),
    seqs: Seq<SeqNum>,
) -> bool {
    let n = next_seq.1 - next_seq.0;
    let a = seqs.len() - n;
    &&& 0 <= n <= seqs.len()
    &&& seqs.take(a) + queue.1 == queue.0 + late
    &&& a <= cwnd
    &&& queue.1.len() > 0 ==> a == cwnd
    &&& forall|i: int| 0 <= i < n ==> #[trigger] seqs[a + i] == next_seq.0 + i
    &&& in_flight.1 == in_flight.0 + n
    &&& n > 0 ==> in_flight.1 <= cwnd && next_seq.1 <= total
    &&& in_flight.1 < cwnd ==> next_seq.1 >= total
    &&& forall|s: SeqNum| #[trigger]
        sent.1.contains_key(s) <==> sent.0.contains_key(s) || seqs.contains(s)
    &&& forall|s: SeqNum| #[trigger]
        sent.1.contains_key(s) ==> sent.1[s] == if seqs.contains(s) {
            now
        } else {
            sent.0[s]
        }
}

/// A burst keeps to its window.
pub proof fn lemma_burst_keeps_to_window(
    w: WindowView,
    late: Seq<SeqNum>,
    cwnd: u32,
    total: u32,
    now: u64,
)
    ensures
        ({
            let b = window_burst(w, late, cwnd, total, now);
            keeps_to_window(
                cwnd,
                total,
                late,
                now,
                (w.in_flight, b.flow.in_flight),
                (w.next_seq, b.flow.next_seq),
                (w.queue, b.flow.queue),
                (w.sent, b.flow.sent),
                b.resend + b.fresh,
            )
        }),
{
    let b = window_burst(w, late, cwnd, total, now);
    let seqs = b.resend + b.fresh;
    assert(seqs.take(b.resend.len() as int) =~= b.resend);
    assert(b.resend + b.flow.queue =~= w.queue + late);
    assert forall|s: SeqNum| seqs.contains(s) <==> b.resend.contains(s) || b.fresh.contains(s) by {
        if b.resend.contains(s) {
            let k = choose|k: int| 0 <= k < b.resend.len() && b.resend[k] == s;
            assert(seqs[k] == s);
        }
        if b.fresh.contains(s) {
            let k = choose|k: int| 0 <= k < b.fresh.len() && b.fresh[k] == s;
            assert(seqs[b.resend.len() + k] == s);
        }
    }
}

/// A burst keeps to its pace.
pub proof fn lemma_burst_keeps_to_pace(
    w: PacedView,
    late: Seq<SeqNum>,
    total: u32,
    gap: u64,
    batch: u32,
    now: u64,
)
    requires
        gap > 0,
        batch > 0,
        now < u64::MAX,
    ensures
        ({
            let b = paced_burst(w, late, total, gap, batch, now);
            keeps_to_pace(
                gap,
                total,
                late,
                now,
                (w.next_seq, b.flow.next_seq),
                (w.queue, b.flow.queue),
                (w.sent, b.flow.sent),
                (w.next_tx_time_ns, b.flow.next_tx_time_ns),
                b.resend + b.fresh,
            )
        }),
{
    let b = paced_burst(w, late, total, gap, batch, now);
    let seqs = b.resend + b.fresh;
    let waiting = w.queue + late;
    if now < w.next_tx_time_ns {
        assert(b.resend =~= Seq::empty());
        assert(b.flow.queue =~= waiting);
    }
    assert forall|s: SeqNum| seqs.contains(s) <==> b.resend.contains(s) || b.fresh.contains(s) by {
        if b.resend.contains(s) {
            let k = choose|k: int| 0 <= k < b.resend.len() && b.resend[k] == s;
            assert(seqs[k] == s);
        }
        if b.fresh.contains(s) {
            let k = choose|k: int| 0 <= k < b.fresh.len() && b.fresh[k] == s;
            assert(seqs[b.resend.len() + k] == s);
        }
    }
}

/// What a pace of one packet in `gap` nanoseconds lets a flow of `total` packets send at `now`: nothing
/// before `tx_time.0` and one packet from then on, the first of those that are queued or overdue, or
/// the next new one. Another packet may follow after the gap.
pub open spec fn keeps_to_pace(
    gap: u64,
    total: u32,
    late: Seq<SeqNum>,
    now: u64,
    next_seq: (SeqNum, SeqNum),
    queue: (Seq<SeqNum>, Seq<SeqNum>),
    sent: (Map<SeqNum, u64>, Map<SeqNum, u64>),
    tx_time: (u64, u64),
    seqs: Seq<SeqNum>,
) -> bool {
    let waiting = queue.0 + late;
    &&& now < tx_time.0 ==> seqs.len() == 0 && queue.1 == waiting && next_seq.1 == next_seq.0
        && tx_time.1 == tx_time.0
    &&& tx_time.0 <= now && waiting.len() > 0 ==> seqs =~= seq![waiting[0]] && queue.1
        =~= waiting.skip(1) && next_seq.1 == next_seq.0
    &&& tx_time.0 <= now && waiting.len() == 0 && next_seq.0 < total ==> seqs =~= seq![next_seq.0]
        && next_seq.1 == next_seq.0 + 1 && queue.1.len() == 0
    &&& waiting.len() == 0 && next_seq.0 >= total ==> seqs.len() == 0 && next_seq.1 == next_seq.0
        && queue.1.len() == 0
    &&& tx_time.1 == if seqs.len() == 0 {
        tx_time.0 as int
    } else if now + gap > u64::MAX {
        u64::MAX as int
    } else {
        now + gap
    }
    &&& forall|s: SeqNum| #[trigger]
        sent.1.contains_key(s) <==> sent.0.contains_key(s) || seqs.contains(s)
    &&& forall|s: SeqNum| #[trigger]
        sent.1.contains_key(s) ==> sent.1[s] == if seqs.contains(s) {
            now
        } else {
            sent.0[s]
        }
}

/// The packets that are made for `sends` carry them.
pub proof fn lemma_stamped(sends: Seq<Outgoing>, first: u64, host: EntityId, now: u64)
    ensures
        carries(stamped(sends, first, host, now), sends),
        are_fresh_data(stamped(sends, first, host, now), first, host, now),
        forall|k: int|
            0 <= k < sends.len() ==> (#[trigger] stamped(sends, first, host, now)[k]).routing_tag
                == 0,
{
}

} // verus!
