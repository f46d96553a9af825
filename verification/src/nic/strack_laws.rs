//! What holds of STrack, apart from its choice of paths.
use super::protocol::Protocol;
use super::rx::{Arrival, FlowRxState, RxStats};
use super::strack::STrackProtocol;
use super::tx::{FlowTxState, TxStats};
use crate::network::packet::{FlowId, PacketKind, SeqNum};
use crate::EntityId;
use vstd::prelude::*;

verus! {

use super::cc::{path_tags, tagged, PathState};
use super::endpoint_laws::{answers_packet, forgets, just_holds};
use super::protocol::ProtocolStats;
use super::rx::rx_of;
use super::send_laws::{
    are_fresh_data, keeps_to_window, lemma_burst_keeps_to_window, lemma_late, lemma_resent,
    lemma_stamped, lemma_tick, lists_late, seqs_of,
};
use super::sender::{all_outgoing, numbered, overdue_set, stamped, times_out_at, WindowView};
use super::strack::{most_paths, paths_of_host, STrackView};
use super::tx::{missing, nack_span, TxNicView, TxView};
use crate::network::packet::PacketView;
use crate::network::switch::SwitchView;
use crate::topology::TopologyView;
use crate::util::{ascending, law_listing_ascends};

/// Flow `id` is all that differs between two senders, apart from their paths and what they count.
pub open spec fn changes_one_flow(e: TxNicView, g: TxNicView, id: FlowId) -> bool {
    &&& g.flows.dom() =~= e.flows.dom()
    &&& forall|o: FlowId| e.flows.contains_key(o) && o != id ==> #[trigger] g.flows[o] == e.flows[o]
    &&& g == (TxNicView { flows: g.flows, paths: g.paths, stats: g.stats, ..e })
}

/// An acknowledgement of new packets moves the flow on to the first that is still missing, and takes the
/// acknowledged packets out of flight. It completes the flow once nothing is missing, which is noted
/// with its time, reported and counted. Without a mark it widens the window by one packet, up to the
/// largest. No other flow is touched, and nothing of what is received.
pub proof fn law_strack_ack_moves_flow_on(
    pre: STrackProtocol,
    post: STrackProtocol,
    pkt: PacketView,
    now: u64,
)
    requires
        pre.took_control(&post, pkt, now),
        pkt.kind == PacketKind::Control(0),
        pre@.tx.flows.contains_key(pkt.flow_id),
        pkt.seq > pre@.tx.flows[pkt.flow_id].un_acked_base,
    ensures
        ({
            let (e, g) = (pre@.tx, post@.tx);
            let (f, h) = (e.flows[pkt.flow_id], g.flows[pkt.flow_id]);
            let completes = pkt.seq >= f.total_packets && !f.done;
            &&& h.un_acked_base == pkt.seq
            &&& h.in_flight == if f.in_flight > pkt.seq - f.un_acked_base {
                f.in_flight - (pkt.seq - f.un_acked_base)
            } else {
                0
            }
            &&& forgets(f.send_times, h.send_times, f.un_acked_base, pkt.seq)
            &&& h.last_ack_time == now
            &&& !pkt.ecn ==> h.cwnd == if f.cwnd < e.max_cwnd {
                f.cwnd + 1
            } else {
                e.max_cwnd as int
            }
            &&& h.retransmit_queue == f.retransmit_queue
            &&& h.next_seq == f.next_seq
            &&& h.total_packets == f.total_packets
            &&& h.flow_id == f.flow_id && h.dst == f.dst && h.start_time == f.start_time
            &&& h.done == (f.done || completes)
            &&& h.finish_time == if completes {
                now
            } else {
                f.finish_time
            }
            &&& changes_one_flow(e, g, pkt.flow_id)
            &&& completes ==> post@.finished == pre@.finished.push((f.flow_id, now))
            &&& !completes ==> post@.finished == pre@.finished
            &&& e.stats.flows_completed < u64::MAX ==> g.stats.flows_completed
                == e.stats.flows_completed + if completes {
                1int
            } else {
                0
            }
            &&& e.stats.ecn_ack_received < u64::MAX ==> g.stats.ecn_ack_received
                == e.stats.ecn_ack_received + if pkt.ecn {
                1int
            } else {
                0
            }
            &&& g.stats == (TxStats {
                flows_completed: g.stats.flows_completed,
                ecn_ack_received: g.stats.ecn_ack_received,
                ..e.stats
            })
            &&& post@.rx_flows == pre@.rx_flows && post@.rx_stats == pre@.rx_stats
        }),
{
}

/// An unmarked acknowledgement that acknowledges nothing new changes nothing.
pub proof fn law_strack_old_ack_changes_nothing(
    pre: STrackProtocol,
    post: STrackProtocol,
    pkt: PacketView,
    now: u64,
)
    requires
        pre.took_control(&post, pkt, now),
        pkt.kind == PacketKind::Control(0),
        pre@.tx.flows.contains_key(pkt.flow_id),
        pkt.seq <= pre@.tx.flows[pkt.flow_id].un_acked_base,
        !pkt.ecn,
        pre@.tx.flows[pkt.flow_id].done || pre@.tx.flows[pkt.flow_id].un_acked_base
            < pre@.tx.flows[pkt.flow_id].total_packets,
    ensures
        post@ == pre@,
{
    assert(post@.tx.flows =~= pre@.tx.flows);
    assert(post@ =~= pre@);
}

/// A control packet of another type, or an acknowledgement for a flow that the sender does not know,
/// changes nothing.
pub proof fn law_strack_foreign_control_changes_nothing(
    pre: STrackProtocol,
    post: STrackProtocol,
    pkt: PacketView,
    now: u64,
)
    requires
        pre.took_control(&post, pkt, now),
        pkt.kind != PacketKind::Control(1),
        pkt.kind != PacketKind::Control(0) || !pre@.tx.flows.contains_key(pkt.flow_id),
    ensures
        post@ == pre@,
{
}

/// What is picked from a rising list rises, and holds what was picked.
proof fn lemma_filter_rises(s: Seq<SeqNum>, keep: spec_fn(SeqNum) -> bool)
    requires
        forall|i: int, j: int| 0 <= i < j < s.len() ==> s[i] < s[j],
    ensures
        forall|i: int, j: int|
            0 <= i < j < s.filter(keep).len() ==> s.filter(keep)[i] < s.filter(keep)[j],
        forall|x: SeqNum| #[trigger] s.filter(keep).contains(x) <==> s.contains(x) && keep(x),
    decreases s.len(),
{
    reveal(Seq::filter);
    if s.len() > 0 {
        let less = s.drop_last();
        lemma_filter_rises(less, keep);
        let before = less.filter(keep);
        let all = s.filter(keep);
        assert(all == if keep(s.last()) {
            before.push(s.last())
        } else {
            before
        });
        assert forall|i: int, j: int| 0 <= i < j < all.len() implies all[i] < all[j] by {
            if j == before.len() {
                assert(before.contains(before[i]));
                assert(less.contains(before[i]));
                let k = choose|k: int| 0 <= k < less.len() && less[k] == before[i];
                assert(s[k] < s[s.len() - 1]);
            }
        }
        assert forall|x: SeqNum| #[trigger] all.contains(x) <==> s.contains(x) && keep(x) by {
            assert(before.contains(x) <==> less.contains(x) && keep(x));
            if all.contains(x) {
                let k = choose|k: int| 0 <= k < all.len() && all[k] == x;
                if k < before.len() {
                    assert(before[k] == x);
                    assert(less.contains(x));
                    let m = choose|m: int| 0 <= m < less.len() && less[m] == x;
                    assert(s[m] == x);
                } else {
                    assert(s[s.len() - 1] == x);
                }
            }
            if s.contains(x) && keep(x) {
                let m = choose|m: int| 0 <= m < s.len() && s[m] == x;
                if m < less.len() {
                    assert(less[m] == x);
                    assert(before.contains(x));
                    let k = choose|k: int| 0 <= k < before.len() && before[k] == x;
                    assert(all[k] == x);
                } else {
                    assert(all[before.len() as int] == x);
                }
            }
        }
    }
}

/// A negative acknowledgement for packet `limit` queues the packets below it that its payload does not
/// report, once each and in order: those from the first missing one on, as far as 64 bits reach.
/// The first missing one stands in the first four bytes of the payload, and the bits in the eight bytes
/// behind them; a payload that is too short reports nothing. Nothing else changes but the count.
pub proof fn law_strack_nack_queues_missing(
    pre: STrackProtocol,
    post: STrackProtocol,
    pkt: PacketView,
    now: u64,
)
    requires
        pre.took_control(&post, pkt, now),
        pkt.kind == PacketKind::Control(1),
        pre@.tx.flows.contains_key(pkt.flow_id),
    ensures
        ({
            let (e, g) = (pre@.tx, post@.tx);
            let (f, h) = (e.flows[pkt.flow_id], g.flows[pkt.flow_id]);
            let n = f.retransmit_queue.len() as int;
            let added = h.retransmit_queue.skip(n);
            let base = if pkt.payload.len() >= 12 {
                crate::util::le_u32(pkt.payload, 0)
            } else {
                0
            };
            let bits = if pkt.payload.len() >= 12 {
                crate::util::le_u64(pkt.payload, 4)
            } else {
                0
            };
            &&& h.retransmit_queue.len() >= n
            &&& h.retransmit_queue.take(n) =~= f.retransmit_queue
            &&& forall|i: int, j: int| 0 <= i < j < added.len() ==> added[i] < added[j]
            &&& forall|s: SeqNum| #[trigger]
                added.contains(s) <==> {
                    &&& base <= s < pkt.seq
                    &&& s < base + 64
                    &&& (bits >> (s - base) as u64) & 1u64 != 1u64
                    &&& !f.retransmit_queue.contains(s)
                }
            &&& h == (TxView { retransmit_queue: h.retransmit_queue, ..f })
            &&& e.stats.nack_received < u64::MAX ==> g.stats.nack_received == e.stats.nack_received
                + 1
            &&& g.stats == (TxStats { nack_received: g.stats.nack_received, ..e.stats })
            &&& g.paths == e.paths
            &&& changes_one_flow(e, g, pkt.flow_id)
            &&& post@ == (STrackView { tx: g, ..pre@ })
        }),
{
    let (e, g) = (pre@.tx, post@.tx);
    let (f, h) = (e.flows[pkt.flow_id], g.flows[pkt.flow_id]);
    let base = if pkt.payload.len() >= 12 {
        crate::util::le_u32(pkt.payload, 0)
    } else {
        0
    };
    let bits = if pkt.payload.len() >= 12 {
        crate::util::le_u64(pkt.payload, 4)
    } else {
        0
    };
    let queue = f.retransmit_queue;
    let span = numbered(base, nack_span(base, pkt.seq));
    let keep = |s: SeqNum| !super::rx::has_bit(bits, (s - base) as u64) && !queue.contains(s);
    let m = missing(base, bits, pkt.seq, queue);
    assert(m == span.filter(keep));
    assert(h.retransmit_queue == queue + m);
    lemma_filter_rises(span, keep);
    let added = h.retransmit_queue.skip(queue.len() as int);
    assert(added =~= m);
    assert forall|s: SeqNum| #[trigger] m.contains(s) <==> {
        &&& base <= s < pkt.seq
        &&& s < base + 64
        &&& (bits >> (s - base) as u64) & 1u64 != 1u64
        &&& !queue.contains(s)
    } by {
        if base <= s < pkt.seq && s < base + 64 {
            assert(span[s - base] == s);
        }
    }
}

/// The number that a flow expects is the first that has not arrived, and stays so.
pub proof fn law_strack_expected_is_missing(f: FlowRxState, seq: SeqNum)
    requires
        !f.knows(f.next_expected),
        f.next_expected <= u32::MAX - 64,
    ensures
        !f.after(seq).knows(f.after(seq).next_expected),
        f.after(seq).next_expected >= f.next_expected,
        seq == f.next_expected ==> f.after(seq).next_expected > f.next_expected,
        seq != f.next_expected ==> f.after(seq).next_expected == f.next_expected,
{
    let g = f.after(seq);
    let bits = f.received_bits;
    match f.arrival(seq) {
        Arrival::InOrder => {
            let rest = bits >> 1u64;
            let run = vstd::std_specs::bits::u64_trailing_ones(rest);
            super::rx::lemma_short_run(bits);
            vstd::std_specs::bits::axiom_u64_trailing_ones(rest);
            let r = run as u64;
            let end = rest >> r;
            assert((end >> 0u64) & 1u64 == end & 1u64) by (bit_vector);
            assert(g.received_bits == end);
        },
        Arrival::Early => {
            let i = (seq - f.next_expected) as u64;
            let set = bits | (1u64 << i);
            assert((set >> 0u64) & 1u64 == (bits >> 0u64) & 1u64) by (bit_vector)
                requires
                    set == bits | (1u64 << i),
                    1 <= i < 64,
            ;
        },
        _ => {},
    }
}

/// A data packet is acknowledged with the number that its flow expects afterwards, with the mark of the
/// packet, and with what has arrived beyond. A packet that is early and new, within the reach of the
/// bits, is answered by a negative acknowledgement as well, which names the packet and carries the same
/// report. What has arrived is counted: in all, again, and out of order.
#[verifier::spinoff_prover]
#[verifier::rlimit(40)]
pub proof fn law_strack_answers_data(
    pre: STrackProtocol,
    post: STrackProtocol,
    pkt: PacketView,
    now: u64,
    out: Seq<PacketView>,
)
    requires
        pre.took_data(&post, pkt, now, out),
    ensures
        ({
            let (e, g) = (pre@, post@);
            let id = pkt.flow_id;
            let f = if e.rx_flows.contains_key(id) {
                e.rx_flows[id]
            } else {
                FlowRxState { flow_id: id, next_expected: 0, received_bits: 0 }
            };
            let h = g.rx_flows[id];
            let first = e.tx.next_packet_id;
            let second = ((first + 1) % 0x1_0000_0000_0000_0000) as u64;
            let gap = f.next_expected < pkt.seq < f.next_expected + 64 && !f.knows(pkt.seq);
            &&& out.len() == if gap {
                2int
            } else {
                1
            }
            &&& answers_packet(out[0], pkt, 0, first, e.tx.host_id, now)
            &&& out[0].seq == h.next_expected
            &&& out[0].ecn == pkt.ecn
            &&& out[0].payload.len() == 12
            &&& crate::util::le_u32(out[0].payload, 0) == h.next_expected
            &&& crate::util::le_u64(out[0].payload, 4) == h.received_bits
            &&& gap ==> {
                &&& answers_packet(out[1], pkt, 1, second, e.tx.host_id, now)
                &&& out[1].seq == pkt.seq
                &&& !out[1].ecn
                &&& out[1].payload == out[0].payload
            }
            &&& g.rx_flows.contains_key(id)
            &&& h.flow_id == f.flow_id
            &&& f.next_expected <= u32::MAX - 64 && pkt.seq < f.next_expected + 64 ==> forall|
                s: SeqNum,
            | #[trigger] h.knows(s) <==> f.knows(s) || s == pkt.seq
            &&& pkt.seq >= f.next_expected + 64 ==> h == f
            &&& forall|o: FlowId|
                o != id ==> (#[trigger] g.rx_flows.contains_key(o) <==> e.rx_flows.contains_key(o))
            &&& forall|o: FlowId|
                o != id && e.rx_flows.contains_key(o) ==> #[trigger] g.rx_flows[o] == e.rx_flows[o]
            &&& g.tx == (TxNicView { next_packet_id: g.tx.next_packet_id, ..e.tx })
            &&& g.tx.next_packet_id == (first + out.len()) % 0x1_0000_0000_0000_0000
            &&& g.finished == e.finished
            &&& counts_arrival(e.rx_stats, g.rx_stats, f, pkt.seq, h.next_expected, gap)
        }),
{
    let (e, g) = (pre@, post@);
    let f = rx_of(e.rx_flows, pkt.flow_id);
    let h = f.after(pkt.seq);
    let w = super::rx::sack_payload(h);
    crate::util::law_bytes_of_u32(
        Seq::empty(),
        h.next_expected,
        crate::util::le_bytes_u64(h.received_bits),
    );
    crate::util::law_bytes_of_u64(
        crate::util::le_bytes_u32(h.next_expected),
        h.received_bits,
        Seq::empty(),
    );
    assert(Seq::<u8>::empty() + crate::util::le_bytes_u32(h.next_expected)
        + crate::util::le_bytes_u64(h.received_bits) =~= w);
    assert(w + Seq::<u8>::empty() =~= w);
    assert(crate::util::le_bytes_u32(h.next_expected).len() == 4);
    if f.next_expected <= u32::MAX - 64 && pkt.seq < f.next_expected + 64 {
        assert forall|s: SeqNum| #[trigger] h.knows(s) <==> f.knows(s) || s == pkt.seq by {
            super::rx::law_bitmap_is_exact(f, pkt.seq, s);
        }
    }
}

/// `post` counts one packet more than `pre`: as a duplicate if it had arrived before, as out of order if
/// it is beyond the expected one, and a negative acknowledgement if there is one. What has been delivered
/// is the largest number that a flow expects.
pub open spec fn counts_arrival(
    pre: RxStats,
    post: RxStats,
    f: FlowRxState,
    seq: SeqNum,
    next: SeqNum,
    nack: bool,
) -> bool {
    &&& pre.packets_received < u64::MAX ==> post.packets_received == pre.packets_received + 1
    &&& post.packets_delivered == if next > pre.packets_delivered {
        next as u64
    } else {
        pre.packets_delivered
    }
    &&& pre.duplicates < u64::MAX ==> post.duplicates == pre.duplicates + if seq < f.next_expected || (
    f.next_expected < seq && f.knows(seq)) {
        1int
    } else {
        0
    }
    &&& pre.out_of_order < u64::MAX ==> post.out_of_order == pre.out_of_order + if seq
        > f.next_expected {
        1int
    } else {
        0
    }
    &&& pre.nacks_sent < u64::MAX ==> post.nacks_sent == pre.nacks_sent + if nack {
        1int
    } else {
        0
    }
}

proof fn lemma_tagged_carries(
    sends: Seq<super::sender::Outgoing>,
    first: u64,
    host: EntityId,
    now: u64,
    tags: Seq<u8>,
)
    ensures
        super::send_laws::carries(tagged(stamped(sends, first, host, now), tags), sends),
        are_fresh_data(tagged(stamped(sends, first, host, now), tags), first, host, now),
{
    lemma_stamped(sends, first, host, now);
}

/// On a tick a flow that is not complete sends what its window allows, as long as there is a path. A
/// packet that has been in flight for the timeout or longer is overdue; that does not change the window.
pub proof fn law_strack_tick_of_flow(
    pre: STrackProtocol,
    post: STrackProtocol,
    now: u64,
    out: Seq<PacketView>,
    id: FlowId,
    late: Seq<SeqNum>,
)
    requires
        pre.ticked(&post, now, out),
        pre@.tx.paths.len() > 0,
        pre@.tx.flows.contains_key(id),
        !pre@.tx.flows[id].done,
        lists_late(
            late,
            pre@.tx.flows[id].send_times,
            pre@.tx.flows[id].retransmit_queue,
            now,
            pre@.tx.rto_ns,
            false,
        ),
    ensures
        ({
            let (f, h) = (pre@.tx.flows[id], post@.tx.flows[id]);
            &&& keeps_to_window(
                f.cwnd,
                f.total_packets,
                late,
                now,
                (f.in_flight, h.in_flight),
                (f.next_seq, h.next_seq),
                (f.retransmit_queue, h.retransmit_queue),
                (f.send_times, h.send_times),
                seqs_of(out, id),
            )
            &&& h == (TxView {
                in_flight: h.in_flight,
                next_seq: h.next_seq,
                retransmit_queue: h.retransmit_queue,
                send_times: h.send_times,
                ..f
            })
        }),
{
    let e = pre@.tx;
    let f = e.flows[id];
    let p = e.params(now, false);
    let sends = all_outgoing::<FlowTxState>(e.flows, p);
    lemma_late(late, f.send_times, f.retransmit_queue, now, e.rto_ns, false);
    lemma_tagged_carries(
        sends,
        e.next_packet_id,
        e.host_id,
        now,
        path_tags(e.paths, e.cursor, e.spray, now, sends.len()).0,
    );
    lemma_tick::<FlowTxState>(e.flows, p, out, id);
    lemma_burst_keeps_to_window(
        WindowView {
            in_flight: f.in_flight,
            next_seq: f.next_seq,
            queue: f.retransmit_queue,
            sent: f.send_times,
        },
        late,
        f.cwnd,
        f.total_packets,
        now,
    );
}

/// What goes out on a tick are full-sized data packets from this host, numbered one after the other, of
/// flows that are not complete and to where these go. All of them are counted, and apart those that had
/// been sent before. Complete flows do not change, and neither does anything but the flows and the
/// turn of the paths.
pub proof fn law_strack_tick_sends_data(
    pre: STrackProtocol,
    post: STrackProtocol,
    now: u64,
    out: Seq<PacketView>,
)
    requires
        pre.ticked(&post, now, out),
        pre@.tx.paths.len() > 0,
        forall|id: FlowId, s: SeqNum| #[trigger]
            pre@.tx.flows.contains_key(id) && (
            #[trigger] pre@.tx.flows[id].retransmit_queue.contains(s)) ==> s
                < pre@.tx.flows[id].next_seq,
        forall|id: FlowId, s: SeqNum| #[trigger]
            pre@.tx.flows.contains_key(id) && (
            #[trigger] pre@.tx.flows[id].send_times.contains_key(s)) ==> s
                < pre@.tx.flows[id].next_seq,
    ensures
        ({
            let (e, g) = (pre@.tx, post@.tx);
            let again = out.filter(|q: PacketView| q.seq < e.flows[q.flow_id].next_seq).len();
            &&& are_fresh_data(out, e.next_packet_id, e.host_id, now)
            &&& forall|k: int|
                0 <= k < out.len() ==> e.flows.contains_key((#[trigger] out[k]).flow_id)
                    && !e.flows[out[k].flow_id].done && out[k].dst == e.flows[out[k].flow_id].dst
            &&& g.next_packet_id == (e.next_packet_id + out.len()) % 0x1_0000_0000_0000_0000
            &&& e.stats.packets_sent + out.len() <= u64::MAX ==> g.stats.packets_sent
                == e.stats.packets_sent + out.len()
            &&& e.stats.packets_retransmitted + again <= u64::MAX ==> g.stats.packets_retransmitted
                == e.stats.packets_retransmitted + again
            &&& g.stats == (TxStats {
                packets_sent: g.stats.packets_sent,
                packets_retransmitted: g.stats.packets_retransmitted,
                ..e.stats
            })
            &&& g.flows.dom() == e.flows.dom()
            &&& forall|id: FlowId| #[trigger]
                e.flows.contains_key(id) && e.flows[id].done ==> g.flows[id] == e.flows[id]
            &&& g == (TxNicView {
                flows: g.flows,
                stats: g.stats,
                next_packet_id: g.next_packet_id,
                cursor: g.cursor,
                ..e
            })
            &&& post@ == (STrackView { tx: g, ..pre@ })
        }),
{
    let (e, g) = (pre@.tx, post@.tx);
    let p = e.params(now, false);
    let order = ascending(e.flows.dom());
    let nexts = e.flows.map_values(|f: TxView| f.next_seq);
    let sends = all_outgoing::<FlowTxState>(e.flows, p);
    lemma_tagged_carries(
        sends,
        e.next_packet_id,
        e.host_id,
        now,
        path_tags(e.paths, e.cursor, e.spray, now, sends.len()).0,
    );
    lemma_tick::<FlowTxState>(e.flows, p, out, 0);
    law_listing_ascends(e.flows.dom());
    assert forall|i: int| 0 <= i < order.len() implies {
        let f = e.flows[#[trigger] order[i]];
        let t = f.after_tick(p);
        &&& nexts[order[i]] == f.next_seq
        &&& forall|k: int| 0 <= k < t.resend.len() ==> #[trigger] t.resend[k] < f.next_seq
        &&& forall|k: int| 0 <= k < t.fresh.len() ==> #[trigger] t.fresh[k] >= f.next_seq
    } by {
        let f = e.flows[order[i]];
        let t = f.after_tick(p);
        assert(order.contains(order[i]));
        assert(e.flows.contains_key(order[i]));
        let late = f.late(p);
        law_listing_ascends(
            overdue_set(f.send_times, f.retransmit_queue, now, e.rto_ns, false),
        );
        let queue = f.retransmit_queue + late;
        assert forall|k: int| 0 <= k < t.resend.len() implies #[trigger] t.resend[k]
            < f.next_seq by {
            assert(t.resend[k] == queue[k]);
            if k < f.retransmit_queue.len() {
                assert(f.retransmit_queue.contains(queue[k]));
            } else {
                assert(late.contains(queue[k]));
            }
        }
    }
    lemma_resent::<FlowTxState>(order, e.flows, p, out, nexts);
    lemma_same_filter(out, e.flows, nexts);
    assert(g.flows.dom() =~= e.flows.dom());
}

/// The numbers that the flows would send next tell the same packets apart, wherever they are kept.
proof fn lemma_same_filter(
    out: Seq<PacketView>,
    tx: Map<FlowId, TxView>,
    nexts: Map<FlowId, SeqNum>,
)
    requires
        nexts == tx.map_values(|f: TxView| f.next_seq),
        forall|k: int| 0 <= k < out.len() ==> tx.contains_key((#[trigger] out[k]).flow_id),
    ensures
        out.filter(|q: PacketView| q.seq < tx[q.flow_id].next_seq) == out.filter(
            |q: PacketView| q.seq < nexts[q.flow_id],
        ),
    decreases out.len(),
{
    reveal(Seq::filter);
    if out.len() > 0 {
        assert forall|k: int| 0 <= k < out.drop_last().len() implies tx.contains_key(
            (#[trigger] out.drop_last()[k]).flow_id,
        ) by {
            assert(tx.contains_key(out[k].flow_id));
        }
        lemma_same_filter(out.drop_last(), tx, nexts);
        assert(tx.contains_key(out[out.len() - 1].flow_id));
    }
}

/// Without a path nothing goes out.
pub proof fn law_strack_sends_nothing_without_path(
    pre: STrackProtocol,
    post: STrackProtocol,
    now: u64,
    out: Seq<PacketView>,
)
    requires
        pre.ticked(&post, now, out),
        pre@.tx.paths.len() == 0,
    ensures
        out.len() == 0,
        post@.tx.stats == pre@.tx.stats,
        post@.tx.next_packet_id == pre@.tx.next_packet_id,
{
    let e = pre@.tx;
    let p = e.params(now, false);
    super::tx::lemma_no_path_no_packets(ascending(e.flows.dom()), e.flows, p);
}

proof fn lemma_turns(paths: Seq<PathState>, cursor: u8, now: u64, n: nat)
    requires
        0 < paths.len() < 256,
        cursor < paths.len(),
        forall|i: int| 0 <= i < paths.len() ==> (#[trigger] paths[i]).blacklisted_until <= now,
    ensures
        path_tags(paths, cursor, true, now, n).1 == (cursor + n) % paths.len() as int,
        path_tags(paths, cursor, true, now, n).0.len() == n,
        forall|k: int|
            0 <= k < n ==> #[trigger] path_tags(paths, cursor, true, now, n).0[k] == (cursor + k)
                % paths.len() as int + 1,
    decreases n,
{
    let m = paths.len() as int;
    if n == 0 {
        vstd::arithmetic::div_mod::lemma_small_mod(cursor as nat, paths.len());
    } else {
        lemma_turns(paths, cursor, now, (n - 1) as nat);
        let (tags, at) = path_tags(paths, cursor, true, now, (n - 1) as nat);
        let x = cursor + n - 1;
        assert(0 <= x % m < m) by (nonlinear_arith)
            requires
                m > 0,
                x >= 0,
        ;
        assert(paths[at as int].blacklisted_until <= now);
        assert(paths[at as int].available(now));
        reveal_with_fuel(super::cc::next_available, 2);
        vstd::arithmetic::div_mod::lemma_add_mod_noop(x, 1, m);
        if m > 1 {
            vstd::arithmetic::div_mod::lemma_small_mod(1, paths.len());
        }
        assert((at + 1) % m == (x + 1) % m) by {
            vstd::arithmetic::div_mod::lemma_add_mod_noop_right(1, x, m);
        }
    }
}

/// While all paths are open, a spraying sender takes them in turn: each packet takes the path behind the
/// one before it, and the last is followed by the first.
pub proof fn law_strack_paths_take_turns(
    pre: STrackProtocol,
    post: STrackProtocol,
    now: u64,
    out: Seq<PacketView>,
)
    requires
        pre.ticked(&post, now, out),
        pre@.tx.spray,
        0 < pre@.tx.paths.len() < 256,
        pre@.tx.cursor < pre@.tx.paths.len(),
        forall|i: int|
            0 <= i < pre@.tx.paths.len() ==> (#[trigger] pre@.tx.paths[i]).blacklisted_until <= now,
    ensures
        forall|k: int|
            0 <= k < out.len() ==> (#[trigger] out[k]).routing_tag == (pre@.tx.cursor + k)
                % pre@.tx.paths.len() as int + 1,
        post@.tx.cursor == (pre@.tx.cursor + out.len()) % pre@.tx.paths.len() as int,
{
    lemma_turns(pre@.tx.paths, pre@.tx.cursor, now, out.len());
}

proof fn lemma_first_path(paths: Seq<PathState>, cursor: u8, spray: bool, now: u64, n: nat)
    requires
        0 < paths.len(),
        !spray,
    ensures
        path_tags(paths, cursor, spray, now, n).1 == cursor,
        path_tags(paths, cursor, spray, now, n).0.len() == n,
        forall|k: int|
            0 <= k < n ==> #[trigger] path_tags(paths, cursor, spray, now, n).0[k] == 1,
    decreases n,
{
    if n > 0 {
        lemma_first_path(paths, cursor, spray, now, (n - 1) as nat);
    }
}

proof fn lemma_closed_search(paths: Seq<PathState>, cursor: u8, now: u64, tries: int)
    requires
        forall|i: int| 0 <= i < paths.len() ==> now < (#[trigger] paths[i]).blacklisted_until,
    ensures
        super::cc::next_available(paths, cursor, now, tries).0 is None,
    decreases tries,
{
    if tries > 0 {
        lemma_closed_search(paths, super::cc::cursor_after(paths, cursor), now, tries - 1);
    }
}

proof fn lemma_closed_tags(paths: Seq<PathState>, cursor: u8, now: u64, n: nat)
    requires
        0 < paths.len(),
        forall|i: int| 0 <= i < paths.len() ==> now < (#[trigger] paths[i]).blacklisted_until,
    ensures
        path_tags(paths, cursor, true, now, n).0.len() == n,
        forall|k: int| 0 <= k < n ==> #[trigger] path_tags(paths, cursor, true, now, n).0[k] == 1,
    decreases n,
{
    if n > 0 {
        lemma_closed_tags(paths, cursor, now, (n - 1) as nat);
        let at = path_tags(paths, cursor, true, now, (n - 1) as nat).1;
        lemma_closed_search(paths, at, now, super::cc::round_len(paths));
    }
}

/// A sender that does not spray puts every packet on the first path, and so does a sender whose paths
/// are all closed.
pub proof fn law_strack_first_path(
    pre: STrackProtocol,
    post: STrackProtocol,
    now: u64,
    out: Seq<PacketView>,
)
    requires
        pre.ticked(&post, now, out),
        pre@.tx.paths.len() > 0,
        !pre@.tx.spray || forall|i: int|
            0 <= i < pre@.tx.paths.len() ==> now < (
            #[trigger] pre@.tx.paths[i]).blacklisted_until,
    ensures
        forall|k: int| 0 <= k < out.len() ==> (#[trigger] out[k]).routing_tag == 1,
        !pre@.tx.spray ==> post@.tx.cursor == pre@.tx.cursor,
{
    if !pre@.tx.spray {
        lemma_first_path(pre@.tx.paths, pre@.tx.cursor, false, now, out.len());
    } else {
        lemma_closed_tags(pre@.tx.paths, pre@.tx.cursor, now, out.len());
    }
}

/// A host begins with all of its paths open, the window 16, from 1 up to 256 packets, a timeout of 100
/// microseconds, and paths that are avoided for 50 microseconds after congestion.
pub proof fn law_strack_begins(host: EntityId, spray: bool, n: u8)
    ensures
        ({
            let t = super::strack::fresh_host(host, spray, n).tx;
            &&& t.host_id == host && t.spray == spray
            &&& t.paths.len() == n
            &&& forall|i: int|
                0 <= i < n ==> (#[trigger] t.paths[i]).path_id == i && t.paths[i].blacklisted_until
                    == 0 && t.paths[i].ecn_recent == 0
            &&& t.cursor == 0
            &&& t.flows == Map::<FlowId, TxView>::empty()
            &&& t.init_cwnd == 16 && t.max_cwnd == 256 && t.min_cwnd == 1
            &&& t.blacklist_duration_ns == 50_000 && t.rto_ns == 100_000
            &&& t.next_packet_id == 1
        }),
{
}

/// A flow begins with nothing sent, with as many packets as its bytes need, and with the first window. No
/// other flow is touched.
pub proof fn law_strack_flow_starts(
    pre: STrackProtocol,
    post: STrackProtocol,
    id: FlowId,
    dst: EntityId,
    bytes: u64,
    now: u64,
)
    requires
        pre.started(&post, id, dst, bytes, now),
    ensures
        ({
            let (e, g) = (pre@.tx, post@.tx);
            let h = g.flows[id];
            &&& g.flows.contains_key(id)
            &&& h.flow_id == id && h.dst == dst && h.start_time == now
            &&& just_holds(h.total_packets, bytes)
            &&& h.next_seq == 0 && h.un_acked_base == 0 && h.in_flight == 0 && !h.done
                && h.finish_time == 0 && h.last_ack_time == 0
            &&& h.cwnd == e.init_cwnd
            &&& h.send_times == Map::<SeqNum, u64>::empty()
            &&& h.retransmit_queue == Seq::<SeqNum>::empty()
            &&& forall|o: FlowId|
                o != id ==> (#[trigger] g.flows.contains_key(o) <==> e.flows.contains_key(o))
            &&& forall|o: FlowId|
                o != id && e.flows.contains_key(o) ==> #[trigger] g.flows[o] == e.flows[o]
            &&& g == (TxNicView { flows: g.flows, ..e })
            &&& post@ == (STrackView { tx: g, ..pre@ })
        }),
{
}

/// The timeout of a packet in flight runs from when it has really left the NIC; a packet that is not in
/// flight is not taken up again.
pub proof fn law_strack_departure_is_noted(
    pre: STrackProtocol,
    post: STrackProtocol,
    id: FlowId,
    seq: SeqNum,
    at: u64,
)
    requires
        pre.noted_departure(&post, id, seq, at),
        pre@.tx.flows.contains_key(id),
    ensures
        ({
            let (e, g) = (pre@.tx, post@.tx);
            let (f, h) = (e.flows[id], g.flows[id]);
            &&& h == (TxView { send_times: h.send_times, ..f })
            &&& h.send_times.dom() == f.send_times.dom()
            &&& f.send_times.contains_key(seq) ==> h.send_times[seq] == at
            &&& forall|s: SeqNum|
                f.send_times.contains_key(s) && s != seq ==> #[trigger] h.send_times[s]
                    == f.send_times[s]
            &&& changes_one_flow(e, g, id)
            &&& g.stats == e.stats && g.paths == e.paths
            &&& post@ == (STrackView { tx: g, ..pre@ })
        }),
{
    let f = pre@.tx.flows[id];
    assert(super::sender::departed(f.send_times, seq, at).dom() =~= f.send_times.dom());
}

/// The next timeout is that of the packet in flight, of a flow that is not complete, that was sent
/// first; there is none without such a packet. There is no time before which the sender may not send.
pub proof fn law_strack_first_timeout(t: STrackProtocol, at: Option<u64>, tx_at: Option<u64>)
    requires
        t.times_out(at),
        t.paced_until(tx_at),
    ensures
        ({
            let e = t@.tx;
            &&& forall|id: FlowId, s: SeqNum|
                e.flows.contains_key(id) && !e.flows[id].done && (
                #[trigger] e.flows[id].send_times.contains_key(s)) ==> at is Some && (at->0
                    <= e.flows[id].send_times[s] + e.rto_ns)
            &&& at is Some && at->0 < u64::MAX ==> exists|id: FlowId, s: SeqNum|
                e.flows.contains_key(id) && !e.flows[id].done && (
                #[trigger] e.flows[id].send_times.contains_key(s)) && at->0
                    == e.flows[id].send_times[s] + e.rto_ns
            &&& at is Some ==> exists|id: FlowId, s: SeqNum|
                e.flows.contains_key(id) && !e.flows[id].done && (
                #[trigger] e.flows[id].send_times.contains_key(s))
            &&& tx_at is None
        }),
{
    let e = t@.tx;
    let rto = e.rto_ns;
    assert forall|id: FlowId, s: SeqNum|
        e.flows.contains_key(id) && !e.flows[id].done && (
        #[trigger] e.flows[id].send_times.contains_key(s)) implies at is Some && (at->0
        <= e.flows[id].send_times[s] + e.rto_ns) by {
        assert(times_out_at::<FlowTxState>(
            e.flows,
            id,
            s,
            rto,
            e.flows[id].send_times[s].saturating_add(rto),
        ));
    }
    if at is Some {
        let (id, s) = choose|id: FlowId, s: SeqNum| #[trigger]
            times_out_at::<FlowTxState>(e.flows, id, s, rto, at->0);
        assert(times_out_at::<FlowTxState>(e.flows, id, s, rto, at->0));
        assert(e.flows[id].send_times.contains_key(s));
    }
}

/// There is something to send if a flow that is not complete has packets to send again, or has room in
/// its window and packets left. All is done if there are flows and each of them is complete.
pub proof fn law_strack_work_and_end(t: STrackProtocol)
    ensures
        ({
            let flows = t@.tx.flows;
            &&& t.has_work() <==> exists|id: FlowId| #[trigger]
                flows.contains_key(id) && !flows[id].done && (flows[id].retransmit_queue.len() > 0
                    || (flows[id].in_flight < flows[id].cwnd && flows[id].next_seq
                    < flows[id].total_packets))
            &&& t.is_done() <==> (exists|id: FlowId| #[trigger] flows.contains_key(id)) && (forall|
                id: FlowId,
            | #[trigger] flows.contains_key(id) ==> flows[id].done)
        }),
{
    let flows = t@.tx.flows;
    if exists|id: FlowId| #[trigger] flows.contains_key(id) {
        let id = choose|id: FlowId| #[trigger] flows.contains_key(id);
        assert(flows.dom().contains(id));
    } else {
        assert(flows.dom() =~= Set::empty());
    }
    if !flows.dom().is_empty() {
        assert(exists|id: FlowId| flows.dom().contains(id)) by {
            if forall|id: FlowId| !flows.dom().contains(id) {
                assert(flows.dom() =~= Set::empty());
            }
        }
    }
}

/// The completed flows are handed out once, and nothing else changes. The counters that are shown are
/// those of the sending and of the receiving side.
pub proof fn law_strack_hands_out_completions(
    pre: STrackProtocol,
    post: STrackProtocol,
    out: Seq<(FlowId, u64)>,
)
    requires
        pre.finishes(&post, out),
    ensures
        out == pre@.finished,
        post@.finished.len() == 0,
        post@ == (STrackView { finished: post@.finished, ..pre@ }),
        pre.counters() == (ProtocolStats {
            packets_sent: pre@.tx.stats.packets_sent,
            packets_retransmitted: pre@.tx.stats.packets_retransmitted,
            packets_received: pre@.rx_stats.packets_received,
            ecn_ack_received: pre@.tx.stats.ecn_ack_received,
            nack_received: pre@.tx.stats.nack_received,
            nacks_sent: pre@.rx_stats.nacks_sent,
            flows_completed: pre@.tx.stats.flows_completed,
            messages_completed: 0,
            rnr_naks_sent: 0,
            rnr_naks_received: 0,
        }),
{
}

/// On a tick of a sending NIC a packet counts as overdue beyond the timeout, if the NIC is strict, or from
/// the timeout on; besides that, a flow that is not complete sends what its window allows.
pub proof fn law_nic_tick_of_flow(
    e: TxNicView,
    now: u64,
    strict: bool,
    id: FlowId,
    late: Seq<SeqNum>,
)
    requires
        e.paths.len() > 0,
        e.flows.contains_key(id),
        !e.flows[id].done,
        lists_late(
            late,
            e.flows[id].send_times,
            e.flows[id].retransmit_queue,
            now,
            e.rto_ns,
            strict,
        ),
    ensures
        ({
            let (g, out) = e.ticked(now, strict);
            let (f, h) = (e.flows[id], g.flows[id]);
            keeps_to_window(
                f.cwnd,
                f.total_packets,
                late,
                now,
                (f.in_flight, h.in_flight),
                (f.next_seq, h.next_seq),
                (f.retransmit_queue, h.retransmit_queue),
                (f.send_times, h.send_times),
                seqs_of(out, id),
            )
        }),
{
    let (g, out) = e.ticked(now, strict);
    let f = e.flows[id];
    let p = e.params(now, strict);
    let sends = all_outgoing::<FlowTxState>(e.flows, p);
    lemma_late(late, f.send_times, f.retransmit_queue, now, e.rto_ns, strict);
    lemma_tagged_carries(
        sends,
        e.next_packet_id,
        e.host_id,
        now,
        path_tags(e.paths, e.cursor, e.spray, now, sends.len()).0,
    );
    lemma_tick::<FlowTxState>(e.flows, p, out, id);
    lemma_burst_keeps_to_window(
        WindowView {
            in_flight: f.in_flight,
            next_seq: f.next_seq,
            queue: f.retransmit_queue,
            sent: f.send_times,
        },
        late,
        f.cwnd,
        f.total_packets,
        now,
    );
}

/// A host has as many paths as its switch has ports to another host, the most of them, counted in a byte,
/// and at least one.
pub proof fn law_paths_are_counted(sw: SwitchView, hosts: Seq<EntityId>, host: EntityId)
    ensures
        ({
            let n = most_paths(sw, hosts, host);
            &&& n >= 1
            &&& forall|k: int|
                0 <= k < hosts.len() && (#[trigger] hosts[k]) != host && sw.routes.contains_key(
                    hosts[k],
                ) ==> sw.routes[hosts[k]].len() as int % 256 <= n
            &&& n == 1 || exists|k: int|
                0 <= k < hosts.len() && (#[trigger] hosts[k]) != host && sw.routes.contains_key(
                    hosts[k],
                ) && sw.routes[hosts[k]].len() as int % 256 == n
        }),
    decreases hosts.len(),
{
    if hosts.len() > 0 {
        let less = hosts.drop_last();
        law_paths_are_counted(sw, less, host);
        let (before, n) = (most_paths(sw, less, host), most_paths(sw, hosts, host));
        assert forall|k: int|
            0 <= k < hosts.len() && (#[trigger] hosts[k]) != host && sw.routes.contains_key(
                hosts[k],
            ) implies sw.routes[hosts[k]].len() as int % 256 <= n by {
            if k < less.len() {
                assert(less[k] == hosts[k]);
            }
        }
        if n == before && n != 1 {
            let k = choose|k: int|
                0 <= k < less.len() && (#[trigger] less[k]) != host && sw.routes.contains_key(less[k])
                    && sw.routes[less[k]].len() as int % 256 == before;
            assert(hosts[k] == less[k]);
        } else if n != before {
            assert(hosts[hosts.len() - 1] != host);
        }
    }
}

/// The paths of a host are those of the switch of its first connection; a host without one has one path.
pub proof fn law_paths_of_host(t: TopologyView, host: EntityId, u: int, s: int)
    requires
        0 <= u < t.uplinks.len(),
        t.uplinks[u].host == host,
        forall|w: int| 0 <= w < u ==> (#[trigger] t.uplinks[w]).host != host,
        0 <= s < t.switches.len(),
        t.switches[s].id == t.uplinks[u].edge_switch,
        forall|w: int| 0 <= w < s ==> (#[trigger] t.switches[w]).id != t.uplinks[u].edge_switch,
    ensures
        paths_of_host(t, host) == most_paths(t.switches[s], t.hosts, host),
{
    crate::topology::laws::law_first_connection_is_found(t.uplinks, host, 0);
    crate::topology::laws::law_first_switch_is_found(t.switches, t.uplinks[u].edge_switch, 0);
}

} // verus!
