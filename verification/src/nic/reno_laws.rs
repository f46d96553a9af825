//! What holds of TCP Reno.
use super::protocol::Protocol;
use super::reno::TcpReno;
use crate::network::packet::{FlowId, PacketKind, SeqNum};
use crate::EntityId;
use vstd::prelude::*;

verus! {

use super::endpoint::EndpointView;
use super::endpoint_laws::{
    acknowledges_data, changes_one_flow, forgets, just_holds, law_data_is_acknowledged,
    reports_completion,
};
use super::protocol::ProtocolStats;
use super::send_laws::{
    are_fresh_data, keeps_to_window, lemma_burst_keeps_to_window, lemma_late, lemma_resent,
    lemma_stamped, lemma_tick, lists_late, seqs_of,
};
use super::sender::{all_outgoing, times_out_at};
use super::reno::{FlowTxState, TxView};
use crate::network::packet::PacketView;
use crate::util::{ascending, law_listing_ascends};

/// An acknowledgement of new packets moves the flow on to the first that is still missing, and takes the
/// acknowledged packets out of flight. It completes the flow once nothing is missing, which is noted
/// with its time, reported and counted. No other flow is touched.
pub proof fn law_reno_ack_moves_flow_on(
    pre: TcpReno,
    post: TcpReno,
    pkt: PacketView,
    now: u64,
)
    requires
        pre.took_control(&post, pkt, now),
        pkt.kind == PacketKind::Control(0),
        pre@.tx.contains_key(pkt.flow_id),
        pkt.seq > pre@.tx[pkt.flow_id].un_acked_base,
    ensures
        ({
            let (e, g) = (pre@, post@);
            let (f, h) = (e.tx[pkt.flow_id], g.tx[pkt.flow_id]);
            let completes = pkt.seq >= f.total_packets && !f.done;
            &&& h.un_acked_base == pkt.seq
            &&& h.in_flight == if f.in_flight > pkt.seq - f.un_acked_base {
                f.in_flight - (pkt.seq - f.un_acked_base)
            } else {
                0
            }
            &&& forgets(f.send_times, h.send_times, f.un_acked_base, pkt.seq)
            &&& h.dup_ack_count == 0
            &&& h.retransmit_queue == f.retransmit_queue
            &&& h.next_seq == f.next_seq
            &&& h.total_packets == f.total_packets
            &&& h.flow_id == f.flow_id && h.dst == f.dst && h.start_time == f.start_time
            &&& h.done == (f.done || completes)
            &&& h.finish_time == if completes {
                now
            } else {
                f.finish_time
            }
            &&& changes_one_flow(e, g, pkt.flow_id)
            &&& reports_completion(e, g, f.flow_id, now, completes)
        }),
{
}

/// An acknowledgement of less than is known already changes nothing.
pub proof fn law_reno_old_ack_changes_nothing(
    pre: TcpReno,
    post: TcpReno,
    pkt: PacketView,
    now: u64,
)
    requires
        pre.took_control(&post, pkt, now),
        pkt.kind == PacketKind::Control(0),
        pre@.tx.contains_key(pkt.flow_id),
        pkt.seq < pre@.tx[pkt.flow_id].un_acked_base,
        pre@.tx[pkt.flow_id].done || pre@.tx[pkt.flow_id].un_acked_base < pre@.tx[pkt.flow_id].total_packets,
    ensures
        ({
            let (e, g) = (pre@, post@);
            let (f, h) = (e.tx[pkt.flow_id], g.tx[pkt.flow_id]);
            &&& h == f
            &&& g == e
        }),
{
    assert(post@ =~= pre@);
}

/// A control packet of another type, or for a flow that the sender does not know, changes nothing.
pub proof fn law_reno_foreign_control_changes_nothing(
    pre: TcpReno,
    post: TcpReno,
    pkt: PacketView,
    now: u64,
)
    requires
        pre.took_control(&post, pkt, now),
        pkt.kind != PacketKind::Control(0) || !pre@.tx.contains_key(pkt.flow_id),
    ensures
        post@ == pre@,
{
}

/// Slow start: an unmarked acknowledgement of new packets that finds the window below the threshold, outside
/// fast recovery,
/// widens it by their number, up to the largest window. So a window below the largest grows.
pub proof fn law_reno_slow_start(
    pre: TcpReno,
    post: TcpReno,
    pkt: PacketView,
    now: u64,
)
    requires
        pre.took_control(&post, pkt, now),
        pkt.kind == PacketKind::Control(0),
        pre@.tx.contains_key(pkt.flow_id),
        pkt.seq > pre@.tx[pkt.flow_id].un_acked_base,
        !pkt.ecn,
        !pre@.tx[pkt.flow_id].fast_recovery,
        pre@.tx[pkt.flow_id].cwnd < pre@.tx[pkt.flow_id].ssthresh,
    ensures
        ({
            let (e, g) = (pre@, post@);
            let (f, h) = (e.tx[pkt.flow_id], g.tx[pkt.flow_id]);
            let delta = pkt.seq - f.un_acked_base;
            &&& h.cwnd == if f.cwnd + delta < e.max_cwnd {
                f.cwnd + delta
            } else {
                e.max_cwnd as int
            }
            &&& f.cwnd < e.max_cwnd ==> h.cwnd > f.cwnd
            &&& h.ssthresh == f.ssthresh
            &&& h.ca_ack_count == f.ca_ack_count
            &&& h.fast_recovery == f.fast_recovery && h.recovery_inflation == f.recovery_inflation
        }),
{
}

/// Congestion avoidance: unmarked acknowledgements of new packets that find the window at the threshold or
/// above, outside fast recovery, are counted until a whole window has been acknowledged; then the window widens by one packet,
/// up to the largest window, and the count starts again.
pub proof fn law_reno_congestion_avoidance(
    pre: TcpReno,
    post: TcpReno,
    pkt: PacketView,
    now: u64,
)
    requires
        pre.took_control(&post, pkt, now),
        pkt.kind == PacketKind::Control(0),
        pre@.tx.contains_key(pkt.flow_id),
        pkt.seq > pre@.tx[pkt.flow_id].un_acked_base,
        !pkt.ecn,
        !pre@.tx[pkt.flow_id].fast_recovery,
        pre@.tx[pkt.flow_id].cwnd >= pre@.tx[pkt.flow_id].ssthresh,
    ensures
        ({
            let (e, g) = (pre@, post@);
            let (f, h) = (e.tx[pkt.flow_id], g.tx[pkt.flow_id]);
            let acked = f.ca_ack_count + (pkt.seq - f.un_acked_base);
            &&& h.ssthresh == f.ssthresh
            &&& acked < f.cwnd ==> h.cwnd == f.cwnd && h.ca_ack_count == acked
            &&& acked >= f.cwnd && f.cwnd < e.max_cwnd ==> h.cwnd == f.cwnd + 1 && h.ca_ack_count == 0
            &&& acked >= f.cwnd && f.cwnd >= e.max_cwnd ==> h.cwnd == e.max_cwnd && h.ca_ack_count == 0
            &&& h.fast_recovery == f.fast_recovery && h.recovery_inflation == f.recovery_inflation
        }),
{
}

/// An acknowledgement of new packets that carries a congestion mark halves the window, but not below its
/// least, and slow start ends there. In fast recovery the window is first taken back to the threshold.
pub proof fn law_reno_marked_ack_halves_window(
    pre: TcpReno,
    post: TcpReno,
    pkt: PacketView,
    now: u64,
)
    requires
        pre.took_control(&post, pkt, now),
        pkt.kind == PacketKind::Control(0),
        pre@.tx.contains_key(pkt.flow_id),
        pkt.seq > pre@.tx[pkt.flow_id].un_acked_base,
        pkt.ecn,
    ensures
        ({
            let (e, g) = (pre@, post@);
            let (f, h) = (e.tx[pkt.flow_id], g.tx[pkt.flow_id]);
            let w = if f.fast_recovery {
                f.ssthresh
            } else {
                f.cwnd
            };
            let half = if w / 2 > e.min_cwnd {
                w / 2
            } else {
                e.min_cwnd
            };
            &&& h.cwnd == half
            &&& h.ssthresh == half
            &&& h.ca_ack_count == 0
            &&& !h.fast_recovery
            &&& h.recovery_inflation == 0
        }),
{
}

/// An unmarked acknowledgement of new packets ends fast recovery: the window is taken back to the
/// threshold, without what duplicates have added to it.
pub proof fn law_reno_ack_ends_fast_recovery(
    pre: TcpReno,
    post: TcpReno,
    pkt: PacketView,
    now: u64,
)
    requires
        pre.took_control(&post, pkt, now),
        pkt.kind == PacketKind::Control(0),
        pre@.tx.contains_key(pkt.flow_id),
        pkt.seq > pre@.tx[pkt.flow_id].un_acked_base,
        !pkt.ecn,
        pre@.tx[pkt.flow_id].fast_recovery,
    ensures
        ({
            let (e, g) = (pre@, post@);
            let (f, h) = (e.tx[pkt.flow_id], g.tx[pkt.flow_id]);
            &&& h.cwnd == f.ssthresh
            &&& h.ssthresh == f.ssthresh
            &&& !h.fast_recovery
            &&& h.recovery_inflation == 0
            &&& h.ca_ack_count == f.ca_ack_count
        }),
{
}

/// The first two duplicate acknowledgements in a row are counted, and change nothing else.
pub proof fn law_reno_two_duplicates_are_counted(
    pre: TcpReno,
    post: TcpReno,
    pkt: PacketView,
    now: u64,
)
    requires
        pre.took_control(&post, pkt, now),
        pkt.kind == PacketKind::Control(0),
        pre@.tx.contains_key(pkt.flow_id),
        pkt.seq == pre@.tx[pkt.flow_id].un_acked_base,
        pre@.tx[pkt.flow_id].done || pre@.tx[pkt.flow_id].un_acked_base < pre@.tx[pkt.flow_id].total_packets,
        !pre@.tx[pkt.flow_id].fast_recovery,
        pre@.tx[pkt.flow_id].dup_ack_count < 2,
    ensures
        ({
            let (e, g) = (pre@, post@);
            let (f, h) = (e.tx[pkt.flow_id], g.tx[pkt.flow_id]);
            &&& h.dup_ack_count == f.dup_ack_count + 1
            &&& h == (TxView { dup_ack_count: h.dup_ack_count, ..f })
            &&& changes_one_flow(e, g, pkt.flow_id)
            &&& g.finished == e.finished && g.stats == e.stats
        }),
{
}

/// The third duplicate acknowledgement in a row makes half the window the threshold, but not less than the
/// least window, and the window three packets more, up to the largest. The first missing packet is queued to be
/// sent again, once, and fast recovery begins.
pub proof fn law_reno_third_duplicate_is_a_loss(
    pre: TcpReno,
    post: TcpReno,
    pkt: PacketView,
    now: u64,
)
    requires
        pre.took_control(&post, pkt, now),
        pkt.kind == PacketKind::Control(0),
        pre@.tx.contains_key(pkt.flow_id),
        pkt.seq == pre@.tx[pkt.flow_id].un_acked_base,
        pre@.tx[pkt.flow_id].done || pre@.tx[pkt.flow_id].un_acked_base < pre@.tx[pkt.flow_id].total_packets,
        !pre@.tx[pkt.flow_id].fast_recovery,
        pre@.tx[pkt.flow_id].dup_ack_count == 2,
    ensures
        ({
            let (e, g) = (pre@, post@);
            let (f, h) = (e.tx[pkt.flow_id], g.tx[pkt.flow_id]);
            let half = if f.cwnd / 2 > e.min_cwnd {
                f.cwnd / 2
            } else {
                e.min_cwnd
            };
            &&& h.dup_ack_count == 3
            &&& h.ssthresh == half
            &&& half + 3 <= u32::MAX ==> h.cwnd == if half + 3 < e.max_cwnd {
                half + 3
            } else {
                e.max_cwnd as int
            }
            &&& f.retransmit_queue.contains(f.un_acked_base) ==> h.retransmit_queue
                == f.retransmit_queue
            &&& !f.retransmit_queue.contains(f.un_acked_base) ==> h.retransmit_queue
                == f.retransmit_queue.push(f.un_acked_base)
            &&& h.fast_recovery
            &&& h.recovery_inflation == 0
            &&& h.un_acked_base == f.un_acked_base && h.next_seq == f.next_seq && h.in_flight
                == f.in_flight && h.send_times == f.send_times && h.ca_ack_count == f.ca_ack_count
                && h.done == f.done
            &&& changes_one_flow(e, g, pkt.flow_id)
            &&& g.finished == e.finished
        }),
{
}

/// In fast recovery every duplicate acknowledgement widens the window by one packet, up to the largest, and
/// is counted as inflation.
pub proof fn law_reno_duplicates_widen_window_in_recovery(
    pre: TcpReno,
    post: TcpReno,
    pkt: PacketView,
    now: u64,
)
    requires
        pre.took_control(&post, pkt, now),
        pkt.kind == PacketKind::Control(0),
        pre@.tx.contains_key(pkt.flow_id),
        pkt.seq == pre@.tx[pkt.flow_id].un_acked_base,
        pre@.tx[pkt.flow_id].done || pre@.tx[pkt.flow_id].un_acked_base < pre@.tx[pkt.flow_id].total_packets,
        pre@.tx[pkt.flow_id].fast_recovery,
    ensures
        ({
            let (e, g) = (pre@, post@);
            let (f, h) = (e.tx[pkt.flow_id], g.tx[pkt.flow_id]);
            &&& h.cwnd == if f.cwnd + 1 < e.max_cwnd {
                f.cwnd + 1
            } else {
                e.max_cwnd as int
            }
            &&& f.dup_ack_count < u32::MAX ==> h.dup_ack_count == f.dup_ack_count + 1
            &&& f.recovery_inflation < u32::MAX ==> h.recovery_inflation == f.recovery_inflation + 1
            &&& h == (TxView {
                dup_ack_count: h.dup_ack_count,
                cwnd: h.cwnd,
                recovery_inflation: h.recovery_inflation,
                ..f
            })
            &&& changes_one_flow(e, g, pkt.flow_id)
            &&& g.finished == e.finished
        }),
{
}

/// Without fast recovery a duplicate acknowledgement after the third in a row is only counted.
pub proof fn law_reno_later_duplicates_are_counted(
    pre: TcpReno,
    post: TcpReno,
    pkt: PacketView,
    now: u64,
)
    requires
        pre.took_control(&post, pkt, now),
        pkt.kind == PacketKind::Control(0),
        pre@.tx.contains_key(pkt.flow_id),
        pkt.seq == pre@.tx[pkt.flow_id].un_acked_base,
        pre@.tx[pkt.flow_id].done || pre@.tx[pkt.flow_id].un_acked_base < pre@.tx[pkt.flow_id].total_packets,
        !pre@.tx[pkt.flow_id].fast_recovery,
        3 <= pre@.tx[pkt.flow_id].dup_ack_count < u32::MAX,
    ensures
        ({
            let (e, g) = (pre@, post@);
            let (f, h) = (e.tx[pkt.flow_id], g.tx[pkt.flow_id]);
            &&& h.dup_ack_count == f.dup_ack_count + 1
            &&& h == (TxView { dup_ack_count: h.dup_ack_count, ..f })
            &&& changes_one_flow(e, g, pkt.flow_id)
            &&& g.finished == e.finished && g.stats == e.stats
        }),
{
}

/// On a tick a flow that is not complete sends what its window allows. A packet that has been in
/// flight for at least the timeout is a loss: half the window becomes the threshold, but not less
/// than the least window, and the window starts again from its first width.
pub proof fn law_reno_tick_of_flow(
    pre: TcpReno,
    post: TcpReno,
    now: u64,
    out: Seq<PacketView>,
    id: FlowId,
    late: Seq<SeqNum>,
)
    requires
        pre.ticked(&post, now, out),
        pre@.tx.contains_key(id),
        !pre@.tx[id].done,
        lists_late(
            late,
            pre@.tx[id].send_times,
            pre@.tx[id].retransmit_queue,
            now,
            pre@.rto_ns,
            false,
        ),
    ensures
        ({
            let (e, g) = (pre@, post@);
            let (f, h) = (e.tx[id], g.tx[id]);
            &&& keeps_to_window(
                f.cwnd,
                f.total_packets,
                late,
                now,
                (f.in_flight, h.in_flight),
                (f.next_seq, h.next_seq),
                (f.retransmit_queue, h.retransmit_queue),
                (f.send_times, h.send_times),
                seqs_of(out, id),
            )
            &&& late.len() > 0 ==> {
                &&& h.ssthresh == if f.cwnd / 2 > e.min_cwnd {
                    f.cwnd / 2
                } else {
                    e.min_cwnd
                }
                &&& h.cwnd == e.init_cwnd
                &&& h.dup_ack_count == 0
                &&& h.ca_ack_count == 0
                &&& !h.fast_recovery
                &&& h.recovery_inflation == 0
            }
            &&& late.len() == 0 ==> h.ssthresh == f.ssthresh && h.cwnd == f.cwnd && h.dup_ack_count
                == f.dup_ack_count && h.ca_ack_count == f.ca_ack_count && h.fast_recovery == f.fast_recovery
            &&& h.un_acked_base == f.un_acked_base && h.total_packets == f.total_packets && !h.done
                && h.flow_id == f.flow_id && h.dst == f.dst && h.start_time == f.start_time
                && h.finish_time == f.finish_time
        }),
{
    let (e, g) = (pre@, post@);
    let f = e.tx[id];
    let p = e.params(now);
    lemma_late(late, f.send_times, f.retransmit_queue, now, e.rto_ns, false);
    lemma_stamped(all_outgoing::<FlowTxState>(e.tx, p), e.next_packet_id, e.host_id, now);
    lemma_tick::<FlowTxState>(e.tx, p, out, id);
    lemma_burst_keeps_to_window(f.window(), late, f.cwnd, f.total_packets, now);
}

/// What goes out on a tick are full-sized data packets from this host, numbered one after the other, of
/// flows that are not complete and to where these go. All of them are counted, and apart those that had
/// been sent before. Complete flows do not change, and neither does anything but the flows.
pub proof fn law_reno_tick_sends_data(
    pre: TcpReno,
    post: TcpReno,
    now: u64,
    out: Seq<PacketView>,
)
    requires
        pre.ticked(&post, now, out),
        forall|id: FlowId, s: SeqNum| #[trigger]
            pre@.tx.contains_key(id) && (#[trigger] pre@.tx[id].retransmit_queue.contains(s)) ==> s
                < pre@.tx[id].next_seq,
        forall|id: FlowId, s: SeqNum| #[trigger]
            pre@.tx.contains_key(id) && (#[trigger] pre@.tx[id].send_times.contains_key(s)) ==> s
                < pre@.tx[id].next_seq,
    ensures
        ({
            let (e, g) = (pre@, post@);
            let again = out.filter(|q: PacketView| q.seq < e.tx[q.flow_id].next_seq).len();
            &&& are_fresh_data(out, e.next_packet_id, e.host_id, now)
            &&& forall|k: int|
                0 <= k < out.len() ==> e.tx.contains_key((#[trigger] out[k]).flow_id)
                    && !e.tx[out[k].flow_id].done && out[k].dst == e.tx[out[k].flow_id].dst
                    && out[k].routing_tag == 0
            &&& g.next_packet_id == (e.next_packet_id + out.len()) % 0x1_0000_0000_0000_0000
            &&& e.stats.packets_sent + out.len() <= u64::MAX ==> g.stats.packets_sent
                == e.stats.packets_sent + out.len()
            &&& e.stats.packets_retransmitted + again <= u64::MAX ==> g.stats.packets_retransmitted
                == e.stats.packets_retransmitted + again
            &&& g.stats == (ProtocolStats {
                packets_sent: g.stats.packets_sent,
                packets_retransmitted: g.stats.packets_retransmitted,
                ..e.stats
            })
            &&& g.tx.dom() == e.tx.dom()
            &&& forall|id: FlowId| #[trigger]
                e.tx.contains_key(id) && e.tx[id].done ==> g.tx[id] == e.tx[id]
            &&& g == (EndpointView {
                tx: g.tx,
                stats: g.stats,
                next_packet_id: g.next_packet_id,
                ..e
            })
        }),
{
    let (e, g) = (pre@, post@);
    let p = e.params(now);
    let order = ascending(e.tx.dom());
    let nexts = e.tx.map_values(|f: TxView| f.next_seq);
    lemma_stamped(all_outgoing::<FlowTxState>(e.tx, p), e.next_packet_id, e.host_id, now);
    lemma_tick::<FlowTxState>(e.tx, p, out, 0);
    law_listing_ascends(e.tx.dom());
    assert forall|i: int| 0 <= i < order.len() implies {
        let f = e.tx[#[trigger] order[i]];
        let t = f.after_tick(p);
        &&& nexts[order[i]] == f.next_seq
        &&& forall|k: int| 0 <= k < t.resend.len() ==> #[trigger] t.resend[k] < f.next_seq
        &&& forall|k: int| 0 <= k < t.fresh.len() ==> #[trigger] t.fresh[k] >= f.next_seq
    } by {
        let f = e.tx[order[i]];
        let t = f.after_tick(p);
        assert(order.contains(order[i]));
        assert(e.tx.contains_key(order[i]));
        let late = f.late(p);
        law_listing_ascends(
            super::sender::overdue_set(f.send_times, f.retransmit_queue, now, e.rto_ns, false),
        );
        let queue = f.retransmit_queue + late;
        assert forall|k: int| 0 <= k < t.resend.len() implies #[trigger] t.resend[k]
            < f.next_seq by {
            assert(t.resend[k] == queue[k]);
            if k < f.retransmit_queue.len() {
                assert(f.retransmit_queue.contains(queue[k]));
            } else {
                assert(late.contains(queue[k]));
            }
        }
    }
    lemma_resent::<FlowTxState>(order, e.tx, p, out, nexts);
    assert(out.filter(|q: PacketView| q.seq < e.tx[q.flow_id].next_seq) =~= out.filter(
        |q: PacketView| q.seq < nexts[q.flow_id],
    )) by {
        lemma_same_filter(out, e.tx, nexts);
    }
    assert(g.tx.dom() =~= e.tx.dom());
}

/// The numbers that the flows would send next tell the same packets apart, wherever they are kept.
proof fn lemma_same_filter(
    out: Seq<PacketView>,
    tx: Map<FlowId, TxView>,
    nexts: Map<FlowId, SeqNum>,
)
    requires
        nexts == tx.map_values(|f: TxView| f.next_seq),
        forall|k: int| 0 <= k < out.len() ==> tx.contains_key((#[trigger] out[k]).flow_id),
    ensures
        out.filter(|q: PacketView| q.seq < tx[q.flow_id].next_seq) == out.filter(
            |q: PacketView| q.seq < nexts[q.flow_id],
        ),
    decreases out.len(),
{
    reveal(Seq::filter);
    if out.len() > 0 {
        assert forall|k: int| 0 <= k < out.drop_last().len() implies tx.contains_key(
            (#[trigger] out.drop_last()[k]).flow_id,
        ) by {
            assert(tx.contains_key(out[k].flow_id));
        }
        lemma_same_filter(out.drop_last(), tx, nexts);
        assert(tx.contains_key(out[out.len() - 1].flow_id));
    }
}

/// A data packet is acknowledged.
pub proof fn law_reno_acknowledges_data(
    pre: TcpReno,
    post: TcpReno,
    pkt: PacketView,
    now: u64,
    out: Seq<PacketView>,
)
    requires
        pre.took_data(&post, pkt, now, out),
    ensures
        acknowledges_data(pre@, post@, pkt, now, out),
{
    law_data_is_acknowledged(pre@, pkt, now);
}

/// A flow begins with nothing sent, with as many packets as its bytes need, and with the first window
/// and the first threshold. No other flow is touched.
pub proof fn law_reno_flow_starts(
    pre: TcpReno,
    post: TcpReno,
    id: FlowId,
    dst: EntityId,
    bytes: u64,
    now: u64,
)
    requires
        pre.started(&post, id, dst, bytes, now),
    ensures
        ({
            let (e, g) = (pre@, post@);
            let h = g.tx[id];
            &&& g.tx.contains_key(id)
            &&& h.flow_id == id && h.dst == dst && h.start_time == now
            &&& just_holds(h.total_packets, bytes)
            &&& h.next_seq == 0 && h.un_acked_base == 0 && h.in_flight == 0 && !h.done
                && h.finish_time == 0
            &&& h.cwnd == e.init_cwnd && h.ssthresh == 64
            &&& h.dup_ack_count == 0 && h.ca_ack_count == 0
            &&& !h.fast_recovery && h.recovery_inflation == 0
            &&& h.send_times == Map::<SeqNum, u64>::empty()
            &&& h.retransmit_queue == Seq::<SeqNum>::empty()
            &&& forall|o: FlowId|
                o != id ==> (#[trigger] g.tx.contains_key(o) <==> e.tx.contains_key(o))
            &&& forall|o: FlowId| o != id && e.tx.contains_key(o) ==> #[trigger] g.tx[o] == e.tx[o]
            &&& g == (EndpointView { tx: g.tx, ..e })
        }),
{
}

/// The timeout of a packet in flight runs from when it has really left the NIC; a packet that is not in
/// flight is not taken up again.
pub proof fn law_reno_departure_is_noted(
    pre: TcpReno,
    post: TcpReno,
    id: FlowId,
    seq: SeqNum,
    at: u64,
)
    requires
        pre.noted_departure(&post, id, seq, at),
        pre@.tx.contains_key(id),
    ensures
        ({
            let (e, g) = (pre@, post@);
            let (f, h) = (e.tx[id], g.tx[id]);
            &&& h == (TxView { send_times: h.send_times, ..f })
            &&& h.send_times.dom() == f.send_times.dom()
            &&& f.send_times.contains_key(seq) ==> h.send_times[seq] == at
            &&& forall|s: SeqNum|
                f.send_times.contains_key(s) && s != seq ==> #[trigger] h.send_times[s]
                    == f.send_times[s]
            &&& changes_one_flow(e, g, id)
            &&& g.finished == e.finished && g.stats == e.stats
        }),
{
    let f = pre@.tx[id];
    assert(super::sender::departed(f.send_times, seq, at).dom() =~= f.send_times.dom());
}

/// The next timeout is that of the packet in flight, of a flow that is not complete, that was sent
/// first; there is none without such a packet.
pub proof fn law_reno_first_timeout(t: TcpReno, at: Option<u64>)
    requires
        t.times_out(at),
    ensures
        ({
            let e = t@;
            &&& forall|id: FlowId, s: SeqNum|
                e.tx.contains_key(id) && !e.tx[id].done && (
                #[trigger] e.tx[id].send_times.contains_key(s)) ==> at is Some && (at->0
                    <= e.tx[id].send_times[s] + e.rto_ns)
            &&& at is Some && at->0 < u64::MAX ==> exists|id: FlowId, s: SeqNum|
                e.tx.contains_key(id) && !e.tx[id].done && (
                #[trigger] e.tx[id].send_times.contains_key(s)) && at->0
                    == e.tx[id].send_times[s] + e.rto_ns
            &&& at is Some ==> exists|id: FlowId, s: SeqNum|
                e.tx.contains_key(id) && !e.tx[id].done && (
                #[trigger] e.tx[id].send_times.contains_key(s))
        }),
{
    let e = t@;
    let rto = e.rto_ns;
    assert forall|id: FlowId, s: SeqNum|
        e.tx.contains_key(id) && !e.tx[id].done && (
        #[trigger] e.tx[id].send_times.contains_key(s)) implies at is Some && (at->0
        <= e.tx[id].send_times[s] + e.rto_ns) by {
        assert(times_out_at::<FlowTxState>(
            e.tx,
            id,
            s,
            rto,
            e.tx[id].send_times[s].saturating_add(rto),
        ));
    }
    if at is Some {
        let (id, s) = choose|id: FlowId, s: SeqNum| #[trigger]
            times_out_at::<FlowTxState>(e.tx, id, s, rto, at->0);
        assert(times_out_at::<FlowTxState>(e.tx, id, s, rto, at->0));
        assert(e.tx[id].send_times.contains_key(s));
    }
}

/// There is something to send if a flow that is not complete has packets to send again, or has room in
/// its window and packets left. All is done if there are flows and each of them is complete.
pub proof fn law_reno_work_and_end(t: TcpReno)
    ensures
        t.has_work() <==> exists|id: FlowId| #[trigger]
            t@.tx.contains_key(id) && !t@.tx[id].done && (t@.tx[id].retransmit_queue.len() > 0 || (
            t@.tx[id].in_flight < t@.tx[id].cwnd && t@.tx[id].next_seq < t@.tx[id].total_packets)),
        t.is_done() <==> (exists|id: FlowId| #[trigger] t@.tx.contains_key(id)) && (forall|id: FlowId|
            #[trigger] t@.tx.contains_key(id) ==> t@.tx[id].done),
{
    let e = t@;
    if exists|id: FlowId| #[trigger] e.tx.contains_key(id) {
        let id = choose|id: FlowId| #[trigger] e.tx.contains_key(id);
        assert(e.tx.dom().contains(id));
    } else {
        assert(e.tx.dom() =~= Set::empty());
    }
    if !e.tx.dom().is_empty() {
        assert(exists|id: FlowId| e.tx.dom().contains(id)) by {
            if forall|id: FlowId| !e.tx.dom().contains(id) {
                assert(e.tx.dom() =~= Set::empty());
            }
        }
    }
}

/// The completed flows are handed out once, and nothing else changes. The counters that are shown are
/// those that are kept, and a window-based sender has no time before which it may not send.
pub proof fn law_reno_hands_out_completions(
    pre: TcpReno,
    post: TcpReno,
    out: Seq<(FlowId, u64)>,
    at: Option<u64>,
)
    requires
        pre.finishes(&post, out),
        pre.paced_until(at),
    ensures
        out == pre@.finished,
        post@.finished.len() == 0,
        post@ == (EndpointView { finished: post@.finished, ..pre@ }),
        pre.counters() == pre@.stats,
        at is None,
{
}

} // verus!
