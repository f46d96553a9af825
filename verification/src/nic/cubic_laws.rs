//! What holds of TCP CUBIC.
use crate::network::packet::{FlowId, SeqNum};
use crate::EntityId;
use vstd::prelude::*;

verus! {

use super::endpoint::EndpointView;
use super::endpoint_laws::{
    acknowledges_data, changes_one_flow, forgets, just_holds, law_data_is_acknowledged,
    reports_completion,
};
use super::protocol::ProtocolStats;
use super::send_laws::{
    are_fresh_data, keeps_to_window, lemma_burst_keeps_to_window, lemma_late, lemma_resent,
    lemma_stamped, lemma_tick, lists_late, seqs_of,
};
use super::sender::{all_outgoing, times_out_at};
use super::cubic::{acknowledged, departure_noted, fresh_tx, FlowTxState, TxView};
use crate::network::packet::PacketView;
use crate::util::{ascending, law_listing_ascends};

/// An acknowledgement of new packets moves the flow on to the first that is still missing, and takes the
/// acknowledged packets out of flight. It completes the flow once nothing is missing, which is noted
/// with its time, reported and counted. No other flow is touched.
pub proof fn law_cubic_ack_moves_flow_on(
    e: EndpointView<TxView>,
    id: FlowId,
    seq: SeqNum,
    ecn: bool,
    now: u64,
)
    requires
        e.tx.contains_key(id),
        seq > e.tx[id].un_acked_base,
    ensures
        ({
            let g = acknowledged(e, id, seq, ecn, now);
            let (f, h) = (e.tx[id], g.tx[id]);
            let completes = seq >= f.total_packets && !f.done;
            &&& h.un_acked_base == seq
            &&& h.in_flight == if f.in_flight > seq - f.un_acked_base {
                f.in_flight - (seq - f.un_acked_base)
            } else {
                0
            }
            &&& forgets(f.send_times, h.send_times, f.un_acked_base, seq)
            &&& h.dup_ack_count == 0
            &&& h.retransmit_queue == f.retransmit_queue
            &&& h.next_seq == f.next_seq
            &&& h.total_packets == f.total_packets
            &&& h.flow_id == f.flow_id && h.dst == f.dst && h.start_time == f.start_time
            &&& h.done == (f.done || completes)
            &&& h.finish_time == if completes {
                now
            } else {
                f.finish_time
            }
            &&& changes_one_flow(e, g, id)
            &&& reports_completion(e, g, f.flow_id, now, completes)
        }),
{
}

/// An acknowledgement of less than is known already changes nothing.
pub proof fn law_cubic_old_ack_changes_nothing(
    e: EndpointView<TxView>,
    id: FlowId,
    seq: SeqNum,
    ecn: bool,
    now: u64,
)
    requires
        e.tx.contains_key(id),
        seq < e.tx[id].un_acked_base,
        e.tx[id].done || e.tx[id].un_acked_base < e.tx[id].total_packets,
    ensures
        ({
            let g = acknowledged(e, id, seq, ecn, now);
            let (f, h) = (e.tx[id], g.tx[id]);
            &&& h == f
            &&& g == e
        }),
{
    assert(acknowledged(e, id, seq, ecn, now) =~= e);
}

/// An acknowledgement for a flow that the sender does not know changes nothing.
pub proof fn law_cubic_unknown_flow_changes_nothing(
    e: EndpointView<TxView>,
    id: FlowId,
    seq: SeqNum,
    ecn: bool,
    now: u64,
)
    requires
        !e.tx.contains_key(id),
    ensures
        acknowledged(e, id, seq, ecn, now) == e,
{
}

/// Slow start: an unmarked acknowledgement of new packets that finds the window below the threshold, outside
/// fast recovery,
/// widens it by their number, up to the largest window. So a window below the largest grows.
pub proof fn law_cubic_slow_start(
    e: EndpointView<TxView>,
    id: FlowId,
    seq: SeqNum,
    ecn: bool,
    now: u64,
)
    requires
        e.tx.contains_key(id),
        seq > e.tx[id].un_acked_base,
        !ecn,
        !e.tx[id].fast_recovery,
        e.tx[id].cwnd < e.tx[id].ssthresh,
    ensures
        ({
            let g = acknowledged(e, id, seq, ecn, now);
            let (f, h) = (e.tx[id], g.tx[id]);
            let delta = seq - f.un_acked_base;
            &&& h.cwnd == if f.cwnd + delta < e.max_cwnd {
                f.cwnd + delta
            } else {
                e.max_cwnd as int
            }
            &&& f.cwnd < e.max_cwnd ==> h.cwnd > f.cwnd
            &&& h.ssthresh == f.ssthresh
            &&& h.ca_ack_count == f.ca_ack_count
            &&& h.fast_recovery == f.fast_recovery && h.recovery_inflation == f.recovery_inflation
            &&& h.w_max_pkts == f.w_max_pkts && h.epoch_start_ns == f.epoch_start_ns
            &&& h.cwnd_accum_bits == f.cwnd_accum_bits
            &&& h.fast_convergence_applied == f.fast_convergence_applied
        }),
{
}

/// An acknowledgement of new packets that carries a congestion mark is a loss: three tenths of the window
/// are left of it, but not less than its least, and slow start ends there. In fast recovery the window
/// is first taken back to the threshold. The window to grow back to is the one at the loss or, if the
/// loss before found a larger one, less in proportion. Growth starts again from now on.
pub proof fn law_cubic_marked_ack_reduces_window(
    e: EndpointView<TxView>,
    id: FlowId,
    seq: SeqNum,
    ecn: bool,
    now: u64,
)
    requires
        e.tx.contains_key(id),
        seq > e.tx[id].un_acked_base,
        ecn,
    ensures
        ({
            let g = acknowledged(e, id, seq, ecn, now);
            let (f, h) = (e.tx[id], g.tx[id]);
            let w = if f.fast_recovery {
                f.ssthresh
            } else {
                f.cwnd
            };
            let left = if w * 3 / 10 > e.min_cwnd {
                w * 3 / 10
            } else {
                e.min_cwnd as int
            };
            &&& h.cwnd == left
            &&& h.ssthresh == left
            &&& h.w_max_pkts == if w < f.w_max_pkts {
                (w * w) / f.w_max_pkts as int
            } else {
                w as int
            }
            &&& h.fast_convergence_applied == (w < f.w_max_pkts)
            &&& h.epoch_start_ns == now
            &&& h.cwnd_accum_bits == 0
            &&& h.ca_ack_count == 0
            &&& !h.fast_recovery
        }),
{
    let f = e.tx[id];
    lemma_square_share(
        if f.fast_recovery {
            f.ssthresh
        } else {
            f.cwnd
        },
        f.w_max_pkts,
    );
}

/// Congestion avoidance: an unmarked acknowledgement of new packets that finds the window at the threshold
/// or above, outside fast recovery, leaves the window to the cubic function. Without a loss before,
/// the window to grow back to is the present one.
pub proof fn law_cubic_congestion_avoidance(
    e: EndpointView<TxView>,
    id: FlowId,
    seq: SeqNum,
    ecn: bool,
    now: u64,
)
    requires
        e.tx.contains_key(id),
        seq > e.tx[id].un_acked_base,
        !ecn,
        !e.tx[id].fast_recovery,
        e.tx[id].cwnd >= e.tx[id].ssthresh,
    ensures
        ({
            let g = acknowledged(e, id, seq, ecn, now);
            let (f, h) = (e.tx[id], g.tx[id]);
            &&& h.cwnd == f.cwnd
            &&& h.ssthresh == f.ssthresh
            &&& h.w_max_pkts == if f.w_max_pkts == 0 {
                f.cwnd
            } else {
                f.w_max_pkts
            }
            &&& h.epoch_start_ns == f.epoch_start_ns
            &&& h.cwnd_accum_bits == f.cwnd_accum_bits
            &&& h.ca_ack_count == f.ca_ack_count
            &&& h.fast_convergence_applied == f.fast_convergence_applied
            &&& h.fast_recovery == f.fast_recovery && h.recovery_inflation == f.recovery_inflation
        }),
{
}

/// The cubic function is asked for in congestion avoidance, and only there: for an unmarked
/// acknowledgement of new packets, outside fast recovery, when the window is at the threshold or
/// above. It is told the window, the window to grow back to, the number of packets acknowledged,
/// the time since the last loss and the round-trip time, which is at least one.
pub proof fn law_cubic_growth_is_asked_for(
    e: EndpointView<TxView>,
    id: FlowId,
    seq: SeqNum,
    ecn: bool,
    now: u64,
)
    requires
        e.tx.contains_key(id),
    ensures
        ({
            let f = e.tx[id];
            let h = acknowledged(e, id, seq, ecn, now).tx[id];
            let asked = f.growth_asked(seq, ecn, now);
            &&& asked is Some <==> seq > f.un_acked_base && !ecn && !f.fast_recovery && f.cwnd
                >= f.ssthresh
            &&& asked is Some ==> {
                &&& asked->0.flow_id == f.flow_id
                &&& asked->0.acked == seq - f.un_acked_base
                &&& asked->0.cwnd == f.cwnd
                &&& asked->0.w_max_pkts == h.w_max_pkts
                &&& asked->0.elapsed_ns == if now > f.epoch_start_ns {
                    now - f.epoch_start_ns
                } else {
                    0
                }
                &&& asked->0.rtt_ns == if h.rtt_estimate_ns > 1 {
                    h.rtt_estimate_ns
                } else {
                    1
                }
                &&& asked->0.cwnd_accum_bits == f.cwnd_accum_bits
            }
        }),
{
}

/// Growth widens the window by what the cubic function gives, up to the largest window, and never
/// shrinks it.
pub proof fn law_cubic_growth(f: TxView, steps: u32, bits: u64, max_cwnd: u32)
    ensures
        ({
            let h = f.grown(steps, bits, max_cwnd);
            &&& h.cwnd >= f.cwnd
            &&& f.cwnd < max_cwnd ==> h.cwnd == if f.cwnd + steps < max_cwnd {
                f.cwnd + steps
            } else {
                max_cwnd as int
            }
            &&& f.cwnd >= max_cwnd ==> h.cwnd == f.cwnd
            &&& h.cwnd_accum_bits == bits
            &&& h == (TxView { cwnd: h.cwnd, cwnd_accum_bits: bits, ..f })
        }),
{
}

/// An acknowledgement of new packets measures the round trip by the first of them, if it is in flight: the
/// first measurement is the estimate, and a later one counts for an eighth of it.
pub proof fn law_cubic_round_trip_is_measured(
    e: EndpointView<TxView>,
    id: FlowId,
    seq: SeqNum,
    ecn: bool,
    now: u64,
)
    requires
        e.tx.contains_key(id),
        seq > e.tx[id].un_acked_base,
    ensures
        ({
            let g = acknowledged(e, id, seq, ecn, now);
            let (f, h) = (e.tx[id], g.tx[id]);
            let sample = if now > f.send_times[f.un_acked_base] {
                now - f.send_times[f.un_acked_base]
            } else {
                0
            };
            if f.send_times.contains_key(f.un_acked_base) {
                &&& h.rtt_valid
                &&& h.rtt_estimate_ns == if f.rtt_valid {
                    (7 * f.rtt_estimate_ns + sample) / 8
                } else {
                    sample
                }
            } else {
                h.rtt_valid == f.rtt_valid && h.rtt_estimate_ns == f.rtt_estimate_ns
            }
        }),
{
}

/// An unmarked acknowledgement of new packets ends fast recovery: the window is taken back to the
/// threshold, without what duplicates have added to it.
pub proof fn law_cubic_ack_ends_fast_recovery(
    e: EndpointView<TxView>,
    id: FlowId,
    seq: SeqNum,
    ecn: bool,
    now: u64,
)
    requires
        e.tx.contains_key(id),
        seq > e.tx[id].un_acked_base,
        !ecn,
        e.tx[id].fast_recovery,
    ensures
        ({
            let g = acknowledged(e, id, seq, ecn, now);
            let (f, h) = (e.tx[id], g.tx[id]);
            &&& h.cwnd == f.ssthresh
            &&& h.ssthresh == f.ssthresh
            &&& !h.fast_recovery
            &&& h.recovery_inflation == 0
            &&& h.ca_ack_count == f.ca_ack_count
            &&& h.w_max_pkts == f.w_max_pkts && h.epoch_start_ns == f.epoch_start_ns
            &&& h.cwnd_accum_bits == f.cwnd_accum_bits
            &&& h.fast_convergence_applied == f.fast_convergence_applied
        }),
{
}

/// The first two duplicate acknowledgements in a row are counted, and change nothing else.
pub proof fn law_cubic_two_duplicates_are_counted(
    e: EndpointView<TxView>,
    id: FlowId,
    seq: SeqNum,
    ecn: bool,
    now: u64,
)
    requires
        e.tx.contains_key(id),
        seq == e.tx[id].un_acked_base,
        e.tx[id].done || e.tx[id].un_acked_base < e.tx[id].total_packets,
        !e.tx[id].fast_recovery,
        e.tx[id].dup_ack_count < 2,
    ensures
        ({
            let g = acknowledged(e, id, seq, ecn, now);
            let (f, h) = (e.tx[id], g.tx[id]);
            &&& h.dup_ack_count == f.dup_ack_count + 1
            &&& h == (TxView { dup_ack_count: h.dup_ack_count, ..f })
            &&& changes_one_flow(e, g, id)
            &&& g.finished == e.finished && g.stats == e.stats
        }),
{
}

/// The third duplicate acknowledgement in a row is a loss: three tenths of the window are left as the
/// threshold, and the window is three packets more, up to the largest. Fast recovery begins, and the
/// first missing packet is queued to be sent again, once.
pub proof fn law_cubic_third_duplicate_is_a_loss(
    e: EndpointView<TxView>,
    id: FlowId,
    seq: SeqNum,
    ecn: bool,
    now: u64,
)
    requires
        e.tx.contains_key(id),
        seq == e.tx[id].un_acked_base,
        e.tx[id].done || e.tx[id].un_acked_base < e.tx[id].total_packets,
        !e.tx[id].fast_recovery,
        e.tx[id].dup_ack_count == 2,
    ensures
        ({
            let g = acknowledged(e, id, seq, ecn, now);
            let (f, h) = (e.tx[id], g.tx[id]);
            let left = if f.cwnd * 3 / 10 > e.min_cwnd {
                f.cwnd * 3 / 10
            } else {
                e.min_cwnd as int
            };
            &&& h.dup_ack_count == 3
            &&& h.ssthresh == left
            &&& left + 3 <= u32::MAX ==> h.cwnd == if left + 3 < e.max_cwnd {
                left + 3
            } else {
                e.max_cwnd as int
            }
            &&& h.w_max_pkts == if f.cwnd < f.w_max_pkts {
                (f.cwnd * f.cwnd) / f.w_max_pkts as int
            } else {
                f.cwnd as int
            }
            &&& h.fast_convergence_applied == (f.cwnd < f.w_max_pkts)
            &&& h.epoch_start_ns == now
            &&& h.cwnd_accum_bits == 0
            &&& f.retransmit_queue.contains(f.un_acked_base) ==> h.retransmit_queue
                == f.retransmit_queue
            &&& !f.retransmit_queue.contains(f.un_acked_base) ==> h.retransmit_queue
                == f.retransmit_queue.push(f.un_acked_base)
            &&& h.fast_recovery
            &&& h.recovery_inflation == 0
            &&& h.un_acked_base == f.un_acked_base && h.next_seq == f.next_seq && h.in_flight
                == f.in_flight && h.send_times == f.send_times && h.ca_ack_count == f.ca_ack_count
                && h.done == f.done
            &&& changes_one_flow(e, g, id)
            &&& g.finished == e.finished
        }),
{
    lemma_square_share(e.tx[id].cwnd, e.tx[id].w_max_pkts);
}

/// In fast recovery every duplicate acknowledgement widens the window by one packet, up to the largest, and
/// is counted as inflation.
pub proof fn law_cubic_duplicates_widen_window_in_recovery(
    e: EndpointView<TxView>,
    id: FlowId,
    seq: SeqNum,
    ecn: bool,
    now: u64,
)
    requires
        e.tx.contains_key(id),
        seq == e.tx[id].un_acked_base,
        e.tx[id].done || e.tx[id].un_acked_base < e.tx[id].total_packets,
        e.tx[id].fast_recovery,
    ensures
        ({
            let g = acknowledged(e, id, seq, ecn, now);
            let (f, h) = (e.tx[id], g.tx[id]);
            &&& h.cwnd == if f.cwnd + 1 < e.max_cwnd {
                f.cwnd + 1
            } else {
                e.max_cwnd as int
            }
            &&& f.dup_ack_count < u32::MAX ==> h.dup_ack_count == f.dup_ack_count + 1
            &&& f.recovery_inflation < u32::MAX ==> h.recovery_inflation == f.recovery_inflation + 1
            &&& h == (TxView {
                dup_ack_count: h.dup_ack_count,
                cwnd: h.cwnd,
                recovery_inflation: h.recovery_inflation,
                ..f
            })
            &&& changes_one_flow(e, g, id)
            &&& g.finished == e.finished
        }),
{
}

/// Without fast recovery a duplicate acknowledgement after the third in a row is only counted.
pub proof fn law_cubic_later_duplicates_are_counted(
    e: EndpointView<TxView>,
    id: FlowId,
    seq: SeqNum,
    ecn: bool,
    now: u64,
)
    requires
        e.tx.contains_key(id),
        seq == e.tx[id].un_acked_base,
        e.tx[id].done || e.tx[id].un_acked_base < e.tx[id].total_packets,
        !e.tx[id].fast_recovery,
        3 <= e.tx[id].dup_ack_count < u32::MAX,
    ensures
        ({
            let g = acknowledged(e, id, seq, ecn, now);
            let (f, h) = (e.tx[id], g.tx[id]);
            &&& h.dup_ack_count == f.dup_ack_count + 1
            &&& h == (TxView { dup_ack_count: h.dup_ack_count, ..f })
            &&& changes_one_flow(e, g, id)
            &&& g.finished == e.finished && g.stats == e.stats
        }),
{
}

/// On a tick a flow that is not complete sends what its window allows. A packet that has been in
/// flight for at least the timeout is a loss: half the window becomes the threshold, but not less
/// than the least window, and the window starts again from its first width.
pub proof fn law_cubic_tick_of_flow(
    e: EndpointView<TxView>,
    now: u64,
    id: FlowId,
    late: Seq<SeqNum>,
)
    requires
        e.tx.contains_key(id),
        !e.tx[id].done,
        lists_late(
            late,
            e.tx[id].send_times,
            e.tx[id].retransmit_queue,
            now,
            e.rto_ns,
            false,
        ),
    ensures
        ({
            let (g, out) = super::endpoint::endpoint_ticked::<FlowTxState>(e, now);
            let (f, h) = (e.tx[id], g.tx[id]);
            &&& keeps_to_window(
                f.cwnd,
                f.total_packets,
                late,
                now,
                (f.in_flight, h.in_flight),
                (f.next_seq, h.next_seq),
                (f.retransmit_queue, h.retransmit_queue),
                (f.send_times, h.send_times),
                seqs_of(out, id),
            )
            &&& late.len() > 0 ==> {
                &&& h.ssthresh == if f.cwnd / 2 > e.min_cwnd {
                    f.cwnd / 2
                } else {
                    e.min_cwnd
                }
                &&& h.cwnd == e.init_cwnd
                &&& h.dup_ack_count == 0
                &&& h.ca_ack_count == 0
                &&& !h.fast_recovery
                &&& h.recovery_inflation == 0
            }
            &&& late.len() == 0 ==> h.ssthresh == f.ssthresh && h.cwnd == f.cwnd && h.dup_ack_count
                == f.dup_ack_count && h.ca_ack_count == f.ca_ack_count && h.fast_recovery == f.fast_recovery
            &&& late.len() > 0 ==> {
                &&& h.w_max_pkts == if f.cwnd < f.w_max_pkts {
                    (f.cwnd * f.cwnd) / f.w_max_pkts as int
                } else {
                    f.cwnd as int
                }
                &&& h.fast_convergence_applied == (f.cwnd < f.w_max_pkts)
                &&& h.epoch_start_ns == now
                &&& h.cwnd_accum_bits == 0
            }
            &&& late.len() == 0 ==> h.w_max_pkts == f.w_max_pkts && h.epoch_start_ns
                == f.epoch_start_ns && h.cwnd_accum_bits == f.cwnd_accum_bits
            &&& h.rtt_estimate_ns == f.rtt_estimate_ns && h.rtt_valid == f.rtt_valid
            &&& h.un_acked_base == f.un_acked_base && h.total_packets == f.total_packets && !h.done
                && h.flow_id == f.flow_id && h.dst == f.dst && h.start_time == f.start_time
                && h.finish_time == f.finish_time
        }),
{
    let (g, out) = super::endpoint::endpoint_ticked::<FlowTxState>(e, now);
    let f = e.tx[id];
    let p = e.params(now);
    lemma_late(late, f.send_times, f.retransmit_queue, now, e.rto_ns, false);
    lemma_stamped(all_outgoing::<FlowTxState>(e.tx, p), e.next_packet_id, e.host_id, now);
    lemma_tick::<FlowTxState>(e.tx, p, out, id);
    lemma_burst_keeps_to_window(f.window(), late, f.cwnd, f.total_packets, now);
    lemma_square_share(f.cwnd, f.w_max_pkts);
}

/// What goes out on a tick are full-sized data packets from this host, numbered one after the other, of
/// flows that are not complete and to where these go. All of them are counted, and apart those that had
/// been sent before. Complete flows do not change, and neither does anything but the flows.
pub proof fn law_cubic_tick_sends_data(
    e: EndpointView<TxView>,
    now: u64,
)
    requires
        forall|id: FlowId, s: SeqNum| #[trigger]
            e.tx.contains_key(id) && (#[trigger] e.tx[id].retransmit_queue.contains(s)) ==> s
                < e.tx[id].next_seq,
        forall|id: FlowId, s: SeqNum| #[trigger]
            e.tx.contains_key(id) && (#[trigger] e.tx[id].send_times.contains_key(s)) ==> s
                < e.tx[id].next_seq,
    ensures
        ({
            let (g, out) = super::endpoint::endpoint_ticked::<FlowTxState>(e, now);
            let again = out.filter(|q: PacketView| q.seq < e.tx[q.flow_id].next_seq).len();
            &&& are_fresh_data(out, e.next_packet_id, e.host_id, now)
            &&& forall|k: int|
                0 <= k < out.len() ==> e.tx.contains_key((#[trigger] out[k]).flow_id)
                    && !e.tx[out[k].flow_id].done && out[k].dst == e.tx[out[k].flow_id].dst
                    && out[k].routing_tag == 0
            &&& g.next_packet_id == (e.next_packet_id + out.len()) % 0x1_0000_0000_0000_0000
            &&& e.stats.packets_sent + out.len() <= u64::MAX ==> g.stats.packets_sent
                == e.stats.packets_sent + out.len()
            &&& e.stats.packets_retransmitted + again <= u64::MAX ==> g.stats.packets_retransmitted
                == e.stats.packets_retransmitted + again
            &&& g.stats == (ProtocolStats {
                packets_sent: g.stats.packets_sent,
                packets_retransmitted: g.stats.packets_retransmitted,
                ..e.stats
            })
            &&& g.tx.dom() == e.tx.dom()
            &&& forall|id: FlowId| #[trigger]
                e.tx.contains_key(id) && e.tx[id].done ==> g.tx[id] == e.tx[id]
            &&& g == (EndpointView {
                tx: g.tx,
                stats: g.stats,
                next_packet_id: g.next_packet_id,
                ..e
            })
        }),
{
    let (g, out) = super::endpoint::endpoint_ticked::<FlowTxState>(e, now);
    let p = e.params(now);
    let order = ascending(e.tx.dom());
    let nexts = e.tx.map_values(|f: TxView| f.next_seq);
    lemma_stamped(all_outgoing::<FlowTxState>(e.tx, p), e.next_packet_id, e.host_id, now);
    lemma_tick::<FlowTxState>(e.tx, p, out, 0);
    law_listing_ascends(e.tx.dom());
    assert forall|i: int| 0 <= i < order.len() implies {
        let f = e.tx[#[trigger] order[i]];
        let t = f.after_tick(p);
        &&& nexts[order[i]] == f.next_seq
        &&& forall|k: int| 0 <= k < t.resend.len() ==> #[trigger] t.resend[k] < f.next_seq
        &&& forall|k: int| 0 <= k < t.fresh.len() ==> #[trigger] t.fresh[k] >= f.next_seq
    } by {
        let f = e.tx[order[i]];
        let t = f.after_tick(p);
        assert(order.contains(order[i]));
        assert(e.tx.contains_key(order[i]));
        let late = f.late(p);
        law_listing_ascends(
            super::sender::overdue_set(f.send_times, f.retransmit_queue, now, e.rto_ns, false),
        );
        let queue = f.retransmit_queue + late;
        assert forall|k: int| 0 <= k < t.resend.len() implies #[trigger] t.resend[k]
            < f.next_seq by {
            assert(t.resend[k] == queue[k]);
            if k < f.retransmit_queue.len() {
                assert(f.retransmit_queue.contains(queue[k]));
            } else {
                assert(late.contains(queue[k]));
            }
        }
    }
    lemma_resent::<FlowTxState>(order, e.tx, p, out, nexts);
    assert(out.filter(|q: PacketView| q.seq < e.tx[q.flow_id].next_seq) =~= out.filter(
        |q: PacketView| q.seq < nexts[q.flow_id],
    )) by {
        lemma_same_filter(out, e.tx, nexts);
    }
    assert(g.tx.dom() =~= e.tx.dom());
}

/// The numbers that the flows would send next tell the same packets apart, wherever they are kept.
proof fn lemma_same_filter(
    out: Seq<PacketView>,
    tx: Map<FlowId, TxView>,
    nexts: Map<FlowId, SeqNum>,
)
    requires
        nexts == tx.map_values(|f: TxView| f.next_seq),
        forall|k: int| 0 <= k < out.len() ==> tx.contains_key((#[trigger] out[k]).flow_id),
    ensures
        out.filter(|q: PacketView| q.seq < tx[q.flow_id].next_seq) == out.filter(
            |q: PacketView| q.seq < nexts[q.flow_id],
        ),
    decreases out.len(),
{
    reveal(Seq::filter);
    if out.len() > 0 {
        assert forall|k: int| 0 <= k < out.drop_last().len() implies tx.contains_key(
            (#[trigger] out.drop_last()[k]).flow_id,
        ) by {
            assert(tx.contains_key(out[k].flow_id));
        }
        lemma_same_filter(out.drop_last(), tx, nexts);
        assert(tx.contains_key(out[out.len() - 1].flow_id));
    }
}

/// A data packet is acknowledged.
pub proof fn law_cubic_acknowledges_data(e: EndpointView<TxView>, pkt: PacketView, now: u64)
    ensures
        acknowledges_data(e, e.received(pkt, now).0, pkt, now, e.received(pkt, now).1),
{
    law_data_is_acknowledged(e, pkt, now);
}

/// A flow begins with nothing sent, with as many packets as its bytes need, and with the first window
/// and the first threshold. No other flow is touched.
pub proof fn law_cubic_flow_starts(
    e: EndpointView<TxView>,
    id: FlowId,
    dst: EntityId,
    bytes: u64,
    now: u64,
)
    ensures
        ({
            let g = e.with_flow(
                id,
                fresh_tx(id, dst, super::sender::packets_for(bytes), e.init_cwnd, now),
            );
            let h = g.tx[id];
            &&& g.tx.contains_key(id)
            &&& h.flow_id == id && h.dst == dst && h.start_time == now
            &&& just_holds(h.total_packets, bytes)
            &&& h.next_seq == 0 && h.un_acked_base == 0 && h.in_flight == 0 && !h.done
                && h.finish_time == 0
            &&& h.cwnd == e.init_cwnd && h.ssthresh == 64
            &&& h.dup_ack_count == 0 && h.ca_ack_count == 0
            &&& !h.fast_recovery && h.recovery_inflation == 0
            &&& h.w_max_pkts == 0 && h.epoch_start_ns == 0 && h.cwnd_accum_bits == 0
            &&& h.rtt_estimate_ns == 100_000 && !h.rtt_valid
            &&& h.send_times == Map::<SeqNum, u64>::empty()
            &&& h.retransmit_queue == Seq::<SeqNum>::empty()
            &&& forall|o: FlowId|
                o != id ==> (#[trigger] g.tx.contains_key(o) <==> e.tx.contains_key(o))
            &&& forall|o: FlowId| o != id && e.tx.contains_key(o) ==> #[trigger] g.tx[o] == e.tx[o]
            &&& g == (EndpointView { tx: g.tx, ..e })
        }),
{
}

/// The timeout of a packet in flight runs from when it has really left the NIC; a packet that is not in
/// flight is not taken up again.
pub proof fn law_cubic_departure_is_noted(
    e: EndpointView<TxView>,
    id: FlowId,
    seq: SeqNum,
    at: u64,
)
    requires
        e.tx.contains_key(id),
    ensures
        ({
            let g = departure_noted(e, id, seq, at);
            let (f, h) = (e.tx[id], g.tx[id]);
            &&& h == (TxView { send_times: h.send_times, ..f })
            &&& h.send_times.dom() == f.send_times.dom()
            &&& f.send_times.contains_key(seq) ==> h.send_times[seq] == at
            &&& forall|s: SeqNum|
                f.send_times.contains_key(s) && s != seq ==> #[trigger] h.send_times[s]
                    == f.send_times[s]
            &&& changes_one_flow(e, g, id)
            &&& g.finished == e.finished && g.stats == e.stats
        }),
{
    let f = e.tx[id];
    assert(super::sender::departed(f.send_times, seq, at).dom() =~= f.send_times.dom());
}

/// The next timeout is that of the packet in flight, of a flow that is not complete, that was sent
/// first; there is none without such a packet.
pub proof fn law_cubic_first_timeout(e: EndpointView<TxView>, at: Option<u64>)
    requires
        super::sender::is_first_deadline::<FlowTxState>(e.tx, e.rto_ns, at),
    ensures
        ({
            &&& forall|id: FlowId, s: SeqNum|
                e.tx.contains_key(id) && !e.tx[id].done && (
                #[trigger] e.tx[id].send_times.contains_key(s)) ==> at is Some && (at->0
                    <= e.tx[id].send_times[s] + e.rto_ns)
            &&& at is Some && at->0 < u64::MAX ==> exists|id: FlowId, s: SeqNum|
                e.tx.contains_key(id) && !e.tx[id].done && (
                #[trigger] e.tx[id].send_times.contains_key(s)) && at->0
                    == e.tx[id].send_times[s] + e.rto_ns
            &&& at is Some ==> exists|id: FlowId, s: SeqNum|
                e.tx.contains_key(id) && !e.tx[id].done && (
                #[trigger] e.tx[id].send_times.contains_key(s))
        }),
{
    let rto = e.rto_ns;
    assert forall|id: FlowId, s: SeqNum|
        e.tx.contains_key(id) && !e.tx[id].done && (
        #[trigger] e.tx[id].send_times.contains_key(s)) implies at is Some && (at->0
        <= e.tx[id].send_times[s] + e.rto_ns) by {
        assert(times_out_at::<FlowTxState>(
            e.tx,
            id,
            s,
            rto,
            e.tx[id].send_times[s].saturating_add(rto),
        ));
    }
    if at is Some {
        let (id, s) = choose|id: FlowId, s: SeqNum| #[trigger]
            times_out_at::<FlowTxState>(e.tx, id, s, rto, at->0);
        assert(times_out_at::<FlowTxState>(e.tx, id, s, rto, at->0));
        assert(e.tx[id].send_times.contains_key(s));
    }
}

/// There is something to send if a flow that is not complete has packets to send again, or has room in
/// its window and packets left. All is done if there are flows and each of them is complete.
pub proof fn law_cubic_work_and_end(e: EndpointView<TxView>)
    ensures
        super::sender::any_work::<FlowTxState>(e.tx) <==> exists|id: FlowId| #[trigger]
            e.tx.contains_key(id) && !e.tx[id].done && (e.tx[id].retransmit_queue.len() > 0 || (
            e.tx[id].in_flight < e.tx[id].cwnd && e.tx[id].next_seq < e.tx[id].total_packets)),
        super::sender::all_done::<FlowTxState>(e.tx) <==> (exists|id: FlowId| #[trigger] e.tx.contains_key(id)) && (forall|id: FlowId|
            #[trigger] e.tx.contains_key(id) ==> e.tx[id].done),
{
    let e = e;
    if exists|id: FlowId| #[trigger] e.tx.contains_key(id) {
        let id = choose|id: FlowId| #[trigger] e.tx.contains_key(id);
        assert(e.tx.dom().contains(id));
    } else {
        assert(e.tx.dom() =~= Set::empty());
    }
    if !e.tx.dom().is_empty() {
        assert(exists|id: FlowId| e.tx.dom().contains(id)) by {
            if forall|id: FlowId| !e.tx.dom().contains(id) {
                assert(e.tx.dom() =~= Set::empty());
            }
        }
    }
}

/// A share of a window in proportion to a larger one is no larger than the window.
proof fn lemma_square_share(w: u32, larger: u32)
    ensures
        w < larger ==> 0 <= (w * w) / larger as int <= w,
{
    if w < larger {
        let (c, d) = (w as int, larger as int);
        let q = c * c / d;
        assert(0 <= q <= c) by (nonlinear_arith)
            requires
                q == c * c / d,
                0 <= c < d,
        ;
    }
}

} // verus!
