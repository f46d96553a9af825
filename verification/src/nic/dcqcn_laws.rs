//! What holds of DCQCN.
use super::dcqcn::DcqcnProtocol;
use super::protocol::Protocol;
use crate::network::packet::{FlowId, PacketKind, SeqNum};
use crate::EntityId;
use vstd::prelude::*;

verus! {

use super::dcqcn::{tick_params, DcqcnView, FlowTxState, TxView};
use super::endpoint_laws::{
    answers_packet, forgets, just_holds, law_receiver_delivers_in_order, takes_in,
};
use super::protocol::ProtocolStats;
use super::receiver::RxView;
use super::send_laws::{
    are_fresh_data, keeps_to_pace, lemma_burst_keeps_to_pace, lemma_late, lemma_resent,
    lemma_stamped, lemma_tick, lists_late, seqs_of,
};
use super::sender::{all_outgoing, may_send_at, times_out_at, PacedView};
use crate::network::packet::PacketView;
use crate::util::{ascending, law_listing_ascends};

/// Flow `id` is all that differs between two states of a host, apart from what is counted and reported
/// of completed flows and of marked acknowledgements.
pub open spec fn changes_one_flow(e: DcqcnView, g: DcqcnView, id: FlowId) -> bool {
    &&& g.tx.dom() =~= e.tx.dom()
    &&& forall|o: FlowId| e.tx.contains_key(o) && o != id ==> #[trigger] g.tx[o] == e.tx[o]
    &&& g.host_id == e.host_id
    &&& g.rx == e.rx
    &&& g.next_packet_id == e.next_packet_id
    &&& g.stats == (ProtocolStats {
        flows_completed: g.stats.flows_completed,
        ecn_ack_received: g.stats.ecn_ack_received,
        ..e.stats
    })
}

/// An acknowledgement of new packets moves the flow on to the first that is still missing and forgets when
/// the acknowledged packets were sent. It completes the flow once nothing is missing, which is noted with
/// its time, reported and counted; a mark is counted too. No other flow is touched.
pub proof fn law_dcqcn_ack_moves_flow_on(
    pre: DcqcnProtocol,
    post: DcqcnProtocol,
    pkt: PacketView,
    now: u64,
)
    requires
        pre.took_control(&post, pkt, now),
        pkt.kind == PacketKind::Control(0),
        pre@.tx.contains_key(pkt.flow_id),
        pkt.seq > pre@.tx[pkt.flow_id].un_acked_base,
    ensures
        ({
            let (e, g) = (pre@, post@);
            let (f, h) = (e.tx[pkt.flow_id], g.tx[pkt.flow_id]);
            let completes = pkt.seq >= f.total_packets && !f.done;
            &&& h.un_acked_base == pkt.seq
            &&& forgets(f.send_times, h.send_times, f.un_acked_base, pkt.seq)
            &&& h.retransmit_queue == f.retransmit_queue
            &&& h.next_seq == f.next_seq
            &&& h.next_tx_time_ns == f.next_tx_time_ns
            &&& h.total_packets == f.total_packets
            &&& h.flow_id == f.flow_id && h.dst == f.dst && h.start_time == f.start_time
            &&& h.done == (f.done || completes)
            &&& h.finish_time == if completes {
                now
            } else {
                f.finish_time
            }
            &&& changes_one_flow(e, g, pkt.flow_id)
            &&& completes ==> g.finished == e.finished.push((f.flow_id, now))
            &&& !completes ==> g.finished == e.finished
            &&& e.stats.flows_completed < u64::MAX ==> g.stats.flows_completed
                == e.stats.flows_completed + if completes {
                1int
            } else {
                0
            }
            &&& e.stats.ecn_ack_received < u64::MAX ==> g.stats.ecn_ack_received
                == e.stats.ecn_ack_received + if pkt.ecn {
                1int
            } else {
                0
            }
        }),
{
}

/// An acknowledgement that acknowledges nothing new changes nothing.
pub proof fn law_dcqcn_old_ack_changes_nothing(
    pre: DcqcnProtocol,
    post: DcqcnProtocol,
    pkt: PacketView,
    now: u64,
)
    requires
        pre.took_control(&post, pkt, now),
        pkt.kind == PacketKind::Control(0),
        pre@.tx.contains_key(pkt.flow_id),
        pkt.seq <= pre@.tx[pkt.flow_id].un_acked_base,
        pre@.tx[pkt.flow_id].done || pre@.tx[pkt.flow_id].un_acked_base < pre@.tx[pkt.flow_id].total_packets,
    ensures
        ({
            let (e, g) = (pre@, post@);
            let (f, h) = (e.tx[pkt.flow_id], g.tx[pkt.flow_id]);
            &&& h == f
            &&& g == e
        }),
{
    assert(post@ =~= pre@);
}

/// Too soon: an unmarked acknowledgement that comes less than 55 microseconds after the last change of the
/// rate is counted, and leaves the rate and its target as they are.
pub proof fn law_dcqcn_ack_too_soon_keeps_rate(
    pre: DcqcnProtocol,
    post: DcqcnProtocol,
    pkt: PacketView,
    now: u64,
)
    requires
        pre.took_control(&post, pkt, now),
        pkt.kind == PacketKind::Control(0),
        pre@.tx.contains_key(pkt.flow_id),
        pkt.seq > pre@.tx[pkt.flow_id].un_acked_base,
        !pkt.ecn,
        now < pre@.tx[pkt.flow_id].last_rate_increase_ns + 55_000,
    ensures
        ({
            let (e, g) = (pre@, post@);
            let (f, h) = (e.tx[pkt.flow_id], g.tx[pkt.flow_id]);
            &&& h.current_rate_bps == f.current_rate_bps
            &&& h.target_rate_bps == f.target_rate_bps
            &&& h.last_rate_increase_ns == f.last_rate_increase_ns
            &&& h.in_fast_recovery == f.in_fast_recovery
            &&& h.alpha == f.alpha
            &&& f.acks_since_cnp < u32::MAX ==> h.acks_since_cnp == f.acks_since_cnp + 1
        }),
{
}

/// Active increase: an unmarked acknowledgement that comes at least 55 microseconds after the last change
/// of the rate, outside fast recovery, raises the target by 100 Mbit/s, up to 100 Gbit/s, and takes the rate
/// half of the way to it. So a rate at its target grows as long as it is two bit/s or more below the largest.
pub proof fn law_dcqcn_ack_raises_target(
    pre: DcqcnProtocol,
    post: DcqcnProtocol,
    pkt: PacketView,
    now: u64,
)
    requires
        pre.took_control(&post, pkt, now),
        pkt.kind == PacketKind::Control(0),
        pre@.tx.contains_key(pkt.flow_id),
        pkt.seq > pre@.tx[pkt.flow_id].un_acked_base,
        !pkt.ecn,
        now >= pre@.tx[pkt.flow_id].last_rate_increase_ns + 55_000,
        !pre@.tx[pkt.flow_id].in_fast_recovery,
        pre@.tx[pkt.flow_id].current_rate_bps <= 100_000_000_000,
    ensures
        ({
            let (e, g) = (pre@, post@);
            let (f, h) = (e.tx[pkt.flow_id], g.tx[pkt.flow_id]);
            let target = if f.target_rate_bps + 100_000_000 < 100_000_000_000 {
                f.target_rate_bps + 100_000_000
            } else {
                100_000_000_000
            };
            &&& h.target_rate_bps == target
            &&& h.current_rate_bps == (f.current_rate_bps + target) / 2
            &&& f.current_rate_bps == f.target_rate_bps && f.current_rate_bps + 2 <= 100_000_000_000
                ==> h.current_rate_bps > f.current_rate_bps
            &&& h.last_rate_increase_ns == now
            &&& !h.in_fast_recovery
            &&& h.alpha == f.alpha
            &&& f.acks_since_cnp < u32::MAX ==> h.acks_since_cnp == f.acks_since_cnp + 1
        }),
{
}

/// Fast recovery: an unmarked acknowledgement that comes at least 55 microseconds after the last change of
/// the rate takes the rate half of the way back to its target, which stays. The fiftieth acknowledgement
/// since the notification, or a later one, ends fast recovery.
pub proof fn law_dcqcn_ack_recovers_rate(
    pre: DcqcnProtocol,
    post: DcqcnProtocol,
    pkt: PacketView,
    now: u64,
)
    requires
        pre.took_control(&post, pkt, now),
        pkt.kind == PacketKind::Control(0),
        pre@.tx.contains_key(pkt.flow_id),
        pkt.seq > pre@.tx[pkt.flow_id].un_acked_base,
        !pkt.ecn,
        now >= pre@.tx[pkt.flow_id].last_rate_increase_ns + 55_000,
        pre@.tx[pkt.flow_id].in_fast_recovery,
        pre@.tx[pkt.flow_id].current_rate_bps <= 100_000_000_000,
        pre@.tx[pkt.flow_id].target_rate_bps <= 100_000_000_000,
        pre@.tx[pkt.flow_id].acks_since_cnp < u32::MAX,
    ensures
        ({
            let (e, g) = (pre@, post@);
            let (f, h) = (e.tx[pkt.flow_id], g.tx[pkt.flow_id]);
            &&& h.target_rate_bps == f.target_rate_bps
            &&& h.current_rate_bps == (f.current_rate_bps + f.target_rate_bps) / 2
            &&& f.current_rate_bps + 2 <= f.target_rate_bps ==> h.current_rate_bps
                > f.current_rate_bps
            &&& h.last_rate_increase_ns == now
            &&& h.acks_since_cnp == f.acks_since_cnp + 1
            &&& h.in_fast_recovery <==> f.acks_since_cnp + 1 < 50
            &&& h.alpha == f.alpha
        }),
{
}

/// A marked acknowledgement of new packets is a congestion notification: three thousandths are added to
/// what is left of the estimate of the congestion, and the rate is cut by half of it, but not below 1 Mbit/s.
/// The rate before becomes the target, and fast recovery begins.
pub proof fn law_dcqcn_marked_ack_cuts_rate(
    pre: DcqcnProtocol,
    post: DcqcnProtocol,
    pkt: PacketView,
    now: u64,
)
    requires
        pre.took_control(&post, pkt, now),
        pkt.kind == PacketKind::Control(0),
        pre@.tx.contains_key(pkt.flow_id),
        pkt.seq > pre@.tx[pkt.flow_id].un_acked_base,
        pkt.ecn,
    ensures
        ({
            let (e, g) = (pre@, post@);
            let (f, h) = (e.tx[pkt.flow_id], g.tx[pkt.flow_id]);
            let alpha = if f.alpha as int * 997 / 1000 + 3 < 1000 {
                f.alpha as int * 997 / 1000 + 3
            } else {
                1000
            };
            let rate = f.current_rate_bps as int * (1000 - alpha / 2) / 1000;
            &&& h.alpha == alpha
            &&& h.target_rate_bps == f.current_rate_bps
            &&& h.current_rate_bps == if rate > 1_000_000 {
                rate
            } else {
                1_000_000
            }
            &&& h.in_fast_recovery
            &&& h.acks_since_cnp == 0
            &&& h.last_rate_increase_ns == now
        }),
{
    lemma_cut_fits(pre@.tx[pkt.flow_id].current_rate_bps, pre@.tx[pkt.flow_id].alpha);
}

/// A congestion notification adds three thousandths to what is left of the estimate of the congestion, and
/// cuts the rate by half of it, but not below 1 Mbit/s. The rate before becomes the target, and fast recovery
/// begins. Nothing else changes.
pub proof fn law_dcqcn_notification_cuts_rate(
    pre: DcqcnProtocol,
    post: DcqcnProtocol,
    pkt: PacketView,
    now: u64,
)
    requires
        pre.took_control(&post, pkt, now),
        pkt.kind == PacketKind::Control(2),
        pre@.tx.contains_key(pkt.flow_id),
    ensures
        ({
            let (e, g) = (pre@, post@);
            let (f, h) = (e.tx[pkt.flow_id], g.tx[pkt.flow_id]);
            let alpha = if f.alpha as int * 997 / 1000 + 3 < 1000 {
                f.alpha as int * 997 / 1000 + 3
            } else {
                1000
            };
            let rate = f.current_rate_bps as int * (1000 - alpha / 2) / 1000;
            &&& h.alpha == alpha
            &&& h.target_rate_bps == f.current_rate_bps
            &&& h.current_rate_bps == if rate > 1_000_000 {
                rate
            } else {
                1_000_000
            }
            &&& h.in_fast_recovery
            &&& h.acks_since_cnp == 0
            &&& h.last_rate_increase_ns == now
            &&& h == (TxView {
                alpha: h.alpha,
                target_rate_bps: h.target_rate_bps,
                current_rate_bps: h.current_rate_bps,
                in_fast_recovery: h.in_fast_recovery,
                acks_since_cnp: h.acks_since_cnp,
                last_rate_increase_ns: h.last_rate_increase_ns,
                ..f
            })
            &&& changes_one_flow(e, g, pkt.flow_id)
            &&& g.stats == e.stats && g.finished == e.finished
        }),
{
    lemma_cut_fits(pre@.tx[pkt.flow_id].current_rate_bps, pre@.tx[pkt.flow_id].alpha);
}

/// The rate after a cut fits, since it is no larger than before.
proof fn lemma_cut_fits(rate: u64, alpha: u64)
    ensures
        forall|a: int|
            0 <= a <= 1000 ==> 0 <= #[trigger] (rate as int * (1000 - a / 2)) / 1000 <= rate,
{
    assert forall|a: int| 0 <= a <= 1000 implies 0 <= #[trigger] (rate as int * (1000 - a / 2))
        / 1000 <= rate by {
        let k = 1000 - a / 2;
        assert(0 <= rate as int * k <= rate as int * 1000) by (nonlinear_arith)
            requires
                0 <= k <= 1000,
                rate >= 0,
        ;
    }
}

/// A control packet of another type, or for a flow that the sender does not know, changes nothing.
pub proof fn law_dcqcn_foreign_control_changes_nothing(
    pre: DcqcnProtocol,
    post: DcqcnProtocol,
    pkt: PacketView,
    now: u64,
)
    requires
        pre.took_control(&post, pkt, now),
        (pkt.kind != PacketKind::Control(0) && pkt.kind != PacketKind::Control(2))
            || !pre@.tx.contains_key(pkt.flow_id),
    ensures
        post@ == pre@,
{
}

/// A receiving flow, with the packets that have arrived early.
pub open spec fn as_receiver(r: super::dcqcn::RxView) -> RxView {
    RxView {
        flow_id: r.flow_id,
        next_expected: r.next_expected,
        out_of_order: r.received.dom(),
    }
}

/// A data packet is acknowledged as in-order delivery allows, with the mark of the packet. A marked packet is
/// answered by a congestion notification as well, which names the packet.
pub proof fn law_dcqcn_answers_data(
    pre: DcqcnProtocol,
    post: DcqcnProtocol,
    pkt: PacketView,
    now: u64,
    out: Seq<PacketView>,
)
    requires
        pre.took_data(&post, pkt, now, out),
    ensures
        ({
            let (e, g) = (pre@, post@);
            let id = pkt.flow_id;
            let second = (e.next_packet_id + 1) % 0x1_0000_0000_0000_0000;
            &&& out.len() == if pkt.ecn {
                2int
            } else {
                1
            }
            &&& answers_packet(out[0], pkt, 0, e.next_packet_id, e.host_id, now)
            &&& out[0].ecn == pkt.ecn
            &&& out[0].payload.len() == 0
            &&& pkt.ecn ==> {
                &&& answers_packet(out[1], pkt, 2, second as u64, e.host_id, now)
                &&& out[1].seq == pkt.seq
                &&& !out[1].ecn
                &&& out[1].payload.len() == 0
            }
            &&& g.rx.contains_key(id)
            &&& out[0].seq == g.rx[id].next_expected
            &&& takes_in(
                if e.rx.contains_key(id) {
                    as_receiver(e.rx[id])
                } else {
                    (RxView { flow_id: id, next_expected: 0, out_of_order: Set::empty() })
                },
                as_receiver(g.rx[id]),
                pkt.seq,
            )
            &&& forall|o: FlowId|
                o != id ==> (#[trigger] g.rx.contains_key(o) <==> e.rx.contains_key(o))
            &&& forall|o: FlowId| o != id && e.rx.contains_key(o) ==> #[trigger] g.rx[o] == e.rx[o]
            &&& g.next_packet_id == (e.next_packet_id + out.len()) % 0x1_0000_0000_0000_0000
            &&& e.stats.packets_received < u64::MAX ==> g.stats.packets_received
                == e.stats.packets_received + 1
            &&& g.stats == (ProtocolStats { packets_received: g.stats.packets_received, ..e.stats })
            &&& g.tx == e.tx && g.finished == e.finished && g.host_id == e.host_id
        }),
{
    let r = pre@.rx_of(pkt.flow_id);
    law_receiver_delivers_in_order(as_receiver(r), pkt.seq);
    assert(r.after(pkt.seq).received.dom() =~= as_receiver(r).after(pkt.seq).out_of_order);
    assert(Map::<SeqNum, bool>::empty().dom() =~= Set::empty());
}

/// On a tick a flow that is not complete keeps to the pace of its rate: a packet of 1024 bytes in as many
/// nanoseconds as its 8192 bits take. A packet that has been in flight for 100 microseconds or more is
/// overdue.
pub proof fn law_dcqcn_tick_of_flow(
    pre: DcqcnProtocol,
    post: DcqcnProtocol,
    now: u64,
    out: Seq<PacketView>,
    id: FlowId,
    late: Seq<SeqNum>,
)
    requires
        pre.ticked(&post, now, out),
        pre@.tx.contains_key(id),
        !pre@.tx[id].done,
        0 < pre@.tx[id].current_rate_bps <= 100_000_000_000,
        now < u64::MAX,
        lists_late(
            late,
            pre@.tx[id].send_times,
            pre@.tx[id].retransmit_queue,
            now,
            100_000,
            false,
        ),
    ensures
        ({
            let (e, g) = (pre@, post@);
            let (f, h) = (e.tx[id], g.tx[id]);
            let gap = 8_192_000_000_000int / f.current_rate_bps as int;
            &&& 0 < gap <= 8_192_000_000_000
            &&& keeps_to_pace(
                gap as u64,
                f.total_packets,
                late,
                now,
                (f.next_seq, h.next_seq),
                (f.retransmit_queue, h.retransmit_queue),
                (f.send_times, h.send_times),
                (f.next_tx_time_ns, h.next_tx_time_ns),
                seqs_of(out, id),
            )
            &&& h == (TxView {
                next_seq: h.next_seq,
                retransmit_queue: h.retransmit_queue,
                send_times: h.send_times,
                next_tx_time_ns: h.next_tx_time_ns,
                ..f
            })
        }),
{
    let (e, g) = (pre@, post@);
    let f = e.tx[id];
    let p = tick_params(now);
    let rate = f.current_rate_bps as int;
    let gap = 8_192_000_000_000int / rate;
    assert(0 < gap <= 8_192_000_000_000) by (nonlinear_arith)
        requires
            gap == 8_192_000_000_000int / rate,
            0 < rate <= 100_000_000_000,
    ;
    lemma_late(late, f.send_times, f.retransmit_queue, now, 100_000, false);
    lemma_stamped(all_outgoing::<FlowTxState>(e.tx, p), e.next_packet_id, e.host_id, now);
    lemma_tick::<FlowTxState>(e.tx, p, out, id);
    lemma_burst_keeps_to_pace(
        PacedView {
            next_seq: f.next_seq,
            queue: f.retransmit_queue,
            sent: f.send_times,
            next_tx_time_ns: f.next_tx_time_ns,
        },
        late,
        f.total_packets,
        gap as u64,
        16,
        now,
    );
}

/// What goes out on a tick are full-sized data packets from this host, numbered one after the other, of
/// flows that are not complete and to where these go. All of them are counted, and apart those that had
/// been sent before. Complete flows do not change, and neither does anything but the flows.
pub proof fn law_dcqcn_tick_sends_data(
    pre: DcqcnProtocol,
    post: DcqcnProtocol,
    now: u64,
    out: Seq<PacketView>,
)
    requires
        pre.ticked(&post, now, out),
        forall|id: FlowId, s: SeqNum| #[trigger]
            pre@.tx.contains_key(id) && (#[trigger] pre@.tx[id].retransmit_queue.contains(s)) ==> s
                < pre@.tx[id].next_seq,
        forall|id: FlowId, s: SeqNum| #[trigger]
            pre@.tx.contains_key(id) && (#[trigger] pre@.tx[id].send_times.contains_key(s)) ==> s
                < pre@.tx[id].next_seq,
    ensures
        ({
            let (e, g) = (pre@, post@);
            let again = out.filter(|q: PacketView| q.seq < e.tx[q.flow_id].next_seq).len();
            &&& are_fresh_data(out, e.next_packet_id, e.host_id, now)
            &&& forall|k: int|
                0 <= k < out.len() ==> e.tx.contains_key((#[trigger] out[k]).flow_id)
                    && !e.tx[out[k].flow_id].done && out[k].dst == e.tx[out[k].flow_id].dst
                    && out[k].routing_tag == 0
            &&& g.next_packet_id == (e.next_packet_id + out.len()) % 0x1_0000_0000_0000_0000
            &&& e.stats.packets_sent + out.len() <= u64::MAX ==> g.stats.packets_sent
                == e.stats.packets_sent + out.len()
            &&& e.stats.packets_retransmitted + again <= u64::MAX ==> g.stats.packets_retransmitted
                == e.stats.packets_retransmitted + again
            &&& g.stats == (ProtocolStats {
                packets_sent: g.stats.packets_sent,
                packets_retransmitted: g.stats.packets_retransmitted,
                ..e.stats
            })
            &&& g.tx.dom() == e.tx.dom()
            &&& forall|id: FlowId| #[trigger]
                e.tx.contains_key(id) && e.tx[id].done ==> g.tx[id] == e.tx[id]
            &&& g == (DcqcnView {
                tx: g.tx,
                stats: g.stats,
                next_packet_id: g.next_packet_id,
                ..e
            })
        }),
{
    let (e, g) = (pre@, post@);
    let p = tick_params(now);
    let order = ascending(e.tx.dom());
    let nexts = e.tx.map_values(|f: TxView| f.next_seq);
    lemma_stamped(all_outgoing::<FlowTxState>(e.tx, p), e.next_packet_id, e.host_id, now);
    lemma_tick::<FlowTxState>(e.tx, p, out, 0);
    law_listing_ascends(e.tx.dom());
    assert forall|i: int| 0 <= i < order.len() implies {
        let f = e.tx[#[trigger] order[i]];
        let t = f.after_tick(p);
        &&& nexts[order[i]] == f.next_seq
        &&& forall|k: int| 0 <= k < t.resend.len() ==> #[trigger] t.resend[k] < f.next_seq
        &&& forall|k: int| 0 <= k < t.fresh.len() ==> #[trigger] t.fresh[k] >= f.next_seq
    } by {
        let f = e.tx[order[i]];
        let t = f.after_tick(p);
        assert(order.contains(order[i]));
        assert(e.tx.contains_key(order[i]));
        let late = f.late(p);
        law_listing_ascends(
            super::sender::overdue_set(f.send_times, f.retransmit_queue, now, 100_000, false),
        );
        let queue = f.retransmit_queue + late;
        assert forall|k: int| 0 <= k < t.resend.len() implies #[trigger] t.resend[k]
            < f.next_seq by {
            assert(t.resend[k] == queue[k]);
            if k < f.retransmit_queue.len() {
                assert(f.retransmit_queue.contains(queue[k]));
            } else {
                assert(late.contains(queue[k]));
            }
        }
    }
    lemma_resent::<FlowTxState>(order, e.tx, p, out, nexts);
    lemma_same_filter(out, e.tx, nexts);
    assert(g.tx.dom() =~= e.tx.dom());
}

/// The numbers that the flows would send next tell the same packets apart, wherever they are kept.
proof fn lemma_same_filter(
    out: Seq<PacketView>,
    tx: Map<FlowId, TxView>,
    nexts: Map<FlowId, SeqNum>,
)
    requires
        nexts == tx.map_values(|f: TxView| f.next_seq),
        forall|k: int| 0 <= k < out.len() ==> tx.contains_key((#[trigger] out[k]).flow_id),
    ensures
        out.filter(|q: PacketView| q.seq < tx[q.flow_id].next_seq) == out.filter(
            |q: PacketView| q.seq < nexts[q.flow_id],
        ),
    decreases out.len(),
{
    reveal(Seq::filter);
    if out.len() > 0 {
        assert forall|k: int| 0 <= k < out.drop_last().len() implies tx.contains_key(
            (#[trigger] out.drop_last()[k]).flow_id,
        ) by {
            assert(tx.contains_key(out[k].flow_id));
        }
        lemma_same_filter(out.drop_last(), tx, nexts);
        assert(tx.contains_key(out[out.len() - 1].flow_id));
    }
}

/// A flow begins with nothing sent, with as many packets as its bytes need, and at 1 Gbit/s; it may send at
/// once. No other flow is touched.
pub proof fn law_dcqcn_flow_starts(
    pre: DcqcnProtocol,
    post: DcqcnProtocol,
    id: FlowId,
    dst: EntityId,
    bytes: u64,
    now: u64,
)
    requires
        pre.started(&post, id, dst, bytes, now),
    ensures
        ({
            let (e, g) = (pre@, post@);
            let h = g.tx[id];
            &&& g.tx.contains_key(id)
            &&& h.flow_id == id && h.dst == dst && h.start_time == now
            &&& just_holds(h.total_packets, bytes)
            &&& h.next_seq == 0 && h.un_acked_base == 0 && !h.done && h.finish_time == 0
            &&& h.next_tx_time_ns == now
            &&& h.current_rate_bps == 1_000_000_000 && h.target_rate_bps == 1_000_000_000
            &&& h.alpha == 0 && h.acks_since_cnp == 0 && !h.in_fast_recovery
                && h.last_rate_increase_ns == now
            &&& h.send_times == Map::<SeqNum, u64>::empty()
            &&& h.retransmit_queue == Seq::<SeqNum>::empty()
            &&& forall|o: FlowId|
                o != id ==> (#[trigger] g.tx.contains_key(o) <==> e.tx.contains_key(o))
            &&& forall|o: FlowId| o != id && e.tx.contains_key(o) ==> #[trigger] g.tx[o] == e.tx[o]
            &&& g == (DcqcnView { tx: g.tx, ..e })
        }),
{
}

/// The timeout of a packet in flight runs from when it has really left the NIC; a packet that is not in
/// flight is not taken up again.
pub proof fn law_dcqcn_departure_is_noted(
    pre: DcqcnProtocol,
    post: DcqcnProtocol,
    id: FlowId,
    seq: SeqNum,
    at: u64,
)
    requires
        pre.noted_departure(&post, id, seq, at),
        pre@.tx.contains_key(id),
    ensures
        ({
            let (e, g) = (pre@, post@);
            let (f, h) = (e.tx[id], g.tx[id]);
            &&& h == (TxView { send_times: h.send_times, ..f })
            &&& h.send_times.dom() == f.send_times.dom()
            &&& f.send_times.contains_key(seq) ==> h.send_times[seq] == at
            &&& forall|s: SeqNum|
                f.send_times.contains_key(s) && s != seq ==> #[trigger] h.send_times[s]
                    == f.send_times[s]
            &&& changes_one_flow(e, g, id)
            &&& g.finished == e.finished && g.stats == e.stats
        }),
{
    let f = pre@.tx[id];
    assert(super::sender::departed(f.send_times, seq, at).dom() =~= f.send_times.dom());
}

/// The next timeout comes 100 microseconds after the packet in flight, of a flow that is not complete, that
/// was sent first. The next transmission comes when the first flow that is not complete and has packets
/// to send may send.
pub proof fn law_dcqcn_first_timeout(t: DcqcnProtocol, at: Option<u64>, tx_at: Option<u64>)
    requires
        t.times_out(at),
        t.paced_until(tx_at),
    ensures
        ({
            let e = t@;
            &&& forall|id: FlowId, s: SeqNum|
                e.tx.contains_key(id) && !e.tx[id].done && (
                #[trigger] e.tx[id].send_times.contains_key(s)) ==> at is Some && (at->0
                    <= e.tx[id].send_times[s] + 100_000)
            &&& at is Some && at->0 < u64::MAX ==> exists|id: FlowId, s: SeqNum|
                e.tx.contains_key(id) && !e.tx[id].done && (
                #[trigger] e.tx[id].send_times.contains_key(s)) && at->0
                    == e.tx[id].send_times[s] + 100_000
            &&& at is Some ==> exists|id: FlowId, s: SeqNum|
                e.tx.contains_key(id) && !e.tx[id].done && (
                #[trigger] e.tx[id].send_times.contains_key(s))
            &&& forall|id: FlowId| #[trigger]
                e.tx.contains_key(id) && !e.tx[id].done && (e.tx[id].retransmit_queue.len() > 0
                    || e.tx[id].next_seq < e.tx[id].total_packets) ==> tx_at is Some && tx_at->0
                    <= e.tx[id].next_tx_time_ns
            &&& tx_at is Some ==> exists|id: FlowId| #[trigger]
                e.tx.contains_key(id) && !e.tx[id].done && (e.tx[id].retransmit_queue.len() > 0
                    || e.tx[id].next_seq < e.tx[id].total_packets) && tx_at->0
                    == e.tx[id].next_tx_time_ns
        }),
{
    let e = t@;
    let rto: u64 = 100_000;
    assert forall|id: FlowId, s: SeqNum|
        e.tx.contains_key(id) && !e.tx[id].done && (
        #[trigger] e.tx[id].send_times.contains_key(s)) implies at is Some && (at->0
        <= e.tx[id].send_times[s] + 100_000) by {
        assert(times_out_at::<FlowTxState>(
            e.tx,
            id,
            s,
            rto,
            e.tx[id].send_times[s].saturating_add(rto),
        ));
    }
    if at is Some {
        let (id, s) = choose|id: FlowId, s: SeqNum| #[trigger]
            times_out_at::<FlowTxState>(e.tx, id, s, rto, at->0);
        assert(times_out_at::<FlowTxState>(e.tx, id, s, rto, at->0));
        assert(e.tx[id].send_times.contains_key(s));
    }
    assert forall|id: FlowId| #[trigger]
        e.tx.contains_key(id) && !e.tx[id].done && (e.tx[id].retransmit_queue.len() > 0
            || e.tx[id].next_seq < e.tx[id].total_packets) implies tx_at is Some && tx_at->0
        <= e.tx[id].next_tx_time_ns by {
        assert(may_send_at::<FlowTxState>(e.tx, id, e.tx[id].next_tx_time_ns));
    }
    if tx_at is Some {
        let id = choose|id: FlowId| #[trigger] may_send_at::<FlowTxState>(e.tx, id, tx_at->0);
        assert(may_send_at::<FlowTxState>(e.tx, id, tx_at->0));
        assert(e.tx.contains_key(id));
    }
}

/// There is something to send if a flow that is not complete has packets to send again or packets left. All
/// is done if there are flows and each of them is complete.
pub proof fn law_dcqcn_work_and_end(t: DcqcnProtocol)
    ensures
        t.has_work() <==> exists|id: FlowId| #[trigger]
            t@.tx.contains_key(id) && !t@.tx[id].done && (t@.tx[id].retransmit_queue.len()
                > 0 || t@.tx[id].next_seq < t@.tx[id].total_packets),
        t.is_done() <==> (exists|id: FlowId| #[trigger] t@.tx.contains_key(id)) && (forall|id: FlowId|
            #[trigger] t@.tx.contains_key(id) ==> t@.tx[id].done),
{
    let e = t@;
    if exists|id: FlowId| #[trigger] e.tx.contains_key(id) {
        let id = choose|id: FlowId| #[trigger] e.tx.contains_key(id);
        assert(e.tx.dom().contains(id));
    } else {
        assert(e.tx.dom() =~= Set::empty());
    }
    if !e.tx.dom().is_empty() {
        assert(exists|id: FlowId| e.tx.dom().contains(id)) by {
            if forall|id: FlowId| !e.tx.dom().contains(id) {
                assert(e.tx.dom() =~= Set::empty());
            }
        }
    }
}

/// The completed flows are handed out once, and nothing else changes. The counters that are shown are
/// those that are kept.
pub proof fn law_dcqcn_hands_out_completions(
    pre: DcqcnProtocol,
    post: DcqcnProtocol,
    out: Seq<(FlowId, u64)>,
)
    requires
        pre.finishes(&post, out),
    ensures
        out == pre@.finished,
        post@.finished.len() == 0,
        post@ == (DcqcnView { finished: post@.finished, ..pre@ }),
        pre.counters() == pre@.stats,
{
}

/// A host begins without flows, and its packets are numbered from one on.
pub proof fn law_dcqcn_begins(host: EntityId)
    ensures
        ({
            let e = super::dcqcn::fresh_host(host);
            &&& e.host_id == host
            &&& e.tx == Map::<FlowId, TxView>::empty()
            &&& e.rx.dom() =~= Set::empty()
            &&& e.next_packet_id == 1
            &&& e.finished.len() == 0
            &&& e.stats.packets_sent == 0 && e.stats.packets_retransmitted == 0
                && e.stats.packets_received == 0 && e.stats.ecn_ack_received == 0
                && e.stats.flows_completed == 0
        }),
{
}

} // verus!
