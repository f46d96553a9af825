//! What holds of HPCC.
use crate::network::packet::{FlowId, SeqNum};
use crate::EntityId;
use vstd::prelude::*;

verus! {

use super::endpoint_laws::{answers_packet, forgets, just_holds};
use super::hpcc::{
    fresh_tx, positive_bits, reported_bits, tick_params, FlowTxState, HpccView, TxView,
};
use super::protocol::ProtocolStats;
use super::send_laws::{
    are_fresh_data, keeps_to_pace, lemma_burst_keeps_to_pace, lemma_late, lemma_resent,
    lemma_stamped, lemma_tick, lists_late, seqs_of,
};
use super::sender::{
    all_done, all_outgoing, any_work, is_first_deadline, is_first_tx, may_send_at, packets_for,
    times_out_at, PacedView,
};
use crate::network::packet::PacketView;
use crate::util::{ascending, law_listing_ascends};

/// Flow `id` is all that differs between two states of a host, apart from what is counted and reported
/// of completed flows and of marked acknowledgements.
pub open spec fn changes_one_flow(e: HpccView, g: HpccView, id: FlowId) -> bool {
    &&& g.tx.dom() =~= e.tx.dom()
    &&& forall|o: FlowId| e.tx.contains_key(o) && o != id ==> #[trigger] g.tx[o] == e.tx[o]
    &&& g.host_id == e.host_id
    &&& g.rx == e.rx
    &&& g.next_packet_id == e.next_packet_id
    &&& g.stats == (ProtocolStats {
        flows_completed: g.stats.flows_completed,
        ecn_ack_received: g.stats.ecn_ack_received,
        ..e.stats
    })
}

/// An acknowledgement of new packets moves the flow on to the first that is still missing and forgets when
/// the acknowledged packets were sent. It completes the flow once nothing is missing, which is noted with
/// its time, reported and counted; a mark is counted too. No other flow is touched.
pub proof fn law_hpcc_ack_moves_flow_on(
    e: HpccView,
    id: FlowId,
    seq: SeqNum,
    ecn: bool,
    reported: bool,
    scaled: u64,
    now: u64,
)
    requires
        e.tx.contains_key(id),
        seq > e.tx[id].un_acked_base,
    ensures
        ({
            let g = e.acknowledged(id, seq, ecn, reported, scaled, now);
            let (f, h) = (e.tx[id], g.tx[id]);
            let completes = seq >= f.total_packets && !f.done;
            &&& h.un_acked_base == seq
            &&& forgets(f.send_times, h.send_times, f.un_acked_base, seq)
            &&& h.retransmit_queue == f.retransmit_queue
            &&& h.next_seq == f.next_seq
            &&& h.next_tx_time_ns == f.next_tx_time_ns
            &&& h.total_packets == f.total_packets
            &&& h.flow_id == f.flow_id && h.dst == f.dst && h.start_time == f.start_time
            &&& h.done == (f.done || completes)
            &&& h.finish_time == if completes {
                now
            } else {
                f.finish_time
            }
            &&& changes_one_flow(e, g, id)
            &&& completes ==> g.finished == e.finished.push((f.flow_id, now))
            &&& !completes ==> g.finished == e.finished
            &&& e.stats.flows_completed < u64::MAX ==> g.stats.flows_completed
                == e.stats.flows_completed + if completes {
                1int
            } else {
                0
            }
            &&& e.stats.ecn_ack_received < u64::MAX ==> g.stats.ecn_ack_received
                == e.stats.ecn_ack_received + if ecn {
                1int
            } else {
                0
            }
        }),
{
}

/// An acknowledgement that acknowledges nothing new changes nothing.
pub proof fn law_hpcc_old_ack_changes_nothing(
    e: HpccView,
    id: FlowId,
    seq: SeqNum,
    ecn: bool,
    reported: bool,
    scaled: u64,
    now: u64,
)
    requires
        e.tx.contains_key(id),
        seq <= e.tx[id].un_acked_base,
        e.tx[id].done || e.tx[id].un_acked_base < e.tx[id].total_packets,
    ensures
        ({
            let g = e.acknowledged(id, seq, ecn, reported, scaled, now);
            let (f, h) = (e.tx[id], g.tx[id]);
            &&& h == f
            &&& g == e
        }),
{
    assert(e.acknowledged(id, seq, ecn, reported, scaled, now) =~= e);
}

/// An acknowledgement of new packets that reports a utilisation sets the rate to the scaled one, but not
/// below 1 Mbit/s or above 100 Gbit/s. One that reports none doubles the rate, up to 100 Gbit/s.
pub proof fn law_hpcc_ack_sets_rate(
    e: HpccView,
    id: FlowId,
    seq: SeqNum,
    ecn: bool,
    reported: bool,
    scaled: u64,
    now: u64,
)
    requires
        e.tx.contains_key(id),
        seq > e.tx[id].un_acked_base,
    ensures
        ({
            let g = e.acknowledged(id, seq, ecn, reported, scaled, now);
            let (f, h) = (e.tx[id], g.tx[id]);
            &&& reported && scaled < 1_000_000 ==> h.current_rate_bps == 1_000_000
            &&& reported && 1_000_000 <= scaled <= 100_000_000_000 ==> h.current_rate_bps == scaled
            &&& reported && scaled > 100_000_000_000 ==> h.current_rate_bps == 100_000_000_000
            &&& !reported && f.current_rate_bps <= 50_000_000_000 ==> h.current_rate_bps == 2
                * f.current_rate_bps
            &&& !reported && f.current_rate_bps >= 50_000_000_000 ==> h.current_rate_bps
                == 100_000_000_000
        }),
{
}

/// An acknowledgement for a flow that the sender does not know changes nothing.
pub proof fn law_hpcc_unknown_flow_changes_nothing(
    e: HpccView,
    id: FlowId,
    seq: SeqNum,
    ecn: bool,
    reported: bool,
    scaled: u64,
    now: u64,
)
    requires
        !e.tx.contains_key(id),
    ensures
        e.acknowledged(id, seq, ecn, reported, scaled, now) == e,
{
}

/// A report is the number in the first eight bytes of the payload, the lowest byte first, and counts if it
/// stands for a positive number; a shorter payload reports nothing.
pub proof fn law_hpcc_report(payload: Seq<u8>)
    ensures
        payload.len() < 8 ==> !positive_bits(reported_bits(payload)),
        payload.len() >= 8 ==> reported_bits(payload) == payload[0] + 0x100 * payload[1] + 0x1_0000
            * payload[2] + 0x100_0000 * payload[3] + 0x1_0000_0000 * payload[4] + 0x100_0000_0000
            * payload[5] + 0x1_0000_0000_0000 * payload[6] + 0x100_0000_0000_0000 * payload[7],
        forall|bits: u64| #[trigger]
            positive_bits(bits) <==> 0 < bits <= 0x7FF0_0000_0000_0000,
{
    if payload.len() >= 8 {
        crate::util::law_u64_in_bytes(payload, 0);
    }
}

/// A data packet is acknowledged with the number that its flow expects next, which only the expected packet
/// moves on. The acknowledgement carries the mark of the packet and reports a utilisation of one half.
pub proof fn law_hpcc_acknowledges_data(e: HpccView, pkt: PacketView, now: u64)
    ensures
        ({
            let (g, out) = e.received(pkt, now);
            let id = pkt.flow_id;
            let next = if e.rx.contains_key(id) {
                e.rx[id].next_expected
            } else {
                0
            };
            &&& out.len() == 1
            &&& answers_packet(out[0], pkt, 0, e.next_packet_id, e.host_id, now)
            &&& out[0].ecn == pkt.ecn
            &&& out[0].payload =~= seq![0u8, 0u8, 0u8, 0u8, 0u8, 0u8, 0xE0u8, 0x3Fu8]
            &&& g.rx.contains_key(id)
            &&& out[0].seq == g.rx[id].next_expected
            &&& pkt.seq != next ==> g.rx[id].next_expected == next
            &&& pkt.seq == next && next < u32::MAX ==> g.rx[id].next_expected == next + 1
            &&& g.rx[id].flow_id == if e.rx.contains_key(id) {
                e.rx[id].flow_id
            } else {
                id
            }
            &&& forall|o: FlowId|
                o != id ==> (#[trigger] g.rx.contains_key(o) <==> e.rx.contains_key(o))
            &&& forall|o: FlowId| o != id && e.rx.contains_key(o) ==> #[trigger] g.rx[o] == e.rx[o]
            &&& g.next_packet_id == (e.next_packet_id + 1) % 0x1_0000_0000_0000_0000
            &&& e.stats.packets_received < u64::MAX ==> g.stats.packets_received
                == e.stats.packets_received + 1
            &&& g.stats == (ProtocolStats { packets_received: g.stats.packets_received, ..e.stats })
            &&& g.tx == e.tx && g.finished == e.finished && g.host_id == e.host_id
        }),
{
    crate::util::law_bytes_of_value(super::hpcc::HALF_BITS);
}

/// On a tick a flow that is not complete keeps to the pace of its rate: a packet of 1024 bytes in as many
/// nanoseconds as its 8192 bits take. A packet that has been in flight for 100 microseconds or more is
/// overdue.
pub proof fn law_hpcc_tick_of_flow(
    e: HpccView,
    now: u64,
    id: FlowId,
    late: Seq<SeqNum>,
)
    requires
        e.tx.contains_key(id),
        !e.tx[id].done,
        0 < e.tx[id].current_rate_bps <= 100_000_000_000,
        now < u64::MAX,
        lists_late(
            late,
            e.tx[id].send_times,
            e.tx[id].retransmit_queue,
            now,
            100_000,
            false,
        ),
    ensures
        ({
            let (g, out) = e.ticked(now);
            let (f, h) = (e.tx[id], g.tx[id]);
            let gap = 8_192_000_000_000int / f.current_rate_bps as int;
            &&& 0 < gap <= 8_192_000_000_000
            &&& keeps_to_pace(
                gap as u64,
                f.total_packets,
                late,
                now,
                (f.next_seq, h.next_seq),
                (f.retransmit_queue, h.retransmit_queue),
                (f.send_times, h.send_times),
                (f.next_tx_time_ns, h.next_tx_time_ns),
                seqs_of(out, id),
            )
            &&& h == (TxView {
                next_seq: h.next_seq,
                retransmit_queue: h.retransmit_queue,
                send_times: h.send_times,
                next_tx_time_ns: h.next_tx_time_ns,
                ..f
            })
        }),
{
    let (g, out) = e.ticked(now);
    let f = e.tx[id];
    let p = tick_params(now);
    let rate = f.current_rate_bps as int;
    let gap = 8_192_000_000_000int / rate;
    assert(0 < gap <= 8_192_000_000_000) by (nonlinear_arith)
        requires
            gap == 8_192_000_000_000int / rate,
            0 < rate <= 100_000_000_000,
    ;
    lemma_late(late, f.send_times, f.retransmit_queue, now, 100_000, false);
    lemma_stamped(all_outgoing::<FlowTxState>(e.tx, p), e.next_packet_id, e.host_id, now);
    lemma_tick::<FlowTxState>(e.tx, p, out, id);
    lemma_burst_keeps_to_pace(
        PacedView {
            next_seq: f.next_seq,
            queue: f.retransmit_queue,
            sent: f.send_times,
            next_tx_time_ns: f.next_tx_time_ns,
        },
        late,
        f.total_packets,
        gap as u64,
        16,
        now,
    );
}

/// What goes out on a tick are full-sized data packets from this host, numbered one after the other, of
/// flows that are not complete and to where these go. All of them are counted, and apart those that had
/// been sent before. Complete flows do not change, and neither does anything but the flows.
pub proof fn law_hpcc_tick_sends_data(
    e: HpccView,
    now: u64,
)
    requires
        forall|id: FlowId, s: SeqNum| #[trigger]
            e.tx.contains_key(id) && (#[trigger] e.tx[id].retransmit_queue.contains(s)) ==> s
                < e.tx[id].next_seq,
        forall|id: FlowId, s: SeqNum| #[trigger]
            e.tx.contains_key(id) && (#[trigger] e.tx[id].send_times.contains_key(s)) ==> s
                < e.tx[id].next_seq,
    ensures
        ({
            let (g, out) = e.ticked(now);
            let again = out.filter(|q: PacketView| q.seq < e.tx[q.flow_id].next_seq).len();
            &&& are_fresh_data(out, e.next_packet_id, e.host_id, now)
            &&& forall|k: int|
                0 <= k < out.len() ==> e.tx.contains_key((#[trigger] out[k]).flow_id)
                    && !e.tx[out[k].flow_id].done && out[k].dst == e.tx[out[k].flow_id].dst
                    && out[k].routing_tag == 0
            &&& g.next_packet_id == (e.next_packet_id + out.len()) % 0x1_0000_0000_0000_0000
            &&& e.stats.packets_sent + out.len() <= u64::MAX ==> g.stats.packets_sent
                == e.stats.packets_sent + out.len()
            &&& e.stats.packets_retransmitted + again <= u64::MAX ==> g.stats.packets_retransmitted
                == e.stats.packets_retransmitted + again
            &&& g.stats == (ProtocolStats {
                packets_sent: g.stats.packets_sent,
                packets_retransmitted: g.stats.packets_retransmitted,
                ..e.stats
            })
            &&& g.tx.dom() == e.tx.dom()
            &&& forall|id: FlowId| #[trigger]
                e.tx.contains_key(id) && e.tx[id].done ==> g.tx[id] == e.tx[id]
            &&& g == (HpccView {
                tx: g.tx,
                stats: g.stats,
                next_packet_id: g.next_packet_id,
                ..e
            })
        }),
{
    let (g, out) = e.ticked(now);
    let p = tick_params(now);
    let order = ascending(e.tx.dom());
    let nexts = e.tx.map_values(|f: TxView| f.next_seq);
    lemma_stamped(all_outgoing::<FlowTxState>(e.tx, p), e.next_packet_id, e.host_id, now);
    lemma_tick::<FlowTxState>(e.tx, p, out, 0);
    law_listing_ascends(e.tx.dom());
    assert forall|i: int| 0 <= i < order.len() implies {
        let f = e.tx[#[trigger] order[i]];
        let t = f.after_tick(p);
        &&& nexts[order[i]] == f.next_seq
        &&& forall|k: int| 0 <= k < t.resend.len() ==> #[trigger] t.resend[k] < f.next_seq
        &&& forall|k: int| 0 <= k < t.fresh.len() ==> #[trigger] t.fresh[k] >= f.next_seq
    } by {
        let f = e.tx[order[i]];
        let t = f.after_tick(p);
        assert(order.contains(order[i]));
        assert(e.tx.contains_key(order[i]));
        let late = f.late(p);
        law_listing_ascends(
            super::sender::overdue_set(f.send_times, f.retransmit_queue, now, 100_000, false),
        );
        let queue = f.retransmit_queue + late;
        assert forall|k: int| 0 <= k < t.resend.len() implies #[trigger] t.resend[k]
            < f.next_seq by {
            assert(t.resend[k] == queue[k]);
            if k < f.retransmit_queue.len() {
                assert(f.retransmit_queue.contains(queue[k]));
            } else {
                assert(late.contains(queue[k]));
            }
        }
    }
    lemma_resent::<FlowTxState>(order, e.tx, p, out, nexts);
    lemma_same_filter(out, e.tx, nexts);
    assert(g.tx.dom() =~= e.tx.dom());
}

/// The numbers that the flows would send next tell the same packets apart, wherever they are kept.
proof fn lemma_same_filter(
    out: Seq<PacketView>,
    tx: Map<FlowId, TxView>,
    nexts: Map<FlowId, SeqNum>,
)
    requires
        nexts == tx.map_values(|f: TxView| f.next_seq),
        forall|k: int| 0 <= k < out.len() ==> tx.contains_key((#[trigger] out[k]).flow_id),
    ensures
        out.filter(|q: PacketView| q.seq < tx[q.flow_id].next_seq) == out.filter(
            |q: PacketView| q.seq < nexts[q.flow_id],
        ),
    decreases out.len(),
{
    reveal(Seq::filter);
    if out.len() > 0 {
        assert forall|k: int| 0 <= k < out.drop_last().len() implies tx.contains_key(
            (#[trigger] out.drop_last()[k]).flow_id,
        ) by {
            assert(tx.contains_key(out[k].flow_id));
        }
        lemma_same_filter(out.drop_last(), tx, nexts);
        assert(tx.contains_key(out[out.len() - 1].flow_id));
    }
}

/// A flow begins with nothing sent, with as many packets as its bytes need, and at 1 Gbit/s; it may send at
/// once. No other flow is touched.
pub proof fn law_hpcc_flow_starts(
    e: HpccView,
    id: FlowId,
    dst: EntityId,
    bytes: u64,
    now: u64,
)
    ensures
        ({
            let g = e.with_flow(id, fresh_tx(id, dst, packets_for(bytes), now));
            let h = g.tx[id];
            &&& g.tx.contains_key(id)
            &&& h.flow_id == id && h.dst == dst && h.start_time == now
            &&& just_holds(h.total_packets, bytes)
            &&& h.next_seq == 0 && h.un_acked_base == 0 && !h.done && h.finish_time == 0
            &&& h.next_tx_time_ns == now
            &&& h.current_rate_bps == 1_000_000_000
            &&& h.send_times == Map::<SeqNum, u64>::empty()
            &&& h.retransmit_queue == Seq::<SeqNum>::empty()
            &&& forall|o: FlowId|
                o != id ==> (#[trigger] g.tx.contains_key(o) <==> e.tx.contains_key(o))
            &&& forall|o: FlowId| o != id && e.tx.contains_key(o) ==> #[trigger] g.tx[o] == e.tx[o]
            &&& g == (HpccView { tx: g.tx, ..e })
        }),
{
}

/// The timeout of a packet in flight runs from when it has really left the NIC; a packet that is not in
/// flight is not taken up again.
pub proof fn law_hpcc_departure_is_noted(
    e: HpccView,
    id: FlowId,
    seq: SeqNum,
    at: u64,
)
    requires
        e.tx.contains_key(id),
    ensures
        ({
            let g = e.departure_noted(id, seq, at);
            let (f, h) = (e.tx[id], g.tx[id]);
            &&& h == (TxView { send_times: h.send_times, ..f })
            &&& h.send_times.dom() == f.send_times.dom()
            &&& f.send_times.contains_key(seq) ==> h.send_times[seq] == at
            &&& forall|s: SeqNum|
                f.send_times.contains_key(s) && s != seq ==> #[trigger] h.send_times[s]
                    == f.send_times[s]
            &&& changes_one_flow(e, g, id)
            &&& g.finished == e.finished && g.stats == e.stats
        }),
{
    let f = e.tx[id];
    assert(super::sender::departed(f.send_times, seq, at).dom() =~= f.send_times.dom());
}

/// The next timeout comes 100 microseconds after the packet in flight, of a flow that is not complete, that
/// was sent first. The next transmission comes when the first flow that is not complete and has packets
/// to send may send.
pub proof fn law_hpcc_first_timeout(e: HpccView, at: Option<u64>, tx_at: Option<u64>)
    requires
        is_first_deadline::<FlowTxState>(e.tx, 100_000, at),
        is_first_tx::<FlowTxState>(e.tx, tx_at),
    ensures
        ({
            &&& forall|id: FlowId, s: SeqNum|
                e.tx.contains_key(id) && !e.tx[id].done && (
                #[trigger] e.tx[id].send_times.contains_key(s)) ==> at is Some && (at->0
                    <= e.tx[id].send_times[s] + 100_000)
            &&& at is Some && at->0 < u64::MAX ==> exists|id: FlowId, s: SeqNum|
                e.tx.contains_key(id) && !e.tx[id].done && (
                #[trigger] e.tx[id].send_times.contains_key(s)) && at->0
                    == e.tx[id].send_times[s] + 100_000
            &&& at is Some ==> exists|id: FlowId, s: SeqNum|
                e.tx.contains_key(id) && !e.tx[id].done && (
                #[trigger] e.tx[id].send_times.contains_key(s))
            &&& forall|id: FlowId| #[trigger]
                e.tx.contains_key(id) && !e.tx[id].done && (e.tx[id].retransmit_queue.len() > 0
                    || e.tx[id].next_seq < e.tx[id].total_packets) ==> tx_at is Some && tx_at->0
                    <= e.tx[id].next_tx_time_ns
            &&& tx_at is Some ==> exists|id: FlowId| #[trigger]
                e.tx.contains_key(id) && !e.tx[id].done && (e.tx[id].retransmit_queue.len() > 0
                    || e.tx[id].next_seq < e.tx[id].total_packets) && tx_at->0
                    == e.tx[id].next_tx_time_ns
        }),
{
    let rto: u64 = 100_000;
    assert forall|id: FlowId, s: SeqNum|
        e.tx.contains_key(id) && !e.tx[id].done && (
        #[trigger] e.tx[id].send_times.contains_key(s)) implies at is Some && (at->0
        <= e.tx[id].send_times[s] + 100_000) by {
        assert(times_out_at::<FlowTxState>(
            e.tx,
            id,
            s,
            rto,
            e.tx[id].send_times[s].saturating_add(rto),
        ));
    }
    if at is Some {
        let (id, s) = choose|id: FlowId, s: SeqNum| #[trigger]
            times_out_at::<FlowTxState>(e.tx, id, s, rto, at->0);
        assert(times_out_at::<FlowTxState>(e.tx, id, s, rto, at->0));
        assert(e.tx[id].send_times.contains_key(s));
    }
    assert forall|id: FlowId| #[trigger]
        e.tx.contains_key(id) && !e.tx[id].done && (e.tx[id].retransmit_queue.len() > 0
            || e.tx[id].next_seq < e.tx[id].total_packets) implies tx_at is Some && tx_at->0
        <= e.tx[id].next_tx_time_ns by {
        assert(may_send_at::<FlowTxState>(e.tx, id, e.tx[id].next_tx_time_ns));
    }
    if tx_at is Some {
        let id = choose|id: FlowId| #[trigger] may_send_at::<FlowTxState>(e.tx, id, tx_at->0);
        assert(may_send_at::<FlowTxState>(e.tx, id, tx_at->0));
        assert(e.tx.contains_key(id));
    }
}

/// There is something to send if a flow that is not complete has packets to send again or packets left. All
/// is done if there are flows and each of them is complete.
pub proof fn law_hpcc_work_and_end(e: HpccView)
    ensures
        any_work::<FlowTxState>(e.tx) <==> exists|id: FlowId| #[trigger]
            e.tx.contains_key(id) && !e.tx[id].done && (e.tx[id].retransmit_queue.len()
                > 0 || e.tx[id].next_seq < e.tx[id].total_packets),
        all_done::<FlowTxState>(e.tx) <==> (exists|id: FlowId| #[trigger] e.tx.contains_key(id)) && (forall|id: FlowId|
            #[trigger] e.tx.contains_key(id) ==> e.tx[id].done),
{
    if exists|id: FlowId| #[trigger] e.tx.contains_key(id) {
        let id = choose|id: FlowId| #[trigger] e.tx.contains_key(id);
        assert(e.tx.dom().contains(id));
    } else {
        assert(e.tx.dom() =~= Set::empty());
    }
    if !e.tx.dom().is_empty() {
        assert(exists|id: FlowId| e.tx.dom().contains(id)) by {
            if forall|id: FlowId| !e.tx.dom().contains(id) {
                assert(e.tx.dom() =~= Set::empty());
            }
        }
    }
}

/// A host begins without flows, and its packets are numbered from one on.
pub proof fn law_hpcc_begins(host: EntityId)
    ensures
        ({
            let e = super::hpcc::fresh_host(host);
            &&& e.host_id == host
            &&& e.tx == Map::<FlowId, TxView>::empty()
            &&& e.rx.dom() =~= Set::empty()
            &&& e.next_packet_id == 1
            &&& e.finished.len() == 0
            &&& e.stats.packets_sent == 0 && e.stats.packets_retransmitted == 0
                && e.stats.packets_received == 0 && e.stats.ecn_ack_received == 0
                && e.stats.flows_completed == 0
        }),
{
}

} // verus!
