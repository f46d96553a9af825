//! HPCC: congestion control by the measured utilisation of the links.
//!
//! An acknowledgement reports the utilisation of the bottleneck link as the bits of a
//! double-precision number. A sender scales its rate by the ratio of the target
//! utilisation to the reported one; without a report it doubles its rate. The scaled
//! rate itself is computed outside and handed to `on_ack`.
use super::protocol::ProtocolStats;
use super::sender::{
    check_all_done, check_any_work, count_resent, first_deadline, first_tx, forget_acked,
    note_departure, overdue_seqs, packet_count, send_paced, stamp, tick_flows, Burst, PacedFlow,
    TickParams, TxFlow,
};
use crate::network::packet::{FlowId, Packet, SeqNum, MTU_BYTES};
use crate::util::{push_le_u64, read_le_u64};
use crate::EntityId;
use std::collections::HashMap;
use vstd::prelude::*;

verus! {

use super::protocol::{counted, zero_stats};
use super::sender::{
    all_done, all_outgoing, any_work, departed, flow_views, flows_after, is_first_deadline,
    is_first_tx, nth_id, overdue_set, paced_burst, packets_for, resent_among, stamped, unmarked,
    PacedView, Ticked,
};
use crate::network::packet::{control_packet, packet_views, PacketView};
use crate::util::{ascending, le_bytes_u64, le_u64};

broadcast use vstd::std_specs::hash::group_hash_axioms;

/// The rate that a flow begins with, in bits per second.
pub const INIT_RATE_BPS: u64 = 1_000_000_000;

/// The lowest rate.
pub const MIN_RATE_BPS: u64 = 1_000_000;

/// The highest rate.
pub const MAX_RATE_BPS: u64 = 100_000_000_000;

/// The age at which an unacknowledged packet is sent again.
pub const RTO_NS: u64 = 100_000;

/// The most packets that a flow sends on one tick.
pub const INIT_CWND: u32 = 16;

/// The bits of one half, the utilisation that a receiver reports.
pub const HALF_BITS: u64 = 0x3FE0_0000_0000_0000;

/// The bits of infinity; the bits of the positive numbers lie between zero and these.
pub const INFINITY_BITS: u64 = 0x7FF0_0000_0000_0000;

/// The sending side of one flow.
pub struct FlowTxState {
    pub flow_id: FlowId,
    pub dst: EntityId,
    pub total_packets: u32,
    pub next_seq: SeqNum,
    pub un_acked_base: SeqNum,
    pub done: bool,
    pub start_time: u64,
    pub finish_time: u64,
    pub send_times: HashMap<SeqNum, u64>,
    pub retransmit_queue: Vec<SeqNum>,
    /// The sending rate.
    pub current_rate_bps: u64,
    /// When the flow may send next.
    pub next_tx_time_ns: u64,
}

/// What a sending flow holds.
#[verifier::ext_equal]
pub struct TxView {
    pub flow_id: FlowId,
    pub dst: EntityId,
    pub total_packets: u32,
    pub next_seq: SeqNum,
    pub un_acked_base: SeqNum,
    pub done: bool,
    pub start_time: u64,
    pub finish_time: u64,
    pub send_times: Map<SeqNum, u64>,
    pub retransmit_queue: Seq<SeqNum>,
    pub current_rate_bps: u64,
    pub next_tx_time_ns: u64,
}

impl View for FlowTxState {
    type V = TxView;

    open spec fn view(&self) -> TxView {
        TxView {
            flow_id: self.flow_id,
            dst: self.dst,
            total_packets: self.total_packets,
            next_seq: self.next_seq,
            un_acked_base: self.un_acked_base,
            done: self.done,
            start_time: self.start_time,
            finish_time: self.finish_time,
            send_times: self.send_times@,
            retransmit_queue: self.retransmit_queue@,
            current_rate_bps: self.current_rate_bps,
            next_tx_time_ns: self.next_tx_time_ns,
        }
    }
}

/// A flow of which nothing has been sent.
pub open spec fn fresh_tx(
    flow_id: FlowId,
    dst: EntityId,
    total_packets: u32,
    start_time: u64,
) -> TxView {
    TxView {
        flow_id,
        dst,
        total_packets,
        next_seq: 0,
        un_acked_base: 0,
        done: false,
        start_time,
        finish_time: 0,
        send_times: Map::empty(),
        retransmit_queue: Seq::empty(),
        current_rate_bps: INIT_RATE_BPS,
        next_tx_time_ns: start_time,
    }
}

/// The time between two packets of full size at a rate; there is no end to it at rate zero.
pub open spec fn packet_interval(rate_bps: u64) -> u64 {
    if rate_bps == 0 {
        u64::MAX
    } else {
        (8_192_000_000_000int / rate_bps as int) as u64
    }
}

/// A rate within the bounds.
pub open spec fn bounded_rate(rate: u64) -> u64 {
    if rate < MIN_RATE_BPS {
        MIN_RATE_BPS
    } else if rate > MAX_RATE_BPS {
        MAX_RATE_BPS
    } else {
        rate
    }
}

/// Twice a rate, at most the highest.
pub open spec fn doubled_rate(rate: u64) -> u64 {
    if rate * 2 > MAX_RATE_BPS {
        MAX_RATE_BPS
    } else {
        (rate * 2) as u64
    }
}

/// The bits of the utilisation that a payload reports; zero if it is too short for one.
pub open spec fn reported_bits(payload: Seq<u8>) -> u64 {
    if payload.len() >= 8 {
        le_u64(payload, 0)
    } else {
        0
    }
}

/// The bits are those of a positive number.
pub open spec fn positive_bits(bits: u64) -> bool {
    0 < bits <= INFINITY_BITS
}

/// The bits of the utilisation that an acknowledgement reports, if it is positive.
pub fn reported_utilization(ack: &Packet) -> (r: Option<u64>)
    ensures
        r == if positive_bits(reported_bits(ack@.payload)) {
            Some(reported_bits(ack@.payload))
        } else {
            None
        },
{
    let bits: u64 = if ack.payload.len() >= 8 {
        read_le_u64(&ack.payload, 0)
    } else {
        0
    };
    if 0 < bits && bits <= INFINITY_BITS {
        Some(bits)
    } else {
        None
    }
}

impl TxView {
    /// The overdue packets.
    pub open spec fn late(self, p: TickParams) -> Seq<SeqNum> {
        ascending(overdue_set(self.send_times, self.retransmit_queue, p.now, p.rto_ns, false))
    }

    /// The flow after a tick.
    pub open spec fn after_tick(self, p: TickParams) -> Ticked<TxView> {
        let b = paced_burst(
            PacedView {
                next_seq: self.next_seq,
                queue: self.retransmit_queue,
                sent: self.send_times,
                next_tx_time_ns: self.next_tx_time_ns,
            },
            self.late(p),
            self.total_packets,
            packet_interval(self.current_rate_bps),
            INIT_CWND,
            p.now,
        );
        Ticked {
            flow: TxView {
                next_seq: b.flow.next_seq,
                retransmit_queue: b.flow.queue,
                send_times: b.flow.sent,
                next_tx_time_ns: b.flow.next_tx_time_ns,
                ..self
            },
            resend: b.resend,
            fresh: b.fresh,
        }
    }

    /// The flow after an acknowledgement of everything below `seq`. New packets set the rate
    /// to `scaled` within the bounds if a utilisation is reported, and double it otherwise.
    pub open spec fn after_ack(self, seq: SeqNum, reported: bool, scaled: u64) -> TxView {
        if seq > self.un_acked_base {
            TxView {
                send_times: unmarked(self.send_times, self.un_acked_base, seq),
                un_acked_base: seq,
                current_rate_bps: if reported {
                    bounded_rate(scaled)
                } else {
                    doubled_rate(self.current_rate_bps)
                },
                ..self
            }
        } else {
            self
        }
    }

    /// Everything has been acknowledged, and this has not been noticed yet.
    pub open spec fn completes(self) -> bool {
        self.un_acked_base >= self.total_packets && !self.done
    }

    /// The complete flow.
    pub open spec fn finished(self, now: u64) -> TxView {
        TxView { done: true, finish_time: now, ..self }
    }
}

impl FlowTxState {
    /// A flow of which nothing has been sent.
    pub fn new(flow_id: FlowId, dst: EntityId, total_packets: u32, start_time: u64) -> (f: Self)
        ensures
            f@ == fresh_tx(flow_id, dst, total_packets, start_time),
    {
        FlowTxState {
            flow_id,
            dst,
            total_packets,
            next_seq: 0,
            un_acked_base: 0,
            done: false,
            start_time,
            finish_time: 0,
            send_times: HashMap::new(),
            retransmit_queue: Vec::new(),
            current_rate_bps: INIT_RATE_BPS,
            next_tx_time_ns: start_time,
        }
    }

    /// The time between two packets at the current rate.
    pub fn packet_interval_ns(&self) -> (t: u64)
        ensures
            t == packet_interval(self.current_rate_bps),
    {
        if self.current_rate_bps == 0 {
            return u64::MAX;
        }
        (MTU_BYTES as u64 * 8 * 1_000_000_000) / self.current_rate_bps
    }
}

impl TxFlow for FlowTxState {
    open spec fn done_of(s: TxView) -> bool {
        s.done
    }

    open spec fn dst_of(s: TxView) -> EntityId {
        s.dst
    }

    open spec fn sent_of(s: TxView) -> Map<SeqNum, u64> {
        s.send_times
    }

    open spec fn work_of(s: TxView) -> bool {
        s.retransmit_queue.len() > 0 || s.next_seq < s.total_packets
    }

    open spec fn ticked(s: TxView, p: TickParams) -> Ticked<TxView> {
        s.after_tick(p)
    }

    fn is_done(&self) -> (r: bool) {
        self.done
    }

    fn dest(&self) -> (d: EntityId) {
        self.dst
    }

    fn sent(&self) -> (m: &HashMap<SeqNum, u64>) {
        &self.send_times
    }

    fn has_work(&self) -> (r: bool) {
        self.retransmit_queue.len() > 0 || self.next_seq < self.total_packets
    }

    fn tick(&mut self, p: &TickParams) -> (b: Burst) {
        let late = overdue_seqs(&self.send_times, &self.retransmit_queue, p.now, p.rto_ns, false);
        let interval: u64 = self.packet_interval_ns();
        send_paced(
            self.total_packets,
            interval,
            INIT_CWND,
            p.now,
            late,
            &mut self.next_seq,
            &mut self.retransmit_queue,
            &mut self.send_times,
            &mut self.next_tx_time_ns,
        )
    }
}

impl PacedFlow for FlowTxState {
    open spec fn next_tx_of(s: TxView) -> u64 {
        s.next_tx_time_ns
    }

    fn next_tx(&self) -> (t: u64) {
        self.next_tx_time_ns
    }
}

/// The receiving side of one flow.
#[derive(Debug, Clone, Copy)]
pub struct FlowRxState {
    pub flow_id: FlowId,
    pub next_expected: SeqNum,
}

/// The state of a receiving flow; a flow is fresh until its first packet arrives.
pub open spec fn rx_of(flows: Map<FlowId, FlowRxState>, id: FlowId) -> FlowRxState {
    if flows.contains_key(id) {
        flows[id]
    } else {
        FlowRxState { flow_id: id, next_expected: 0 }
    }
}

impl FlowRxState {
    /// The flow after the packet `seq` has arrived; only the expected packet is delivered.
    pub open spec fn after(self, seq: SeqNum) -> FlowRxState {
        FlowRxState {
            next_expected: if seq == self.next_expected {
                self.next_expected.saturating_add(1)
            } else {
                self.next_expected
            },
            ..self
        }
    }
}

/// The HPCC of one host.
pub struct HpccProtocol {
    pub host_id: EntityId,
    pub tx_flows: HashMap<FlowId, FlowTxState>,
    pub rx_flows: HashMap<FlowId, FlowRxState>,
    pub stats: ProtocolStats,
    pub next_packet_id: u64,
    pub finished: Vec<(FlowId, u64)>,
}

/// What can be observed of a host.
#[verifier::ext_equal]
pub struct HpccView {
    pub host_id: EntityId,
    pub tx: Map<FlowId, TxView>,
    pub rx: Map<FlowId, FlowRxState>,
    pub stats: ProtocolStats,
    pub next_packet_id: u64,
    pub finished: Seq<(FlowId, u64)>,
}

impl View for HpccProtocol {
    type V = HpccView;

    open spec fn view(&self) -> HpccView {
        HpccView {
            host_id: self.host_id,
            tx: flow_views(self.tx_flows@),
            rx: self.rx_flows@,
            stats: self.stats,
            next_packet_id: self.next_packet_id,
            finished: self.finished@,
        }
    }
}

/// A host without flows.
pub open spec fn fresh_host(host_id: EntityId) -> HpccView {
    HpccView {
        host_id,
        tx: Map::empty(),
        rx: Map::empty(),
        stats: zero_stats(),
        next_packet_id: 1,
        finished: Seq::empty(),
    }
}

/// The parameters of a tick at `now`.
pub open spec fn tick_params(now: u64) -> TickParams {
    TickParams {
        now,
        rto_ns: RTO_NS,
        init_cwnd: INIT_CWND,
        min_cwnd: 1,
        routable: true,
        strict: false,
    }
}

impl HpccView {
    /// The host with the flow `id` set to `flow`.
    pub open spec fn with_flow(self, id: FlowId, flow: TxView) -> HpccView {
        HpccView { tx: self.tx.insert(id, flow), ..self }
    }

    /// The host after the flow that calls itself `flow_id` has completed at `now`.
    pub open spec fn completed(self, flow_id: FlowId, now: u64) -> HpccView {
        HpccView {
            stats: self.stats.after_completing(1),
            finished: self.finished.push((flow_id, now)),
            ..self
        }
    }

    /// The host after a tick at `now`, and the packets that it sends.
    pub open spec fn ticked(self, now: u64) -> (HpccView, Seq<PacketView>) {
        let p = tick_params(now);
        let sends = all_outgoing::<FlowTxState>(self.tx, p);
        (
            HpccView {
                tx: flows_after::<FlowTxState>(self.tx, p),
                stats: self.stats.after_sending(sends.len() as int, resent_among(sends)),
                next_packet_id: nth_id(self.next_packet_id, sends.len() as int),
                ..self
            },
            stamped(sends, self.next_packet_id, self.host_id, now),
        )
    }

    /// The host after an acknowledgement of everything below `seq` of a flow; an unknown flow
    /// changes nothing.
    pub open spec fn acknowledged(
        self,
        id: FlowId,
        seq: SeqNum,
        ecn: bool,
        reported: bool,
        scaled: u64,
        now: u64,
    ) -> HpccView {
        if !self.tx.contains_key(id) {
            self
        } else {
            let before = self.tx[id];
            let f = before.after_ack(seq, reported, scaled);
            let counted_self = if seq > before.un_acked_base && ecn {
                HpccView {
                    stats: ProtocolStats {
                        ecn_ack_received: counted(self.stats.ecn_ack_received, 1),
                        ..self.stats
                    },
                    ..self
                }
            } else {
                self
            };
            if f.completes() {
                counted_self.with_flow(id, f.finished(now)).completed(f.flow_id, now)
            } else {
                counted_self.with_flow(id, f)
            }
        }
    }

    /// The host after the data packet `pkt` has come in at `now`, and its answer: an
    /// acknowledgement that reports a utilisation of one half.
    pub open spec fn received(self, pkt: PacketView, now: u64) -> (HpccView, Seq<PacketView>) {
        let flow = rx_of(self.rx, pkt.flow_id).after(pkt.seq);
        (
            HpccView {
                rx: self.rx.insert(pkt.flow_id, flow),
                stats: self.stats.after_receiving(),
                next_packet_id: nth_id(self.next_packet_id, 1),
                ..self
            },
            seq![
                control_packet(
                    self.next_packet_id,
                    self.next_packet_id,
                    pkt.flow_id,
                    flow.next_expected,
                    self.host_id,
                    pkt.src,
                    pkt.ecn,
                    0,
                    le_bytes_u64(HALF_BITS),
                    now,
                ),
            ],
        )
    }

    /// The host after the NIC has reported that a packet left at `at`.
    pub open spec fn departure_noted(self, id: FlowId, seq: SeqNum, at: u64) -> HpccView {
        if self.tx.contains_key(id) {
            self.with_flow(
                id,
                TxView { send_times: departed(self.tx[id].send_times, seq, at), ..self.tx[id] },
            )
        } else {
            self
        }
    }
}

impl HpccProtocol {
    /// A host without flows.
    pub fn new(host_id: EntityId) -> (t: Self)
        ensures
            t@ == fresh_host(host_id),
    {
        let t = HpccProtocol {
            host_id,
            tx_flows: HashMap::new(),
            rx_flows: HashMap::new(),
            stats: ProtocolStats::default(),
            next_packet_id: 1,
            finished: Vec::new(),
        };
        assert(t@ =~= fresh_host(host_id));
        t
    }

    /// Registers a flow of `total_bytes`.
    pub fn start_flow_tx(&mut self, flow_id: FlowId, dst: EntityId, total_bytes: u64, now: u64)
        ensures
            final(self)@ == old(self)@.with_flow(
                flow_id,
                fresh_tx(flow_id, dst, packets_for(total_bytes), now),
            ),
    {
        let flow = FlowTxState::new(flow_id, dst, packet_count(total_bytes), now);
        self.tx_flows.insert(flow_id, flow);
        assert(self@.tx =~= old(self)@.tx.insert(flow_id, flow@));
    }

    /// Sends what the flows may send at `now`.
    pub fn try_send(&mut self, now: u64) -> (out: Vec<Packet>)
        ensures
            (final(self)@, packet_views(out@)) == old(self)@.ticked(now),
    {
        let p = TickParams {
            now,
            rto_ns: RTO_NS,
            init_cwnd: INIT_CWND,
            min_cwnd: 1,
            routable: true,
            strict: false,
        };
        let sends = tick_flows(&mut self.tx_flows, &p);
        let resent: usize = count_resent(&sends);
        self.stats.count_sent(sends.len(), resent);
        let out = stamp(&sends, &mut self.next_packet_id, self.host_id, now);
        assert(self@ =~= old(self)@.ticked(now).0);
        out
    }

    /// The rate of a flow, from which the scaled rate is computed.
    pub fn rate_of(&self, flow_id: FlowId) -> (r: Option<u64>)
        ensures
            r == if self@.tx.contains_key(flow_id) {
                Some(self@.tx[flow_id].current_rate_bps)
            } else {
                None
            },
    {
        match self.tx_flows.get(&flow_id) {
            Some(flow) => {
                assert(self@.tx[flow_id] == flow@);
                Some(flow.current_rate_bps)
            },
            None => None,
        }
    }

    /// Takes in an acknowledgement; `scaled` is the rate of the flow times the target
    /// utilisation over the reported one, and counts only if one is reported.
    pub fn on_ack(&mut self, ack: &Packet, now: u64, scaled: u64)
        ensures
            final(self)@ == old(self)@.acknowledged(
                ack.flow_id,
                ack.seq,
                ack.ecn,
                positive_bits(reported_bits(ack@.payload)),
                scaled,
                now,
            ),
    {
        let ghost before = self@;
        let reported: bool = reported_utilization(ack).is_some();
        match self.tx_flows.remove(&ack.flow_id) {
            None => {
                assert(self@ =~= before);
            },
            Some(mut flow) => {
                assert(flow@ == before.tx[ack.flow_id]);
                if ack.seq > flow.un_acked_base {
                    forget_acked(&mut flow.send_times, flow.un_acked_base, ack.seq);
                    flow.un_acked_base = ack.seq;
                    flow.current_rate_bps = if reported {
                        if scaled < MIN_RATE_BPS {
                            MIN_RATE_BPS
                        } else if scaled > MAX_RATE_BPS {
                            MAX_RATE_BPS
                        } else {
                            scaled
                        }
                    } else if flow.current_rate_bps > MAX_RATE_BPS / 2 {
                        MAX_RATE_BPS
                    } else {
                        flow.current_rate_bps * 2
                    };
                    if ack.ecn {
                        self.stats.ecn_ack_received = self.stats.ecn_ack_received.saturating_add(1);
                    }
                }
                assert(flow@ == before.tx[ack.flow_id].after_ack(ack.seq, reported, scaled));
                if flow.un_acked_base >= flow.total_packets && !flow.done {
                    flow.done = true;
                    flow.finish_time = now;
                    self.stats.count_completed();
                    self.finished.push((flow.flow_id, now));
                }
                self.tx_flows.insert(ack.flow_id, flow);
                assert(self@ =~= before.acknowledged(
                    ack.flow_id,
                    ack.seq,
                    ack.ecn,
                    reported,
                    scaled,
                    now,
                ));
            },
        }
    }

    /// Takes in a data packet and acknowledges it.
    pub fn on_data(&mut self, pkt: &Packet, now: u64) -> (out: Vec<Packet>)
        ensures
            (final(self)@, packet_views(out@)) == old(self)@.received(pkt@, now),
    {
        let ghost before = self@;
        self.stats.count_received();
        let mut flow: FlowRxState = match self.rx_flows.get(&pkt.flow_id) {
            Some(flow) => *flow,
            None => FlowRxState { flow_id: pkt.flow_id, next_expected: 0 },
        };
        if pkt.seq == flow.next_expected {
            flow.next_expected = flow.next_expected.saturating_add(1);
        }
        self.rx_flows.insert(pkt.flow_id, flow);
        let mut report: Vec<u8> = Vec::new();
        push_le_u64(&mut report, HALF_BITS);
        assert(report@ =~= le_bytes_u64(HALF_BITS));
        let id: u64 = self.next_packet_id;
        self.next_packet_id = id.wrapping_add(1);
        let mut out: Vec<Packet> = Vec::new();
        out.push(
            Packet::control(
                id,
                id,
                pkt.flow_id,
                flow.next_expected,
                self.host_id,
                pkt.src,
                pkt.ecn,
                0,
                report,
                now,
            ),
        );
        assert(self@.rx =~= before.received(pkt@, now).0.rx);
        assert(packet_views(out@) =~= before.received(pkt@, now).1);
        out
    }

    /// Whether there are flows and all of them are complete.
    pub fn all_flows_done(&self) -> (r: bool)
        ensures
            r == all_done::<FlowTxState>(self@.tx),
    {
        check_all_done(&self.tx_flows)
    }

    /// Hands out the flows that have completed since the last call, with their finish times.
    pub fn take_finished_flows(&mut self) -> (out: Vec<(FlowId, u64)>)
        ensures
            out@ == old(self)@.finished,
            final(self)@ == (HpccView { finished: Seq::empty(), ..old(self)@ }),
    {
        let mut out: Vec<(FlowId, u64)> = Vec::new();
        std::mem::swap(&mut out, &mut self.finished);
        out
    }

    /// The counters.
    pub fn stats(&self) -> (s: ProtocolStats)
        ensures
            s == self@.stats,
    {
        self.stats
    }

    /// Whether a tick would send something now, apart from timeouts.
    pub fn has_pending_work(&self) -> (r: bool)
        ensures
            r == any_work::<FlowTxState>(self@.tx),
    {
        check_any_work(&self.tx_flows)
    }

    /// When the first unacknowledged packet times out.
    pub fn next_rto_deadline(&self) -> (r: Option<u64>)
        ensures
            is_first_deadline::<FlowTxState>(self@.tx, RTO_NS, r),
    {
        first_deadline(&self.tx_flows, RTO_NS)
    }

    /// When the first flow with something to send may send.
    pub fn next_tx_time(&self) -> (r: Option<u64>)
        ensures
            is_first_tx::<FlowTxState>(self@.tx, r),
    {
        first_tx(&self.tx_flows)
    }

    /// Notes when a packet has really left the NIC.
    pub fn update_send_time(&mut self, flow_id: FlowId, seq: SeqNum, nic_depart_time: u64)
        ensures
            final(self)@ == old(self)@.departure_noted(flow_id, seq, nic_depart_time),
    {
        let ghost before = self@;
        if let Some(mut flow) = self.tx_flows.remove(&flow_id) {
            assert(flow@ == before.tx[flow_id]);
            note_departure(&mut flow.send_times, seq, nic_depart_time);
            self.tx_flows.insert(flow_id, flow);
        }
        assert(self@ =~= before.departure_noted(flow_id, seq, nic_depart_time));
    }
}

} // verus!
