//! DCQCN: congestion control by the sending rate.
//!
//! - A receiver answers a marked data packet with a congestion notification.
//! - On a notification, or on a marked acknowledgement, a sender raises its estimate
//!   `alpha` of the congestion, remembers its rate as the target, and cuts its rate by
//!   half of `alpha`.
//! - After every increase interval an unmarked acknowledgement moves the rate half-way to the
//!   target; outside fast recovery the target itself grows by a fixed step.
use super::protocol::{Protocol, ProtocolStats};
use super::receiver::take_in_recorded;
use super::sender::{
    check_all_done, check_any_work, count_resent, first_deadline, first_tx, forget_acked,
    note_departure, overdue_seqs, packet_count, send_paced, stamp, tick_flows, Burst, PacedFlow,
    TickParams, TxFlow,
};
use crate::network::packet::{FlowId, Packet, PacketKind, SeqNum, MTU_BYTES};
use crate::EntityId;
use std::collections::HashMap;
use vstd::prelude::*;

verus! {

use super::protocol::{counted, zero_stats};
use super::receiver::{expected_after, record_after};
use super::sender::{
    all_done, all_outgoing, any_work, departed, flow_views, flows_after, is_first_deadline,
    is_first_tx, nth_id, overdue_set, paced_burst, packets_for, resent_among, stamped, unmarked,
    PacedView, Ticked,
};
use crate::network::packet::{control_packet, packet_views, PacketView};
use crate::util::ascending;

broadcast use vstd::std_specs::hash::group_hash_axioms;

/// The rate that a flow begins with, in bits per second.
pub const INIT_RATE_BPS: u64 = 1_000_000_000;

/// The lowest rate.
pub const MIN_RATE_BPS: u64 = 1_000_000;

/// The highest rate.
pub const MAX_RATE_BPS: u64 = 100_000_000_000;

/// The time between two increases of the rate.
pub const RAI_NS: u64 = 55_000;

/// How many unmarked acknowledgements end fast recovery.
pub const RATE_DECREASE_ACKS: u32 = 50;

/// The weight of a notification in `alpha`, in thousandths.
pub const ALPHA_GAIN: u64 = 3;

/// The value of `alpha` that stands for one.
pub const ALPHA_ONE: u64 = 1000;

/// The step by which the target grows.
pub const HYPER_INCREASE_STEP_BPS: u64 = 100_000_000;

/// The age at which an unacknowledged packet is sent again.
pub const RTO_NS: u64 = 100_000;

/// The most packets that a flow sends on one tick.
pub const INIT_CWND: u32 = 16;

/// The sending side of one flow.
pub struct FlowTxState {
    pub flow_id: FlowId,
    pub dst: EntityId,
    pub total_packets: u32,
    pub next_seq: SeqNum,
    pub un_acked_base: SeqNum,
    pub done: bool,
    pub start_time: u64,
    pub finish_time: u64,
    pub send_times: HashMap<SeqNum, u64>,
    pub retransmit_queue: Vec<SeqNum>,
    /// The sending rate.
    pub current_rate_bps: u64,
    /// The rate to recover to.
    pub target_rate_bps: u64,
    /// The estimate of the congestion, in thousandths.
    pub alpha: u64,
    /// Unmarked acknowledgements since the last notification.
    pub acks_since_cnp: u32,
    /// Whether the flow recovers from a notification.
    pub in_fast_recovery: bool,
    /// When the rate last changed.
    pub last_rate_increase_ns: u64,
    pub in_flight_bytes: u64,
    pub bytes_sent_total: u64,
    /// When the flow may send next.
    pub next_tx_time_ns: u64,
}

/// What a sending flow holds.
#[verifier::ext_equal]
pub struct TxView {
    pub flow_id: FlowId,
    pub dst: EntityId,
    pub total_packets: u32,
    pub next_seq: SeqNum,
    pub un_acked_base: SeqNum,
    pub done: bool,
    pub start_time: u64,
    pub finish_time: u64,
    pub send_times: Map<SeqNum, u64>,
    pub retransmit_queue: Seq<SeqNum>,
    pub current_rate_bps: u64,
    pub target_rate_bps: u64,
    pub alpha: u64,
    pub acks_since_cnp: u32,
    pub in_fast_recovery: bool,
    pub last_rate_increase_ns: u64,
    pub in_flight_bytes: u64,
    pub bytes_sent_total: u64,
    pub next_tx_time_ns: u64,
}

impl View for FlowTxState {
    type V = TxView;

    open spec fn view(&self) -> TxView {
        TxView {
            flow_id: self.flow_id,
            dst: self.dst,
            total_packets: self.total_packets,
            next_seq: self.next_seq,
            un_acked_base: self.un_acked_base,
            done: self.done,
            start_time: self.start_time,
            finish_time: self.finish_time,
            send_times: self.send_times@,
            retransmit_queue: self.retransmit_queue@,
            current_rate_bps: self.current_rate_bps,
            target_rate_bps: self.target_rate_bps,
            alpha: self.alpha,
            acks_since_cnp: self.acks_since_cnp,
            in_fast_recovery: self.in_fast_recovery,
            last_rate_increase_ns: self.last_rate_increase_ns,
            in_flight_bytes: self.in_flight_bytes,
            bytes_sent_total: self.bytes_sent_total,
            next_tx_time_ns: self.next_tx_time_ns,
        }
    }
}

/// A flow of which nothing has been sent.
pub open spec fn fresh_tx(
    flow_id: FlowId,
    dst: EntityId,
    total_packets: u32,
    start_time: u64,
) -> TxView {
    TxView {
        flow_id,
        dst,
        total_packets,
        next_seq: 0,
        un_acked_base: 0,
        done: false,
        start_time,
        finish_time: 0,
        send_times: Map::empty(),
        retransmit_queue: Seq::empty(),
        current_rate_bps: INIT_RATE_BPS,
        target_rate_bps: INIT_RATE_BPS,
        alpha: 0,
        acks_since_cnp: 0,
        in_fast_recovery: false,
        last_rate_increase_ns: start_time,
        in_flight_bytes: 0,
        bytes_sent_total: 0,
        next_tx_time_ns: start_time,
    }
}

/// The time between two packets of full size at a rate; there is no end to it at rate zero.
pub open spec fn packet_interval(rate_bps: u64) -> u64 {
    if rate_bps == 0 {
        u64::MAX
    } else {
        (8_192_000_000_000int / rate_bps as int) as u64
    }
}

/// The midpoint of two rates, rounded down.
pub open spec fn midpoint(a: u64, b: u64) -> u64 {
    ((a + b) / 2) as u64
}

impl TxView {
    /// The overdue packets.
    pub open spec fn late(self, p: TickParams) -> Seq<SeqNum> {
        ascending(overdue_set(self.send_times, self.retransmit_queue, p.now, p.rto_ns, false))
    }

    /// The flow after a tick.
    pub open spec fn after_tick(self, p: TickParams) -> Ticked<TxView> {
        let b = paced_burst(
            PacedView {
                next_seq: self.next_seq,
                queue: self.retransmit_queue,
                sent: self.send_times,
                next_tx_time_ns: self.next_tx_time_ns,
            },
            self.late(p),
            self.total_packets,
            packet_interval(self.current_rate_bps),
            INIT_CWND,
            p.now,
        );
        Ticked {
            flow: TxView {
                next_seq: b.flow.next_seq,
                retransmit_queue: b.flow.queue,
                send_times: b.flow.sent,
                next_tx_time_ns: b.flow.next_tx_time_ns,
                ..self
            },
            resend: b.resend,
            fresh: b.fresh,
        }
    }

    /// The estimate of the congestion after a notification: what the gain leaves of it, and
    /// the gain.
    pub open spec fn raised_alpha(self) -> u64 {
        let a = self.alpha as int * 997 / 1000 + ALPHA_GAIN;
        if a > ALPHA_ONE {
            ALPHA_ONE
        } else {
            a as u64
        }
    }

    /// The flow after a notification: the rate is cut by half of the new `alpha`.
    pub open spec fn notified(self, now: u64) -> TxView {
        let alpha = self.raised_alpha();
        let cut = self.current_rate_bps as int * (ALPHA_ONE - alpha / 2) / ALPHA_ONE as int;
        TxView {
            alpha,
            target_rate_bps: self.current_rate_bps,
            current_rate_bps: if cut > MIN_RATE_BPS {
                cut as u64
            } else {
                MIN_RATE_BPS
            },
            in_fast_recovery: true,
            acks_since_cnp: 0,
            last_rate_increase_ns: now,
            ..self
        }
    }

    /// The flow after an unmarked acknowledgement: once per increase interval its rate moves
    /// half-way to the target, which grows outside fast recovery.
    pub open spec fn recovering(self, now: u64) -> TxView {
        let acks = self.acks_since_cnp.saturating_add(1);
        if now.saturating_sub(self.last_rate_increase_ns) < RAI_NS {
            TxView { acks_since_cnp: acks, ..self }
        } else {
            let raised = if self.target_rate_bps + HYPER_INCREASE_STEP_BPS > MAX_RATE_BPS {
                MAX_RATE_BPS
            } else {
                (self.target_rate_bps + HYPER_INCREASE_STEP_BPS) as u64
            };
            let target = if self.in_fast_recovery {
                self.target_rate_bps
            } else {
                raised
            };
            let rate = midpoint(self.current_rate_bps, target);
            TxView {
                acks_since_cnp: acks,
                last_rate_increase_ns: now,
                target_rate_bps: target,
                current_rate_bps: if rate > MAX_RATE_BPS {
                    MAX_RATE_BPS
                } else {
                    rate
                },
                in_fast_recovery: self.in_fast_recovery && acks < RATE_DECREASE_ACKS,
                ..self
            }
        }
    }

    /// The flow after an acknowledgement of everything below `seq`.
    pub open spec fn after_ack(self, seq: SeqNum, ecn: bool, now: u64) -> TxView {
        if seq > self.un_acked_base {
            let f = TxView {
                send_times: unmarked(self.send_times, self.un_acked_base, seq),
                un_acked_base: seq,
                ..self
            };
            if ecn {
                f.notified(now)
            } else {
                f.recovering(now)
            }
        } else {
            self
        }
    }

    /// Everything has been acknowledged, and this has not been noticed yet.
    pub open spec fn completes(self) -> bool {
        self.un_acked_base >= self.total_packets && !self.done
    }

    /// The complete flow.
    pub open spec fn finished(self, now: u64) -> TxView {
        TxView { done: true, finish_time: now, ..self }
    }
}

impl FlowTxState {
    /// A flow of which nothing has been sent.
    pub fn new(flow_id: FlowId, dst: EntityId, total_packets: u32, start_time: u64) -> (f: Self)
        ensures
            f@ == fresh_tx(flow_id, dst, total_packets, start_time),
    {
        FlowTxState {
            flow_id,
            dst,
            total_packets,
            next_seq: 0,
            un_acked_base: 0,
            done: false,
            start_time,
            finish_time: 0,
            send_times: HashMap::new(),
            retransmit_queue: Vec::new(),
            current_rate_bps: INIT_RATE_BPS,
            target_rate_bps: INIT_RATE_BPS,
            alpha: 0,
            acks_since_cnp: 0,
            in_fast_recovery: false,
            last_rate_increase_ns: start_time,
            in_flight_bytes: 0,
            bytes_sent_total: 0,
            next_tx_time_ns: start_time,
        }
    }

    /// The time between two packets at the current rate.
    pub fn packet_interval_ns(&self) -> (t: u64)
        ensures
            t == packet_interval(self.current_rate_bps),
    {
        if self.current_rate_bps == 0 {
            return u64::MAX;
        }
        (MTU_BYTES as u64 * 8 * 1_000_000_000) / self.current_rate_bps
    }

    /// Reacts to a congestion notification.
    pub fn on_cnp(&mut self, now: u64)
        ensures
            final(self)@ == old(self)@.notified(now),
    {
        let raised: u128 = self.alpha as u128 * 997 / 1000 + ALPHA_GAIN as u128;
        self.alpha = if raised > ALPHA_ONE as u128 {
            ALPHA_ONE
        } else {
            raised as u64
        };
        self.target_rate_bps = self.current_rate_bps;
        let reduction: u64 = ALPHA_ONE - self.alpha / 2;
        let rate: u64 = self.current_rate_bps;
        proof {
            lemma_share(rate as int, reduction as int, ALPHA_ONE as int);
        }
        let cut: u128 = rate as u128 * reduction as u128 / ALPHA_ONE as u128;
        self.current_rate_bps = if cut > MIN_RATE_BPS as u128 {
            cut as u64
        } else {
            MIN_RATE_BPS
        };
        self.in_fast_recovery = true;
        self.acks_since_cnp = 0;
        self.last_rate_increase_ns = now;
    }

    /// Reacts to an unmarked acknowledgement.
    pub fn on_ack_no_ecn(&mut self, now: u64)
        ensures
            final(self)@ == old(self)@.recovering(now),
    {
        self.acks_since_cnp = self.acks_since_cnp.saturating_add(1);
        if now.saturating_sub(self.last_rate_increase_ns) < RAI_NS {
            return;
        }
        self.last_rate_increase_ns = now;
        if self.in_fast_recovery {
            if self.acks_since_cnp >= RATE_DECREASE_ACKS {
                self.in_fast_recovery = false;
            }
        } else {
            let raised: u128 = self.target_rate_bps as u128 + HYPER_INCREASE_STEP_BPS as u128;
            self.target_rate_bps = if raised > MAX_RATE_BPS as u128 {
                MAX_RATE_BPS
            } else {
                raised as u64
            };
        }
        let sum: u128 = self.current_rate_bps as u128 + self.target_rate_bps as u128;
        let rate: u64 = (sum / 2) as u64;
        self.current_rate_bps = if rate > MAX_RATE_BPS {
            MAX_RATE_BPS
        } else {
            rate
        };
    }
}

/// A part of a number is no larger than the number.
proof fn lemma_share(x: int, part: int, whole: int)
    requires
        x >= 0,
        0 <= part <= whole,
        whole > 0,
    ensures
        0 <= x * part,
        x * part <= x * whole,
        0 <= x * part / whole <= x,
{
    assert(0 <= x * part <= x * whole) by (nonlinear_arith)
        requires
            x >= 0,
            0 <= part <= whole,
    ;
    assert(0 <= x * part / whole <= x) by (nonlinear_arith)
        requires
            0 <= x * part <= x * whole,
            whole > 0,
    ;
}

impl TxFlow for FlowTxState {
    open spec fn done_of(s: TxView) -> bool {
        s.done
    }

    open spec fn dst_of(s: TxView) -> EntityId {
        s.dst
    }

    open spec fn sent_of(s: TxView) -> Map<SeqNum, u64> {
        s.send_times
    }

    open spec fn work_of(s: TxView) -> bool {
        s.retransmit_queue.len() > 0 || s.next_seq < s.total_packets
    }

    open spec fn ticked(s: TxView, p: TickParams) -> Ticked<TxView> {
        s.after_tick(p)
    }

    fn is_done(&self) -> (r: bool) {
        self.done
    }

    fn dest(&self) -> (d: EntityId) {
        self.dst
    }

    fn sent(&self) -> (m: &HashMap<SeqNum, u64>) {
        &self.send_times
    }

    fn has_work(&self) -> (r: bool) {
        self.retransmit_queue.len() > 0 || self.next_seq < self.total_packets
    }

    fn tick(&mut self, p: &TickParams) -> (b: Burst) {
        let late = overdue_seqs(&self.send_times, &self.retransmit_queue, p.now, p.rto_ns, false);
        let interval: u64 = self.packet_interval_ns();
        send_paced(
            self.total_packets,
            interval,
            INIT_CWND,
            p.now,
            late,
            &mut self.next_seq,
            &mut self.retransmit_queue,
            &mut self.send_times,
            &mut self.next_tx_time_ns,
        )
    }
}

impl PacedFlow for FlowTxState {
    open spec fn next_tx_of(s: TxView) -> u64 {
        s.next_tx_time_ns
    }

    fn next_tx(&self) -> (t: u64) {
        self.next_tx_time_ns
    }
}

/// The receiving side of one flow.
pub struct FlowRxState {
    pub flow_id: FlowId,
    pub next_expected: SeqNum,
    /// The packets that have arrived early.
    pub received: HashMap<SeqNum, bool>,
}

/// What a receiving flow holds.
#[verifier::ext_equal]
pub struct RxView {
    pub flow_id: FlowId,
    pub next_expected: SeqNum,
    pub received: Map<SeqNum, bool>,
}

impl View for FlowRxState {
    type V = RxView;

    open spec fn view(&self) -> RxView {
        RxView {
            flow_id: self.flow_id,
            next_expected: self.next_expected,
            received: self.received@,
        }
    }
}

/// A flow of which nothing has arrived.
pub open spec fn fresh_rx(flow_id: FlowId) -> RxView {
    RxView { flow_id, next_expected: 0, received: Map::empty() }
}

impl RxView {
    /// The flow after the packet `seq` has arrived.
    pub open spec fn after(self, seq: SeqNum) -> RxView {
        RxView {
            next_expected: expected_after(self.next_expected, self.received.dom(), seq),
            received: record_after(self.next_expected, self.received, seq),
            ..self
        }
    }
}

impl FlowRxState {
    /// A flow of which nothing has arrived.
    pub fn new(flow_id: FlowId) -> (f: Self)
        ensures
            f@ == fresh_rx(flow_id),
    {
        FlowRxState { flow_id, next_expected: 0, received: HashMap::new() }
    }
}

/// The views of a table of receiving flows.
pub open spec fn rx_views(flows: Map<FlowId, FlowRxState>) -> Map<FlowId, RxView> {
    flows.map_values(|f: FlowRxState| f@)
}

/// The DCQCN of one host.
pub struct DcqcnProtocol {
    pub host_id: EntityId,
    pub tx_flows: HashMap<FlowId, FlowTxState>,
    pub rx_flows: HashMap<FlowId, FlowRxState>,
    pub stats: ProtocolStats,
    pub next_packet_id: u64,
    pub finished: Vec<(FlowId, u64)>,
}

/// What can be observed of a host.
#[verifier::ext_equal]
pub struct DcqcnView {
    pub host_id: EntityId,
    pub tx: Map<FlowId, TxView>,
    pub rx: Map<FlowId, RxView>,
    pub stats: ProtocolStats,
    pub next_packet_id: u64,
    pub finished: Seq<(FlowId, u64)>,
}

impl View for DcqcnProtocol {
    type V = DcqcnView;

    open spec fn view(&self) -> DcqcnView {
        DcqcnView {
            host_id: self.host_id,
            tx: flow_views(self.tx_flows@),
            rx: rx_views(self.rx_flows@),
            stats: self.stats,
            next_packet_id: self.next_packet_id,
            finished: self.finished@,
        }
    }
}

/// A host without flows.
pub open spec fn fresh_host(host_id: EntityId) -> DcqcnView {
    DcqcnView {
        host_id,
        tx: Map::empty(),
        rx: Map::empty(),
        stats: zero_stats(),
        next_packet_id: 1,
        finished: Seq::empty(),
    }
}

/// The parameters of a tick at `now`.
pub open spec fn tick_params(now: u64) -> TickParams {
    TickParams {
        now,
        rto_ns: RTO_NS,
        init_cwnd: INIT_CWND,
        min_cwnd: 1,
        routable: true,
        strict: false,
    }
}

impl DcqcnView {
    /// The host with the flow `id` set to `flow`.
    pub open spec fn with_flow(self, id: FlowId, flow: TxView) -> DcqcnView {
        DcqcnView { tx: self.tx.insert(id, flow), ..self }
    }

    /// The host after the flow that calls itself `flow_id` has completed at `now`.
    pub open spec fn completed(self, flow_id: FlowId, now: u64) -> DcqcnView {
        DcqcnView {
            stats: self.stats.after_completing(1),
            finished: self.finished.push((flow_id, now)),
            ..self
        }
    }

    /// The host after a tick at `now`, and the packets that it sends.
    pub open spec fn ticked(self, now: u64) -> (DcqcnView, Seq<PacketView>) {
        let p = tick_params(now);
        let sends = all_outgoing::<FlowTxState>(self.tx, p);
        (
            DcqcnView {
                tx: flows_after::<FlowTxState>(self.tx, p),
                stats: self.stats.after_sending(sends.len() as int, resent_among(sends)),
                next_packet_id: nth_id(self.next_packet_id, sends.len() as int),
                ..self
            },
            stamped(sends, self.next_packet_id, self.host_id, now),
        )
    }

    /// The host after an acknowledgement of everything below `seq` of a flow; an unknown flow
    /// changes nothing.
    pub open spec fn acknowledged(self, id: FlowId, seq: SeqNum, ecn: bool, now: u64) -> DcqcnView {
        if !self.tx.contains_key(id) {
            self
        } else {
            let before = self.tx[id];
            let f = before.after_ack(seq, ecn, now);
            let counted_self = if seq > before.un_acked_base && ecn {
                DcqcnView {
                    stats: ProtocolStats {
                        ecn_ack_received: counted(self.stats.ecn_ack_received, 1),
                        ..self.stats
                    },
                    ..self
                }
            } else {
                self
            };
            if f.completes() {
                counted_self.with_flow(id, f.finished(now)).completed(f.flow_id, now)
            } else {
                counted_self.with_flow(id, f)
            }
        }
    }

    /// The host after a congestion notification for a flow.
    pub open spec fn congestion_notified(self, id: FlowId, now: u64) -> DcqcnView {
        if self.tx.contains_key(id) {
            self.with_flow(id, self.tx[id].notified(now))
        } else {
            self
        }
    }

    /// The state of a receiving flow; a flow is fresh until its first packet arrives.
    pub open spec fn rx_of(self, id: FlowId) -> RxView {
        if self.rx.contains_key(id) {
            self.rx[id]
        } else {
            fresh_rx(id)
        }
    }

    /// The host after the data packet `pkt` has come in at `now`, and its answer: an
    /// acknowledgement and, if the packet is marked, a congestion notification.
    pub open spec fn received(self, pkt: PacketView, now: u64) -> (DcqcnView, Seq<PacketView>) {
        let flow = self.rx_of(pkt.flow_id).after(pkt.seq);
        let ack = control_packet(
            self.next_packet_id,
            self.next_packet_id,
            pkt.flow_id,
            flow.next_expected,
            self.host_id,
            pkt.src,
            pkt.ecn,
            0,
            Seq::empty(),
            now,
        );
        let cnp_id = nth_id(self.next_packet_id, 1);
        let cnp = control_packet(
            cnp_id,
            cnp_id,
            pkt.flow_id,
            pkt.seq,
            self.host_id,
            pkt.src,
            false,
            2,
            Seq::empty(),
            now,
        );
        let out = if pkt.ecn {
            seq![ack, cnp]
        } else {
            seq![ack]
        };
        (
            DcqcnView {
                rx: self.rx.insert(pkt.flow_id, flow),
                stats: self.stats.after_receiving(),
                next_packet_id: nth_id(self.next_packet_id, out.len() as int),
                ..self
            },
            out,
        )
    }

    /// The host after the NIC has reported that a packet left at `at`.
    pub open spec fn departure_noted(self, id: FlowId, seq: SeqNum, at: u64) -> DcqcnView {
        if self.tx.contains_key(id) {
            self.with_flow(
                id,
                TxView { send_times: departed(self.tx[id].send_times, seq, at), ..self.tx[id] },
            )
        } else {
            self
        }
    }
}

impl DcqcnProtocol {
    /// A host without flows.
    pub fn new(host_id: EntityId) -> (t: Self)
        ensures
            t@ == fresh_host(host_id),
    {
        let t = DcqcnProtocol {
            host_id,
            tx_flows: HashMap::new(),
            rx_flows: HashMap::new(),
            stats: ProtocolStats::default(),
            next_packet_id: 1,
            finished: Vec::new(),
        };
        assert(t@ =~= fresh_host(host_id));
        t
    }

    /// Registers a flow of `total_bytes`.
    pub fn start_flow_tx(&mut self, flow_id: FlowId, dst: EntityId, total_bytes: u64, now: u64)
        ensures
            final(self)@ == old(self)@.with_flow(
                flow_id,
                fresh_tx(flow_id, dst, packets_for(total_bytes), now),
            ),
    {
        let flow = FlowTxState::new(flow_id, dst, packet_count(total_bytes), now);
        self.tx_flows.insert(flow_id, flow);
        assert(self@.tx =~= old(self)@.tx.insert(flow_id, flow@));
    }

    /// Sends what the flows may send at `now`.
    pub fn try_send(&mut self, now: u64) -> (out: Vec<Packet>)
        ensures
            (final(self)@, packet_views(out@)) == old(self)@.ticked(now),
    {
        let p = TickParams {
            now,
            rto_ns: RTO_NS,
            init_cwnd: INIT_CWND,
            min_cwnd: 1,
            routable: true,
            strict: false,
        };
        let sends = tick_flows(&mut self.tx_flows, &p);
        let resent: usize = count_resent(&sends);
        self.stats.count_sent(sends.len(), resent);
        let out = stamp(&sends, &mut self.next_packet_id, self.host_id, now);
        assert(self@ =~= old(self)@.ticked(now).0);
        out
    }

    /// Takes in an acknowledgement.
    pub fn on_ack(&mut self, ack: &Packet, now: u64)
        ensures
            final(self)@ == old(self)@.acknowledged(ack.flow_id, ack.seq, ack.ecn, now),
    {
        let ghost before = self@;
        match self.tx_flows.remove(&ack.flow_id) {
            None => {
                assert(self@ =~= before);
            },
            Some(mut flow) => {
                assert(flow@ == before.tx[ack.flow_id]);
                if ack.seq > flow.un_acked_base {
                    forget_acked(&mut flow.send_times, flow.un_acked_base, ack.seq);
                    flow.un_acked_base = ack.seq;
                    if ack.ecn {
                        self.stats.ecn_ack_received = self.stats.ecn_ack_received.saturating_add(1);
                        flow.on_cnp(now);
                    } else {
                        flow.on_ack_no_ecn(now);
                    }
                }
                assert(flow@ == before.tx[ack.flow_id].after_ack(ack.seq, ack.ecn, now));
                if flow.un_acked_base >= flow.total_packets && !flow.done {
                    flow.done = true;
                    flow.finish_time = now;
                    self.stats.count_completed();
                    self.finished.push((flow.flow_id, now));
                }
                self.tx_flows.insert(ack.flow_id, flow);
                assert(self@ =~= before.acknowledged(ack.flow_id, ack.seq, ack.ecn, now));
            },
        }
    }

    /// Takes in a congestion notification.
    pub fn on_cnp(&mut self, cnp: &Packet, now: u64)
        ensures
            final(self)@ == old(self)@.congestion_notified(cnp.flow_id, now),
    {
        let ghost before = self@;
        if let Some(mut flow) = self.tx_flows.remove(&cnp.flow_id) {
            assert(flow@ == before.tx[cnp.flow_id]);
            flow.on_cnp(now);
            self.tx_flows.insert(cnp.flow_id, flow);
        }
        assert(self@ =~= before.congestion_notified(cnp.flow_id, now));
    }

    /// Takes in a data packet, acknowledges it, and reports congestion.
    pub fn on_data(&mut self, pkt: &Packet, now: u64) -> (out: Vec<Packet>)
        ensures
            (final(self)@, packet_views(out@)) == old(self)@.received(pkt@, now),
    {
        let ghost before = self@;
        self.stats.count_received();
        let mut flow: FlowRxState = match self.rx_flows.remove(&pkt.flow_id) {
            Some(flow) => flow,
            None => FlowRxState::new(pkt.flow_id),
        };
        assert(flow@ == before.rx_of(pkt.flow_id));
        take_in_recorded(&mut flow.next_expected, &mut flow.received, pkt.seq);
        let next: SeqNum = flow.next_expected;
        self.rx_flows.insert(pkt.flow_id, flow);
        let mut out: Vec<Packet> = Vec::new();
        let id: u64 = self.next_packet_id;
        self.next_packet_id = id.wrapping_add(1);
        out.push(
            Packet::control(
                id,
                id,
                pkt.flow_id,
                next,
                self.host_id,
                pkt.src,
                pkt.ecn,
                0,
                Vec::new(),
                now,
            ),
        );
        if pkt.ecn {
            let cnp_id: u64 = self.next_packet_id;
            self.next_packet_id = cnp_id.wrapping_add(1);
            out.push(
                Packet::control(
                    cnp_id,
                    cnp_id,
                    pkt.flow_id,
                    pkt.seq,
                    self.host_id,
                    pkt.src,
                    false,
                    2,
                    Vec::new(),
                    now,
                ),
            );
        }
        assert(self@.rx =~= before.received(pkt@, now).0.rx);
        assert(packet_views(out@) =~= before.received(pkt@, now).1);
        out
    }
}

impl Protocol for DcqcnProtocol {
    open spec fn started(
        &self,
        post: &Self,
        flow_id: FlowId,
        dst: EntityId,
        total_bytes: u64,
        now: u64,
    ) -> bool {
        post@ == self@.with_flow(
            flow_id,
            fresh_tx(flow_id, dst, packets_for(total_bytes), now),
        )
    }

    open spec fn ticked(&self, post: &Self, now: u64, out: Seq<PacketView>) -> bool {
        (post@, out) == self@.ticked(now)
    }

    open spec fn took_data(
        &self,
        post: &Self,
        pkt: PacketView,
        now: u64,
        out: Seq<PacketView>,
    ) -> bool {
        (post@, out) == self@.received(pkt, now)
    }

    open spec fn took_control(&self, post: &Self, pkt: PacketView, now: u64) -> bool {
        post@ == match pkt.kind {
            PacketKind::Control(0) => self@.acknowledged(
                pkt.flow_id,
                pkt.seq,
                pkt.ecn,
                now,
            ),
            PacketKind::Control(2) => self@.congestion_notified(pkt.flow_id, now),
            _ => self@,
        }
    }

    open spec fn is_done(&self) -> bool {
        all_done::<FlowTxState>(self@.tx)
    }

    open spec fn finishes(&self, post: &Self, out: Seq<(FlowId, u64)>) -> bool {
        &&& out == self@.finished
        &&& post@ == (DcqcnView { finished: Seq::empty(), ..self@ })
    }

    open spec fn counters(&self) -> ProtocolStats {
        self@.stats
    }

    open spec fn has_work(&self) -> bool {
        any_work::<FlowTxState>(self@.tx)
    }

    open spec fn times_out(&self, at: Option<u64>) -> bool {
        is_first_deadline::<FlowTxState>(self@.tx, RTO_NS, at)
    }

    open spec fn paced_until(&self, at: Option<u64>) -> bool {
        is_first_tx::<FlowTxState>(self@.tx, at)
    }

    open spec fn noted_departure(
        &self,
        post: &Self,
        flow_id: FlowId,
        seq: SeqNum,
        nic_depart_time: u64,
    ) -> bool {
        post@ == self@.departure_noted(flow_id, seq, nic_depart_time)
    }

    fn start_flow(&mut self, flow_id: FlowId, dst: EntityId, total_bytes: u64, now: u64) {
        self.start_flow_tx(flow_id, dst, total_bytes, now);
    }

    fn on_tx_tick(&mut self, now: u64) -> Vec<Packet> {
        self.try_send(now)
    }

    fn on_rx_data(&mut self, pkt: &Packet, now: u64) -> Vec<Packet> {
        self.on_data(pkt, now)
    }

    fn on_tx_control(&mut self, pkt: &Packet, now: u64) {
        match pkt.kind {
            PacketKind::Control(0) => self.on_ack(pkt, now),
            PacketKind::Control(2) => self.on_cnp(pkt, now),
            _ => {},
        }
    }

    fn all_flows_done(&self) -> bool {
        check_all_done(&self.tx_flows)
    }

    fn take_finished_flows(&mut self) -> Vec<(FlowId, u64)> {
        let mut out: Vec<(FlowId, u64)> = Vec::new();
        std::mem::swap(&mut out, &mut self.finished);
        out
    }

    fn stats(&self) -> ProtocolStats {
        self.stats
    }

    fn has_pending_work(&self) -> bool {
        check_any_work(&self.tx_flows)
    }

    fn next_rto_deadline(&self) -> Option<u64> {
        first_deadline(&self.tx_flows, RTO_NS)
    }

    fn next_tx_time(&self) -> (r: Option<u64>)
        ensures
            is_first_tx::<FlowTxState>(self@.tx, r),
    {
        first_tx(&self.tx_flows)
    }

    fn update_send_time(&mut self, flow_id: FlowId, seq: SeqNum, nic_depart_time: u64)
        ensures
            final(self)@ == old(self)@.departure_noted(flow_id, seq, nic_depart_time),
    {
        let ghost before = self@;
        if let Some(mut flow) = self.tx_flows.remove(&flow_id) {
            assert(flow@ == before.tx[flow_id]);
            note_departure(&mut flow.send_times, seq, nic_depart_time);
            self.tx_flows.insert(flow_id, flow);
        }
        assert(self@ =~= before.departure_noted(flow_id, seq, nic_depart_time));
    }
}

/// The rates of a flow stay between the least and the largest rate. A notification lowers the rate
/// unless it is the least; an unmarked acknowledgement does not lower it below the target.
pub proof fn law_rates_stay_in_bounds(f: TxView, now: u64)
    requires
        MIN_RATE_BPS <= f.current_rate_bps <= MAX_RATE_BPS,
        MIN_RATE_BPS <= f.target_rate_bps <= MAX_RATE_BPS,
    ensures
        ({
            let n = f.notified(now);
            &&& MIN_RATE_BPS <= n.current_rate_bps <= MAX_RATE_BPS
            &&& n.target_rate_bps == f.current_rate_bps
            &&& f.current_rate_bps > MIN_RATE_BPS ==> n.current_rate_bps < f.current_rate_bps
        }),
        ({
            let r = f.recovering(now);
            &&& MIN_RATE_BPS <= r.current_rate_bps <= MAX_RATE_BPS
            &&& MIN_RATE_BPS <= r.target_rate_bps <= MAX_RATE_BPS
            &&& f.current_rate_bps <= f.target_rate_bps ==> r.current_rate_bps
                >= f.current_rate_bps
        }),
{
    let rate = f.current_rate_bps as int;
    let alpha = f.raised_alpha() as int;
    let kept = ALPHA_ONE - alpha / 2;
    assert(3 <= alpha <= 1000) by {
        assert(0 <= f.alpha as int * 997 / 1000);
    }
    assert(rate * kept <= rate * 999) by (nonlinear_arith)
        requires
            rate >= 0,
            kept <= 999,
    ;
    assert(rate * kept / 1000 < rate) by {
        assert(rate * 999 / 1000 < rate);
        vstd::arithmetic::div_mod::lemma_div_is_ordered(rate * kept, rate * 999, 1000);
    }
}

} // verus!
