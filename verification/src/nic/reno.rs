//! TCP Reno: slow start, congestion avoidance, fast retransmit and fast recovery.
//!
//! - Slow start: every acknowledged packet widens the window by one.
//! - Congestion avoidance: a window of acknowledged packets widens it by one.
//! - The third duplicate acknowledgement starts fast recovery: the threshold becomes half
//!   the window, the window becomes the threshold and three more.
//! - In fast recovery every duplicate acknowledgement widens the window by one; a new
//!   acknowledgement ends it and sets the window to the threshold.
//! - A timeout sets the threshold to half the window and restarts the window.
use super::protocol::{Protocol, ProtocolStats};
use super::receiver::receive;
use super::sender::{
    check_all_done, check_any_work, count_resent, first_deadline, forget_acked, note_departure,
    overdue_seqs, packet_count, send_window, stamp, tick_flows, Burst, TickParams, TxFlow,
};
use crate::network::packet::{FlowId, Packet, PacketKind, SeqNum};
use crate::util::{holds_u32, max_u32, min_u32};
use crate::EntityId;
use std::collections::HashMap;
use vstd::prelude::*;

pub use super::receiver::FlowRxState;

verus! {

use super::endpoint::{endpoint_ticked, fresh_endpoint, EndpointView};
use super::receiver::rx_views;
use super::sender::{
    all_done, any_work, departed, flow_views, is_first_deadline, overdue_set, packets_for,
    unmarked, window_burst, Ticked, WindowView,
};
use crate::network::packet::{packet_views, PacketView};
use crate::util::{ascending, larger, smaller};

broadcast use vstd::std_specs::hash::group_hash_axioms;

/// The slow-start threshold that a flow begins with.
pub const INIT_SSTHRESH: u32 = 64;

/// The sending side of one flow.
pub struct FlowTxState {
    pub flow_id: FlowId,
    pub dst: EntityId,
    pub total_packets: u32,
    pub next_seq: SeqNum,
    pub un_acked_base: SeqNum,
    pub cwnd: u32,
    pub ssthresh: u32,
    pub in_flight: u32,
    pub done: bool,
    pub start_time: u64,
    pub finish_time: u64,
    pub send_times: HashMap<SeqNum, u64>,
    pub retransmit_queue: Vec<SeqNum>,
    /// Duplicate acknowledgements in a row.
    pub dup_ack_count: u32,
    /// Packets acknowledged since the window last grew in congestion avoidance.
    pub ca_ack_count: u32,
    /// Whether the flow is in fast recovery.
    pub fast_recovery: bool,
    /// How far duplicate acknowledgements have widened the window in fast recovery.
    pub recovery_inflation: u32,
}

/// What a sending flow holds.
#[verifier::ext_equal]
pub struct TxView {
    pub flow_id: FlowId,
    pub dst: EntityId,
    pub total_packets: u32,
    pub next_seq: SeqNum,
    pub un_acked_base: SeqNum,
    pub cwnd: u32,
    pub ssthresh: u32,
    pub in_flight: u32,
    pub done: bool,
    pub start_time: u64,
    pub finish_time: u64,
    pub send_times: Map<SeqNum, u64>,
    pub retransmit_queue: Seq<SeqNum>,
    pub dup_ack_count: u32,
    pub ca_ack_count: u32,
    pub fast_recovery: bool,
    pub recovery_inflation: u32,
}

impl View for FlowTxState {
    type V = TxView;

    open spec fn view(&self) -> TxView {
        TxView {
            flow_id: self.flow_id,
            dst: self.dst,
            total_packets: self.total_packets,
            next_seq: self.next_seq,
            un_acked_base: self.un_acked_base,
            cwnd: self.cwnd,
            ssthresh: self.ssthresh,
            in_flight: self.in_flight,
            done: self.done,
            start_time: self.start_time,
            finish_time: self.finish_time,
            send_times: self.send_times@,
            retransmit_queue: self.retransmit_queue@,
            dup_ack_count: self.dup_ack_count,
            ca_ack_count: self.ca_ack_count,
            fast_recovery: self.fast_recovery,
            recovery_inflation: self.recovery_inflation,
        }
    }
}

/// A flow of which nothing has been sent.
pub open spec fn fresh_tx(
    flow_id: FlowId,
    dst: EntityId,
    total_packets: u32,
    init_cwnd: u32,
    start_time: u64,
) -> TxView {
    TxView {
        flow_id,
        dst,
        total_packets,
        next_seq: 0,
        un_acked_base: 0,
        cwnd: init_cwnd,
        ssthresh: INIT_SSTHRESH,
        in_flight: 0,
        done: false,
        start_time,
        finish_time: 0,
        send_times: Map::empty(),
        retransmit_queue: Seq::empty(),
        dup_ack_count: 0,
        ca_ack_count: 0,
        fast_recovery: false,
        recovery_inflation: 0,
    }
}

impl TxView {
    /// The overdue packets.
    pub open spec fn late(self, p: TickParams) -> Seq<SeqNum> {
        ascending(overdue_set(self.send_times, self.retransmit_queue, p.now, p.rto_ns, false))
    }

    /// The part that the window governs.
    pub open spec fn window(self) -> WindowView {
        WindowView {
            in_flight: self.in_flight,
            next_seq: self.next_seq,
            queue: self.retransmit_queue,
            sent: self.send_times,
        }
    }

    /// The flow with the part that the window governs replaced.
    pub open spec fn with_window(self, w: WindowView) -> TxView {
        TxView {
            in_flight: w.in_flight,
            next_seq: w.next_seq,
            retransmit_queue: w.queue,
            send_times: w.sent,
            ..self
        }
    }

    /// The flow after a timeout: the threshold is half the window, and the window restarts.
    pub open spec fn timed_out(self, p: TickParams) -> TxView {
        TxView {
            ssthresh: larger(self.cwnd / 2, p.min_cwnd),
            cwnd: p.init_cwnd,
            dup_ack_count: 0,
            ca_ack_count: 0,
            fast_recovery: false,
            recovery_inflation: 0,
            ..self
        }
    }

    /// The flow after a tick. The window before any timeout limits what is sent.
    pub open spec fn after_tick(self, p: TickParams) -> Ticked<TxView> {
        let late = self.late(p);
        let b = window_burst(self.window(), late, self.cwnd, self.total_packets, p.now);
        let base = if late.len() > 0 {
            self.timed_out(p)
        } else {
            self
        };
        Ticked { flow: base.with_window(b.flow), resend: b.resend, fresh: b.fresh }
    }

    /// The flow after an acknowledgement that acknowledges nothing new: in fast recovery it
    /// widens the window, and the third in a row starts fast recovery.
    pub open spec fn after_duplicate(self, min_cwnd: u32, max_cwnd: u32) -> TxView {
        let count = self.dup_ack_count.saturating_add(1);
        let half = larger(self.cwnd / 2, min_cwnd);
        if self.fast_recovery {
            TxView {
                dup_ack_count: count,
                cwnd: smaller(self.cwnd.saturating_add(1), max_cwnd),
                recovery_inflation: self.recovery_inflation.saturating_add(1),
                ..self
            }
        } else if count == 3 {
            TxView {
                dup_ack_count: count,
                ssthresh: half,
                cwnd: smaller(half.saturating_add(3), max_cwnd),
                fast_recovery: true,
                recovery_inflation: 0,
                retransmit_queue: if self.retransmit_queue.contains(self.un_acked_base) {
                    self.retransmit_queue
                } else {
                    self.retransmit_queue.push(self.un_acked_base)
                },
                ..self
            }
        } else {
            TxView { dup_ack_count: count, ..self }
        }
    }

    /// The flow after everything below `seq` has been acknowledged, apart from its window.
    pub open spec fn advanced(self, seq: SeqNum) -> TxView {
        TxView {
            send_times: unmarked(self.send_times, self.un_acked_base, seq),
            in_flight: self.in_flight.saturating_sub((seq - self.un_acked_base) as u32),
            un_acked_base: seq,
            dup_ack_count: 0,
            ..self
        }
    }

    /// The flow after it has left fast recovery.
    pub open spec fn recovered(self) -> TxView {
        TxView { cwnd: self.ssthresh, fast_recovery: false, recovery_inflation: 0, ..self }
    }

    /// The flow after an acknowledgement of new packets up to `seq`.
    pub open spec fn after_progress(
        self,
        seq: SeqNum,
        ecn: bool,
        min_cwnd: u32,
        max_cwnd: u32,
    ) -> TxView {
        let delta = (seq - self.un_acked_base) as u32;
        let f = if self.fast_recovery {
            self.advanced(seq).recovered()
        } else {
            self.advanced(seq)
        };
        let half = larger(f.cwnd / 2, min_cwnd);
        let acks = f.ca_ack_count.saturating_add(delta);
        if ecn {
            TxView {
                ssthresh: half,
                cwnd: half,
                ca_ack_count: 0,
                fast_recovery: false,
                recovery_inflation: 0,
                ..f
            }
        } else if self.fast_recovery {
            f
        } else if f.cwnd < f.ssthresh {
            TxView { cwnd: smaller(f.cwnd.saturating_add(delta), max_cwnd), ..f }
        } else if acks >= f.cwnd {
            TxView { cwnd: smaller(f.cwnd.saturating_add(1), max_cwnd), ca_ack_count: 0, ..f }
        } else {
            TxView { ca_ack_count: acks, ..f }
        }
    }

    /// The flow after an acknowledgement of everything below `seq`.
    pub open spec fn after_ack(
        self,
        seq: SeqNum,
        ecn: bool,
        min_cwnd: u32,
        max_cwnd: u32,
    ) -> TxView {
        if seq == self.un_acked_base {
            self.after_duplicate(min_cwnd, max_cwnd)
        } else if seq > self.un_acked_base {
            self.after_progress(seq, ecn, min_cwnd, max_cwnd)
        } else {
            self
        }
    }

    /// Everything has been acknowledged, and this has not been noticed yet.
    pub open spec fn completes(self) -> bool {
        self.un_acked_base >= self.total_packets && !self.done
    }

    /// The complete flow.
    pub open spec fn finished(self, now: u64) -> TxView {
        TxView { done: true, finish_time: now, ..self }
    }
}

impl FlowTxState {
    /// A flow of which nothing has been sent.
    pub fn new(
        flow_id: FlowId,
        dst: EntityId,
        total_packets: u32,
        init_cwnd: u32,
        start_time: u64,
    ) -> (f: Self)
        ensures
            f@ == fresh_tx(flow_id, dst, total_packets, init_cwnd, start_time),
    {
        FlowTxState {
            flow_id,
            dst,
            total_packets,
            next_seq: 0,
            un_acked_base: 0,
            cwnd: init_cwnd,
            ssthresh: INIT_SSTHRESH,
            in_flight: 0,
            done: false,
            start_time,
            finish_time: 0,
            send_times: HashMap::new(),
            retransmit_queue: Vec::new(),
            dup_ack_count: 0,
            ca_ack_count: 0,
            fast_recovery: false,
            recovery_inflation: 0,
        }
    }

    fn duplicate_ack(&mut self, min_cwnd: u32, max_cwnd: u32)
        ensures
            final(self)@ == old(self)@.after_duplicate(min_cwnd, max_cwnd),
    {
        self.dup_ack_count = self.dup_ack_count.saturating_add(1);
        if self.fast_recovery {
            self.cwnd = min_u32(self.cwnd.saturating_add(1), max_cwnd);
            self.recovery_inflation = self.recovery_inflation.saturating_add(1);
        } else if self.dup_ack_count == 3 {
            self.ssthresh = max_u32(self.cwnd / 2, min_cwnd);
            self.cwnd = min_u32(self.ssthresh.saturating_add(3), max_cwnd);
            self.fast_recovery = true;
            self.recovery_inflation = 0;
            if !holds_u32(&self.retransmit_queue, self.un_acked_base) {
                self.retransmit_queue.push(self.un_acked_base);
            }
        }
    }

    fn new_ack(&mut self, seq: SeqNum, ecn: bool, min_cwnd: u32, max_cwnd: u32)
        requires
            seq > old(self)@.un_acked_base,
        ensures
            final(self)@ == old(self)@.after_progress(seq, ecn, min_cwnd, max_cwnd),
    {
        let delta: u32 = seq - self.un_acked_base;
        let was_in_recovery: bool = self.fast_recovery;
        forget_acked(&mut self.send_times, self.un_acked_base, seq);
        self.un_acked_base = seq;
        self.in_flight = self.in_flight.saturating_sub(delta);
        self.dup_ack_count = 0;
        if was_in_recovery {
            self.cwnd = self.ssthresh;
            self.fast_recovery = false;
            self.recovery_inflation = 0;
        }
        if ecn {
            self.fast_recovery = false;
            self.recovery_inflation = 0;
            self.ssthresh = max_u32(self.cwnd / 2, min_cwnd);
            self.cwnd = max_u32(self.ssthresh, min_cwnd);
            self.ca_ack_count = 0;
        } else if !was_in_recovery {
            if self.cwnd < self.ssthresh {
                self.cwnd = min_u32(self.cwnd.saturating_add(delta), max_cwnd);
            } else {
                self.ca_ack_count = self.ca_ack_count.saturating_add(delta);
                if self.ca_ack_count >= self.cwnd {
                    self.cwnd = min_u32(self.cwnd.saturating_add(1), max_cwnd);
                    self.ca_ack_count = 0;
                }
            }
        }
    }
}

impl TxFlow for FlowTxState {
    open spec fn done_of(s: TxView) -> bool {
        s.done
    }

    open spec fn dst_of(s: TxView) -> EntityId {
        s.dst
    }

    open spec fn sent_of(s: TxView) -> Map<SeqNum, u64> {
        s.send_times
    }

    open spec fn work_of(s: TxView) -> bool {
        s.retransmit_queue.len() > 0 || (s.in_flight < s.cwnd && s.next_seq < s.total_packets)
    }

    open spec fn ticked(s: TxView, p: TickParams) -> Ticked<TxView> {
        s.after_tick(p)
    }

    fn is_done(&self) -> (r: bool) {
        self.done
    }

    fn dest(&self) -> (d: EntityId) {
        self.dst
    }

    fn sent(&self) -> (m: &HashMap<SeqNum, u64>) {
        &self.send_times
    }

    fn has_work(&self) -> (r: bool) {
        self.retransmit_queue.len() > 0 || (self.in_flight < self.cwnd && self.next_seq
            < self.total_packets)
    }

    fn tick(&mut self, p: &TickParams) -> (b: Burst) {
        let late = overdue_seqs(&self.send_times, &self.retransmit_queue, p.now, p.rto_ns, false);
        let cwnd: u32 = self.cwnd;
        if late.len() > 0 {
            self.ssthresh = max_u32(self.cwnd / 2, p.min_cwnd);
            self.cwnd = p.init_cwnd;
            self.dup_ack_count = 0;
            self.ca_ack_count = 0;
            self.fast_recovery = false;
            self.recovery_inflation = 0;
        }
        send_window(
            cwnd,
            self.total_packets,
            p.now,
            late,
            &mut self.in_flight,
            &mut self.next_seq,
            &mut self.retransmit_queue,
            &mut self.send_times,
        )
    }
}

/// The TCP Reno of one host.
pub struct TcpReno {
    pub host_id: EntityId,
    pub tx_flows: HashMap<FlowId, FlowTxState>,
    pub rx_flows: HashMap<FlowId, FlowRxState>,
    pub stats: ProtocolStats,
    pub next_packet_id: u64,
    pub init_cwnd: u32,
    pub max_cwnd: u32,
    pub min_cwnd: u32,
    pub rto_ns: u64,
    pub finished: Vec<(FlowId, u64)>,
}

impl View for TcpReno {
    type V = EndpointView<TxView>;

    open spec fn view(&self) -> EndpointView<TxView> {
        EndpointView {
            host_id: self.host_id,
            tx: flow_views(self.tx_flows@),
            rx: rx_views(self.rx_flows@),
            stats: self.stats,
            next_packet_id: self.next_packet_id,
            init_cwnd: self.init_cwnd,
            max_cwnd: self.max_cwnd,
            min_cwnd: self.min_cwnd,
            rto_ns: self.rto_ns,
            finished: self.finished@,
        }
    }
}

/// The transport after an acknowledgement of everything below `seq` of a flow; an unknown
/// flow changes nothing.
pub open spec fn acknowledged(
    e: EndpointView<TxView>,
    id: FlowId,
    seq: SeqNum,
    ecn: bool,
    now: u64,
) -> EndpointView<TxView> {
    if !e.tx.contains_key(id) {
        e
    } else {
        let f = e.tx[id].after_ack(seq, ecn, e.min_cwnd, e.max_cwnd);
        if f.completes() {
            e.with_flow(id, f.finished(now)).completed(f.flow_id, now)
        } else {
            e.with_flow(id, f)
        }
    }
}

/// The transport after the NIC has reported that a packet left at `at`.
pub open spec fn departure_noted(
    e: EndpointView<TxView>,
    id: FlowId,
    seq: SeqNum,
    at: u64,
) -> EndpointView<TxView> {
    if e.tx.contains_key(id) {
        e.with_flow(
            id,
            TxView { send_times: departed(e.tx[id].send_times, seq, at), ..e.tx[id] },
        )
    } else {
        e
    }
}

impl TcpReno {
    /// A transport without flows, with the default parameters.
    pub fn new(host_id: EntityId) -> (t: Self)
        ensures
            t@ == fresh_endpoint::<TxView>(host_id),
    {
        let t = TcpReno {
            host_id,
            tx_flows: HashMap::new(),
            rx_flows: HashMap::new(),
            stats: ProtocolStats::default(),
            next_packet_id: 1,
            init_cwnd: 16,
            max_cwnd: 256,
            min_cwnd: 1,
            rto_ns: 100_000,
            finished: Vec::new(),
        };
        assert(t@ =~= fresh_endpoint::<TxView>(host_id));
        t
    }

    /// Registers a flow of `total_bytes`.
    pub fn start_flow_tx(&mut self, flow_id: FlowId, dst: EntityId, total_bytes: u64, now: u64)
        ensures
            final(self)@ == old(self)@.with_flow(
                flow_id,
                fresh_tx(flow_id, dst, packets_for(total_bytes), old(self)@.init_cwnd, now),
            ),
    {
        let flow = FlowTxState::new(
            flow_id,
            dst,
            packet_count(total_bytes),
            self.init_cwnd,
            now,
        );
        self.tx_flows.insert(flow_id, flow);
        assert(self@.tx =~= old(self)@.tx.insert(flow_id, flow@));
    }

    /// Sends what the flows may send at `now`.
    pub fn try_send(&mut self, now: u64) -> (out: Vec<Packet>)
        ensures
            (final(self)@, packet_views(out@)) == endpoint_ticked::<FlowTxState>(old(self)@, now),
    {
        let p = TickParams {
            now,
            rto_ns: self.rto_ns,
            init_cwnd: self.init_cwnd,
            min_cwnd: self.min_cwnd,
            routable: true,
            strict: false,
        };
        let sends = tick_flows(&mut self.tx_flows, &p);
        let resent: usize = count_resent(&sends);
        self.stats.count_sent(sends.len(), resent);
        let out = stamp(&sends, &mut self.next_packet_id, self.host_id, now);
        assert(self@ =~= endpoint_ticked::<FlowTxState>(old(self)@, now).0);
        out
    }

    /// Takes in an acknowledgement.
    pub fn on_ack(&mut self, ack: &Packet, now: u64)
        ensures
            final(self)@ == acknowledged(old(self)@, ack.flow_id, ack.seq, ack.ecn, now),
    {
        let ghost before = self@;
        match self.tx_flows.remove(&ack.flow_id) {
            None => {
                assert(self@ =~= before);
            },
            Some(mut flow) => {
                assert(flow@ == before.tx[ack.flow_id]);
                if ack.seq == flow.un_acked_base {
                    flow.duplicate_ack(self.min_cwnd, self.max_cwnd);
                } else if ack.seq > flow.un_acked_base {
                    flow.new_ack(ack.seq, ack.ecn, self.min_cwnd, self.max_cwnd);
                }
                if flow.un_acked_base >= flow.total_packets && !flow.done {
                    flow.done = true;
                    flow.finish_time = now;
                    self.stats.count_completed();
                    self.finished.push((flow.flow_id, now));
                }
                self.tx_flows.insert(ack.flow_id, flow);
                assert(self@ =~= acknowledged(before, ack.flow_id, ack.seq, ack.ecn, now));
            },
        }
    }

    /// Takes in a data packet and acknowledges it.
    pub fn on_data(&mut self, pkt: &Packet, now: u64) -> (out: Vec<Packet>)
        ensures
            (final(self)@, packet_views(out@)) == old(self)@.received(pkt@, now),
    {
        self.stats.count_received();
        let next: SeqNum = receive(&mut self.rx_flows, pkt);
        let id: u64 = self.next_packet_id;
        self.next_packet_id = id.wrapping_add(1);
        let ack = Packet::control(
            id,
            id,
            pkt.flow_id,
            next,
            self.host_id,
            pkt.src,
            pkt.ecn,
            0,
            Vec::new(),
            now,
        );
        let mut out: Vec<Packet> = Vec::new();
        out.push(ack);
        assert(self@ =~= old(self)@.received(pkt@, now).0);
        assert(packet_views(out@) =~= old(self)@.received(pkt@, now).1);
        out
    }
}

impl Protocol for TcpReno {
    open spec fn started(
        &self,
        post: &Self,
        flow_id: FlowId,
        dst: EntityId,
        total_bytes: u64,
        now: u64,
    ) -> bool {
        post@ == self@.with_flow(
            flow_id,
            fresh_tx(flow_id, dst, packets_for(total_bytes), self@.init_cwnd, now),
        )
    }

    open spec fn ticked(&self, post: &Self, now: u64, out: Seq<PacketView>) -> bool {
        (post@, out) == endpoint_ticked::<FlowTxState>(self@, now)
    }

    open spec fn took_data(
        &self,
        post: &Self,
        pkt: PacketView,
        now: u64,
        out: Seq<PacketView>,
    ) -> bool {
        (post@, out) == self@.received(pkt, now)
    }

    open spec fn took_control(&self, post: &Self, pkt: PacketView, now: u64) -> bool {
        post@ == if pkt.kind == PacketKind::Control(0) {
            acknowledged(self@, pkt.flow_id, pkt.seq, pkt.ecn, now)
        } else {
            self@
        }
    }

    open spec fn is_done(&self) -> bool {
        all_done::<FlowTxState>(self@.tx)
    }

    open spec fn finishes(&self, post: &Self, out: Seq<(FlowId, u64)>) -> bool {
        &&& out == self@.finished
        &&& post@ == (EndpointView { finished: Seq::empty(), ..self@ })
    }

    open spec fn counters(&self) -> ProtocolStats {
        self@.stats
    }

    open spec fn has_work(&self) -> bool {
        any_work::<FlowTxState>(self@.tx)
    }

    open spec fn times_out(&self, at: Option<u64>) -> bool {
        is_first_deadline::<FlowTxState>(self@.tx, self@.rto_ns, at)
    }

    open spec fn noted_departure(
        &self,
        post: &Self,
        flow_id: FlowId,
        seq: SeqNum,
        nic_depart_time: u64,
    ) -> bool {
        post@ == departure_noted(self@, flow_id, seq, nic_depart_time)
    }

    open spec fn paced_until(&self, at: Option<u64>) -> bool {
        at is None
    }

    fn start_flow(&mut self, flow_id: FlowId, dst: EntityId, total_bytes: u64, now: u64) {
        self.start_flow_tx(flow_id, dst, total_bytes, now);
    }

    fn on_tx_tick(&mut self, now: u64) -> Vec<Packet> {
        self.try_send(now)
    }

    fn on_rx_data(&mut self, pkt: &Packet, now: u64) -> Vec<Packet> {
        self.on_data(pkt, now)
    }

    fn on_tx_control(&mut self, pkt: &Packet, now: u64) {
        if let PacketKind::Control(0) = pkt.kind {
            self.on_ack(pkt, now);
        }
    }

    fn all_flows_done(&self) -> bool {
        check_all_done(&self.tx_flows)
    }

    fn take_finished_flows(&mut self) -> Vec<(FlowId, u64)> {
        let mut out: Vec<(FlowId, u64)> = Vec::new();
        std::mem::swap(&mut out, &mut self.finished);
        out
    }

    fn stats(&self) -> ProtocolStats {
        self.stats
    }

    fn has_pending_work(&self) -> bool {
        check_any_work(&self.tx_flows)
    }

    fn next_rto_deadline(&self) -> Option<u64> {
        first_deadline(&self.tx_flows, self.rto_ns)
    }

    fn next_tx_time(&self) -> Option<u64> {
        None
    }

    fn update_send_time(&mut self, flow_id: FlowId, seq: SeqNum, nic_depart_time: u64)
        ensures
            final(self)@ == departure_noted(old(self)@, flow_id, seq, nic_depart_time),
    {
        let ghost before = self@;
        if let Some(mut flow) = self.tx_flows.remove(&flow_id) {
            assert(flow@ == before.tx[flow_id]);
            note_departure(&mut flow.send_times, seq, nic_depart_time);
            self.tx_flows.insert(flow_id, flow);
        }
        assert(self@ =~= departure_noted(before, flow_id, seq, nic_depart_time));
    }
}

} // verus!
