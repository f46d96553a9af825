//! TCP CUBIC: a window that grows as a cubic function of the time since the last loss.
//!
//! - The growth aims at `C (t - K)^3 + W_max` packets, `t` round trips after the last loss,
//!   where `W_max` is the window at that loss and `K` the cube root of `W_max * beta / C`.
//! - On a loss the window shrinks to the fraction `beta` (three tenths).
//! - Fast convergence: when a loss finds a smaller window than the one before, `W_max`
//!   shrinks further.
//! - Fast retransmit, fast recovery and timeouts are those of Reno.
//!
//! The cubic function itself is evaluated outside: an acknowledgement in congestion
//! avoidance returns a [`GrowthRequest`], and `grow` applies what was computed for it.
use super::protocol::ProtocolStats;
use super::receiver::receive;
use super::sender::{
    check_all_done, check_any_work, count_resent, first_deadline, forget_acked, note_departure,
    overdue_seqs, packet_count, send_window, stamp, tick_flows, Burst, TickParams, TxFlow,
};
use crate::network::packet::{FlowId, Packet, SeqNum};
use crate::util::{holds_u32, max_u32, min_u32};
use crate::EntityId;
use std::collections::HashMap;
use vstd::prelude::*;

pub use super::receiver::FlowRxState;

verus! {

use super::endpoint::{endpoint_ticked, fresh_endpoint, EndpointView};
use super::receiver::rx_views;
use super::sender::{
    all_done, any_work, departed, flow_views, is_first_deadline, overdue_set, packets_for,
    unmarked, window_burst, Ticked, WindowView,
};
use crate::network::packet::packet_views;
use crate::util::{ascending, larger, smaller};

broadcast use vstd::std_specs::hash::group_hash_axioms;

/// The slow-start threshold that a flow begins with.
pub const INIT_SSTHRESH: u32 = 64;

/// The round-trip time that is assumed until one has been measured.
pub const INIT_RTT_NS: u64 = 100_000;

/// The sending side of one flow.
pub struct FlowTxState {
    pub flow_id: FlowId,
    pub dst: EntityId,
    pub total_packets: u32,
    pub next_seq: SeqNum,
    pub un_acked_base: SeqNum,
    pub cwnd: u32,
    pub ssthresh: u32,
    pub in_flight: u32,
    pub done: bool,
    pub start_time: u64,
    pub finish_time: u64,
    pub send_times: HashMap<SeqNum, u64>,
    pub retransmit_queue: Vec<SeqNum>,
    /// Duplicate acknowledgements in a row.
    pub dup_ack_count: u32,
    /// Packets acknowledged since the window last grew in congestion avoidance.
    pub ca_ack_count: u32,
    /// When the last loss was noticed.
    pub epoch_start_ns: u64,
    /// The window at the last loss.
    pub w_max_pkts: u32,
    /// The smoothed round-trip time.
    pub rtt_estimate_ns: u64,
    /// Whether a round-trip time has been measured.
    pub rtt_valid: bool,
    /// The part of a packet by which the window has grown, as the bits of a
    /// double-precision number; zero stands for zero.
    pub cwnd_accum_bits: u64,
    /// Whether the last loss shrank `w_max_pkts` further.
    pub fast_convergence_applied: bool,
    /// Whether the flow is in fast recovery.
    pub fast_recovery: bool,
    /// How far duplicate acknowledgements have widened the window in fast recovery.
    pub recovery_inflation: u32,
}

/// What the cubic function is to be evaluated on: the state of a flow in congestion
/// avoidance after `acked` packets have been acknowledged.
#[derive(Debug, Clone, Copy)]
pub struct GrowthRequest {
    pub flow_id: FlowId,
    pub acked: u32,
    pub cwnd: u32,
    pub w_max_pkts: u32,
    /// The time since the last loss.
    pub elapsed_ns: u64,
    /// The round-trip time, at least one.
    pub rtt_ns: u64,
    pub cwnd_accum_bits: u64,
}

/// Three tenths of a window, rounded down.
pub open spec fn beta_part(window: u32) -> u32 {
    (window as int * 3 / 10) as u32
}

fn take_beta(window: u32) -> (r: u32)
    ensures
        r == beta_part(window),
{
    (window as u64 * 3 / 10) as u32
}

/// `value * num / den` for a part `num` of `den`.
fn scale_down(value: u32, num: u32, den: u32) -> (r: u32)
    requires
        num < den,
    ensures
        r as int == value as int * num as int / den as int,
        r <= value,
{
    assert(value as int * num as int <= value as int * den as int) by (nonlinear_arith)
        requires
            0 <= num < den,
            value >= 0,
    ;
    assert(value as int * den as int <= 0xffff_ffff * 0xffff_ffff) by (nonlinear_arith)
        requires
            0 <= value <= 0xffff_ffff,
            0 <= den <= 0xffff_ffff,
    ;
    let product: u64 = value as u64 * num as u64;
    let r: u64 = product / den as u64;
    assert(r <= value) by (nonlinear_arith)
        requires
            product <= value as int * den as int,
            r as int == product as int / den as int,
            den > 0,
    ;
    r as u32
}

/// The round-trip estimate after a sample: the first sample, or seven eighths of the old
/// estimate and one eighth of the sample.
pub open spec fn smoothed_rtt(estimate: u64, valid: bool, sample: u64) -> u64 {
    if valid {
        ((estimate * 7 + sample) / 8) as u64
    } else {
        sample
    }
}

/// What a sending flow holds.
#[verifier::ext_equal]
pub struct TxView {
    pub flow_id: FlowId,
    pub dst: EntityId,
    pub total_packets: u32,
    pub next_seq: SeqNum,
    pub un_acked_base: SeqNum,
    pub cwnd: u32,
    pub ssthresh: u32,
    pub in_flight: u32,
    pub done: bool,
    pub start_time: u64,
    pub finish_time: u64,
    pub send_times: Map<SeqNum, u64>,
    pub retransmit_queue: Seq<SeqNum>,
    pub dup_ack_count: u32,
    pub ca_ack_count: u32,
    pub epoch_start_ns: u64,
    pub w_max_pkts: u32,
    pub rtt_estimate_ns: u64,
    pub rtt_valid: bool,
    pub cwnd_accum_bits: u64,
    pub fast_convergence_applied: bool,
    pub fast_recovery: bool,
    pub recovery_inflation: u32,
}

impl View for FlowTxState {
    type V = TxView;

    open spec fn view(&self) -> TxView {
        TxView {
            flow_id: self.flow_id,
            dst: self.dst,
            total_packets: self.total_packets,
            next_seq: self.next_seq,
            un_acked_base: self.un_acked_base,
            cwnd: self.cwnd,
            ssthresh: self.ssthresh,
            in_flight: self.in_flight,
            done: self.done,
            start_time: self.start_time,
            finish_time: self.finish_time,
            send_times: self.send_times@,
            retransmit_queue: self.retransmit_queue@,
            dup_ack_count: self.dup_ack_count,
            ca_ack_count: self.ca_ack_count,
            epoch_start_ns: self.epoch_start_ns,
            w_max_pkts: self.w_max_pkts,
            rtt_estimate_ns: self.rtt_estimate_ns,
            rtt_valid: self.rtt_valid,
            cwnd_accum_bits: self.cwnd_accum_bits,
            fast_convergence_applied: self.fast_convergence_applied,
            fast_recovery: self.fast_recovery,
            recovery_inflation: self.recovery_inflation,
        }
    }
}

/// A flow of which nothing has been sent.
pub open spec fn fresh_tx(
    flow_id: FlowId,
    dst: EntityId,
    total_packets: u32,
    init_cwnd: u32,
    start_time: u64,
) -> TxView {
    TxView {
        flow_id,
        dst,
        total_packets,
        next_seq: 0,
        un_acked_base: 0,
        cwnd: init_cwnd,
        ssthresh: INIT_SSTHRESH,
        in_flight: 0,
        done: false,
        start_time,
        finish_time: 0,
        send_times: Map::empty(),
        retransmit_queue: Seq::empty(),
        dup_ack_count: 0,
        ca_ack_count: 0,
        epoch_start_ns: 0,
        w_max_pkts: 0,
        rtt_estimate_ns: INIT_RTT_NS,
        rtt_valid: false,
        cwnd_accum_bits: 0,
        fast_convergence_applied: false,
        fast_recovery: false,
        recovery_inflation: 0,
    }
}

impl TxView {
    /// The overdue packets.
    pub open spec fn late(self, p: TickParams) -> Seq<SeqNum> {
        ascending(overdue_set(self.send_times, self.retransmit_queue, p.now, p.rto_ns, false))
    }

    /// The part that the window governs.
    pub open spec fn window(self) -> WindowView {
        WindowView {
            in_flight: self.in_flight,
            next_seq: self.next_seq,
            queue: self.retransmit_queue,
            sent: self.send_times,
        }
    }

    /// The flow with the part that the window governs replaced.
    pub open spec fn with_window(self, w: WindowView) -> TxView {
        TxView {
            in_flight: w.in_flight,
            next_seq: w.next_seq,
            retransmit_queue: w.queue,
            send_times: w.sent,
            ..self
        }
    }

    /// The flow after a timeout: the threshold is half the window, and the window restarts.
    pub open spec fn timed_out(self, p: TickParams) -> TxView {
        TxView {
            w_max_pkts: self.converged_w_max(),
            fast_convergence_applied: self.converges(),
            ssthresh: larger(self.cwnd / 2, p.min_cwnd),
            cwnd: p.init_cwnd,
            epoch_start_ns: p.now,
            cwnd_accum_bits: 0,
            dup_ack_count: 0,
            ca_ack_count: 0,
            fast_recovery: false,
            recovery_inflation: 0,
            ..self
        }
    }

    /// The flow after a tick. The window before any timeout limits what is sent.
    pub open spec fn after_tick(self, p: TickParams) -> Ticked<TxView> {
        let late = self.late(p);
        let b = window_burst(self.window(), late, self.cwnd, self.total_packets, p.now);
        let base = if late.len() > 0 {
            self.timed_out(p)
        } else {
            self
        };
        Ticked { flow: base.with_window(b.flow), resend: b.resend, fresh: b.fresh }
    }

    /// A loss now would find a smaller window than the loss before.
    pub open spec fn converges(self) -> bool {
        self.cwnd < self.w_max_pkts
    }

    /// The window at the last loss after a loss with the window `self.cwnd`: the window
    /// itself, or less in proportion if it is smaller than at the loss before.
    pub open spec fn converged_w_max(self) -> u32 {
        if self.converges() {
            (self.cwnd as int * self.cwnd as int / self.w_max_pkts as int) as u32
        } else {
            self.cwnd
        }
    }

    /// The flow after an acknowledgement that acknowledges nothing new: in fast recovery it
    /// widens the window, and the third in a row is a loss and starts fast recovery.
    pub open spec fn after_duplicate(self, min_cwnd: u32, max_cwnd: u32, now: u64) -> TxView {
        let count = self.dup_ack_count.saturating_add(1);
        let reduced = larger(beta_part(self.cwnd), min_cwnd);
        if self.fast_recovery {
            TxView {
                dup_ack_count: count,
                cwnd: smaller(self.cwnd.saturating_add(1), max_cwnd),
                recovery_inflation: self.recovery_inflation.saturating_add(1),
                ..self
            }
        } else if count == 3 {
            TxView {
                dup_ack_count: count,
                w_max_pkts: self.converged_w_max(),
                fast_convergence_applied: self.converges(),
                ssthresh: reduced,
                cwnd: smaller(reduced.saturating_add(3), max_cwnd),
                epoch_start_ns: now,
                cwnd_accum_bits: 0,
                fast_recovery: true,
                recovery_inflation: 0,
                retransmit_queue: if self.retransmit_queue.contains(self.un_acked_base) {
                    self.retransmit_queue
                } else {
                    self.retransmit_queue.push(self.un_acked_base)
                },
                ..self
            }
        } else {
            TxView { dup_ack_count: count, ..self }
        }
    }

    /// The flow after a round trip of `sample` has been measured.
    pub open spec fn measured(self, sample: u64) -> TxView {
        TxView {
            rtt_estimate_ns: smoothed_rtt(self.rtt_estimate_ns, self.rtt_valid, sample),
            rtt_valid: true,
            ..self
        }
    }

    /// The flow after everything below `seq` has been acknowledged, apart from its window.
    pub open spec fn advanced(self, seq: SeqNum) -> TxView {
        TxView {
            send_times: unmarked(self.send_times, self.un_acked_base, seq),
            in_flight: self.in_flight.saturating_sub((seq - self.un_acked_base) as u32),
            un_acked_base: seq,
            dup_ack_count: 0,
            ..self
        }
    }

    /// The flow after it has left fast recovery.
    pub open spec fn recovered(self) -> TxView {
        TxView { cwnd: self.ssthresh, fast_recovery: false, recovery_inflation: 0, ..self }
    }

    /// The flow after everything below `seq` has been acknowledged at `now`, apart from its
    /// congestion control: the first packet measures the round trip, and fast recovery ends.
    pub open spec fn progressed(self, seq: SeqNum, now: u64) -> TxView {
        let m = if self.send_times.contains_key(self.un_acked_base) {
            self.measured(now.saturating_sub(self.send_times[self.un_acked_base]))
        } else {
            self
        };
        if self.fast_recovery {
            m.advanced(seq).recovered()
        } else {
            m.advanced(seq)
        }
    }

    /// An acknowledgement of new packets finds the flow in congestion avoidance.
    pub open spec fn avoids_congestion(self, ecn: bool) -> bool {
        !ecn && !self.fast_recovery && self.cwnd >= self.ssthresh
    }

    /// The flow after an acknowledgement of new packets up to `seq`. In congestion
    /// avoidance the window is left to grow by what the cubic function gives.
    pub open spec fn after_progress(
        self,
        seq: SeqNum,
        ecn: bool,
        min_cwnd: u32,
        max_cwnd: u32,
        now: u64,
    ) -> TxView {
        let delta = (seq - self.un_acked_base) as u32;
        let f = self.progressed(seq, now);
        let reduced = larger(beta_part(f.cwnd), min_cwnd);
        if ecn {
            TxView {
                w_max_pkts: f.converged_w_max(),
                fast_convergence_applied: f.converges(),
                ssthresh: reduced,
                cwnd: reduced,
                epoch_start_ns: now,
                cwnd_accum_bits: 0,
                ca_ack_count: 0,
                fast_recovery: false,
                ..f
            }
        } else if self.fast_recovery {
            f
        } else if f.cwnd < f.ssthresh {
            TxView { cwnd: smaller(f.cwnd.saturating_add(delta), max_cwnd), ..f }
        } else {
            TxView {
                w_max_pkts: if f.w_max_pkts == 0 {
                    f.cwnd
                } else {
                    f.w_max_pkts
                },
                ..f
            }
        }
    }

    /// The flow after an acknowledgement of everything below `seq`.
    pub open spec fn after_ack(
        self,
        seq: SeqNum,
        ecn: bool,
        min_cwnd: u32,
        max_cwnd: u32,
        now: u64,
    ) -> TxView {
        if seq == self.un_acked_base {
            self.after_duplicate(min_cwnd, max_cwnd, now)
        } else if seq > self.un_acked_base {
            self.after_progress(seq, ecn, min_cwnd, max_cwnd, now)
        } else {
            self
        }
    }

    /// What the flow asks for after an acknowledgement of everything below `seq`: growth,
    /// if the acknowledgement is new and finds the flow in congestion avoidance.
    pub open spec fn growth_asked(self, seq: SeqNum, ecn: bool, now: u64) -> Option<GrowthRequest> {
        if seq > self.un_acked_base && self.avoids_congestion(ecn) {
            let f = self.progressed(seq, now);
            Some(
                GrowthRequest {
                    flow_id: self.flow_id,
                    acked: (seq - self.un_acked_base) as u32,
                    cwnd: f.cwnd,
                    w_max_pkts: if f.w_max_pkts == 0 {
                        f.cwnd
                    } else {
                        f.w_max_pkts
                    },
                    elapsed_ns: now.saturating_sub(f.epoch_start_ns),
                    rtt_ns: if f.rtt_estimate_ns == 0 {
                        1
                    } else {
                        f.rtt_estimate_ns
                    },
                    cwnd_accum_bits: f.cwnd_accum_bits,
                },
            )
        } else {
            None
        }
    }

    /// The flow after its window has grown by `steps` packets, up to the largest window.
    pub open spec fn grown(self, steps: u32, cwnd_accum_bits: u64, max_cwnd: u32) -> TxView {
        TxView {
            cwnd: if self.cwnd >= max_cwnd {
                self.cwnd
            } else {
                smaller(self.cwnd.saturating_add(steps), max_cwnd)
            },
            cwnd_accum_bits,
            ..self
        }
    }

    /// Everything has been acknowledged, and this has not been noticed yet.
    pub open spec fn completes(self) -> bool {
        self.un_acked_base >= self.total_packets && !self.done
    }

    /// The complete flow.
    pub open spec fn finished(self, now: u64) -> TxView {
        TxView { done: true, finish_time: now, ..self }
    }
}

/// Fast convergence: a loss that finds a smaller window than the loss before leaves less than this
/// window as the one to grow back to, and any other loss the window itself.
pub proof fn law_smaller_window_converges(f: TxView)
    ensures
        f.converged_w_max() <= f.cwnd,
        f.cwnd > 0 ==> (f.converged_w_max() < f.cwnd <==> f.cwnd < f.w_max_pkts),
{
    let (c, w) = (f.cwnd as int, f.w_max_pkts as int);
    if c < w {
        let q = c * c / w;
        assert(0 <= q <= c && (c > 0 ==> q < c)) by (nonlinear_arith)
            requires
                q == c * c / w,
                0 <= c < w,
        ;
    }
}

impl FlowTxState {
    /// A flow of which nothing has been sent.
    pub fn new(
        flow_id: FlowId,
        dst: EntityId,
        total_packets: u32,
        init_cwnd: u32,
        start_time: u64,
    ) -> (f: Self)
        ensures
            f@ == fresh_tx(flow_id, dst, total_packets, init_cwnd, start_time),
    {
        FlowTxState {
            flow_id,
            dst,
            total_packets,
            next_seq: 0,
            un_acked_base: 0,
            cwnd: init_cwnd,
            ssthresh: INIT_SSTHRESH,
            in_flight: 0,
            done: false,
            start_time,
            finish_time: 0,
            send_times: HashMap::new(),
            retransmit_queue: Vec::new(),
            dup_ack_count: 0,
            ca_ack_count: 0,
            epoch_start_ns: 0,
            w_max_pkts: 0,
            rtt_estimate_ns: INIT_RTT_NS,
            rtt_valid: false,
            cwnd_accum_bits: 0,
            fast_convergence_applied: false,
            fast_recovery: false,
            recovery_inflation: 0,
        }
    }

    /// Notes the window at a loss.
    fn note_loss(&mut self)
        ensures
            final(self)@ == (TxView {
                w_max_pkts: old(self)@.converged_w_max(),
                fast_convergence_applied: old(self)@.converges(),
                ..old(self)@
            }),
    {
        self.fast_convergence_applied = self.cwnd < self.w_max_pkts;
        if self.fast_convergence_applied {
            self.w_max_pkts = scale_down(self.cwnd, self.cwnd, self.w_max_pkts);
        } else {
            self.w_max_pkts = self.cwnd;
        }
    }

    fn duplicate_ack(&mut self, min_cwnd: u32, max_cwnd: u32, now: u64)
        ensures
            final(self)@ == old(self)@.after_duplicate(min_cwnd, max_cwnd, now),
    {
        self.dup_ack_count = self.dup_ack_count.saturating_add(1);
        if self.fast_recovery {
            self.cwnd = min_u32(self.cwnd.saturating_add(1), max_cwnd);
            self.recovery_inflation = self.recovery_inflation.saturating_add(1);
        } else if self.dup_ack_count == 3 {
            self.note_loss();
            self.ssthresh = max_u32(take_beta(self.cwnd), min_cwnd);
            self.cwnd = min_u32(self.ssthresh.saturating_add(3), max_cwnd);
            self.epoch_start_ns = now;
            self.cwnd_accum_bits = 0;
            self.fast_recovery = true;
            self.recovery_inflation = 0;
            if !holds_u32(&self.retransmit_queue, self.un_acked_base) {
                self.retransmit_queue.push(self.un_acked_base);
            }
        }
    }

    /// Takes a measured round trip into the estimate.
    pub fn update_rtt(&mut self, rtt_sample_ns: u64)
        ensures
            final(self)@ == old(self)@.measured(rtt_sample_ns),
    {
        if self.rtt_valid {
            let sum: u128 = self.rtt_estimate_ns as u128 * 7 + rtt_sample_ns as u128;
            self.rtt_estimate_ns = (sum / 8) as u64;
        } else {
            self.rtt_estimate_ns = rtt_sample_ns;
            self.rtt_valid = true;
        }
    }

    fn new_ack(&mut self, seq: SeqNum, ecn: bool, min_cwnd: u32, max_cwnd: u32, now: u64) -> (g:
        Option<GrowthRequest>)
        requires
            seq > old(self)@.un_acked_base,
        ensures
            final(self)@ == old(self)@.after_progress(seq, ecn, min_cwnd, max_cwnd, now),
            g == old(self)@.growth_asked(seq, ecn, now),
    {
        let delta: u32 = seq - self.un_acked_base;
        let was_in_recovery: bool = self.fast_recovery;
        let first_sent: Option<u64> = match self.send_times.get(&self.un_acked_base) {
            Some(at) => Some(*at),
            None => None,
        };
        if let Some(at) = first_sent {
            self.update_rtt(now.saturating_sub(at));
        }
        forget_acked(&mut self.send_times, self.un_acked_base, seq);
        self.un_acked_base = seq;
        self.in_flight = self.in_flight.saturating_sub(delta);
        self.dup_ack_count = 0;
        if was_in_recovery {
            self.cwnd = self.ssthresh;
            self.fast_recovery = false;
            self.recovery_inflation = 0;
        }
        if ecn {
            self.note_loss();
            self.ssthresh = max_u32(take_beta(self.cwnd), min_cwnd);
            self.cwnd = max_u32(self.ssthresh, min_cwnd);
            self.epoch_start_ns = now;
            self.cwnd_accum_bits = 0;
            self.fast_recovery = false;
            self.ca_ack_count = 0;
            None
        } else if was_in_recovery {
            None
        } else if self.cwnd < self.ssthresh {
            self.cwnd = min_u32(self.cwnd.saturating_add(delta), max_cwnd);
            None
        } else {
            if self.w_max_pkts == 0 {
                self.w_max_pkts = self.cwnd;
            }
            Some(
                GrowthRequest {
                    flow_id: self.flow_id,
                    acked: delta,
                    cwnd: self.cwnd,
                    w_max_pkts: self.w_max_pkts,
                    elapsed_ns: now.saturating_sub(self.epoch_start_ns),
                    rtt_ns: if self.rtt_estimate_ns == 0 {
                        1
                    } else {
                        self.rtt_estimate_ns
                    },
                    cwnd_accum_bits: self.cwnd_accum_bits,
                },
            )
        }
    }
}

impl TxFlow for FlowTxState {
    open spec fn done_of(s: TxView) -> bool {
        s.done
    }

    open spec fn dst_of(s: TxView) -> EntityId {
        s.dst
    }

    open spec fn sent_of(s: TxView) -> Map<SeqNum, u64> {
        s.send_times
    }

    open spec fn work_of(s: TxView) -> bool {
        s.retransmit_queue.len() > 0 || (s.in_flight < s.cwnd && s.next_seq < s.total_packets)
    }

    open spec fn ticked(s: TxView, p: TickParams) -> Ticked<TxView> {
        s.after_tick(p)
    }

    fn is_done(&self) -> (r: bool) {
        self.done
    }

    fn dest(&self) -> (d: EntityId) {
        self.dst
    }

    fn sent(&self) -> (m: &HashMap<SeqNum, u64>) {
        &self.send_times
    }

    fn has_work(&self) -> (r: bool) {
        self.retransmit_queue.len() > 0 || (self.in_flight < self.cwnd && self.next_seq
            < self.total_packets)
    }

    fn tick(&mut self, p: &TickParams) -> (b: Burst) {
        let late = overdue_seqs(&self.send_times, &self.retransmit_queue, p.now, p.rto_ns, false);
        let cwnd: u32 = self.cwnd;
        if late.len() > 0 {
            self.note_loss();
            self.ssthresh = max_u32(self.cwnd / 2, p.min_cwnd);
            self.cwnd = p.init_cwnd;
            self.epoch_start_ns = p.now;
            self.cwnd_accum_bits = 0;
            self.dup_ack_count = 0;
            self.ca_ack_count = 0;
            self.fast_recovery = false;
            self.recovery_inflation = 0;
        }
        send_window(
            cwnd,
            self.total_packets,
            p.now,
            late,
            &mut self.in_flight,
            &mut self.next_seq,
            &mut self.retransmit_queue,
            &mut self.send_times,
        )
    }
}

/// The TCP CUBIC of one host.
pub struct TcpCubic {
    pub host_id: EntityId,
    pub tx_flows: HashMap<FlowId, FlowTxState>,
    pub rx_flows: HashMap<FlowId, FlowRxState>,
    pub stats: ProtocolStats,
    pub next_packet_id: u64,
    pub init_cwnd: u32,
    pub max_cwnd: u32,
    pub min_cwnd: u32,
    pub rto_ns: u64,
    pub finished: Vec<(FlowId, u64)>,
}

impl View for TcpCubic {
    type V = EndpointView<TxView>;

    open spec fn view(&self) -> EndpointView<TxView> {
        EndpointView {
            host_id: self.host_id,
            tx: flow_views(self.tx_flows@),
            rx: rx_views(self.rx_flows@),
            stats: self.stats,
            next_packet_id: self.next_packet_id,
            init_cwnd: self.init_cwnd,
            max_cwnd: self.max_cwnd,
            min_cwnd: self.min_cwnd,
            rto_ns: self.rto_ns,
            finished: self.finished@,
        }
    }
}

/// The transport after an acknowledgement of everything below `seq` of a flow; an unknown
/// flow changes nothing.
pub open spec fn acknowledged(
    e: EndpointView<TxView>,
    id: FlowId,
    seq: SeqNum,
    ecn: bool,
    now: u64,
) -> EndpointView<TxView> {
    if !e.tx.contains_key(id) {
        e
    } else {
        let f = e.tx[id].after_ack(seq, ecn, e.min_cwnd, e.max_cwnd, now);
        if f.completes() {
            e.with_flow(id, f.finished(now)).completed(f.flow_id, now)
        } else {
            e.with_flow(id, f)
        }
    }
}

/// The transport after the NIC has reported that a packet left at `at`.
pub open spec fn departure_noted(
    e: EndpointView<TxView>,
    id: FlowId,
    seq: SeqNum,
    at: u64,
) -> EndpointView<TxView> {
    if e.tx.contains_key(id) {
        e.with_flow(
            id,
            TxView { send_times: departed(e.tx[id].send_times, seq, at), ..e.tx[id] },
        )
    } else {
        e
    }
}

impl TcpCubic {
    /// A transport without flows, with the default parameters.
    pub fn new(host_id: EntityId) -> (t: Self)
        ensures
            t@ == fresh_endpoint::<TxView>(host_id),
    {
        let t = TcpCubic {
            host_id,
            tx_flows: HashMap::new(),
            rx_flows: HashMap::new(),
            stats: ProtocolStats::default(),
            next_packet_id: 1,
            init_cwnd: 16,
            max_cwnd: 256,
            min_cwnd: 1,
            rto_ns: 100_000,
            finished: Vec::new(),
        };
        assert(t@ =~= fresh_endpoint::<TxView>(host_id));
        t
    }

    /// Registers a flow of `total_bytes`.
    pub fn start_flow_tx(&mut self, flow_id: FlowId, dst: EntityId, total_bytes: u64, now: u64)
        ensures
            final(self)@ == old(self)@.with_flow(
                flow_id,
                fresh_tx(flow_id, dst, packets_for(total_bytes), old(self)@.init_cwnd, now),
            ),
    {
        let flow = FlowTxState::new(
            flow_id,
            dst,
            packet_count(total_bytes),
            self.init_cwnd,
            now,
        );
        self.tx_flows.insert(flow_id, flow);
        assert(self@.tx =~= old(self)@.tx.insert(flow_id, flow@));
    }

    /// Sends what the flows may send at `now`.
    pub fn try_send(&mut self, now: u64) -> (out: Vec<Packet>)
        ensures
            (final(self)@, packet_views(out@)) == endpoint_ticked::<FlowTxState>(old(self)@, now),
    {
        let p = TickParams {
            now,
            rto_ns: self.rto_ns,
            init_cwnd: self.init_cwnd,
            min_cwnd: self.min_cwnd,
            routable: true,
            strict: false,
        };
        let sends = tick_flows(&mut self.tx_flows, &p);
        let resent: usize = count_resent(&sends);
        self.stats.count_sent(sends.len(), resent);
        let out = stamp(&sends, &mut self.next_packet_id, self.host_id, now);
        assert(self@ =~= endpoint_ticked::<FlowTxState>(old(self)@, now).0);
        out
    }

    /// Takes in an acknowledgement. In congestion avoidance it returns what the cubic
    /// function is to be evaluated on.
    pub fn on_ack(&mut self, ack: &Packet, now: u64) -> (g: Option<GrowthRequest>)
        ensures
            final(self)@ == acknowledged(old(self)@, ack.flow_id, ack.seq, ack.ecn, now),
            g == if old(self)@.tx.contains_key(ack.flow_id) {
                old(self)@.tx[ack.flow_id].growth_asked(ack.seq, ack.ecn, now)
            } else {
                None
            },
    {
        let ghost before = self@;
        match self.tx_flows.remove(&ack.flow_id) {
            None => {
                assert(self@ =~= before);
                None
            },
            Some(mut flow) => {
                assert(flow@ == before.tx[ack.flow_id]);
                let mut g: Option<GrowthRequest> = None;
                if ack.seq == flow.un_acked_base {
                    flow.duplicate_ack(self.min_cwnd, self.max_cwnd, now);
                } else if ack.seq > flow.un_acked_base {
                    g = flow.new_ack(ack.seq, ack.ecn, self.min_cwnd, self.max_cwnd, now);
                }
                if flow.un_acked_base >= flow.total_packets && !flow.done {
                    flow.done = true;
                    flow.finish_time = now;
                    self.stats.count_completed();
                    self.finished.push((flow.flow_id, now));
                }
                self.tx_flows.insert(ack.flow_id, flow);
                assert(self@ =~= acknowledged(before, ack.flow_id, ack.seq, ack.ecn, now));
                g
            },
        }
    }

    /// Widens the window of a flow by `steps` packets, as far as the largest window allows,
    /// and keeps the part of a packet that is left over.
    pub fn grow(&mut self, flow_id: FlowId, steps: u32, cwnd_accum_bits: u64)
        ensures
            final(self)@ == if old(self)@.tx.contains_key(flow_id) {
                old(self)@.with_flow(
                    flow_id,
                    old(self)@.tx[flow_id].grown(steps, cwnd_accum_bits, old(self)@.max_cwnd),
                )
            } else {
                old(self)@
            },
    {
        let ghost before = self@;
        if let Some(mut flow) = self.tx_flows.remove(&flow_id) {
            assert(flow@ == before.tx[flow_id]);
            if flow.cwnd < self.max_cwnd {
                flow.cwnd = min_u32(flow.cwnd.saturating_add(steps), self.max_cwnd);
            }
            flow.cwnd_accum_bits = cwnd_accum_bits;
            self.tx_flows.insert(flow_id, flow);
            assert(self@ =~= before.with_flow(
                flow_id,
                before.tx[flow_id].grown(steps, cwnd_accum_bits, before.max_cwnd),
            ));
        } else {
            assert(self@ =~= before);
        }
    }

    /// Takes in a data packet and acknowledges it.
    pub fn on_data(&mut self, pkt: &Packet, now: u64) -> (out: Vec<Packet>)
        ensures
            (final(self)@, packet_views(out@)) == old(self)@.received(pkt@, now),
    {
        self.stats.count_received();
        let next: SeqNum = receive(&mut self.rx_flows, pkt);
        let id: u64 = self.next_packet_id;
        self.next_packet_id = id.wrapping_add(1);
        let ack = Packet::control(
            id,
            id,
            pkt.flow_id,
            next,
            self.host_id,
            pkt.src,
            pkt.ecn,
            0,
            Vec::new(),
            now,
        );
        let mut out: Vec<Packet> = Vec::new();
        out.push(ack);
        assert(self@ =~= old(self)@.received(pkt@, now).0);
        assert(packet_views(out@) =~= old(self)@.received(pkt@, now).1);
        out
    }
}

impl TcpCubic {
    /// Whether there are flows and all of them are complete.
    pub fn all_flows_done(&self) -> (r: bool)
        ensures
            r == all_done::<FlowTxState>(self@.tx),
    {
        check_all_done(&self.tx_flows)
    }

    /// Hands out the flows that have completed since the last call, with their finish times.
    pub fn take_finished_flows(&mut self) -> (out: Vec<(FlowId, u64)>)
        ensures
            out@ == old(self)@.finished,
            final(self)@ == (EndpointView { finished: Seq::empty(), ..old(self)@ }),
    {
        let mut out: Vec<(FlowId, u64)> = Vec::new();
        std::mem::swap(&mut out, &mut self.finished);
        out
    }

    /// The counters.
    pub fn stats(&self) -> (s: ProtocolStats)
        ensures
            s == self@.stats,
    {
        self.stats
    }

    /// Whether a tick would send something now, apart from timeouts.
    pub fn has_pending_work(&self) -> (r: bool)
        ensures
            r == any_work::<FlowTxState>(self@.tx),
    {
        check_any_work(&self.tx_flows)
    }

    /// When the first unacknowledged packet times out.
    pub fn next_rto_deadline(&self) -> (r: Option<u64>)
        ensures
            is_first_deadline::<FlowTxState>(self@.tx, self@.rto_ns, r),
    {
        first_deadline(&self.tx_flows, self.rto_ns)
    }

    /// Notes when a packet has really left the NIC.
    pub fn update_send_time(&mut self, flow_id: FlowId, seq: SeqNum, nic_depart_time: u64)
        ensures
            final(self)@ == departure_noted(old(self)@, flow_id, seq, nic_depart_time),
    {
        let ghost before = self@;
        if let Some(mut flow) = self.tx_flows.remove(&flow_id) {
            assert(flow@ == before.tx[flow_id]);
            note_departure(&mut flow.send_times, seq, nic_depart_time);
            self.tx_flows.insert(flow_id, flow);
        }
        assert(self@ =~= departure_noted(before, flow_id, seq, nic_depart_time));
    }
}

} // verus!
