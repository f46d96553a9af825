//! The sending NIC of a host with many paths.
//!
//! - Packets are sprayed over the paths that may be used, or kept on the first path.
//! - Congestion first closes a path for a while; the window shrinks when no path is left, or
//!   at once if there is no spraying.
//! - A negative acknowledgement names the missing packets by a bitmap; they are sent again
//!   first.
use super::cc::{
    blame_path, check_available, make_paths, route_packets, CongestionMode, PathState,
};
use super::sender::{
    check_all_done, count_resent, forget_acked, overdue_seqs, packet_count, send_window,
    split_queue, stamp, tick_flows, Burst, TickParams, TxFlow,
};
use crate::network::packet::{FlowId, Packet, SeqNum};
use crate::util::{holds_u32, max_u32, min_u32, read_le_u32, read_le_u64};
use crate::EntityId;
use std::collections::HashMap;
use vstd::prelude::*;

verus! {

use super::cc::{any_available, blamed, fresh_paths, path_tags, tagged};
use super::protocol::counted;
use super::rx::has_bit;
use super::sender::{
    all_done, all_outgoing, flow_views, flows_after, nth_id, numbered,
    outgoing_in_order, overdue_set, packets_for, resent_among, rest, stamped, unmarked,
    window_burst, Ticked, WindowView,
};
use crate::network::packet::{packet_views, PacketView};
use crate::util::{ascending, larger, le_u32, le_u64, smaller};

broadcast use vstd::std_specs::hash::group_hash_axioms;

/// The counters of a sending NIC. They stay at their maximum once they reach it.
#[derive(Debug, Clone, Copy)]
pub struct TxStats {
    pub packets_sent: u64,
    pub packets_retransmitted: u64,
    pub ecn_ack_received: u64,
    pub nack_received: u64,
    pub flows_completed: u64,
}

/// Counters at zero.
pub open spec fn zero_tx_stats() -> TxStats {
    TxStats {
        packets_sent: 0,
        packets_retransmitted: 0,
        ecn_ack_received: 0,
        nack_received: 0,
        flows_completed: 0,
    }
}

impl Default for TxStats {
    fn default() -> (s: Self)
        ensures
            s == zero_tx_stats(),
    {
        TxStats {
            packets_sent: 0,
            packets_retransmitted: 0,
            ecn_ack_received: 0,
            nack_received: 0,
            flows_completed: 0,
        }
    }
}

/// The sending side of one flow.
pub struct FlowTxState {
    pub flow_id: FlowId,
    pub dst: EntityId,
    pub total_packets: u32,
    pub next_seq: SeqNum,
    pub un_acked_base: SeqNum,
    pub cwnd: u32,
    pub in_flight: u32,
    pub done: bool,
    pub start_time: u64,
    pub finish_time: u64,
    /// The packets to send again first.
    pub retransmit_queue: Vec<SeqNum>,
    pub send_times: HashMap<SeqNum, u64>,
    pub last_ack_time: u64,
}

/// What a sending flow holds.
#[verifier::ext_equal]
pub struct TxView {
    pub flow_id: FlowId,
    pub dst: EntityId,
    pub total_packets: u32,
    pub next_seq: SeqNum,
    pub un_acked_base: SeqNum,
    pub cwnd: u32,
    pub in_flight: u32,
    pub done: bool,
    pub start_time: u64,
    pub finish_time: u64,
    pub retransmit_queue: Seq<SeqNum>,
    pub send_times: Map<SeqNum, u64>,
    pub last_ack_time: u64,
}

impl View for FlowTxState {
    type V = TxView;

    open spec fn view(&self) -> TxView {
        TxView {
            flow_id: self.flow_id,
            dst: self.dst,
            total_packets: self.total_packets,
            next_seq: self.next_seq,
            un_acked_base: self.un_acked_base,
            cwnd: self.cwnd,
            in_flight: self.in_flight,
            done: self.done,
            start_time: self.start_time,
            finish_time: self.finish_time,
            retransmit_queue: self.retransmit_queue@,
            send_times: self.send_times@,
            last_ack_time: self.last_ack_time,
        }
    }
}

/// A flow of which nothing has been sent.
pub open spec fn fresh_tx(
    flow_id: FlowId,
    dst: EntityId,
    total_packets: u32,
    init_cwnd: u32,
    start_time: u64,
) -> TxView {
    TxView {
        flow_id,
        dst,
        total_packets,
        next_seq: 0,
        un_acked_base: 0,
        cwnd: init_cwnd,
        in_flight: 0,
        done: false,
        start_time,
        finish_time: 0,
        retransmit_queue: Seq::empty(),
        send_times: Map::empty(),
        last_ack_time: 0,
    }
}

/// How many packets from `base` on a bitmap can name as missing below `limit`.
pub open spec fn nack_span(base: SeqNum, limit: SeqNum) -> u32 {
    if limit <= base {
        0
    } else if limit - base < 64 {
        (limit - base) as u32
    } else {
        64
    }
}

/// The packets from `base` on, below `limit`, whose bit is not set and that are not in `queue`.
pub open spec fn missing(base: SeqNum, bits: u64, limit: SeqNum, queue: Seq<SeqNum>) -> Seq<
    SeqNum,
> {
    numbered(base, nack_span(base, limit)).filter(
        |s: SeqNum| !has_bit(bits, (s - base) as u64) && !queue.contains(s),
    )
}

impl TxView {
    /// The overdue packets.
    pub open spec fn late(self, p: TickParams) -> Seq<SeqNum> {
        ascending(overdue_set(self.send_times, self.retransmit_queue, p.now, p.rto_ns, p.strict))
    }

    /// The flow after a tick. Without a path nothing is sent, and the first of the packets to
    /// send again is given up.
    pub open spec fn after_tick(self, p: TickParams) -> Ticked<TxView> {
        let late = self.late(p);
        if !p.routable {
            let queue = self.retransmit_queue + late;
            Ticked {
                flow: TxView {
                    retransmit_queue: if self.cwnd > 0 {
                        rest(queue, 1)
                    } else {
                        queue
                    },
                    ..self
                },
                resend: Seq::empty(),
                fresh: Seq::empty(),
            }
        } else {
            let b = window_burst(
                WindowView {
                    in_flight: self.in_flight,
                    next_seq: self.next_seq,
                    queue: self.retransmit_queue,
                    sent: self.send_times,
                },
                late,
                self.cwnd,
                self.total_packets,
                p.now,
            );
            Ticked {
                flow: TxView {
                    in_flight: b.flow.in_flight,
                    next_seq: b.flow.next_seq,
                    retransmit_queue: b.flow.queue,
                    send_times: b.flow.sent,
                    ..self
                },
                resend: b.resend,
                fresh: b.fresh,
            }
        }
    }

    /// The flow after an acknowledgement of everything below `seq`, apart from congestion.
    pub open spec fn advanced(self, seq: SeqNum, ecn: bool, max_cwnd: u32, now: u64) -> TxView {
        if seq > self.un_acked_base {
            TxView {
                send_times: unmarked(self.send_times, self.un_acked_base, seq),
                in_flight: self.in_flight.saturating_sub((seq - self.un_acked_base) as u32),
                un_acked_base: seq,
                last_ack_time: now,
                cwnd: if ecn {
                    self.cwnd
                } else {
                    smaller(self.cwnd.saturating_add(1), max_cwnd)
                },
                ..self
            }
        } else {
            self
        }
    }

    /// The flow with half the window.
    pub open spec fn halved(self, min_cwnd: u32) -> TxView {
        TxView { cwnd: larger(self.cwnd / 2, min_cwnd), ..self }
    }

    /// Everything has been acknowledged, and this has not been noticed yet.
    pub open spec fn completes(self) -> bool {
        self.un_acked_base >= self.total_packets && !self.done
    }

    /// The complete flow.
    pub open spec fn finished(self, now: u64) -> TxView {
        TxView { done: true, finish_time: now, ..self }
    }

    /// The flow after a negative acknowledgement: the missing packets are sent again first.
    pub open spec fn after_nack(self, base: SeqNum, bits: u64, limit: SeqNum) -> TxView {
        TxView {
            retransmit_queue: self.retransmit_queue + missing(
                base,
                bits,
                limit,
                self.retransmit_queue,
            ),
            ..self
        }
    }
}

impl FlowTxState {
    /// A flow of which nothing has been sent.
    pub fn new(
        flow_id: FlowId,
        dst: EntityId,
        total_packets: u32,
        init_cwnd: u32,
        start_time: u64,
    ) -> (f: Self)
        ensures
            f@ == fresh_tx(flow_id, dst, total_packets, init_cwnd, start_time),
    {
        FlowTxState {
            flow_id,
            dst,
            total_packets,
            next_seq: 0,
            un_acked_base: 0,
            cwnd: init_cwnd,
            in_flight: 0,
            done: false,
            start_time,
            finish_time: 0,
            retransmit_queue: Vec::new(),
            send_times: HashMap::new(),
            last_ack_time: 0,
        }
    }

    /// Notes an acknowledgement of everything below `seq`, apart from congestion.
    pub fn advance(&mut self, seq: SeqNum, ecn: bool, max_cwnd: u32, now: u64)
        ensures
            final(self)@ == old(self)@.advanced(seq, ecn, max_cwnd, now),
    {
        if seq > self.un_acked_base {
            let delta: u32 = seq - self.un_acked_base;
            forget_acked(&mut self.send_times, self.un_acked_base, seq);
            self.un_acked_base = seq;
            self.in_flight = self.in_flight.saturating_sub(delta);
            self.last_ack_time = now;
            if !ecn {
                self.cwnd = min_u32(self.cwnd.saturating_add(1), max_cwnd);
            }
        }
    }

    /// Queues the packets that a negative acknowledgement names as missing.
    pub fn queue_missing(&mut self, base: SeqNum, bits: u64, limit: SeqNum)
        ensures
            final(self)@ == old(self)@.after_nack(base, bits, limit),
    {
        let ghost q0 = self.retransmit_queue@;
        let ghost wanted = |s: SeqNum| !has_bit(bits, (s - base) as u64) && !q0.contains(s);
        let span: u32 = if limit <= base {
            0
        } else if limit - base < 64 {
            limit - base
        } else {
            64
        };
        let mut i: u32 = 0;
        assert(numbered(base, 0).filter(wanted) =~= Seq::empty());
        assert(self.retransmit_queue@ =~= q0 + numbered(base, 0).filter(wanted));
        while i < span
            invariant
                i <= span <= 64,
                span == nack_span(base, limit),
                base + span <= limit || span == 0,
                wanted == (|s: SeqNum| !has_bit(bits, (s - base) as u64) && !q0.contains(s)),
                self.retransmit_queue@ == q0 + numbered(base, i).filter(wanted),
                self@ == (TxView { retransmit_queue: self.retransmit_queue@, ..old(self)@ }),
            decreases span - i,
        {
            let s: SeqNum = base + i;
            let ghost before = numbered(base, i);
            let ghost chosen = before.filter(wanted);
            proof {
                let after = numbered(base, (i + 1) as u32);
                assert(after =~= before.push(s));
                before.lemma_filter_push(s, wanted);
                let q = self.retransmit_queue@;
                assert(q.contains(s) == q0.contains(s)) by {
                    if q0.contains(s) {
                        let k = q0.index_of(s);
                        assert(q[k] == s);
                    }
                    if q.contains(s) && !q0.contains(s) {
                        let k = q.index_of(s);
                        assert(chosen[k - q0.len()] == s);
                        assert(chosen.contains(s));
                        before.lemma_filter_contains_rev(wanted, s);
                        assert(before.contains(s));
                    }
                }
            }
            let received: bool = (bits >> i as u64) & 1u64 == 1u64;
            if !received && !holds_u32(&self.retransmit_queue, s) {
                self.retransmit_queue.push(s);
            }
            i = i + 1;
            assert(self.retransmit_queue@ =~= q0 + numbered(base, i).filter(wanted));
        }
    }
}

impl TxFlow for FlowTxState {
    open spec fn done_of(s: TxView) -> bool {
        s.done
    }

    open spec fn dst_of(s: TxView) -> EntityId {
        s.dst
    }

    open spec fn sent_of(s: TxView) -> Map<SeqNum, u64> {
        s.send_times
    }

    open spec fn work_of(s: TxView) -> bool {
        s.retransmit_queue.len() > 0 || (s.in_flight < s.cwnd && s.next_seq < s.total_packets)
    }

    open spec fn ticked(s: TxView, p: TickParams) -> Ticked<TxView> {
        s.after_tick(p)
    }

    fn is_done(&self) -> (r: bool) {
        self.done
    }

    fn dest(&self) -> (d: EntityId) {
        self.dst
    }

    fn sent(&self) -> (m: &HashMap<SeqNum, u64>) {
        &self.send_times
    }

    fn has_work(&self) -> (r: bool) {
        self.retransmit_queue.len() > 0 || (self.in_flight < self.cwnd && self.next_seq
            < self.total_packets)
    }

    fn tick(&mut self, p: &TickParams) -> (b: Burst) {
        let mut late = overdue_seqs(
            &self.send_times,
            &self.retransmit_queue,
            p.now,
            p.rto_ns,
            p.strict,
        );
        if !p.routable {
            let mut all: Vec<SeqNum> = Vec::new();
            std::mem::swap(&mut all, &mut self.retransmit_queue);
            all.append(&mut late);
            if self.cwnd > 0 {
                let (given_up, keep) = split_queue(all, 1);
                self.retransmit_queue = keep;
            } else {
                self.retransmit_queue = all;
            }
            Burst { resend: Vec::new(), fresh: Vec::new() }
        } else {
            send_window(
                self.cwnd,
                self.total_packets,
                p.now,
                late,
                &mut self.in_flight,
                &mut self.next_seq,
                &mut self.retransmit_queue,
                &mut self.send_times,
            )
        }
    }
}

/// What a sending NIC holds.
#[verifier::ext_equal]
pub struct TxNicView {
    pub host_id: EntityId,
    /// Packets are sprayed over all paths.
    pub spray: bool,
    pub paths: Seq<PathState>,
    pub cursor: u8,
    pub flows: Map<FlowId, TxView>,
    pub stats: TxStats,
    pub next_packet_id: u64,
    pub init_cwnd: u32,
    pub max_cwnd: u32,
    pub min_cwnd: u32,
    pub blacklist_duration_ns: u64,
    pub rto_ns: u64,
}

/// A NIC with `n_paths` paths and without flows, with the default parameters.
pub open spec fn fresh_tx_nic(host_id: EntityId, spray: bool, n_paths: u8) -> TxNicView {
    TxNicView {
        host_id,
        spray,
        paths: fresh_paths(n_paths),
        cursor: 0,
        flows: Map::empty(),
        stats: zero_tx_stats(),
        next_packet_id: 1,
        init_cwnd: 16,
        max_cwnd: 256,
        min_cwnd: 1,
        blacklist_duration_ns: 50_000,
        rto_ns: 100_000,
    }
}

impl TxNicView {
    /// The parameters of a tick at `now`.
    pub open spec fn params(self, now: u64, strict: bool) -> TickParams {
        TickParams {
            now,
            rto_ns: self.rto_ns,
            init_cwnd: self.init_cwnd,
            min_cwnd: self.min_cwnd,
            routable: self.paths.len() > 0,
            strict,
        }
    }

    /// The NIC with the flow `id` set to `flow`.
    pub open spec fn with_flow(self, id: FlowId, flow: TxView) -> TxNicView {
        TxNicView { flows: self.flows.insert(id, flow), ..self }
    }

    /// The NIC after a tick at `now`, and the packets that it sends over its paths.
    pub open spec fn ticked(self, now: u64, strict: bool) -> (TxNicView, Seq<PacketView>) {
        let p = self.params(now, strict);
        let sends = all_outgoing::<FlowTxState>(self.flows, p);
        let (tags, cursor) = path_tags(self.paths, self.cursor, self.spray, now, sends.len());
        (
            TxNicView {
                flows: flows_after::<FlowTxState>(self.flows, p),
                cursor,
                stats: TxStats {
                    packets_sent: counted(self.stats.packets_sent, sends.len() as int),
                    packets_retransmitted: counted(
                        self.stats.packets_retransmitted,
                        resent_among(sends),
                    ),
                    ..self.stats
                },
                next_packet_id: nth_id(self.next_packet_id, sends.len() as int),
                ..self
            },
            tagged(stamped(sends, self.next_packet_id, self.host_id, now), tags),
        )
    }

    /// The paths after an acknowledgement: congestion closes one if packets are sprayed.
    pub open spec fn paths_after(self, ack_id: u64, ecn: bool, now: u64) -> Seq<PathState> {
        if ecn && self.spray {
            blamed(self.paths, ack_id, now, self.blacklist_duration_ns)
        } else {
            self.paths
        }
    }

    /// The flow of an acknowledgement after it, before its completion is noticed: congestion
    /// halves the window if packets are not sprayed or no path is left.
    pub open spec fn flow_acked(
        self,
        ack_id: u64,
        id: FlowId,
        seq: SeqNum,
        ecn: bool,
        now: u64,
    ) -> TxView {
        let f = self.flows[id].advanced(seq, ecn, self.max_cwnd, now);
        if ecn && (!self.spray || !any_available(self.paths_after(ack_id, ecn, now), now)) {
            f.halved(self.min_cwnd)
        } else {
            f
        }
    }

    /// The NIC after an acknowledgement; an unknown flow changes nothing.
    pub open spec fn acknowledged(
        self,
        ack_id: u64,
        id: FlowId,
        seq: SeqNum,
        ecn: bool,
        now: u64,
    ) -> TxNicView {
        if !self.flows.contains_key(id) {
            self
        } else {
            let f = self.flow_acked(ack_id, id, seq, ecn, now);
            TxNicView {
                paths: self.paths_after(ack_id, ecn, now),
                flows: self.flows.insert(
                    id,
                    if f.completes() {
                        f.finished(now)
                    } else {
                        f
                    },
                ),
                stats: TxStats {
                    ecn_ack_received: counted(
                        self.stats.ecn_ack_received,
                        if ecn {
                            1
                        } else {
                            0
                        },
                    ),
                    flows_completed: counted(
                        self.stats.flows_completed,
                        if f.completes() {
                            1
                        } else {
                            0
                        },
                    ),
                    ..self.stats
                },
                ..self
            }
        }
    }

    /// The acknowledgement completes its flow.
    pub open spec fn ack_completes(
        self,
        ack_id: u64,
        id: FlowId,
        seq: SeqNum,
        ecn: bool,
        now: u64,
    ) -> bool {
        self.flows.contains_key(id) && self.flow_acked(ack_id, id, seq, ecn, now).completes()
    }

    /// The NIC after a negative acknowledgement. A payload that is too short for a bitmap names
    /// every packet from zero on as missing.
    pub open spec fn nacked(self, id: FlowId, limit: SeqNum, payload: Seq<u8>) -> TxNicView {
        let counted_self = TxNicView {
            stats: TxStats { nack_received: counted(self.stats.nack_received, 1), ..self.stats },
            ..self
        };
        if !self.flows.contains_key(id) {
            counted_self
        } else if payload.len() >= 12 {
            counted_self.with_flow(
                id,
                self.flows[id].after_nack(le_u32(payload, 0), le_u64(payload, 4), limit),
            )
        } else {
            counted_self.with_flow(id, self.flows[id].after_nack(0, 0, limit))
        }
    }
}

/// Without a path no flow sends anything.
pub proof fn lemma_no_path_no_packets(order: Seq<FlowId>, flows: Map<FlowId, TxView>, p: TickParams)
    requires
        !p.routable,
    ensures
        outgoing_in_order::<FlowTxState>(order, flows, p).len() == 0,
    decreases order.len(),
{
    if order.len() > 0 {
        lemma_no_path_no_packets(order.drop_last(), flows, p);
    }
}

/// Sends over the paths what the flows of a host may send at `now`.
pub fn send_over_paths(
    p: &TickParams,
    host_id: EntityId,
    spray: bool,
    paths: &Vec<PathState>,
    cursor: &mut u8,
    flows: &mut HashMap<FlowId, FlowTxState>,
    stats: &mut TxStats,
    next_packet_id: &mut u64,
) -> (out: Vec<Packet>)
    requires
        p.routable == (paths@.len() > 0),
    ensures
        ({
            let before = flow_views(old(flows)@);
            let sends = all_outgoing::<FlowTxState>(before, *p);
            let (tags, at) = path_tags(paths@, *old(cursor), spray, p.now, sends.len());
            &&& packet_views(out@) == tagged(
                stamped(sends, *old(next_packet_id), host_id, p.now),
                tags,
            )
            &&& *final(cursor) == at
            &&& flow_views(final(flows)@) == flows_after::<FlowTxState>(before, *p)
            &&& *final(stats) == (TxStats {
                packets_sent: counted(old(stats).packets_sent, sends.len() as int),
                packets_retransmitted: counted(
                    old(stats).packets_retransmitted,
                    resent_among(sends),
                ),
                ..*old(stats)
            })
            &&& *final(next_packet_id) == nth_id(*old(next_packet_id), sends.len() as int)
        }),
{
    let ghost before = flow_views(flows@);
    let sends = tick_flows(flows, p);
    proof {
        if paths@.len() == 0 {
            lemma_no_path_no_packets(ascending(before.dom()), before, *p);
        }
    }
    let resent: usize = count_resent(&sends);
    stats.packets_sent = stats.packets_sent.saturating_add(sends.len() as u64);
    stats.packets_retransmitted = stats.packets_retransmitted.saturating_add(resent as u64);
    let plain = stamp(&sends, next_packet_id, host_id, p.now);
    assert(packet_views(plain@).len() == plain@.len());
    route_packets(plain, paths, cursor, spray, p.now)
}

/// What the congestion control of a host makes of an acknowledgement: updates its flow and the
/// paths, and says whether the flow is known and, if it is now complete, what it calls itself.
pub(crate) fn take_ack(
    ack: &Packet,
    now: u64,
    spray: bool,
    max_cwnd: u32,
    min_cwnd: u32,
    blacklist_duration_ns: u64,
    paths: &mut Vec<PathState>,
    flows: &mut HashMap<FlowId, FlowTxState>,
    stats: &mut TxStats,
    Ghost(nic): Ghost<TxNicView>,
) -> (r: (bool, Option<FlowId>))
    requires
        nic.spray == spray,
        nic.max_cwnd == max_cwnd,
        nic.min_cwnd == min_cwnd,
        nic.blacklist_duration_ns == blacklist_duration_ns,
        nic.paths == old(paths)@,
        nic.flows == flow_views(old(flows)@),
        nic.stats == *old(stats),
    ensures
        (TxNicView {
            paths: final(paths)@,
            flows: flow_views(final(flows)@),
            stats: *final(stats),
            ..nic
        }) == nic.acknowledged(ack.id, ack.flow_id, ack.seq, ack.ecn, now),
        r.0 == nic.flows.contains_key(ack.flow_id),
        r.1 == if nic.ack_completes(ack.id, ack.flow_id, ack.seq, ack.ecn, now) {
            Some(nic.flows[ack.flow_id].flow_id)
        } else {
            None
        },
{
    match flows.remove(&ack.flow_id) {
        None => {
            assert(flow_views(flows@) =~= nic.flows);
            (false, None)
        },
        Some(mut flow) => {
            assert(flow@ == nic.flows[ack.flow_id]);
            flow.advance(ack.seq, ack.ecn, max_cwnd, now);
            if ack.ecn {
                stats.ecn_ack_received = stats.ecn_ack_received.saturating_add(1);
                if spray {
                    blame_path(paths, ack.id, now, blacklist_duration_ns);
                    if !check_available(paths, now) {
                        flow.cwnd = max_u32(flow.cwnd / 2, min_cwnd);
                    }
                } else {
                    flow.cwnd = max_u32(flow.cwnd / 2, min_cwnd);
                }
            }
            assert(flow@ == nic.flow_acked(ack.id, ack.flow_id, ack.seq, ack.ecn, now));
            let mut completed: Option<FlowId> = None;
            if flow.un_acked_base >= flow.total_packets && !flow.done {
                flow.done = true;
                flow.finish_time = now;
                stats.flows_completed = stats.flows_completed.saturating_add(1);
                completed = Some(flow.flow_id);
            }
            flows.insert(ack.flow_id, flow);
            assert(flow_views(flows@) =~= nic.acknowledged(
                ack.id,
                ack.flow_id,
                ack.seq,
                ack.ecn,
                now,
            ).flows);
            (true, completed)
        },
    }
}

/// Takes in a negative acknowledgement: queues the missing packets.
pub(crate) fn take_nack(
    nack: &Packet,
    flows: &mut HashMap<FlowId, FlowTxState>,
    stats: &mut TxStats,
    Ghost(nic): Ghost<TxNicView>,
)
    requires
        nic.flows == flow_views(old(flows)@),
        nic.stats == *old(stats),
    ensures
        (TxNicView { flows: flow_views(final(flows)@), stats: *final(stats), ..nic }) == nic.nacked(
            nack.flow_id,
            nack.seq,
            nack@.payload,
        ),
{
    stats.nack_received = stats.nack_received.saturating_add(1);
    match flows.remove(&nack.flow_id) {
        None => {
            assert(flow_views(flows@) =~= nic.flows);
        },
        Some(mut flow) => {
            assert(flow@ == nic.flows[nack.flow_id]);
            if nack.payload.len() >= 12 {
                let base: u32 = read_le_u32(&nack.payload, 0);
                let bits: u64 = read_le_u64(&nack.payload, 4);
                flow.queue_missing(base, bits, nack.seq);
            } else {
                flow.queue_missing(0, 0, nack.seq);
            }
            flows.insert(nack.flow_id, flow);
            assert(flow_views(flows@) =~= nic.nacked(
                nack.flow_id,
                nack.seq,
                nack@.payload,
            ).flows);
        },
    }
}

/// The sending NIC of a host.
pub struct TxNic {
    pub host_id: EntityId,
    pub mode: CongestionMode,
    pub paths: Vec<PathState>,
    pub paths_rr_cursor: u8,
    pub flows: HashMap<FlowId, FlowTxState>,
    pub stats: TxStats,
    pub next_packet_id: u64,
    pub init_cwnd: u32,
    pub max_cwnd: u32,
    pub min_cwnd: u32,
    pub blacklist_duration_ns: u64,
    /// The age that an unacknowledged packet must exceed to be sent again.
    pub rto_ns: u64,
}

impl View for TxNic {
    type V = TxNicView;

    open spec fn view(&self) -> TxNicView {
        TxNicView {
            host_id: self.host_id,
            spray: self.mode == CongestionMode::Strack,
            paths: self.paths@,
            cursor: self.paths_rr_cursor,
            flows: flow_views(self.flows@),
            stats: self.stats,
            next_packet_id: self.next_packet_id,
            init_cwnd: self.init_cwnd,
            max_cwnd: self.max_cwnd,
            min_cwnd: self.min_cwnd,
            blacklist_duration_ns: self.blacklist_duration_ns,
            rto_ns: self.rto_ns,
        }
    }
}

impl TxNic {
    /// A NIC without flows, with the default parameters.
    pub fn new(host_id: EntityId, mode: CongestionMode, n_paths: u8) -> (t: Self)
        ensures
            t@ == fresh_tx_nic(host_id, mode == CongestionMode::Strack, n_paths),
            t.mode == mode,
    {
        let t = TxNic {
            host_id,
            mode,
            paths: make_paths(n_paths),
            paths_rr_cursor: 0,
            flows: HashMap::new(),
            stats: TxStats::default(),
            next_packet_id: 1,
            init_cwnd: 16,
            max_cwnd: 256,
            min_cwnd: 1,
            blacklist_duration_ns: 50_000,
            rto_ns: 100_000,
        };
        assert(t@.flows =~= Map::empty());
        t
    }

    /// Registers a flow of `total_bytes`.
    pub fn start_flow(&mut self, flow_id: FlowId, dst: EntityId, total_bytes: u64, now: u64)
        ensures
            final(self)@ == old(self)@.with_flow(
                flow_id,
                fresh_tx(flow_id, dst, packets_for(total_bytes), old(self)@.init_cwnd, now),
            ),
            final(self).mode == old(self).mode,
    {
        let flow = FlowTxState::new(
            flow_id,
            dst,
            packet_count(total_bytes),
            self.init_cwnd,
            now,
        );
        self.flows.insert(flow_id, flow);
        assert(self@.flows =~= old(self)@.flows.insert(flow_id, flow@));
    }

    /// Sends what the flows may send at `now`.
    pub fn try_send(&mut self, now: u64) -> (out: Vec<Packet>)
        ensures
            (final(self)@, packet_views(out@)) == old(self)@.ticked(now, true),
            final(self).mode == old(self).mode,
    {
        let p = TickParams {
            now,
            rto_ns: self.rto_ns,
            init_cwnd: self.init_cwnd,
            min_cwnd: self.min_cwnd,
            routable: self.paths.len() > 0,
            strict: true,
        };
        send_over_paths(
            &p,
            self.host_id,
            self.mode == CongestionMode::Strack,
            &self.paths,
            &mut self.paths_rr_cursor,
            &mut self.flows,
            &mut self.stats,
            &mut self.next_packet_id,
        )
    }

    /// Takes in an acknowledgement; there is no answer for an unknown flow.
    pub fn on_ack(&mut self, ack: &Packet, now: u64) -> (r: Option<()>)
        ensures
            final(self)@ == old(self)@.acknowledged(ack.id, ack.flow_id, ack.seq, ack.ecn, now),
            r == if old(self)@.flows.contains_key(ack.flow_id) {
                Some(())
            } else {
                None
            },
            final(self).mode == old(self).mode,
    {
        let ghost nic = self@;
        let (known, _completed) = take_ack(
            ack,
            now,
            self.mode == CongestionMode::Strack,
            self.max_cwnd,
            self.min_cwnd,
            self.blacklist_duration_ns,
            &mut self.paths,
            &mut self.flows,
            &mut self.stats,
            Ghost(nic),
        );
        if known {
            Some(())
        } else {
            None
        }
    }

    /// Takes in a negative acknowledgement.
    pub fn on_nack(&mut self, nack: &Packet, now: u64)
        ensures
            final(self)@ == old(self)@.nacked(nack.flow_id, nack.seq, nack@.payload),
            final(self).mode == old(self).mode,
    {
        let ghost nic = self@;
        take_nack(nack, &mut self.flows, &mut self.stats, Ghost(nic));
    }

    /// Whether there are flows and all of them are complete.
    pub fn all_flows_done(&self) -> (r: bool)
        ensures
            r == all_done::<FlowTxState>(self@.flows),
    {
        check_all_done(&self.flows)
    }
}

} // verus!
