//! RDMA over the simulated network.
//!
//! - A flow gets a queue pair of its own, which is brought up to sending.
//! - A message is cut into packets, marked as first, middle, last or only one.
//! - A receiver puts messages together again; it refuses a message for which no receive
//!   buffer has been posted, and tells the sender that it was not ready.
//! - A flow completes when all messages of its queue pair have been sent and everything has
//!   been acknowledged; the messages complete with it.
//! - The window reacts to loss and congestion as in TCP.
use super::protocol::{Protocol, ProtocolStats};
use super::rdma::{
    advance_psn, MsgBoundary, Psn, QpState, Qpn, QueuePair, RdmaOpcode, Wqe, PSN_SPACE,
};
use super::sender::{
    earliest_sent, forget_acked, mark_sent, number_packets, overdue_seqs, packet_count, split_queue,
};
use crate::network::packet::{FlowId, Packet, PacketKind, SeqNum};
use crate::util::{ascending_keys, holds_u32, max_u32, min_u32};
use crate::EntityId;
use std::collections::HashMap;
use vstd::prelude::*;

verus! {

use super::protocol::{counted, zero_stats};
use super::rdma::{fresh_qp, law_boundary_flags, psn_after, QpView};
use super::sender::{
    flow_views, front, marked, nth_id, numbered, overdue_set, packets_for, rest,
    unmarked,
};
use crate::network::packet::{
    control_packet, data_packet, packet_views, rdma_packet, PacketView,
};
use crate::util::{ascending, larger, lemma_ascending, lists_ascending, smaller};

broadcast use vstd::std_specs::hash::group_hash_axioms;

/// The queue pair after `qpn`; zero stands for packets without a queue pair.
pub open spec fn next_qp_number(qpn: Qpn) -> Qpn {
    if qpn == u32::MAX {
        1
    } else {
        (qpn + 1) as u32
    }
}

/// The control packet of an acknowledgement.
pub const CONTROL_ACK: u8 = 0;

/// The control packet of a receiver that was not ready for a message.
pub const CONTROL_RNR_NAK: u8 = 1;

/// The sending side of one flow.
pub struct FlowTxState {
    pub flow_id: FlowId,
    pub dst: EntityId,
    pub qpn: Qpn,
    pub cwnd: u32,
    pub ssthresh: u32,
    pub in_flight: u32,
    pub next_seq: SeqNum,
    pub un_acked_base: SeqNum,
    pub send_times: HashMap<SeqNum, u64>,
    pub retransmit_queue: Vec<SeqNum>,
    /// The packets that have been sent, by their sequence number.
    pub sent_segments: Vec<Segment>,
    pub dup_ack_count: u32,
    pub done: bool,
    pub start_time: u64,
    pub finish_time: u64,
}

/// What a sending flow holds.
#[verifier::ext_equal]
pub struct TxView {
    pub flow_id: FlowId,
    pub dst: EntityId,
    pub qpn: Qpn,
    pub cwnd: u32,
    pub ssthresh: u32,
    pub in_flight: u32,
    pub next_seq: SeqNum,
    pub un_acked_base: SeqNum,
    pub send_times: Map<SeqNum, u64>,
    pub retransmit_queue: Seq<SeqNum>,
    pub sent_segments: Seq<Segment>,
    pub dup_ack_count: u32,
    pub done: bool,
    pub start_time: u64,
    pub finish_time: u64,
}

impl View for FlowTxState {
    type V = TxView;

    open spec fn view(&self) -> TxView {
        TxView {
            flow_id: self.flow_id,
            dst: self.dst,
            qpn: self.qpn,
            cwnd: self.cwnd,
            ssthresh: self.ssthresh,
            in_flight: self.in_flight,
            next_seq: self.next_seq,
            un_acked_base: self.un_acked_base,
            send_times: self.send_times@,
            retransmit_queue: self.retransmit_queue@,
            sent_segments: self.sent_segments@,
            dup_ack_count: self.dup_ack_count,
            done: self.done,
            start_time: self.start_time,
            finish_time: self.finish_time,
        }
    }
}

/// A flow of which nothing has been sent.
pub open spec fn fresh_tx(flow_id: FlowId, dst: EntityId, qpn: Qpn, start_time: u64) -> TxView {
    TxView {
        flow_id,
        dst,
        qpn,
        cwnd: 16,
        ssthresh: 64,
        in_flight: 0,
        next_seq: 0,
        un_acked_base: 0,
        send_times: Map::empty(),
        retransmit_queue: Seq::empty(),
        sent_segments: Seq::empty(),
        dup_ack_count: 0,
        done: false,
        start_time,
        finish_time: 0,
    }
}

/// The receiving side of one queue pair: the message that is being put together.
pub struct RxReassembly {
    /// The payloads that have arrived.
    pub packets: HashMap<Psn, Vec<u8>>,
    /// The number of the first packet of the message.
    pub first_psn: Option<Psn>,
    pub expected_count: u32,
    pub received_count: u32,
    pub total_bytes: u64,
}

/// What a receiving queue pair holds.
#[verifier::ext_equal]
pub struct RxView {
    pub packets: Map<Psn, Seq<u8>>,
    pub first_psn: Option<Psn>,
    pub expected_count: u32,
    pub received_count: u32,
    pub total_bytes: u64,
}

/// The contents of the payloads.
pub open spec fn payload_views(packets: Map<Psn, Vec<u8>>) -> Map<Psn, Seq<u8>> {
    packets.map_values(|v: Vec<u8>| v@)
}

impl View for RxReassembly {
    type V = RxView;

    open spec fn view(&self) -> RxView {
        RxView {
            packets: payload_views(self.packets@),
            first_psn: self.first_psn,
            expected_count: self.expected_count,
            received_count: self.received_count,
            total_bytes: self.total_bytes,
        }
    }
}

/// Nothing has arrived.
pub open spec fn fresh_rx() -> RxView {
    RxView {
        packets: Map::empty(),
        first_psn: None,
        expected_count: 0,
        received_count: 0,
        total_bytes: 0,
    }
}

impl RxReassembly {
    /// Nothing has arrived.
    pub fn new() -> (r: Self)
        ensures
            r@ == fresh_rx(),
    {
        let r = RxReassembly {
            packets: HashMap::new(),
            first_psn: None,
            expected_count: 0,
            received_count: 0,
            total_bytes: 0,
        };
        assert(r@.packets =~= Map::empty());
        r
    }

    /// Keeps the payload of a packet.
    fn keep(&mut self, psn: Psn, payload: &Vec<u8>)
        ensures
            final(self)@ == (RxView {
                packets: old(self)@.packets.insert(psn, payload@),
                ..old(self)@
            }),
    {
        let copy: Vec<u8> = copy_bytes(payload);
        self.packets.insert(psn, copy);
        assert(self@.packets =~= old(self)@.packets.insert(psn, payload@));
    }
}

fn copy_bytes(v: &Vec<u8>) -> (r: Vec<u8>)
    ensures
        r@ == v@,
{
    let mut r: Vec<u8> = Vec::new();
    let mut i: usize = 0;
    while i < v.len()
        invariant
            i <= v@.len(),
            r@ == v@.take(i as int),
        decreases v@.len() - i,
    {
        r.push(v[i]);
        i = i + 1;
        assert(r@ =~= v@.take(i as int));
    }
    assert(v@.take(i as int) =~= v@);
    r
}

/// A message to be sent.
#[derive(Debug, Clone, Copy)]
pub struct PendingMessage {
    pub msg_id: u64,
    pub qpn: Qpn,
    pub dst: EntityId,
    pub opcode: RdmaOpcode,
    pub total_bytes: u64,
    pub total_packets: u32,
    /// How many of the packets have been sent.
    pub next_packet_idx: u32,
    /// The number of the first packet.
    pub base_psn: Psn,
    pub posted_ns: u64,
}

/// The place of packet `i` in a message of `total` packets.
pub open spec fn boundary(i: int, total: int) -> MsgBoundary {
    if total == 1 {
        MsgBoundary::Solo
    } else if i == 0 {
        MsgBoundary::First
    } else if i == total - 1 {
        MsgBoundary::Last
    } else {
        MsgBoundary::Middle
    }
}

impl PendingMessage {
    /// All packets have been sent.
    pub open spec fn sent(self) -> bool {
        self.next_packet_idx >= self.total_packets
    }

    /// The number and the flags of packet `i`.
    pub open spec fn segment(self, i: int) -> (Psn, u8) {
        (psn_after(self.base_psn, i), boundary(i, self.total_packets as int).flags())
    }

    /// Whether all packets have been sent.
    pub fn done(&self) -> (r: bool)
        ensures
            r == self.sent(),
    {
        self.next_packet_idx >= self.total_packets
    }

    /// The number and the flags of packet `i`.
    fn make_segment(&self, i: u32) -> (s: (Psn, u8))
        ensures
            s == self.segment(i as int),
    {
        let place: MsgBoundary = if self.total_packets == 1 {
            MsgBoundary::Solo
        } else if i == 0 {
            MsgBoundary::First
        } else if self.total_packets > 0 && i == self.total_packets - 1 {
            MsgBoundary::Last
        } else {
            MsgBoundary::Middle
        };
        (advance_psn(self.base_psn, i), place.to_flags())
    }
}

/// The position of the first message of a queue pair that has not been sent, from `from` on.
pub open spec fn open_message(msgs: Seq<PendingMessage>, qpn: Qpn, from: int) -> Option<int>
    decreases msgs.len() - from,
{
    if from < 0 || from >= msgs.len() {
        None
    } else if msgs[from].qpn == qpn && !msgs[from].sent() {
        Some(from)
    } else {
        open_message(msgs, qpn, from + 1)
    }
}

proof fn lemma_open_message(msgs: Seq<PendingMessage>, qpn: Qpn, from: int)
    requires
        0 <= from,
    ensures
        match open_message(msgs, qpn, from) {
            Some(i) => from <= i < msgs.len() && msgs[i].qpn == qpn && !msgs[i].sent(),
            None => forall|i: int|
                from <= i < msgs.len() ==> (#[trigger] msgs[i]).qpn != qpn || msgs[i].sent(),
        },
    decreases msgs.len() - from,
{
    if from < msgs.len() && !(msgs[from].qpn == qpn && !msgs[from].sent()) {
        lemma_open_message(msgs, qpn, from + 1);
    }
}

/// A packet of a message, as it goes out.
#[derive(Debug, Clone, Copy)]
pub struct Segment {
    pub psn: Psn,
    pub flags: u8,
    pub opcode: u8,
}

/// The messages after `n` more packets of a queue pair have been sent, or all if there are
/// fewer, and those packets.
pub open spec fn segments_taken(msgs: Seq<PendingMessage>, qpn: Qpn, n: nat) -> (
    Seq<PendingMessage>,
    Seq<Segment>,
)
    decreases n,
{
    if n == 0 {
        (msgs, Seq::empty())
    } else {
        let (m, segs) = segments_taken(msgs, qpn, (n - 1) as nat);
        match open_message(m, qpn, 0) {
            None => (m, segs),
            Some(i) => {
                let (psn, flags) = m[i].segment(m[i].next_packet_idx as int);
                (
                    m.update(
                        i,
                        PendingMessage {
                            next_packet_idx: (m[i].next_packet_idx + 1) as u32,
                            ..m[i]
                        },
                    ),
                    segs.push(Segment { psn, flags, opcode: m[i].opcode.code() }),
                )
            },
        }
    }
}

/// The first open message stays the first while packets of it are left.
proof fn lemma_stays_open(msgs: Seq<PendingMessage>, qpn: Qpn, from: int, i: int, m: PendingMessage)
    requires
        0 <= from,
        open_message(msgs, qpn, from) == Some(i),
        m.qpn == qpn,
        !m.sent(),
    ensures
        open_message(msgs.update(i, m), qpn, from) == Some(i),
    decreases msgs.len() - from,
{
    lemma_open_message(msgs, qpn, from);
    if from < i {
        lemma_stays_open(msgs, qpn, from + 1, i, m);
    }
}

/// The packets of a message are sent in order: from where the first open message of a queue
/// pair stands, the next `n` packets are the next `n` of this message, as long as it has so many.
pub proof fn law_message_is_sent_in_order(
    msgs: Seq<PendingMessage>,
    qpn: Qpn,
    i: int,
    n: nat,
)
    requires
        open_message(msgs, qpn, 0) == Some(i),
        msgs[i].next_packet_idx + n <= msgs[i].total_packets,
    ensures
        ({
            let (after, segs) = segments_taken(msgs, qpn, n);
            &&& segs.len() == n
            &&& forall|k: int|
                0 <= k < n ==> {
                    let s = #[trigger] segs[k];
                    &&& (s.psn, s.flags) == msgs[i].segment(msgs[i].next_packet_idx + k)
                    &&& s.opcode == msgs[i].opcode.code()
                }
            &&& after == msgs.update(
                i,
                PendingMessage {
                    next_packet_idx: (msgs[i].next_packet_idx + n) as u32,
                    ..msgs[i]
                },
            )
        }),
    decreases n,
{
    lemma_open_message(msgs, qpn, 0);
    if n == 0 {
        assert(msgs.update(i, msgs[i]) =~= msgs);
    } else {
        law_message_is_sent_in_order(msgs, qpn, i, (n - 1) as nat);
        let (before, _) = segments_taken(msgs, qpn, (n - 1) as nat);
        lemma_stays_open(msgs, qpn, 0, i, before[i]);
        let (after, _) = segments_taken(msgs, qpn, n);
        assert(after =~= msgs.update(i, after[i]));
    }
}

/// How many packets the window of a flow leaves room for.
pub open spec fn flow_room(f: TxView) -> nat {
    let window = if f.in_flight < f.cwnd {
        f.cwnd - f.in_flight
    } else {
        0
    };
    let numbers = u32::MAX - f.next_seq;
    if window <= numbers {
        window as nat
    } else {
        numbers as nat
    }
}

/// What can be observed of a host.
#[verifier::ext_equal]
pub struct RdmaView {
    pub host_id: EntityId,
    pub qps: Map<Qpn, QpView>,
    pub tx: Map<FlowId, TxView>,
    pub rx: Map<Qpn, RxView>,
    pub pending: Seq<PendingMessage>,
    pub stats: ProtocolStats,
    pub next_packet_id: u64,
    pub next_qpn: Qpn,
    pub next_msg_id: u64,
    pub init_cwnd: u32,
    pub max_cwnd: u32,
    pub min_cwnd: u32,
    pub rto_ns: u64,
    pub finished_flows: Seq<(FlowId, u64)>,
    pub finished_messages: Seq<(u64, Qpn, u64)>,
}

impl TxView {
    /// The overdue packets.
    pub open spec fn late(self, now: u64, rto_ns: u64) -> Seq<SeqNum> {
        ascending(overdue_set(self.send_times, self.retransmit_queue, now, rto_ns, false))
    }

    /// The packets to send again.
    pub open spec fn resent(self, now: u64, rto_ns: u64) -> Seq<SeqNum> {
        front(self.retransmit_queue + self.late(now, rto_ns), self.cwnd as int)
    }

    /// The flow after a tick in which the packets `segs` have been sent for the first time: a
    /// timeout halves the threshold and restarts the window.
    pub open spec fn after_tick(
        self,
        now: u64,
        rto_ns: u64,
        init_cwnd: u32,
        min_cwnd: u32,
        segs: Seq<Segment>,
    ) -> TxView {
        let fresh = segs.len();
        let late = self.late(now, rto_ns);
        let resent = self.resent(now, rto_ns);
        TxView {
            ssthresh: if late.len() > 0 {
                larger(self.cwnd / 2, min_cwnd)
            } else {
                self.ssthresh
            },
            cwnd: if late.len() > 0 {
                init_cwnd
            } else {
                self.cwnd
            },
            dup_ack_count: if late.len() > 0 {
                0
            } else {
                self.dup_ack_count
            },
            in_flight: (self.in_flight + fresh) as u32,
            next_seq: (self.next_seq + fresh) as u32,
            retransmit_queue: rest(self.retransmit_queue + late, self.cwnd as int),
            sent_segments: self.sent_segments + segs,
            send_times: marked(
                marked(self.send_times, resent, now),
                numbered(self.next_seq, fresh as u32),
                now,
            ),
            ..self
        }
    }

    /// The flow after an acknowledgement of everything below `seq`.
    pub open spec fn after_ack(
        self,
        seq: SeqNum,
        ecn: bool,
        min_cwnd: u32,
        max_cwnd: u32,
    ) -> TxView {
        let half = larger(self.cwnd / 2, min_cwnd);
        if seq == self.un_acked_base {
            let count = self.dup_ack_count.saturating_add(1);
            if count == 3 {
                TxView {
                    dup_ack_count: count,
                    ssthresh: half,
                    cwnd: smaller(half.saturating_add(3), max_cwnd),
                    retransmit_queue: if self.retransmit_queue.contains(self.un_acked_base) {
                        self.retransmit_queue
                    } else {
                        self.retransmit_queue.push(self.un_acked_base)
                    },
                    ..self
                }
            } else if count > 3 {
                TxView {
                    dup_ack_count: count,
                    cwnd: smaller(self.cwnd.saturating_add(1), max_cwnd),
                    ..self
                }
            } else {
                TxView { dup_ack_count: count, ..self }
            }
        } else if seq > self.un_acked_base {
            let delta = (seq - self.un_acked_base) as u32;
            let f = TxView {
                send_times: unmarked(self.send_times, self.un_acked_base, seq),
                in_flight: self.in_flight.saturating_sub(delta),
                un_acked_base: seq,
                dup_ack_count: 0,
                ..self
            };
            if ecn {
                TxView { ssthresh: half, cwnd: half, ..f }
            } else if self.cwnd < self.ssthresh {
                TxView { cwnd: smaller(self.cwnd.saturating_add(delta), max_cwnd), ..f }
            } else if self.cwnd < max_cwnd {
                TxView { cwnd: (self.cwnd + 1) as u32, ..f }
            } else {
                f
            }
        } else {
            self
        }
    }
}

/// A packet of a message, as it goes out with the number `seq` of its flow.
pub open spec fn segment_packet(
    seg: Segment,
    id: u64,
    flow: FlowId,
    seq: SeqNum,
    qpn: Qpn,
    host: EntityId,
    dst: EntityId,
    now: u64,
) -> PacketView {
    PacketView {
        flow_id: flow,
        seq,
        ..rdma_packet(id, id, qpn, seg.psn, seg.flags, seg.opcode, host, dst, now)
    }
}

/// The packets that are sent again, numbered from `first` on: the same packets of messages as the
/// first time. A number under which nothing has been sent gives a plain data packet.
pub open spec fn resent_packets(
    seqs: Seq<SeqNum>,
    sent: Seq<Segment>,
    first: u64,
    flow: FlowId,
    qpn: Qpn,
    host: EntityId,
    dst: EntityId,
    now: u64,
) -> Seq<PacketView> {
    Seq::new(
        seqs.len(),
        |k: int|
            {
                let id = nth_id(first, k);
                if seqs[k] < sent.len() {
                    segment_packet(
                        sent[seqs[k] as int],
                        id,
                        flow,
                        seqs[k],
                        qpn,
                        host,
                        dst,
                        now,
                    )
                } else {
                    data_packet(id, id, flow, seqs[k], host, dst, now)
                }
            },
    )
}

/// The packets of messages, numbered from `first` on.
pub open spec fn segment_packets(
    segs: Seq<Segment>,
    first: u64,
    flow: FlowId,
    first_seq: SeqNum,
    qpn: Qpn,
    host: EntityId,
    dst: EntityId,
    now: u64,
) -> Seq<PacketView> {
    Seq::new(
        segs.len(),
        |k: int|
            segment_packet(
                segs[k],
                nth_id(first, k),
                flow,
                (first_seq + k) as u32,
                qpn,
                host,
                dst,
                now,
            ),
    )
}

impl RdmaView {
    /// Some flow of the queue pair is not complete.
    pub open spec fn has_active_flow(self, qpn: Qpn) -> bool {
        exists|id: FlowId| #[trigger]
            self.tx.contains_key(id) && self.tx[id].qpn == qpn && !self.tx[id].done
    }

    /// The host after the flow `id` has had its turn at `now`, and what it sends: first packets
    /// again, then new packets of the messages of its queue pair.
    pub open spec fn after_turn(self, id: FlowId, now: u64) -> (RdmaView, Seq<PacketView>) {
        let f = self.tx[id];
        if f.done {
            (self, Seq::empty())
        } else {
            let resent = f.resent(now, self.rto_ns);
            let (pending, segs) = segments_taken(self.pending, f.qpn, flow_room(f));
            let first_new = nth_id(self.next_packet_id, resent.len() as int);
            (
                RdmaView {
                    tx: self.tx.insert(
                        id,
                        f.after_tick(now, self.rto_ns, self.init_cwnd, self.min_cwnd, segs),
                    ),
                    pending,
                    qps: if self.qps.contains_key(f.qpn) {
                        self.qps.insert(
                            f.qpn,
                            QpView {
                                retransmissions: counted(
                                    self.qps[f.qpn].retransmissions,
                                    resent.len() as int,
                                ),
                                ..self.qps[f.qpn]
                            },
                        )
                    } else {
                        self.qps
                    },
                    stats: self.stats.after_sending(
                        (resent.len() + segs.len()) as int,
                        resent.len() as int,
                    ),
                    next_packet_id: nth_id(
                        self.next_packet_id,
                        (resent.len() + segs.len()) as int,
                    ),
                    ..self
                },
                resent_packets(
                    resent,
                    f.sent_segments,
                    self.next_packet_id,
                    id,
                    f.qpn,
                    self.host_id,
                    f.dst,
                    now,
                ) + segment_packets(
                    segs,
                    first_new,
                    id,
                    f.next_seq,
                    f.qpn,
                    self.host_id,
                    f.dst,
                    now,
                ),
            )
        }
    }

    /// The host after the flows have had their turns in the given order, and what they send.
    pub open spec fn after_turns(self, order: Seq<FlowId>, now: u64) -> (RdmaView, Seq<PacketView>)
        decreases order.len(),
    {
        if order.len() == 0 {
            (self, Seq::empty())
        } else {
            let (v, out) = self.after_turns(order.drop_last(), now);
            let (w, more) = v.after_turn(order.last(), now);
            (w, out + more)
        }
    }

    /// The host after a tick at `now`, and what it sends, by ascending flow number.
    pub open spec fn ticked(self, now: u64) -> (RdmaView, Seq<PacketView>) {
        self.after_turns(ascending(self.tx.dom()), now)
    }

    /// Everything of a flow has been sent and acknowledged, and this has not been noticed yet.
    pub open spec fn flow_completes(self, f: TxView) -> bool {
        !f.done && f.un_acked_base >= f.next_seq && open_message(self.pending, f.qpn, 0) is None
    }

    /// The messages of a queue pair that have been sent, last first, as they complete.
    pub open spec fn completions(pending: Seq<PendingMessage>, qpn: Qpn, now: u64) -> Seq<
        (u64, Qpn, u64),
    >
        decreases pending.len(),
    {
        if pending.len() == 0 {
            Seq::empty()
        } else {
            let m = pending.last();
            let before = Self::completions(pending.drop_last(), qpn, now);
            if m.qpn == qpn && m.sent() {
                seq![(m.msg_id, qpn, now)] + before
            } else {
                before
            }
        }
    }

    /// The host after its messages on a queue pair have been looked at: once no flow of the
    /// queue pair is active, the messages that have been sent complete.
    pub open spec fn messages_checked(self, qpn: Qpn, now: u64) -> RdmaView {
        if self.has_active_flow(qpn) {
            self
        } else {
            let done = Self::completions(self.pending, qpn, now);
            RdmaView {
                pending: self.pending.filter(
                    |m: PendingMessage| !(m.qpn == qpn && m.sent()),
                ),
                finished_messages: self.finished_messages + done,
                stats: ProtocolStats {
                    messages_completed: counted(self.stats.messages_completed, done.len() as int),
                    ..self.stats
                },
                ..self
            }
        }
    }

    /// The host after an acknowledgement of everything below `seq` of a flow; an unknown flow
    /// changes nothing.
    pub open spec fn acknowledged(self, id: FlowId, seq: SeqNum, ecn: bool, now: u64) -> RdmaView {
        if !self.tx.contains_key(id) {
            self
        } else {
            let f = self.tx[id].after_ack(seq, ecn, self.min_cwnd, self.max_cwnd);
            let v = if self.flow_completes(f) {
                RdmaView {
                    tx: self.tx.insert(id, TxView { done: true, finish_time: now, ..f }),
                    stats: self.stats.after_completing(1),
                    finished_flows: self.finished_flows.push((f.flow_id, now)),
                    ..self
                }
            } else {
                RdmaView { tx: self.tx.insert(id, f), ..self }
            };
            v.messages_checked(f.qpn, now)
        }
    }

    /// The message that is being put together on a queue pair.
    pub open spec fn rx_of(self, qpn: Qpn) -> RxView {
        if self.rx.contains_key(qpn) {
            self.rx[qpn]
        } else {
            fresh_rx()
        }
    }

    /// The host after a message has arrived on a queue pair.
    pub open spec fn message_arrived(self, qpn: Qpn, now: u64) -> RdmaView {
        RdmaView {
            finished_messages: self.finished_messages.push((self.next_msg_id, qpn, now)),
            next_msg_id: self.next_msg_id.wrapping_add(1),
            stats: ProtocolStats {
                messages_completed: counted(self.stats.messages_completed, 1),
                ..self.stats
            },
            ..self
        }
    }

    /// A packet ends a message that the host cannot take, because its queue pair has no receive
    /// buffer.
    pub open spec fn refuses(self, pkt: PacketView) -> bool {
        &&& MsgBoundary::of_flags(pkt.msg_flags) is Last
        &&& pkt.rdma_opcode == RdmaOpcode::Send.code()
        &&& self.qps.contains_key(pkt.qpn)
        &&& !self.qps[pkt.qpn].can_take_message()
    }

    /// The host after a packet of a message has arrived. It is counted here besides being counted as
    /// a data packet that has come in.
    pub open spec fn reassembled(self, pkt: PacketView, now: u64) -> RdmaView {
        let qpn = pkt.qpn;
        let r = self.rx_of(qpn);
        let v = RdmaView { stats: self.stats.after_receiving(), ..self };
        match MsgBoundary::of_flags(pkt.msg_flags) {
            MsgBoundary::Solo => RdmaView {
                rx: self.rx.insert(qpn, RxView { total_bytes: pkt.size as u64, ..r }),
                ..v
            }.message_arrived(qpn, now),
            MsgBoundary::First => RdmaView {
                rx: self.rx.insert(
                    qpn,
                    RxView {
                        first_psn: Some(pkt.psn),
                        packets: Map::empty().insert(pkt.psn, pkt.payload),
                        received_count: 1,
                        total_bytes: pkt.size as u64,
                        ..r
                    },
                ),
                ..v
            },
            MsgBoundary::Middle => RdmaView {
                rx: self.rx.insert(
                    qpn,
                    RxView {
                        packets: r.packets.insert(pkt.psn, pkt.payload),
                        received_count: r.received_count.saturating_add(1),
                        total_bytes: counted(r.total_bytes, pkt.size as int),
                        ..r
                    },
                ),
                ..v
            },
            MsgBoundary::Last => {
                let w = RdmaView { rx: self.rx.remove(qpn), ..v };
                if self.refuses(pkt) {
                    RdmaView {
                        qps: self.qps.insert(
                            qpn,
                            QpView {
                                rnr_naks_sent: counted(self.qps[qpn].rnr_naks_sent, 1),
                                ..self.qps[qpn]
                            },
                        ),
                        stats: ProtocolStats {
                            rnr_naks_sent: counted(w.stats.rnr_naks_sent, 1),
                            ..w.stats
                        },
                        ..w
                    }
                } else {
                    w.message_arrived(qpn, now)
                }
            },
        }
    }

    /// The host after the data packet `pkt` has come in at `now`, and what it answers: an
    /// acknowledgement, of what the flow has had acknowledged itself if the host sends it, or of
    /// the packet; and for a message that it cannot take, that it was not ready.
    pub open spec fn received(self, pkt: PacketView, now: u64) -> (RdmaView, Seq<PacketView>) {
        let counted_self = RdmaView { stats: self.stats.after_receiving(), ..self };
        let v = if pkt.qpn > 0 {
            counted_self.reassembled(pkt, now)
        } else {
            counted_self
        };
        let next = if self.tx.contains_key(pkt.flow_id) {
            self.tx[pkt.flow_id].un_acked_base
        } else {
            pkt.seq.saturating_add(1)
        };
        let ack = self.answer(0, pkt, next, CONTROL_ACK, now);
        let out = if pkt.qpn > 0 && self.refuses(pkt) {
            seq![ack, self.answer(1, pkt, pkt.seq, CONTROL_RNR_NAK, now)]
        } else {
            seq![ack]
        };
        (RdmaView { next_packet_id: nth_id(self.next_packet_id, out.len() as int), ..v }, out)
    }

    /// Answer number `k` to the data packet `pkt`.
    pub open spec fn answer(
        self,
        k: int,
        pkt: PacketView,
        seq: SeqNum,
        control_type: u8,
        now: u64,
    ) -> PacketView {
        let id = nth_id(self.next_packet_id, k);
        control_packet(
            id,
            id,
            pkt.flow_id,
            seq,
            self.host_id,
            pkt.src,
            pkt.ecn,
            control_type,
            Seq::empty(),
            now,
        )
    }

    /// The host with a new queue pair that is ready to send.
    pub open spec fn with_qp(self, remote_id: EntityId, now: u64) -> RdmaView {
        RdmaView {
            qps: self.qps.insert(
                self.next_qpn,
                QpView {
                    state: QpState::Rts,
                    ..fresh_qp(self.next_qpn, self.next_qpn, remote_id, now)
                },
            ),
            next_qpn: next_qp_number(self.next_qpn),
            ..self
        }
    }

    /// The host after a message has been posted; an unknown queue pair only uses up a number.
    pub open spec fn posted(self, qpn: Qpn, bytes: u64, opcode: RdmaOpcode, now: u64) -> RdmaView {
        let v = RdmaView { next_msg_id: self.next_msg_id.wrapping_add(1), ..self };
        if !self.qps.contains_key(qpn) {
            v
        } else {
            let total = packets_for(bytes);
            let qp = self.qps[qpn];
            RdmaView {
                qps: self.qps.insert(
                    qpn,
                    QpView { next_psn: psn_after(qp.next_psn, larger(total, 1) as int), ..qp },
                ),
                pending: self.pending.push(
                    PendingMessage {
                        msg_id: self.next_msg_id,
                        qpn,
                        dst: qp.remote_id,
                        opcode,
                        total_bytes: bytes,
                        total_packets: total,
                        next_packet_idx: 0,
                        base_psn: qp.next_psn,
                        posted_ns: now,
                    },
                ),
                ..v
            }
        }
    }

    /// The host after a receive buffer has been posted.
    pub open spec fn buffer_posted(self, qpn: Qpn, bytes: u64, now: u64) -> RdmaView {
        if !self.qps.contains_key(qpn) {
            self
        } else {
            let qp = self.qps[qpn];
            RdmaView {
                qps: self.qps.insert(
                    qpn,
                    QpView {
                        recv_queue: qp.recv_queue.push(
                            Wqe {
                                qpn,
                                opcode: RdmaOpcode::Send,
                                remote_id: qp.remote_id,
                                remote_addr: 0,
                                local_addr: 0,
                                length: bytes,
                                posted_ns: now,
                                doorbell_rung: false,
                            },
                        ),
                        ..qp
                    },
                ),
                ..self
            }
        }
    }

    /// A flow that is not complete has something to send that does not wait for a timeout.
    pub open spec fn flow_has_work(self, id: FlowId) -> bool {
        let f = self.tx[id];
        &&& !f.done
        &&& f.retransmit_queue.len() > 0 || (f.in_flight < f.cwnd && open_message(
            self.pending,
            f.qpn,
            0,
        ) is Some)
    }

    /// A packet of a flow that is not complete times out at `d`.
    pub open spec fn times_out_at(self, id: FlowId, seq: SeqNum, d: u64) -> bool {
        &&& self.tx.contains_key(id)
        &&& !self.tx[id].done
        &&& self.tx[id].send_times.contains_key(seq)
        &&& d == self.tx[id].send_times[seq].saturating_add(self.rto_ns)
    }
}

impl RdmaView {
    /// The host after packets have come in one after another, each at its time.
    pub open spec fn all_received(self, arrivals: Seq<(PacketView, u64)>) -> RdmaView
        decreases arrivals.len(),
    {
        if arrivals.len() == 0 {
            self
        } else {
            let (pkt, now) = arrivals.last();
            self.all_received(arrivals.drop_last()).received(pkt, now).0
        }
    }
}

/// A packet that is sent again is the same packet of its message as the first time: a turn of a flow
/// keeps note of the packets that it sends under their sequence numbers, and sends again what it
/// noted.
pub proof fn law_resent_packets_are_the_same(v: RdmaView, id: FlowId, now: u64, k: int)
    requires
        v.tx.contains_key(id),
        !v.tx[id].done,
        v.tx[id].sent_segments.len() == v.tx[id].next_seq,
        forall|i: int|
            0 <= i < v.tx[id].resent(now, v.rto_ns).len() ==> (#[trigger] v.tx[id].resent(
                now,
                v.rto_ns,
            )[i]) < v.tx[id].next_seq,
        0 <= k < v.after_turn(id, now).1.len(),
    ensures
        ({
            let (w, out) = v.after_turn(id, now);
            let (before, after) = (v.tx[id], w.tx[id]);
            let noted = after.sent_segments[out[k].seq as int];
            &&& after.sent_segments.len() == after.next_seq
            &&& before.sent_segments == after.sent_segments.take(before.next_seq as int)
            &&& out[k].qpn == before.qpn
            &&& (out[k].psn, out[k].msg_flags, out[k].rdma_opcode) == (
                noted.psn,
                noted.flags,
                noted.opcode,
            )
        }),
{
    let f = v.tx[id];
    let (w, out) = v.after_turn(id, now);
    let segs = segments_taken(v.pending, f.qpn, flow_room(f)).1;
    lemma_segments_bound(v.pending, f.qpn, flow_room(f));
    assert(f.sent_segments =~= (f.sent_segments + segs).take(f.next_seq as int));
    let resent = f.resent(now, v.rto_ns);
    let after = w.tx[id].sent_segments;
    assert(after == f.sent_segments + segs);
    if k < resent.len() {
        assert(resent[k] < f.next_seq);
        assert(out[k].seq == resent[k]);
        assert(after[resent[k] as int] == f.sent_segments[resent[k] as int]);
    } else {
        assert(out[k].seq == f.next_seq + (k - resent.len()));
        assert(after[out[k].seq as int] == segs[k - resent.len()]);
    }
}

/// The packets are those of the message, in order.
pub open spec fn carries(arrivals: Seq<(PacketView, u64)>, msg: PendingMessage) -> bool {
    &&& arrivals.len() == msg.total_packets
    &&& forall|i: int|
        0 <= i < arrivals.len() ==> {
            let pkt = (#[trigger] arrivals[i]).0;
            &&& pkt.qpn == msg.qpn
            &&& (pkt.psn, pkt.msg_flags) == msg.segment(i)
            &&& pkt.rdma_opcode == msg.opcode.code()
        }
}

/// Before the last packet of a message has come in, a receiver has kept count of its packets, and
/// nothing has completed. It keeps the payloads under their numbers, as long as no two packets
/// have the same number.
pub proof fn law_parts_are_kept(
    v: RdmaView,
    msg: PendingMessage,
    arrivals: Seq<(PacketView, u64)>,
    k: int,
)
    requires
        msg.qpn > 0,
        carries(arrivals, msg),
        0 < k < arrivals.len(),
    ensures
        ({
            let w = v.all_received(arrivals.take(k));
            let r = w.rx[msg.qpn];
            &&& w.rx.contains_key(msg.qpn)
            &&& r.first_psn == Some(msg.segment(0).0)
            &&& r.received_count == k
            &&& k <= PSN_SPACE ==> forall|i: int|
                0 <= i < k ==> r.packets.contains_key(#[trigger] msg.segment(i).0)
                    && r.packets[msg.segment(i).0] == arrivals[i].0.payload
            &&& w.qps == v.qps
            &&& w.next_msg_id == v.next_msg_id
            &&& w.finished_messages == v.finished_messages
            &&& w.stats.messages_completed == v.stats.messages_completed
            &&& w.stats.rnr_naks_sent == v.stats.rnr_naks_sent
            &&& w.stats.packets_received == counted(v.stats.packets_received, 2 * k)
        }),
    decreases k,
{
    let all = arrivals.take(k);
    let w = v.all_received(all);
    assert(all.drop_last() =~= arrivals.take(k - 1));
    assert(all.last() == arrivals[k - 1]);
    law_boundary_flags(boundary(k - 1, msg.total_packets as int));
    if k == 1 {
        assert(arrivals.take(0) =~= Seq::empty());
        reveal_with_fuel(RdmaView::all_received, 2);
    } else {
        law_parts_are_kept(v, msg, arrivals, k - 1);
        let r = v.all_received(arrivals.take(k - 1)).rx[msg.qpn];
        assert forall|i: int| k <= PSN_SPACE && 0 <= i < k implies w.rx[msg.qpn].packets.contains_key(
            #[trigger] msg.segment(i).0,
        ) && w.rx[msg.qpn].packets[msg.segment(i).0] == arrivals[i].0.payload by {
            if i < k - 1 {
                assert(r.packets.contains_key(msg.segment(i).0));
                assert(msg.segment(i).0 != msg.segment(k - 1).0);
            }
        }
    }
}

/// A receiver that gets the packets of a message in order completes exactly this message, at
/// the time of the last packet, and keeps nothing of one that came in several packets; unless
/// it refuses the message, which it then counts.
pub proof fn law_message_is_put_together(
    v: RdmaView,
    msg: PendingMessage,
    arrivals: Seq<(PacketView, u64)>,
)
    requires
        msg.qpn > 0,
        carries(arrivals, msg),
        arrivals.len() > 0,
    ensures
        ({
            let w = v.all_received(arrivals);
            let (end, now) = arrivals.last();
            &&& arrivals.len() > 1 ==> !w.rx.contains_key(msg.qpn)
            &&& w.stats.packets_received == counted(
                v.stats.packets_received,
                2 * arrivals.len() as int,
            )
            &&& if v.refuses(end) {
                &&& w.finished_messages == v.finished_messages
                &&& w.stats.messages_completed == v.stats.messages_completed
                &&& w.stats.rnr_naks_sent == counted(v.stats.rnr_naks_sent, 1)
            } else {
                &&& w.finished_messages == v.finished_messages.push(
                    (v.next_msg_id, msg.qpn, now),
                )
                &&& w.stats.messages_completed == counted(v.stats.messages_completed, 1)
                &&& w.stats.rnr_naks_sent == v.stats.rnr_naks_sent
            }
        }),
{
    let n = arrivals.len() as int;
    law_boundary_flags(boundary(n - 1, msg.total_packets as int));
    assert(arrivals.drop_last() =~= arrivals.take(n - 1));
    if n > 1 {
        law_parts_are_kept(v, msg, arrivals, n - 1);
    } else {
        reveal_with_fuel(RdmaView::all_received, 2);
        assert(arrivals.take(0) =~= Seq::empty());
    }
}

/// A refused message is answered: the host that sent the packet is told, and counts it.
pub proof fn law_refusal_is_answered(
    receiver: RdmaView,
    pkt: PacketView,
    now: u64,
    sender: &RdmaProtocol,
    post: &RdmaProtocol,
    later: u64,
)
    requires
        pkt.qpn > 0,
        receiver.refuses(pkt),
        sender.took_control(post, receiver.received(pkt, now).1.last(), later),
    ensures
        receiver.received(pkt, now).1.last().dst == pkt.src,
        receiver.received(pkt, now).1.last().flow_id == pkt.flow_id,
        receiver.received(pkt, now).0.stats.rnr_naks_sent == counted(
            receiver.stats.rnr_naks_sent,
            1,
        ),
        post@.stats.rnr_naks_received == counted(sender@.stats.rnr_naks_received, 1),
{
}

/// The views of the queue pairs.
pub open spec fn qp_views(qps: Map<Qpn, QueuePair>) -> Map<Qpn, QpView> {
    qps.map_values(|q: QueuePair| q@)
}

/// The views of the receiving queue pairs.
pub open spec fn rx_views(rx: Map<Qpn, RxReassembly>) -> Map<Qpn, RxView> {
    rx.map_values(|r: RxReassembly| r@)
}

/// The RDMA of one host.
pub struct RdmaProtocol {
    pub host_id: EntityId,
    pub qps: HashMap<Qpn, QueuePair>,
    pub tx_flows: HashMap<FlowId, FlowTxState>,
    pub rx_reassembly: HashMap<Qpn, RxReassembly>,
    pub pending_messages: Vec<PendingMessage>,
    pub stats: ProtocolStats,
    pub next_packet_id: u64,
    pub next_qpn: Qpn,
    pub next_msg_id: u64,
    pub init_cwnd: u32,
    pub max_cwnd: u32,
    pub min_cwnd: u32,
    pub rto_ns: u64,
    pub finished_flows: Vec<(FlowId, u64)>,
    pub finished_messages: Vec<(u64, Qpn, u64)>,
}

impl View for RdmaProtocol {
    type V = RdmaView;

    open spec fn view(&self) -> RdmaView {
        RdmaView {
            host_id: self.host_id,
            qps: qp_views(self.qps@),
            tx: flow_views(self.tx_flows@),
            rx: rx_views(self.rx_reassembly@),
            pending: self.pending_messages@,
            stats: self.stats,
            next_packet_id: self.next_packet_id,
            next_qpn: self.next_qpn,
            next_msg_id: self.next_msg_id,
            init_cwnd: self.init_cwnd,
            max_cwnd: self.max_cwnd,
            min_cwnd: self.min_cwnd,
            rto_ns: self.rto_ns,
            finished_flows: self.finished_flows@,
            finished_messages: self.finished_messages@,
        }
    }
}

/// A host without queue pairs, with the default parameters.
pub open spec fn fresh_host(host_id: EntityId) -> RdmaView {
    RdmaView {
        host_id,
        qps: Map::empty(),
        tx: Map::empty(),
        rx: Map::empty(),
        pending: Seq::empty(),
        stats: zero_stats(),
        next_packet_id: 1,
        next_qpn: 1,
        next_msg_id: 0,
        init_cwnd: 16,
        max_cwnd: 256,
        min_cwnd: 1,
        rto_ns: 100_000,
        finished_flows: Seq::empty(),
        finished_messages: Seq::empty(),
    }
}

impl FlowTxState {
    /// A flow of which nothing has been sent.
    pub fn new(flow_id: FlowId, dst: EntityId, qpn: Qpn, start_time: u64) -> (f: Self)
        ensures
            f@ == fresh_tx(flow_id, dst, qpn, start_time),
    {
        FlowTxState {
            flow_id,
            dst,
            qpn,
            cwnd: 16,
            ssthresh: 64,
            in_flight: 0,
            next_seq: 0,
            un_acked_base: 0,
            send_times: HashMap::new(),
            retransmit_queue: Vec::new(),
            sent_segments: Vec::new(),
            dup_ack_count: 0,
            done: false,
            start_time,
            finish_time: 0,
        }
    }

    /// How many packets the window leaves room for.
    fn room(&self) -> (r: u32)
        ensures
            r == flow_room(self@),
            r <= u32::MAX - self.next_seq,
            r <= u32::MAX - self.in_flight,
    {
        let window: u32 = if self.in_flight < self.cwnd {
            self.cwnd - self.in_flight
        } else {
            0
        };
        min_u32(window, u32::MAX - self.next_seq)
    }

    /// Reacts to a timeout and takes the packets to send again out of the queue.
    fn take_resent(&mut self, now: u64, rto_ns: u64, init_cwnd: u32, min_cwnd: u32) -> (resend: Vec<
        SeqNum,
    >)
        ensures
            resend@ == old(self)@.resent(now, rto_ns),
            final(self)@ == (TxView {
                send_times: old(self)@.send_times,
                in_flight: old(self)@.in_flight,
                next_seq: old(self)@.next_seq,
                ..old(self)@.after_tick(now, rto_ns, init_cwnd, min_cwnd, Seq::empty())
            }),
    {
        let mut late = overdue_seqs(&self.send_times, &self.retransmit_queue, now, rto_ns, false);
        let cwnd: u32 = self.cwnd;
        if late.len() > 0 {
            self.ssthresh = max_u32(self.cwnd / 2, min_cwnd);
            self.cwnd = init_cwnd;
            self.dup_ack_count = 0;
        }
        let mut all: Vec<SeqNum> = Vec::new();
        std::mem::swap(&mut all, &mut self.retransmit_queue);
        all.append(&mut late);
        let (resend, keep) = split_queue(all, cwnd);
        self.retransmit_queue = keep;
        assert(self@.sent_segments + Seq::<Segment>::empty() =~= self@.sent_segments);
        resend
    }

    /// Notes that packets have been sent, again or for the first time.
    fn note_sent(&mut self, resend: &Vec<SeqNum>, segs: &Vec<Segment>, now: u64)
        requires
            old(self).next_seq + segs@.len() <= u32::MAX,
            old(self).in_flight + segs@.len() <= u32::MAX,
        ensures
            final(self)@ == (TxView {
                in_flight: (old(self)@.in_flight + segs@.len()) as u32,
                next_seq: (old(self)@.next_seq + segs@.len()) as u32,
                sent_segments: old(self)@.sent_segments + segs@,
                send_times: marked(
                    marked(old(self)@.send_times, resend@, now),
                    numbered(old(self)@.next_seq, segs@.len() as u32),
                    now,
                ),
                ..old(self)@
            }),
    {
        let fresh: u32 = segs.len() as u32;
        let ghost sent = self.sent_segments@;
        let mut i: usize = 0;
        while i < segs.len()
            invariant
                i <= segs@.len(),
                self.sent_segments@ =~= sent + segs@.take(i as int),
                self@ == (TxView { sent_segments: self.sent_segments@, ..old(self)@ }),
                sent == old(self)@.sent_segments,
            decreases segs@.len() - i,
        {
            self.sent_segments.push(segs[i]);
            i = i + 1;
        }
        assert(self.sent_segments@ =~= sent + segs@);
        let numbers = number_packets(self.next_seq, fresh);
        mark_sent(&mut self.send_times, resend, now);
        mark_sent(&mut self.send_times, &numbers, now);
        self.in_flight = self.in_flight + fresh;
        self.next_seq = self.next_seq + fresh;
    }

    /// Notes an acknowledgement of everything below `seq`.
    fn take_ack(&mut self, seq: SeqNum, ecn: bool, min_cwnd: u32, max_cwnd: u32)
        ensures
            final(self)@ == old(self)@.after_ack(seq, ecn, min_cwnd, max_cwnd),
    {
        if seq == self.un_acked_base {
            self.dup_ack_count = self.dup_ack_count.saturating_add(1);
            if self.dup_ack_count == 3 {
                self.ssthresh = max_u32(self.cwnd / 2, min_cwnd);
                self.cwnd = min_u32(self.ssthresh.saturating_add(3), max_cwnd);
                if !holds_u32(&self.retransmit_queue, self.un_acked_base) {
                    self.retransmit_queue.push(self.un_acked_base);
                }
            } else if self.dup_ack_count > 3 {
                self.cwnd = min_u32(self.cwnd.saturating_add(1), max_cwnd);
            }
        } else if seq > self.un_acked_base {
            let delta: u32 = seq - self.un_acked_base;
            forget_acked(&mut self.send_times, self.un_acked_base, seq);
            self.un_acked_base = seq;
            self.in_flight = self.in_flight.saturating_sub(delta);
            self.dup_ack_count = 0;
            if ecn {
                self.ssthresh = max_u32(self.cwnd / 2, min_cwnd);
                self.cwnd = max_u32(self.ssthresh, min_cwnd);
            } else if self.cwnd < self.ssthresh {
                self.cwnd = min_u32(self.cwnd.saturating_add(delta), max_cwnd);
            } else if self.cwnd < max_cwnd {
                self.cwnd = self.cwnd + 1;
            }
        }
    }
}

fn find_open_message(msgs: &Vec<PendingMessage>, qpn: Qpn) -> (r: Option<usize>)
    ensures
        match open_message(msgs@, qpn, 0) {
            Some(i) => r is Some && r->0 == i,
            None => r is None,
        },
{
    let mut i: usize = 0;
    while i < msgs.len()
        invariant
            i <= msgs@.len(),
            open_message(msgs@, qpn, 0) == open_message(msgs@, qpn, i as int),
        decreases msgs@.len() - i,
    {
        if msgs[i].qpn == qpn && !msgs[i].done() {
            return Some(i);
        }
        i = i + 1;
    }
    None
}

proof fn lemma_segments_bound(msgs: Seq<PendingMessage>, qpn: Qpn, n: nat)
    ensures
        segments_taken(msgs, qpn, n).1.len() <= n,
        segments_taken(msgs, qpn, n).0.len() == msgs.len(),
    decreases n,
{
    if n > 0 {
        lemma_segments_bound(msgs, qpn, (n - 1) as nat);
        lemma_open_message(segments_taken(msgs, qpn, (n - 1) as nat).0, qpn, 0);
    }
}

/// When no message is left to send, further turns take nothing.
proof fn lemma_segments_stop(msgs: Seq<PendingMessage>, qpn: Qpn, k: nat, n: nat)
    requires
        k <= n,
        open_message(segments_taken(msgs, qpn, k).0, qpn, 0) is None,
    ensures
        segments_taken(msgs, qpn, n) == segments_taken(msgs, qpn, k),
    decreases n,
{
    if k < n {
        lemma_segments_stop(msgs, qpn, k, (n - 1) as nat);
    }
}

/// Takes up to `room` packets from the messages of a queue pair.
fn take_segments(msgs: &mut Vec<PendingMessage>, qpn: Qpn, room: u32) -> (segs: Vec<Segment>)
    ensures
        (final(msgs)@, segs@) == segments_taken(old(msgs)@, qpn, room as nat),
        segs@.len() <= room,
{
    let mut segs: Vec<Segment> = Vec::new();
    let mut k: u32 = 0;
    let mut go_on: bool = true;
    while go_on && k < room
        invariant
            k <= room,
            (msgs@, segs@) == segments_taken(old(msgs)@, qpn, k as nat),
            !go_on ==> open_message(msgs@, qpn, 0) is None,
        decreases room - k, (if go_on { 1int } else { 0int }),
    {
        proof {
            lemma_open_message(msgs@, qpn, 0);
        }
        match find_open_message(msgs, qpn) {
            None => {
                go_on = false;
            },
            Some(i) => {
                let msg: PendingMessage = msgs[i];
                let (psn, flags) = msg.make_segment(msg.next_packet_idx);
                segs.push(Segment { psn, flags, opcode: msg.opcode.to_code() });
                msgs[i].next_packet_idx = msg.next_packet_idx + 1;
                k = k + 1;
                assert(msgs@ =~= segments_taken(old(msgs)@, qpn, k as nat).0);
            },
        }
    }
    proof {
        lemma_segments_bound(old(msgs)@, qpn, room as nat);
        if !go_on {
            lemma_segments_stop(old(msgs)@, qpn, k as nat, room as nat);
        }
    }
    segs
}

fn make_segment_packet(
    seg: Segment,
    id: u64,
    flow: FlowId,
    seq: SeqNum,
    qpn: Qpn,
    host: EntityId,
    dst: EntityId,
    now: u64,
) -> (p: Packet)
    ensures
        p@ == segment_packet(seg, id, flow, seq, qpn, host, dst, now),
{
    let mut p = Packet::rdma_data(id, id, qpn, seg.psn, seg.flags, seg.opcode, host, dst, now);
    p.flow_id = flow;
    p.seq = seq;
    p
}

fn push_resent(
    out: &mut Vec<Packet>,
    seqs: &Vec<SeqNum>,
    sent: &Vec<Segment>,
    next_id: &mut u64,
    flow: FlowId,
    qpn: Qpn,
    host: EntityId,
    dst: EntityId,
    now: u64,
)
    ensures
        packet_views(final(out)@) == packet_views(old(out)@) + resent_packets(
            seqs@,
            sent@,
            *old(next_id),
            flow,
            qpn,
            host,
            dst,
            now,
        ),
        *final(next_id) == nth_id(*old(next_id), seqs@.len() as int),
{
    let ghost want = resent_packets(seqs@, sent@, *next_id, flow, qpn, host, dst, now);
    let mut i: usize = 0;
    assert(packet_views(out@) =~= packet_views(old(out)@) + want.take(0));
    while i < seqs.len()
        invariant
            i <= seqs@.len(),
            want == resent_packets(seqs@, sent@, *old(next_id), flow, qpn, host, dst, now),
            packet_views(out@) == packet_views(old(out)@) + want.take(i as int),
            *next_id == nth_id(*old(next_id), i as int),
        decreases seqs@.len() - i,
    {
        let id: u64 = *next_id;
        let ghost sofar = packet_views(out@);
        let seq: SeqNum = seqs[i];
        let pkt = if (seq as u64) < sent.len() as u64 {
            make_segment_packet(sent[seq as usize], id, flow, seq, qpn, host, dst, now)
        } else {
            Packet::data(id, id, flow, seq, host, dst, now)
        };
        out.push(pkt);
        assert(packet_views(out@) =~= sofar.push(pkt@));
        assert(pkt@ == want[i as int]);
        *next_id = id.wrapping_add(1);
        i = i + 1;
        assert(packet_views(out@) =~= packet_views(old(out)@) + want.take(i as int));
    }
    assert(want.take(i as int) =~= want);
}

fn push_segments(
    out: &mut Vec<Packet>,
    segs: &Vec<Segment>,
    next_id: &mut u64,
    flow: FlowId,
    first_seq: SeqNum,
    qpn: Qpn,
    host: EntityId,
    dst: EntityId,
    now: u64,
)
    requires
        first_seq + segs@.len() <= u32::MAX,
    ensures
        packet_views(final(out)@) == packet_views(old(out)@) + segment_packets(
            segs@,
            *old(next_id),
            flow,
            first_seq,
            qpn,
            host,
            dst,
            now,
        ),
        *final(next_id) == nth_id(*old(next_id), segs@.len() as int),
{
    let ghost want = segment_packets(segs@, *next_id, flow, first_seq, qpn, host, dst, now);
    let mut i: usize = 0;
    assert(packet_views(out@) =~= packet_views(old(out)@) + want.take(0));
    while i < segs.len()
        invariant
            i <= segs@.len(),
            first_seq + segs@.len() <= u32::MAX,
            want == segment_packets(
                segs@,
                *old(next_id),
                flow,
                first_seq,
                qpn,
                host,
                dst,
                now,
            ),
            packet_views(out@) == packet_views(old(out)@) + want.take(i as int),
            *next_id == nth_id(*old(next_id), i as int),
        decreases segs@.len() - i,
    {
        let id: u64 = *next_id;
        let seg: Segment = segs[i];
        let pkt = make_segment_packet(
            seg,
            id,
            flow,
            first_seq + i as u32,
            qpn,
            host,
            dst,
            now,
        );
        assert(pkt@ == want[i as int]);
        let ghost sofar = packet_views(out@);
        out.push(pkt);
        assert(packet_views(out@) =~= sofar.push(pkt@));
        *next_id = id.wrapping_add(1);
        i = i + 1;
        assert(packet_views(out@) =~= packet_views(old(out)@) + want.take(i as int));
    }
    assert(want.take(i as int) =~= want);
}

impl RdmaProtocol {
    /// A host without queue pairs, with the default parameters.
    pub fn new(host_id: EntityId) -> (t: Self)
        ensures
            t@ == fresh_host(host_id),
    {
        let t = RdmaProtocol {
            host_id,
            qps: HashMap::new(),
            tx_flows: HashMap::new(),
            rx_reassembly: HashMap::new(),
            pending_messages: Vec::new(),
            stats: ProtocolStats::default(),
            next_packet_id: 1,
            next_qpn: 1,
            next_msg_id: 0,
            init_cwnd: 16,
            max_cwnd: 256,
            min_cwnd: 1,
            rto_ns: 100_000,
            finished_flows: Vec::new(),
            finished_messages: Vec::new(),
        };
        assert(t@ =~= fresh_host(host_id));
        t
    }

    /// Makes a queue pair that is ready to send and returns its number.
    pub fn create_qp(&mut self, remote_id: EntityId, now: u64) -> (qpn: Qpn)
        ensures
            qpn == old(self)@.next_qpn,
            final(self)@ == old(self)@.with_qp(remote_id, now),
    {
        let qpn: Qpn = self.next_qpn;
        self.next_qpn = if qpn == u32::MAX {
            1
        } else {
            qpn + 1
        };
        let mut qp = QueuePair::new(qpn, qpn, remote_id, now);
        qp.transition(QpState::Init);
        qp.transition(QpState::Rtr);
        qp.transition(QpState::Rts);
        self.qps.insert(qpn, qp);
        assert(self@.qps =~= old(self)@.with_qp(remote_id, now).qps);
        qpn
    }

    /// Cuts a message into packets: their numbers and flags.
    pub fn segment_message(msg: &PendingMessage) -> (segs: Vec<(SeqNum, u8)>)
        ensures
            segs@ == Seq::new(msg.total_packets as nat, |i: int| msg.segment(i)),
    {
        let mut segs: Vec<(SeqNum, u8)> = Vec::new();
        let mut i: u32 = 0;
        while i < msg.total_packets
            invariant
                i <= msg.total_packets,
                segs@ == Seq::new(i as nat, |k: int| msg.segment(k)),
            decreases msg.total_packets - i,
        {
            segs.push(msg.make_segment(i));
            i = i + 1;
            assert(segs@ =~= Seq::new(i as nat, |k: int| msg.segment(k)));
        }
        segs
    }

    /// Answers the data packet `pkt` with a control packet.
    fn make_answer(&mut self, pkt: &Packet, seq: SeqNum, control_type: u8, now: u64) -> (p: Packet)
        ensures
            p@ == old(self)@.answer(0, pkt@, seq, control_type, now),
            final(self)@ == (RdmaView {
                next_packet_id: nth_id(old(self)@.next_packet_id, 1),
                ..old(self)@
            }),
    {
        let id: u64 = self.next_packet_id;
        self.next_packet_id = id.wrapping_add(1);
        Packet::control(
            id,
            id,
            pkt.flow_id,
            seq,
            self.host_id,
            pkt.src,
            pkt.ecn,
            control_type,
            Vec::new(),
            now,
        )
    }

    fn note_message(&mut self, qpn: Qpn, now: u64)
        ensures
            final(self)@ == old(self)@.message_arrived(qpn, now),
    {
        self.finished_messages.push((self.next_msg_id, qpn, now));
        self.next_msg_id = self.next_msg_id.wrapping_add(1);
        self.stats.messages_completed = self.stats.messages_completed.saturating_add(1);
    }

    /// Whether a packet ends a message that the host cannot take, because its queue pair has no
    /// receive buffer.
    pub fn refuses(&self, pkt: &Packet) -> (r: bool)
        ensures
            r == self@.refuses(pkt@),
    {
        let ends: bool = match MsgBoundary::from_flags(pkt.msg_flags) {
            MsgBoundary::Last => true,
            _ => false,
        };
        if !ends || pkt.rdma_opcode != RdmaOpcode::Send.to_code() {
            return false;
        }
        match self.qps.get(&pkt.qpn) {
            Some(qp) => {
                assert(self@.qps[pkt.qpn] == qp@);
                !qp.has_recv_wqe()
            },
            None => false,
        }
    }

    /// Takes in a packet of a message.
    pub fn handle_rdma_data(&mut self, pkt: &Packet, now: u64)
        ensures
            final(self)@ == old(self)@.reassembled(pkt@, now),
    {
        let ghost before = self@;
        let qpn: Qpn = pkt.qpn;
        self.stats.count_received();
        let mut r: RxReassembly = match self.rx_reassembly.remove(&qpn) {
            Some(r) => r,
            None => RxReassembly::new(),
        };
        assert(r@ == before.rx_of(qpn));
        assert(self@.rx =~= before.rx.remove(qpn));
        match MsgBoundary::from_flags(pkt.msg_flags) {
            MsgBoundary::Solo => {
                r.total_bytes = pkt.size as u64;
                self.rx_reassembly.insert(qpn, r);
                assert(self@.rx =~= before.rx.insert(qpn, r@));
                self.note_message(qpn, now);
            },
            MsgBoundary::First => {
                r.first_psn = Some(pkt.psn);
                r.packets = HashMap::new();
                assert(r@.packets =~= Map::empty());
                r.keep(pkt.psn, &pkt.payload);
                r.received_count = 1;
                r.total_bytes = pkt.size as u64;
                self.rx_reassembly.insert(qpn, r);
                assert(self@.rx =~= before.rx.insert(qpn, r@));
            },
            MsgBoundary::Middle => {
                r.keep(pkt.psn, &pkt.payload);
                r.received_count = r.received_count.saturating_add(1);
                r.total_bytes = r.total_bytes.saturating_add(pkt.size as u64);
                self.rx_reassembly.insert(qpn, r);
                assert(self@.rx =~= before.rx.insert(qpn, r@));
            },
            MsgBoundary::Last => {
                if self.refuses(pkt) {
                    if let Some(mut qp) = self.qps.remove(&qpn) {
                        assert(qp@ == before.qps[qpn]);
                        qp.rnr_naks_sent = qp.rnr_naks_sent.saturating_add(1);
                        self.qps.insert(qpn, qp);
                    }
                    self.stats.rnr_naks_sent = self.stats.rnr_naks_sent.saturating_add(1);
                    assert(self@.qps =~= before.reassembled(pkt@, now).qps);
                } else {
                    self.note_message(qpn, now);
                }
            },
        }
    }

    fn note_retransmissions(&mut self, qpn: Qpn, n: usize)
        ensures
            final(self)@ == (RdmaView {
                qps: if old(self)@.qps.contains_key(qpn) {
                    old(self)@.qps.insert(
                        qpn,
                        QpView {
                            retransmissions: counted(
                                old(self)@.qps[qpn].retransmissions,
                                n as int,
                            ),
                            ..old(self)@.qps[qpn]
                        },
                    )
                } else {
                    old(self)@.qps
                },
                ..old(self)@
            }),
            final(self).tx_flows == old(self).tx_flows,
    {
        let ghost before = self@;
        if let Some(mut qp) = self.qps.remove(&qpn) {
            assert(qp@ == before.qps[qpn]);
            qp.retransmissions = qp.retransmissions.saturating_add(n as u64);
            self.qps.insert(qpn, qp);
            assert(self@.qps =~= before.qps.insert(qpn, qp@));
        } else {
            assert(self@.qps =~= before.qps);
        }
    }

    /// Sends what a flow that is not done may send, and notes it in the flow.
    #[verifier::spinoff_prover]
    #[verifier::rlimit(60)]
    fn serve(&mut self, id: FlowId, f: &mut FlowTxState, now: u64, out: &mut Vec<Packet>)
        requires
            !old(f)@.done,
        ensures
            ({
                let start = RdmaView { tx: old(self)@.tx.insert(id, old(f)@), ..old(self)@ };
                let (v, more) = start.after_turn(id, now);
                &&& final(f)@ == v.tx[id]
                &&& final(self)@ == (RdmaView { tx: old(self)@.tx, ..v })
                &&& packet_views(final(out)@) == packet_views(old(out)@) + more
            }),
            final(self).tx_flows == old(self).tx_flows,
    {
        let room: u32 = f.room();
        let resend = f.take_resent(now, self.rto_ns, self.init_cwnd, self.min_cwnd);
        push_resent(
            out,
            &resend,
            &f.sent_segments,
            &mut self.next_packet_id,
            id,
            f.qpn,
            self.host_id,
            f.dst,
            now,
        );
        self.note_retransmissions(f.qpn, resend.len());
        let segs = take_segments(&mut self.pending_messages, f.qpn, room);
        push_segments(
            out,
            &segs,
            &mut self.next_packet_id,
            id,
            f.next_seq,
            f.qpn,
            self.host_id,
            f.dst,
            now,
        );
        f.note_sent(&resend, &segs, now);
        self.stats.packets_sent = self.stats.packets_sent.saturating_add(
            resend.len() as u64,
        ).saturating_add(segs.len() as u64);
        self.stats.packets_retransmitted = self.stats.packets_retransmitted.saturating_add(
            resend.len() as u64,
        );
        proof {
            let start = RdmaView { tx: old(self)@.tx.insert(id, old(f)@), ..old(self)@ };
            let (v, more) = start.after_turn(id, now);
            assert(self@ =~= (RdmaView { tx: old(self)@.tx, ..v }));
            assert(packet_views(out@) =~= packet_views(old(out)@) + more);
        }
    }

    /// Gives the flow `id` its turn.
    #[verifier::spinoff_prover]
    fn take_turn(&mut self, id: FlowId, now: u64, out: &mut Vec<Packet>)
        requires
            old(self)@.tx.contains_key(id),
        ensures
            ({
                let (v, more) = old(self)@.after_turn(id, now);
                &&& final(self)@ == v
                &&& packet_views(final(out)@) == packet_views(old(out)@) + more
            }),
    {
        let ghost before = self@;
        let taken = self.tx_flows.remove(&id);
        if let Some(mut f) = taken {
            assert(f@ == before.tx[id]);
            let ghost without = self@;
            assert(without.tx.insert(id, f@) =~= before.tx);
            assert(without =~= (RdmaView { tx: without.tx, ..before }));
            if f.done {
                self.tx_flows.insert(id, f);
                assert(self@.tx =~= before.tx);
                assert(packet_views(out@) =~= packet_views(old(out)@) + Seq::empty());
            } else {
                self.serve(id, &mut f, now, out);
                self.tx_flows.insert(id, f);
                assert(self@.tx =~= before.after_turn(id, now).0.tx);
            }
        }
    }

    /// Sends what the flows may send at `now`.
    pub fn try_send(&mut self, now: u64) -> (out: Vec<Packet>)
        ensures
            (final(self)@, packet_views(out@)) == old(self)@.ticked(now),
    {
        let ghost before = self@;
        let order: Vec<FlowId> = ascending_keys(&self.tx_flows);
        proof {
            assert(before.tx.dom() =~= self.tx_flows@.dom());
            lemma_ascending(order@, before.tx.dom());
        }
        let mut out: Vec<Packet> = Vec::new();
        let mut i: usize = 0;
        assert(packet_views(out@) =~= Seq::empty());
        while i < order.len()
            invariant
                i <= order@.len(),
                lists_ascending(order@, before.tx.dom()),
                self@.tx.dom() == before.tx.dom(),
                (self@, packet_views(out@)) == before.after_turns(order@.take(i as int), now),
            decreases order@.len() - i,
        {
            let id: FlowId = order[i];
            proof {
                assert(order@.to_set().contains(id));
                assert(order@.take(i + 1).drop_last() =~= order@.take(i as int));
                assert(self@.tx.dom().contains(id));
            }
            self.take_turn(id, now, &mut out);
            i = i + 1;
            assert(self@.tx.dom() =~= before.tx.dom());
        }
        assert(order@.take(i as int) =~= order@);
        out
    }

    fn any_active_flow(&self, qpn: Qpn) -> (r: bool)
        ensures
            r == self@.has_active_flow(qpn),
    {
        let ids: Vec<FlowId> = ascending_keys(&self.tx_flows);
        let mut i: usize = 0;
        while i < ids.len()
            invariant
                i <= ids@.len(),
                lists_ascending(ids@, self.tx_flows@.dom()),
                forall|k: int|
                    #![trigger ids@[k]]
                    0 <= k < i ==> self@.tx[ids@[k]].qpn != qpn || self@.tx[ids@[k]].done,
            decreases ids@.len() - i,
        {
            let id: FlowId = ids[i];
            assert(ids@.to_set().contains(id));
            if let Some(f) = self.tx_flows.get(&id) {
                assert(self@.tx.contains_key(id) && self@.tx[id] == f@);
                if f.qpn == qpn && !f.done {
                    return true;
                }
            }
            i = i + 1;
        }
        proof {
            assert forall|id: FlowId| #[trigger]
                self@.tx.contains_key(id) implies self@.tx[id].qpn != qpn || self@.tx[id].done by {
                assert(ids@.to_set().contains(id));
                let k = ids@.index_of(id);
                assert(ids@[k] == id);
            }
        }
        false
    }

    /// Completes the messages of a queue pair once none of its flows is active.
    pub fn check_message_completion(&mut self, qpn: Qpn, now: u64)
        ensures
            final(self)@ == old(self)@.messages_checked(qpn, now),
    {
        if self.any_active_flow(qpn) {
            return;
        }
        let ghost before = self@;
        let ghost keeps = |m: PendingMessage| !(m.qpn == qpn && m.sent());
        let mut kept: Vec<PendingMessage> = Vec::new();
        let mut ids: Vec<u64> = Vec::new();
        let mut i: usize = 0;
        assert(before.pending.take(0).filter(keeps) =~= Seq::empty());
        while i < self.pending_messages.len()
            invariant
                i <= self.pending_messages@.len(),
                self@ == before,
                keeps == (|m: PendingMessage| !(m.qpn == qpn && m.sent())),
                kept@ == before.pending.take(i as int).filter(keeps),
                RdmaView::completions(before.pending.take(i as int), qpn, now) == reported(
                    ids@,
                    qpn,
                    now,
                ),
            decreases self.pending_messages@.len() - i,
        {
            let m: PendingMessage = self.pending_messages[i];
            proof {
                let t = before.pending.take(i as int);
                assert(before.pending.take(i + 1) =~= t.push(m));
                assert(t.push(m).drop_last() =~= t);
                t.lemma_filter_push(m, keeps);
                lemma_reported_push(ids@, m.msg_id, qpn, now);
            }
            if m.qpn == qpn && m.done() {
                ids.push(m.msg_id);
            } else {
                kept.push(m);
            }
            i = i + 1;
        }
        proof {
            assert(before.pending.take(i as int) =~= before.pending);
            assert(reported(ids@, qpn, now).len() == ids@.len());
        }
        let ghost done = reported(ids@, qpn, now);
        let count: usize = ids.len();
        let ghost all_ids = ids@;
        assert(self.finished_messages@ =~= before.finished_messages + done.take(0));
        while ids.len() > 0
            invariant
                ids@ == all_ids.take(ids@.len() as int),
                ids@.len() <= all_ids.len(),
                done == reported(all_ids, qpn, now),
                done.len() == all_ids.len(),
                self.finished_messages@ == before.finished_messages + done.take(
                    all_ids.len() - ids@.len(),
                ),
                self@ == (RdmaView { finished_messages: self.finished_messages@, ..before }),
            decreases ids@.len(),
        {
            let ghost n = ids@.len();
            if let Some(id) = ids.pop() {
                self.finished_messages.push((id, qpn, now));
                proof {
                    let at = all_ids.len() - n;
                    assert(done[at] == (id, qpn, now));
                    assert(self.finished_messages@ =~= before.finished_messages + done.take(at + 1));
                }
            }
        }
        assert(done.take(done.len() as int) =~= done);
        self.stats.messages_completed = self.stats.messages_completed.saturating_add(count as u64);
        self.pending_messages = kept;
        assert(self@ =~= before.messages_checked(qpn, now));
    }

    /// Takes in an acknowledgement.
    pub fn on_ack(&mut self, ack: &Packet, now: u64)
        ensures
            final(self)@ == old(self)@.acknowledged(ack.flow_id, ack.seq, ack.ecn, now),
    {
        let ghost before = self@;
        match self.tx_flows.remove(&ack.flow_id) {
            None => {
                assert(self@.tx =~= before.tx);
            },
            Some(mut flow) => {
                assert(flow@ == before.tx[ack.flow_id]);
                flow.take_ack(ack.seq, ack.ecn, self.min_cwnd, self.max_cwnd);
                let qpn: Qpn = flow.qpn;
                let ghost f = flow@;
                let nothing_left: bool = find_open_message(&self.pending_messages, qpn).is_none();
                if !flow.done && flow.un_acked_base >= flow.next_seq && nothing_left {
                    flow.done = true;
                    flow.finish_time = now;
                    self.stats.count_completed();
                    self.finished_flows.push((flow.flow_id, now));
                }
                self.tx_flows.insert(ack.flow_id, flow);
                assert(self@.tx =~= before.tx.insert(ack.flow_id, flow@));
                self.check_message_completion(qpn, now);
            },
        }
    }

    fn post_message(&mut self, qpn: Qpn, bytes: u64, opcode: RdmaOpcode, now: u64)
        ensures
            final(self)@ == old(self)@.posted(qpn, bytes, opcode, now),
    {
        let ghost before = self@;
        let msg_id: u64 = self.next_msg_id;
        self.next_msg_id = msg_id.wrapping_add(1);
        match self.qps.remove(&qpn) {
            None => {
                assert(self@.qps =~= before.qps);
            },
            Some(mut qp) => {
                assert(qp@ == before.qps[qpn]);
                let total: u32 = packet_count(bytes);
                let base_psn: Psn = qp.next_psn;
                qp.next_psn = advance_psn(base_psn, max_u32(total, 1));
                self.pending_messages.push(
                    PendingMessage {
                        msg_id,
                        qpn,
                        dst: qp.remote_id,
                        opcode,
                        total_bytes: bytes,
                        total_packets: total,
                        next_packet_idx: 0,
                        base_psn,
                        posted_ns: now,
                    },
                );
                self.qps.insert(qpn, qp);
                assert(self@.qps =~= before.posted(qpn, bytes, opcode, now).qps);
            },
        }
    }

    /// The state of a queue pair.
    pub fn qp_state(&self, qpn: Qpn) -> (r: Option<QpState>)
        ensures
            r == if self@.qps.contains_key(qpn) {
                Some(self@.qps[qpn].state)
            } else {
                None
            },
    {
        match self.qps.get(&qpn) {
            Some(qp) => {
                assert(self@.qps[qpn] == qp@);
                Some(qp.state)
            },
            None => None,
        }
    }
}

/// Completed messages as they are reported: last first.
spec fn reported(ids: Seq<u64>, qpn: Qpn, now: u64) -> Seq<(u64, Qpn, u64)> {
    Seq::new(ids.len(), |k: int| (ids[ids.len() - 1 - k], qpn, now))
}

proof fn lemma_reported_push(ids: Seq<u64>, id: u64, qpn: Qpn, now: u64)
    ensures
        reported(ids.push(id), qpn, now) == seq![(id, qpn, now)] + reported(ids, qpn, now),
{
    assert(reported(ids.push(id), qpn, now) =~= seq![(id, qpn, now)] + reported(ids, qpn, now));
}

impl Protocol for RdmaProtocol {
    open spec fn started(
        &self,
        post: &Self,
        flow_id: FlowId,
        dst: EntityId,
        total_bytes: u64,
        now: u64,
    ) -> bool {
        let qpn = self@.next_qpn;
        let v = self@.with_qp(dst, now).posted(
            qpn,
            total_bytes,
            RdmaOpcode::Send,
            now,
        );
        post@ == (RdmaView {
            tx: v.tx.insert(flow_id, fresh_tx(flow_id, dst, qpn, now)),
            ..v
        })
    }

    open spec fn ticked(&self, post: &Self, now: u64, out: Seq<PacketView>) -> bool {
        (post@, out) == self@.ticked(now)
    }

    open spec fn took_data(
        &self,
        post: &Self,
        pkt: PacketView,
        now: u64,
        out: Seq<PacketView>,
    ) -> bool {
        (post@, out) == self@.received(pkt, now)
    }

    open spec fn took_control(&self, post: &Self, pkt: PacketView, now: u64) -> bool {
        post@ == match pkt.kind {
            PacketKind::Control(0) => self@.acknowledged(
                pkt.flow_id,
                pkt.seq,
                pkt.ecn,
                now,
            ),
            PacketKind::Control(1) => RdmaView {
                stats: ProtocolStats {
                    rnr_naks_received: counted(self@.stats.rnr_naks_received, 1),
                    ..self@.stats
                },
                ..self@
            },
            _ => self@,
        }
    }

    open spec fn is_done(&self) -> bool {
        &&& !self@.tx.dom().is_empty()
        &&& forall|id: FlowId| #[trigger] self@.tx.contains_key(id) ==> self@.tx[id].done
        &&& forall|i: int|
            0 <= i < self@.pending.len() ==> (#[trigger] self@.pending[i]).sent()
    }

    open spec fn finishes(&self, post: &Self, out: Seq<(FlowId, u64)>) -> bool {
        &&& out == self@.finished_flows
        &&& post@ == (RdmaView { finished_flows: Seq::empty(), ..self@ })
    }

    open spec fn counters(&self) -> ProtocolStats {
        self@.stats
    }

    open spec fn has_work(&self) -> bool {
        exists|id: FlowId| #[trigger]
            self@.tx.contains_key(id) && self@.flow_has_work(id)
    }

    open spec fn times_out(&self, at: Option<u64>) -> bool {
        &&& at is Some ==> exists|id: FlowId, seq: SeqNum| #[trigger]
            self@.times_out_at(id, seq, at->0)
        &&& forall|id: FlowId, seq: SeqNum, d: u64| #[trigger]
            self@.times_out_at(id, seq, d) ==> at is Some && at->0 <= d
    }

    open spec fn paced_until(&self, at: Option<u64>) -> bool {
        at is None
    }

    open spec fn noted_departure(
        &self,
        post: &Self,
        flow_id: FlowId,
        seq: SeqNum,
        nic_depart_time: u64,
    ) -> bool {
        post == self
    }

    fn start_flow(&mut self, flow_id: FlowId, dst: EntityId, total_bytes: u64, now: u64) {
        let qpn: Qpn = self.create_qp(dst, now);
        self.post_message(qpn, total_bytes, RdmaOpcode::Send, now);
        let ghost v = self@;
        let flow = FlowTxState::new(flow_id, dst, qpn, now);
        self.tx_flows.insert(flow_id, flow);
        assert(self@.tx =~= v.tx.insert(flow_id, flow@));
    }

    fn on_tx_tick(&mut self, now: u64) -> Vec<Packet> {
        self.try_send(now)
    }

    fn on_rx_data(&mut self, pkt: &Packet, now: u64) -> Vec<Packet> {
        let ghost before = self@;
        self.stats.count_received();
        let refused: bool = pkt.qpn > 0 && self.refuses(pkt);
        if pkt.qpn > 0 {
            self.handle_rdma_data(pkt, now);
        }
        let next: SeqNum = match self.tx_flows.get(&pkt.flow_id) {
            Some(f) => {
                assert(self@.tx[pkt.flow_id] == f@);
                f.un_acked_base
            },
            None => pkt.seq.saturating_add(1),
        };
        let mut out: Vec<Packet> = Vec::new();
        out.push(self.make_answer(pkt, next, CONTROL_ACK, now));
        if refused {
            out.push(self.make_answer(pkt, pkt.seq, CONTROL_RNR_NAK, now));
        }
        assert(packet_views(out@) =~= before.received(pkt@, now).1);
        assert(self@ =~= before.received(pkt@, now).0);
        out
    }

    fn on_tx_control(&mut self, pkt: &Packet, now: u64) {
        match pkt.kind {
            PacketKind::Control(0) => self.on_ack(pkt, now),
            PacketKind::Control(1) => {
                self.stats.rnr_naks_received = self.stats.rnr_naks_received.saturating_add(1);
            },
            _ => {},
        }
    }

    fn all_flows_done(&self) -> bool {
        let ids: Vec<FlowId> = ascending_keys(&self.tx_flows);
        assert(self@.tx.dom() =~= self.tx_flows@.dom());
        if ids.len() == 0 {
            assert(ids@.to_set() =~= Set::empty());
            return false;
        }
        assert(ids@.to_set().contains(ids@[0]));
        let mut i: usize = 0;
        while i < ids.len()
            invariant
                i <= ids@.len(),
                lists_ascending(ids@, self.tx_flows@.dom()),
                forall|k: int| #![trigger ids@[k]] 0 <= k < i ==> self@.tx[ids@[k]].done,
            decreases ids@.len() - i,
        {
            let id: FlowId = ids[i];
            assert(ids@.to_set().contains(id));
            if let Some(f) = self.tx_flows.get(&id) {
                assert(self@.tx.contains_key(id) && self@.tx[id] == f@);
                if !f.done {
                    return false;
                }
            }
            i = i + 1;
        }
        proof {
            assert forall|id: FlowId| #[trigger] self@.tx.contains_key(id) implies self@.tx[id].done by {
                assert(ids@.to_set().contains(id));
                let k = ids@.index_of(id);
                assert(ids@[k] == id);
            }
        }
        let mut j: usize = 0;
        while j < self.pending_messages.len()
            invariant
                j <= self.pending_messages@.len(),
                forall|k: int| 0 <= k < j ==> (#[trigger] self@.pending[k]).sent(),
            decreases self.pending_messages@.len() - j,
        {
            if !self.pending_messages[j].done() {
                assert(!self@.pending[j as int].sent());
                return false;
            }
            j = j + 1;
        }
        true
    }

    fn take_finished_flows(&mut self) -> Vec<(FlowId, u64)> {
        let mut out: Vec<(FlowId, u64)> = Vec::new();
        std::mem::swap(&mut out, &mut self.finished_flows);
        out
    }

    fn stats(&self) -> ProtocolStats {
        self.stats
    }

    fn has_pending_work(&self) -> bool {
        let ids: Vec<FlowId> = ascending_keys(&self.tx_flows);
        let mut i: usize = 0;
        while i < ids.len()
            invariant
                i <= ids@.len(),
                lists_ascending(ids@, self.tx_flows@.dom()),
                forall|k: int| #![trigger ids@[k]] 0 <= k < i ==> !self@.flow_has_work(ids@[k]),
            decreases ids@.len() - i,
        {
            let id: FlowId = ids[i];
            assert(ids@.to_set().contains(id));
            if let Some(f) = self.tx_flows.get(&id) {
                assert(self@.tx.contains_key(id) && self@.tx[id] == f@);
                if !f.done {
                    if f.retransmit_queue.len() > 0 {
                        return true;
                    }
                    if f.in_flight < f.cwnd {
                        let open = find_open_message(&self.pending_messages, f.qpn);
                        if open.is_some() {
                            return true;
                        }
                    }
                }
            }
            i = i + 1;
        }
        proof {
            assert forall|id: FlowId| #[trigger]
                self@.tx.contains_key(id) implies !self@.flow_has_work(id) by {
                assert(ids@.to_set().contains(id));
                let k = ids@.index_of(id);
                assert(ids@[k] == id);
            }
        }
        false
    }

    fn next_rto_deadline(&self) -> Option<u64> {
        let ids: Vec<FlowId> = ascending_keys(&self.tx_flows);
        let mut best: Option<u64> = None;
        let mut i: usize = 0;
        while i < ids.len()
            invariant
                i <= ids@.len(),
                lists_ascending(ids@, self.tx_flows@.dom()),
                best is Some ==> exists|id: FlowId, seq: SeqNum| #[trigger]
                    self@.times_out_at(id, seq, best->0),
                forall|k: int, seq: SeqNum, d: u64|
                    #![trigger self@.times_out_at(ids@[k], seq, d)]
                    0 <= k < i && self@.times_out_at(ids@[k], seq, d) ==> best is Some && best->0
                        <= d,
            decreases ids@.len() - i,
        {
            let id: FlowId = ids[i];
            assert(ids@.to_set().contains(id));
            if let Some(f) = self.tx_flows.get(&id) {
                assert(self@.tx.contains_key(id) && self@.tx[id] == f@);
                if !f.done {
                    let first = earliest_sent(&f.send_times);
                    if let Some(at) = first {
                        let d: u64 = at.saturating_add(self.rto_ns);
                        proof {
                            let sent = f@.send_times;
                            let seq = choose|s: SeqNum| #[trigger]
                                sent.contains_key(s) && sent[s] == at;
                            assert(self@.times_out_at(id, seq, d));
                        }
                        best = match best {
                            Some(b) if b <= d => Some(b),
                            _ => Some(d),
                        };
                    }
                }
                proof {
                    assert forall|seq: SeqNum, d: u64| #[trigger]
                        self@.times_out_at(id, seq, d) implies best is Some && best->0 <= d by {
                        assert(f@.send_times.contains_key(seq));
                    }
                }
            }
            proof {
                assert forall|k: int, seq: SeqNum, d: u64|
                    #![trigger self@.times_out_at(ids@[k], seq, d)]
                    0 <= k < i + 1 && self@.times_out_at(ids@[k], seq, d) implies best is Some
                    && best->0 <= d by {
                    if k == i {
                        assert(ids@[k] == id);
                    }
                }
            }
            i = i + 1;
        }
        proof {
            assert forall|id: FlowId, seq: SeqNum, d: u64| #[trigger]
                self@.times_out_at(id, seq, d) implies best is Some && best->0 <= d by {
                assert(self.tx_flows@.dom().contains(id));
                assert(ids@.to_set().contains(id));
                let k = ids@.index_of(id);
                assert(ids@[k] == id);
                assert(self@.times_out_at(ids@[k], seq, d));
            }
        }
        best
    }

    fn next_tx_time(&self) -> Option<u64> {
        None
    }

    fn update_send_time(&mut self, flow_id: FlowId, seq: SeqNum, nic_depart_time: u64) {
    }

    fn post_send(&mut self, qpn: Qpn, bytes: u64, now: u64)
        ensures
            final(self)@ == old(self)@.posted(qpn, bytes, RdmaOpcode::Send, now),
    {
        self.post_message(qpn, bytes, RdmaOpcode::Send, now);
    }

    fn post_write(&mut self, qpn: Qpn, bytes: u64, now: u64)
        ensures
            final(self)@ == old(self)@.posted(qpn, bytes, RdmaOpcode::Write, now),
    {
        self.post_message(qpn, bytes, RdmaOpcode::Write, now);
    }

    fn post_recv(&mut self, qpn: Qpn, bytes: u64, now: u64)
        ensures
            final(self)@ == old(self)@.buffer_posted(qpn, bytes, now),
    {
        let ghost before = self@;
        if let Some(mut qp) = self.qps.remove(&qpn) {
            assert(qp@ == before.qps[qpn]);
            let remote_id: EntityId = qp.remote_id;
            qp.recv_queue.push(
                Wqe {
                    qpn,
                    opcode: RdmaOpcode::Send,
                    remote_id,
                    remote_addr: 0,
                    local_addr: 0,
                    length: bytes,
                    posted_ns: now,
                    doorbell_rung: false,
                },
            );
            self.qps.insert(qpn, qp);
        }
        assert(self@.qps =~= before.buffer_posted(qpn, bytes, now).qps);
    }

    fn take_finished_messages(&mut self) -> (out: Vec<(u64, Qpn, u64)>)
        ensures
            out@ == old(self)@.finished_messages,
            final(self)@ == (RdmaView { finished_messages: Seq::empty(), ..old(self)@ }),
    {
        let mut out: Vec<(u64, Qpn, u64)> = Vec::new();
        std::mem::swap(&mut out, &mut self.finished_messages);
        out
    }
}

} // verus!
