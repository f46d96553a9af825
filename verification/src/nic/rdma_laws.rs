//! What holds of RDMA.
use super::protocol::{Protocol, ProtocolStats};
use super::rdma::{MsgBoundary, Psn, QpState, Qpn, RdmaOpcode, Wqe};
use super::rdma_protocol::{PendingMessage, RdmaProtocol};
use crate::network::packet::{FlowId, PacketKind, SeqNum};
use crate::EntityId;
use vstd::prelude::*;

verus! {

use super::endpoint_laws::{forgets, just_holds};
use super::rdma::{may_go, psn_after, QpView};
use super::rdma_protocol::{flow_room, open_message, segments_taken, RdmaView, TxView};
use super::send_laws::{lemma_late, lists_late};
use super::sender::numbered;
use crate::network::packet::PacketView;
use crate::util::{ascending, law_listing_ascends};

/// Every operation has a number of its own, from zero on in the order of their listing.
pub proof fn law_opcodes()
    ensures
        RdmaOpcode::Send.code() == 0,
        RdmaOpcode::SendWithImm.code() == 1,
        RdmaOpcode::Write.code() == 2,
        RdmaOpcode::WriteWithImm.code() == 3,
        RdmaOpcode::ReadRequest.code() == 4,
        RdmaOpcode::ReadResponse.code() == 5,
        RdmaOpcode::Ack.code() == 6,
        RdmaOpcode::RnrNak.code() == 7,
{
}

/// The two low bits of the flags tell the place of a packet in its message: zero stands for the only
/// packet, one for the first, two for one between and three for the last.
pub proof fn law_flags_tell_place(flags: u8)
    ensures
        MsgBoundary::of_flags(flags) is Solo <==> flags % 4 == 0,
        MsgBoundary::of_flags(flags) is First <==> flags % 4 == 1,
        MsgBoundary::of_flags(flags) is Middle <==> flags % 4 == 2,
        MsgBoundary::of_flags(flags) is Last <==> flags % 4 == 3,
{
}

/// Packet `i` of a message bears the number `i` after that of the first, in 24 bits, and flags that say
/// whether it is the only one, the first, the last or one between.
pub proof fn law_segment_is_labelled(m: PendingMessage, i: int)
    requires
        0 <= i < m.total_packets,
    ensures
        m.segment(i).0 == (m.base_psn + i) % 0x100_0000,
        m.segment(i).1 == if m.total_packets == 1 {
            0u8
        } else if i == 0 {
            1
        } else if i == m.total_packets - 1 {
            3
        } else {
            2
        },
{
}

/// Packet numbers count up in 24 bits.
pub proof fn law_packet_numbers_wrap(psn: Psn, m: int, n: int)
    requires
        0 <= m,
        0 <= n,
    ensures
        psn_after(psn, n) == (psn + n) % 0x100_0000,
        psn_after(psn, n) < 0x100_0000,
        psn_after(psn_after(psn, m), n) == psn_after(psn, m + n),
{
    vstd::arithmetic::div_mod::lemma_add_mod_noop(psn + m, n, 0x100_0000);
    vstd::arithmetic::div_mod::lemma_add_mod_noop((psn + m) % 0x100_0000, n, 0x100_0000);
    vstd::arithmetic::div_mod::lemma_mod_twice(psn + m, 0x100_0000);
}

/// A queue pair goes from reset to initialised, ready to receive and ready to send, one after the other;
/// it may be initialised again, and be reset or break at any time. Nothing else is allowed.
pub proof fn law_queue_pair_states(from: QpState, to: QpState)
    ensures
        may_go(from, to) <==> match to {
            QpState::Reset => true,
            QpState::Error => true,
            QpState::Init => from is Reset || from is Init,
            QpState::Rtr => from is Init,
            QpState::Rts => from is Rtr,
        },
{
}

/// The message of a queue pair that is sent next is the first of which packets are left.
pub proof fn law_next_message_is_first(msgs: Seq<PendingMessage>, qpn: Qpn, from: int)
    requires
        0 <= from,
    ensures
        match open_message(msgs, qpn, from) {
            Some(i) => {
                &&& from <= i < msgs.len()
                &&& msgs[i].qpn == qpn
                &&& msgs[i].next_packet_idx < msgs[i].total_packets
                &&& forall|j: int|
                    from <= j < i ==> (#[trigger] msgs[j]).qpn != qpn || msgs[j].next_packet_idx
                        >= msgs[j].total_packets
            },
            None => forall|j: int|
                from <= j < msgs.len() ==> (#[trigger] msgs[j]).qpn != qpn || msgs[j].next_packet_idx
                    >= msgs[j].total_packets,
        },
    decreases msgs.len() - from,
{
    if from < msgs.len() && !(msgs[from].qpn == qpn && !msgs[from].sent()) {
        law_next_message_is_first(msgs, qpn, from + 1);
    }
}

/// As many packets are taken from the messages of a queue pair as are asked for, or all that are left;
/// each message stays the same but for how many of its packets have been sent, which does not fall, and
/// messages of other queue pairs are not touched.
pub proof fn law_segments_are_taken(msgs: Seq<PendingMessage>, qpn: Qpn, n: nat)
    ensures
        ({
            let (after, segs) = segments_taken(msgs, qpn, n);
            &&& segs.len() <= n
            &&& segs.len() < n ==> forall|j: int|
                0 <= j < after.len() ==> (#[trigger] after[j]).qpn != qpn
                    || after[j].next_packet_idx >= after[j].total_packets
            &&& after.len() == msgs.len()
            &&& forall|j: int|
                0 <= j < msgs.len() ==> (#[trigger] after[j]) == (PendingMessage {
                    next_packet_idx: after[j].next_packet_idx,
                    ..msgs[j]
                }) && after[j].next_packet_idx >= msgs[j].next_packet_idx && (msgs[j].qpn != qpn
                    ==> after[j] == msgs[j])
        }),
    decreases n,
{
    if n > 0 {
        law_segments_are_taken(msgs, qpn, (n - 1) as nat);
        let (m, segs) = segments_taken(msgs, qpn, (n - 1) as nat);
        law_next_message_is_first(m, qpn, 0);
    }
}

/// Flow `id` of a host is all that differs, apart from what is counted and reported, and the messages.
pub open spec fn changes_one_flow(e: RdmaView, g: RdmaView, id: FlowId) -> bool {
    &&& g.tx.dom() =~= e.tx.dom()
    &&& forall|o: FlowId| e.tx.contains_key(o) && o != id ==> #[trigger] g.tx[o] == e.tx[o]
    &&& g == (RdmaView {
        tx: g.tx,
        stats: g.stats,
        pending: g.pending,
        finished_flows: g.finished_flows,
        finished_messages: g.finished_messages,
        ..e
    })
}

/// The position of a message of the queue pair of which packets are left.
pub open spec fn has_open_message(msgs: Seq<PendingMessage>, qpn: Qpn) -> bool {
    exists|j: int|
        0 <= j < msgs.len() && (#[trigger] msgs[j]).qpn == qpn && msgs[j].next_packet_idx
            < msgs[j].total_packets
}

proof fn lemma_open(msgs: Seq<PendingMessage>, qpn: Qpn)
    ensures
        open_message(msgs, qpn, 0) is Some <==> has_open_message(msgs, qpn),
{
    law_next_message_is_first(msgs, qpn, 0);
    if let Some(i) = open_message(msgs, qpn, 0) {
        assert(msgs[i].qpn == qpn);
    }
}

/// An acknowledgement of new packets moves the flow on to the first that is still missing, and takes the
/// acknowledged packets out of flight. It completes the flow once everything that was sent is
/// acknowledged and no packet of its messages is left, which is noted with its time, reported and
/// counted. No other flow is touched.
pub proof fn law_rdma_ack_moves_flow_on(
    pre: RdmaProtocol,
    post: RdmaProtocol,
    pkt: PacketView,
    now: u64,
)
    requires
        pre.took_control(&post, pkt, now),
        pkt.kind == PacketKind::Control(0),
        pre@.tx.contains_key(pkt.flow_id),
        pkt.seq > pre@.tx[pkt.flow_id].un_acked_base,
    ensures
        ({
            let (e, g) = (pre@, post@);
            let (f, h) = (e.tx[pkt.flow_id], g.tx[pkt.flow_id]);
            let completes = !f.done && pkt.seq >= f.next_seq && !has_open_message(e.pending, f.qpn);
            &&& h.un_acked_base == pkt.seq
            &&& h.in_flight == if f.in_flight > pkt.seq - f.un_acked_base {
                f.in_flight - (pkt.seq - f.un_acked_base)
            } else {
                0
            }
            &&& forgets(f.send_times, h.send_times, f.un_acked_base, pkt.seq)
            &&& h.dup_ack_count == 0
            &&& h.retransmit_queue == f.retransmit_queue
            &&& h.sent_segments == f.sent_segments
            &&& h.next_seq == f.next_seq
            &&& h.flow_id == f.flow_id && h.dst == f.dst && h.qpn == f.qpn && h.start_time
                == f.start_time
            &&& h.done == (f.done || completes)
            &&& h.finish_time == if completes {
                now
            } else {
                f.finish_time
            }
            &&& changes_one_flow(e, g, pkt.flow_id)
            &&& completes ==> g.finished_flows == e.finished_flows.push((f.flow_id, now))
            &&& !completes ==> g.finished_flows == e.finished_flows
            &&& e.stats.flows_completed < u64::MAX ==> g.stats.flows_completed
                == e.stats.flows_completed + if completes {
                1int
            } else {
                0
            }
        }),
{
    lemma_open(pre@.pending, pre@.tx[pkt.flow_id].qpn);
}

/// An unmarked acknowledgement of new packets widens the window: below the threshold by their number, up
/// to the largest window, and from there on by one packet as long as it is below the largest. A marked
/// one halves it, but not below its least, and makes that the threshold.
pub proof fn law_rdma_ack_moves_window(
    pre: RdmaProtocol,
    post: RdmaProtocol,
    pkt: PacketView,
    now: u64,
)
    requires
        pre.took_control(&post, pkt, now),
        pkt.kind == PacketKind::Control(0),
        pre@.tx.contains_key(pkt.flow_id),
        pkt.seq > pre@.tx[pkt.flow_id].un_acked_base,
    ensures
        ({
            let e = pre@;
            let (f, h) = (e.tx[pkt.flow_id], post@.tx[pkt.flow_id]);
            let delta = pkt.seq - f.un_acked_base;
            let half = if f.cwnd / 2 > e.min_cwnd {
                f.cwnd / 2
            } else {
                e.min_cwnd
            };
            &&& pkt.ecn ==> h.cwnd == half && h.ssthresh == half
            &&& !pkt.ecn ==> h.ssthresh == f.ssthresh
            &&& !pkt.ecn && f.cwnd < f.ssthresh ==> h.cwnd == if f.cwnd + delta < e.max_cwnd {
                f.cwnd + delta
            } else {
                e.max_cwnd as int
            }
            &&& !pkt.ecn && f.cwnd >= f.ssthresh ==> h.cwnd == if f.cwnd < e.max_cwnd {
                f.cwnd + 1
            } else {
                f.cwnd as int
            }
        }),
{
}

/// A duplicate acknowledgement is counted. The third in a row makes half the window the threshold, but not
/// less than the least window, and the window three packets more, up to the largest, and queues the first
/// missing packet once; every further one widens the window by one packet, up to the largest.
pub proof fn law_rdma_duplicate_acks(
    pre: RdmaProtocol,
    post: RdmaProtocol,
    pkt: PacketView,
    now: u64,
)
    requires
        pre.took_control(&post, pkt, now),
        pkt.kind == PacketKind::Control(0),
        pre@.tx.contains_key(pkt.flow_id),
        pkt.seq == pre@.tx[pkt.flow_id].un_acked_base,
    ensures
        ({
            let e = pre@;
            let (f, h) = (e.tx[pkt.flow_id], post@.tx[pkt.flow_id]);
            let half = if f.cwnd / 2 > e.min_cwnd {
                f.cwnd / 2
            } else {
                e.min_cwnd
            };
            &&& f.dup_ack_count < u32::MAX ==> h.dup_ack_count == f.dup_ack_count + 1
            &&& f.dup_ack_count < 2 ==> h.cwnd == f.cwnd && h.ssthresh == f.ssthresh
                && h.retransmit_queue == f.retransmit_queue
            &&& f.dup_ack_count == 2 ==> {
                &&& h.ssthresh == half
                &&& half + 3 <= u32::MAX ==> h.cwnd == if half + 3 < e.max_cwnd {
                    half + 3
                } else {
                    e.max_cwnd as int
                }
                &&& f.retransmit_queue.contains(f.un_acked_base) ==> h.retransmit_queue
                    == f.retransmit_queue
                &&& !f.retransmit_queue.contains(f.un_acked_base) ==> h.retransmit_queue
                    == f.retransmit_queue.push(f.un_acked_base)
            }
            &&& f.dup_ack_count > 2 ==> {
                &&& h.cwnd == if f.cwnd < e.max_cwnd {
                    f.cwnd + 1
                } else {
                    e.max_cwnd as int
                }
                &&& h.ssthresh == f.ssthresh
                &&& h.retransmit_queue == f.retransmit_queue
            }
            &&& h.un_acked_base == f.un_acked_base && h.next_seq == f.next_seq && h.in_flight
                == f.in_flight && h.send_times == f.send_times && h.sent_segments
                == f.sent_segments
            &&& changes_one_flow(e, post@, pkt.flow_id)
        }),
{
}

/// An acknowledgement of less than is known already leaves the flow as it is, unless it completes.
pub proof fn law_rdma_old_ack(pre: RdmaProtocol, post: RdmaProtocol, pkt: PacketView, now: u64)
    requires
        pre.took_control(&post, pkt, now),
        pkt.kind == PacketKind::Control(0),
        pre@.tx.contains_key(pkt.flow_id),
        pkt.seq < pre@.tx[pkt.flow_id].un_acked_base,
        pre@.tx[pkt.flow_id].done || pre@.tx[pkt.flow_id].un_acked_base
            < pre@.tx[pkt.flow_id].next_seq,
    ensures
        post@.tx == pre@.tx,
        post@.finished_flows == pre@.finished_flows,
        post@.stats.flows_completed == pre@.stats.flows_completed,
{
    assert(post@.tx =~= pre@.tx);
}

/// A receiver that was not ready is counted; a control packet of another type, or an acknowledgement for
/// a flow that the sender does not know, changes nothing.
pub proof fn law_rdma_other_control(
    pre: RdmaProtocol,
    post: RdmaProtocol,
    pkt: PacketView,
    now: u64,
)
    requires
        pre.took_control(&post, pkt, now),
        pkt.kind != PacketKind::Control(0) || !pre@.tx.contains_key(pkt.flow_id),
    ensures
        pkt.kind == PacketKind::Control(1) ==> {
            &&& pre@.stats.rnr_naks_received < u64::MAX ==> post@.stats.rnr_naks_received
                == pre@.stats.rnr_naks_received + 1
            &&& post@ == (RdmaView {
                stats: ProtocolStats {
                    rnr_naks_received: post@.stats.rnr_naks_received,
                    ..pre@.stats
                },
                ..pre@
            })
        },
        pkt.kind != PacketKind::Control(1) ==> post@ == pre@,
{
}

/// The number of messages among `msgs` that have been sent on the queue pair.
pub open spec fn sent_messages(msgs: Seq<PendingMessage>, qpn: Qpn) -> Seq<PendingMessage> {
    msgs.filter(|m: PendingMessage| m.qpn == qpn && m.next_packet_idx >= m.total_packets)
}

proof fn lemma_completions(msgs: Seq<PendingMessage>, qpn: Qpn, now: u64)
    ensures
        ({
            let done = RdmaView::completions(msgs, qpn, now);
            let sent = sent_messages(msgs, qpn);
            &&& done.len() == sent.len()
            &&& forall|k: int|
                0 <= k < done.len() ==> #[trigger] done[k] == (
                    sent[sent.len() - 1 - k].msg_id,
                    qpn,
                    now,
                )
        }),
    decreases msgs.len(),
{
    reveal(Seq::filter);
    if msgs.len() > 0 {
        let less = msgs.drop_last();
        lemma_completions(less, qpn, now);
        let before = RdmaView::completions(less, qpn, now);
        let done = RdmaView::completions(msgs, qpn, now);
        let sent = sent_messages(msgs, qpn);
        let m = msgs.last();
        if m.qpn == qpn && m.sent() {
            assert(sent == sent_messages(less, qpn).push(m));
            assert forall|k: int| 0 <= k < done.len() implies #[trigger] done[k] == (
                sent[sent.len() - 1 - k].msg_id,
                qpn,
                now,
            ) by {
                if k > 0 {
                    assert(done[k] == before[k - 1]);
                }
            }
        } else {
            assert(sent == sent_messages(less, qpn));
        }
    }
}

/// Once every flow of a queue pair is complete, the messages that have been sent on it complete: they are
/// reported with their time, the last posted first, counted, and no longer kept. While a flow of the
/// queue pair is not complete, no message completes.
pub proof fn law_rdma_messages_complete(
    pre: RdmaProtocol,
    post: RdmaProtocol,
    pkt: PacketView,
    now: u64,
)
    requires
        pre.took_control(&post, pkt, now),
        pkt.kind == PacketKind::Control(0),
        pre@.tx.contains_key(pkt.flow_id),
    ensures
        ({
            let (e, g) = (pre@, post@);
            let qpn = e.tx[pkt.flow_id].qpn;
            let active = exists|id: FlowId| #[trigger]
                g.tx.contains_key(id) && g.tx[id].qpn == qpn && !g.tx[id].done;
            let sent = sent_messages(e.pending, qpn);
            let n = e.finished_messages.len() as int;
            &&& active ==> g.pending == e.pending && g.finished_messages == e.finished_messages
                && g.stats.messages_completed == e.stats.messages_completed
            &&& !active ==> {
                &&& g.pending == e.pending.filter(
                    |m: PendingMessage| !(m.qpn == qpn && m.next_packet_idx >= m.total_packets),
                )
                &&& g.finished_messages.len() == n + sent.len()
                &&& g.finished_messages.take(n) =~= e.finished_messages
                &&& forall|k: int|
                    0 <= k < sent.len() ==> #[trigger] g.finished_messages[n + k] == (
                        sent[sent.len() - 1 - k].msg_id,
                        qpn,
                        now,
                    )
                &&& e.stats.messages_completed + sent.len() <= u64::MAX
                    ==> g.stats.messages_completed == e.stats.messages_completed + sent.len()
            }
        }),
{
    let (e, g) = (pre@, post@);
    let qpn = e.tx[pkt.flow_id].qpn;
    lemma_completions(e.pending, qpn, now);
    assert(e.pending.filter(|m: PendingMessage| !(m.qpn == qpn && m.sent())) == e.pending.filter(
        |m: PendingMessage| !(m.qpn == qpn && m.next_packet_idx >= m.total_packets),
    )) by {
        lemma_same_filter(
            e.pending,
            |m: PendingMessage| !(m.qpn == qpn && m.sent()),
            |m: PendingMessage| !(m.qpn == qpn && m.next_packet_idx >= m.total_packets),
        );
    }
    let done = RdmaView::completions(e.pending, qpn, now);
    let n = e.finished_messages.len() as int;
    let sent = sent_messages(e.pending, qpn);
    if !(exists|id: FlowId| #[trigger]
        g.tx.contains_key(id) && g.tx[id].qpn == qpn && !g.tx[id].done) {
        assert forall|k: int| 0 <= k < sent.len() implies #[trigger] g.finished_messages[n + k] == (
            sent[sent.len() - 1 - k].msg_id,
            qpn,
            now,
        ) by {
            assert(g.finished_messages[n + k] == done[k]);
        }
    }
}

proof fn lemma_same_filter(
    s: Seq<PendingMessage>,
    p: spec_fn(PendingMessage) -> bool,
    q: spec_fn(PendingMessage) -> bool,
)
    requires
        forall|m: PendingMessage| #[trigger] p(m) == q(m),
    ensures
        s.filter(p) == s.filter(q),
    decreases s.len(),
{
    reveal(Seq::filter);
    if s.len() > 0 {
        lemma_same_filter(s.drop_last(), p, q);
        assert(p(s.last()) == q(s.last()));
    }
}

/// In its turn a flow that is not complete first sends again what is queued and what is overdue, as many as
/// the window is wide; then it sends new packets of the messages of its queue pair for as long as fewer
/// are in flight than the window, as it was before, allows. A packet that has been in flight for the
/// timeout or longer is a loss: half the window becomes the threshold, but not less than the least
/// window, and the window starts again.
pub proof fn law_rdma_turn_of_flow(e: RdmaView, id: FlowId, now: u64, late: Seq<SeqNum>)
    requires
        e.tx.contains_key(id),
        !e.tx[id].done,
        e.tx[id].next_seq + e.tx[id].cwnd <= u32::MAX,
        lists_late(
            late,
            e.tx[id].send_times,
            e.tx[id].retransmit_queue,
            now,
            e.rto_ns,
            false,
        ),
    ensures
        ({
            let (g, out) = e.after_turn(id, now);
            let (f, h) = (e.tx[id], g.tx[id]);
            let n = h.next_seq - f.next_seq;
            let a = out.len() - n;
            let again = out.take(a).map_values(|q: PacketView| q.seq);
            &&& 0 <= n <= out.len()
            &&& again + h.retransmit_queue =~= f.retransmit_queue + late
            &&& a <= f.cwnd
            &&& h.retransmit_queue.len() > 0 ==> a == f.cwnd
            &&& forall|i: int| 0 <= i < n ==> (#[trigger] out[a + i]).seq == f.next_seq + i
            &&& h.in_flight == f.in_flight + n
            &&& n > 0 ==> h.in_flight <= f.cwnd
            &&& h.in_flight < f.cwnd ==> !has_open_message(g.pending, f.qpn)
            &&& h.sent_segments.len() == f.sent_segments.len() + n
            &&& h.sent_segments.take(f.sent_segments.len() as int) =~= f.sent_segments
            &&& late.len() > 0 ==> h.cwnd == e.init_cwnd && h.dup_ack_count == 0 && h.ssthresh
                == if f.cwnd / 2 > e.min_cwnd {
                f.cwnd / 2
            } else {
                e.min_cwnd
            }
            &&& late.len() == 0 ==> h.cwnd == f.cwnd && h.ssthresh == f.ssthresh && h.dup_ack_count
                == f.dup_ack_count
            &&& forall|s: SeqNum| #[trigger]
                h.send_times.contains_key(s) <==> f.send_times.contains_key(s) || again.contains(s)
                    || f.next_seq <= s < h.next_seq
            &&& forall|s: SeqNum| #[trigger]
                h.send_times.contains_key(s) ==> h.send_times[s] == if again.contains(s)
                    || f.next_seq <= s < h.next_seq {
                    now
                } else {
                    f.send_times[s]
                }
            &&& h.un_acked_base == f.un_acked_base && h.flow_id == f.flow_id && h.qpn == f.qpn
                && h.dst == f.dst && !h.done
        }),
{
    let (g, out) = e.after_turn(id, now);
    let (f, h) = (e.tx[id], g.tx[id]);
    lemma_late(late, f.send_times, f.retransmit_queue, now, e.rto_ns, false);
    let room = flow_room(f);
    law_segments_are_taken(e.pending, f.qpn, room);
    lemma_open(g.pending, f.qpn);
    let resent = f.resent(now, e.rto_ns);
    let (pending, segs) = segments_taken(e.pending, f.qpn, room);
    let again = out.take(resent.len() as int).map_values(|q: PacketView| q.seq);
    assert(again =~= resent);
    assert(resent + h.retransmit_queue =~= f.retransmit_queue + late);
    assert(segs.len() <= room);
    assert(h.next_seq - f.next_seq == segs.len());
    let fresh = numbered(f.next_seq, segs.len() as u32);
    assert forall|s: SeqNum| fresh.contains(s) <==> f.next_seq <= s < h.next_seq by {
        if f.next_seq <= s < h.next_seq {
            assert(fresh[s - f.next_seq] == s);
        }
    }
    assert(h.sent_segments == f.sent_segments + segs);
}

/// What goes out in the turn of a flow comes from this host and goes to where the flow goes, full-sized and
/// numbered one after the other. Everything is counted, and apart what is sent again, which is counted at
/// the queue pair too. A complete flow sends nothing.
pub proof fn law_rdma_turn_sends_packets(e: RdmaView, id: FlowId, now: u64)
    requires
        e.tx.contains_key(id),
    ensures
        ({
            let (g, out) = e.after_turn(id, now);
            let f = e.tx[id];
            let again = (out.len() - segments_taken(e.pending, f.qpn, flow_room(f)).1.len()) as int;
            &&& f.done ==> g == e && out.len() == 0
            &&& !f.done ==> {
                &&& again >= 0
                &&& forall|k: int|
                    0 <= k < out.len() ==> {
                        let q = #[trigger] out[k];
                        &&& q.kind == PacketKind::Data
                        &&& q.id == (e.next_packet_id + k) % 0x1_0000_0000_0000_0000
                        &&& q.trace_id == q.id
                        &&& q.flow_id == id
                        &&& q.src == e.host_id
                        &&& q.dst == f.dst
                        &&& q.size == 1024
                        &&& !q.ecn
                        &&& q.routing_tag == 0
                        &&& q.depart_time == now
                        &&& q.payload.len() == 0
                    }
                &&& g.next_packet_id == (e.next_packet_id + out.len()) % 0x1_0000_0000_0000_0000
                &&& e.stats.packets_sent + out.len() <= u64::MAX ==> g.stats.packets_sent
                    == e.stats.packets_sent + out.len()
                &&& e.stats.packets_retransmitted + again <= u64::MAX
                    ==> g.stats.packets_retransmitted == e.stats.packets_retransmitted + again
                &&& e.qps.contains_key(f.qpn) && e.qps[f.qpn].retransmissions + again <= u64::MAX
                    ==> g.qps[f.qpn].retransmissions == e.qps[f.qpn].retransmissions + again
                &&& g.tx.dom() =~= e.tx.dom()
                &&& forall|o: FlowId|
                    e.tx.contains_key(o) && o != id ==> #[trigger] g.tx[o] == e.tx[o]
                &&& forall|q: Qpn|
                    q != f.qpn && e.qps.contains_key(q) ==> #[trigger] g.qps[q] == e.qps[q]
                &&& g.qps.dom() =~= e.qps.dom()
                &&& g.rx == e.rx && g.finished_flows == e.finished_flows && g.finished_messages
                    == e.finished_messages && g.host_id == e.host_id && g.rto_ns == e.rto_ns
                    && g.next_qpn == e.next_qpn && g.next_msg_id == e.next_msg_id
            }
        }),
{
    if !e.tx[id].done {
        let f = e.tx[id];
        let resent = f.resent(now, e.rto_ns);
        let first = e.next_packet_id as int;
        let m = 0x1_0000_0000_0000_0000int;
        let segs = segments_taken(e.pending, f.qpn, flow_room(f)).1;
        let out = e.after_turn(id, now).1;
        assert forall|k: int| 0 <= k < segs.len() implies ((first + resent.len()) % m + k) % m
            == #[trigger] (first + (resent.len() + k)) % m by {
            vstd::arithmetic::div_mod::lemma_add_mod_noop(first + resent.len(), k, m);
            vstd::arithmetic::div_mod::lemma_add_mod_noop((first + resent.len()) % m, k, m);
            vstd::arithmetic::div_mod::lemma_mod_twice(first + resent.len(), m);
        }
        assert forall|k: int| 0 <= k < out.len() implies (#[trigger] out[k]).id == (first + k) % m by {
            if k >= resent.len() {
                let j = k - resent.len();
                assert((first + (resent.len() + j)) % m == (first + k) % m);
            }
        }
    }
}

proof fn lemma_turns(e: RdmaView, order: Seq<FlowId>, now: u64)
    requires
        forall|i: int| 0 <= i < order.len() ==> e.tx.contains_key(#[trigger] order[i]),
        forall|i: int, j: int| 0 <= i < j < order.len() ==> order[i] < order[j],
    ensures
        ({
            let (g, out) = e.after_turns(order, now);
            &&& g.tx.dom() == e.tx.dom()
            &&& forall|k: int| 0 <= k < out.len() ==> order.contains((#[trigger] out[k]).flow_id)
            &&& forall|k: int, l: int| 0 <= k <= l < out.len() ==> out[k].flow_id <= out[l].flow_id
            &&& forall|o: FlowId|
                e.tx.contains_key(o) && !order.contains(o) ==> #[trigger] g.tx[o] == e.tx[o]
            &&& g.next_packet_id == (e.next_packet_id + out.len()) % 0x1_0000_0000_0000_0000
        }),
    decreases order.len(),
{
    if order.len() > 0 {
        let less = order.drop_last();
        let id = order.last();
        assert forall|i: int| 0 <= i < less.len() implies e.tx.contains_key(#[trigger] less[i]) by {
            assert(e.tx.contains_key(order[i]));
        }
        lemma_turns(e, less, now);
        let (v, out) = e.after_turns(less, now);
        let (w, more) = v.after_turn(id, now);
        assert(e.tx.contains_key(order[order.len() - 1]));
        assert(v.tx.dom().contains(id));
        law_rdma_turn_sends_packets(v, id, now);
        let all = out + more;
        let m = 0x1_0000_0000_0000_0000int;
        vstd::arithmetic::div_mod::lemma_add_mod_noop(
            e.next_packet_id + out.len(),
            more.len() as int,
            m,
        );
        vstd::arithmetic::div_mod::lemma_add_mod_noop(
            (e.next_packet_id + out.len()) % m,
            more.len() as int,
            m,
        );
        vstd::arithmetic::div_mod::lemma_mod_twice(e.next_packet_id + out.len(), m);
        if v.tx[id].done {
            vstd::arithmetic::div_mod::lemma_small_mod(v.next_packet_id as nat, m as nat);
        }
        assert forall|k: int| 0 <= k < all.len() implies order.contains(
            (#[trigger] all[k]).flow_id,
        ) by {
            if k < out.len() {
                assert(all[k] == out[k]);
                let i = choose|i: int| 0 <= i < less.len() && less[i] == out[k].flow_id;
                assert(order[i] == out[k].flow_id);
            } else {
                assert(all[k] == more[k - out.len()]);
                assert(order[order.len() - 1] == id);
            }
        }
        assert forall|k: int, l: int| 0 <= k <= l < all.len() implies all[k].flow_id
            <= all[l].flow_id by {
            if k < out.len() && l >= out.len() {
                assert(all[l] == more[l - out.len()]);
                assert(less.contains(out[k].flow_id));
                let i = choose|i: int| 0 <= i < less.len() && less[i] == out[k].flow_id;
                assert(order[i] < order[order.len() - 1]);
            } else if k >= out.len() {
                assert(all[k] == more[k - out.len()]);
                assert(all[l] == more[l - out.len()]);
            }
        }
        assert forall|o: FlowId|
            e.tx.contains_key(o) && !order.contains(o) implies #[trigger] w.tx[o] == e.tx[o] by {
            assert(!less.contains(o)) by {
                if less.contains(o) {
                    let i = choose|i: int| 0 <= i < less.len() && less[i] == o;
                    assert(order[i] == o);
                }
            }
            assert(order[order.len() - 1] == id);
            assert(v.tx[o] == e.tx[o]);
        }
    } else {
        vstd::arithmetic::div_mod::lemma_small_mod(
            e.next_packet_id as nat,
            0x1_0000_0000_0000_0000,
        );
    }
}

/// On a tick the flows have their turns by rising number, and nothing but flows of this host sends. With
/// one flow a tick is the turn of that flow.
pub proof fn law_rdma_tick_takes_turns(
    pre: RdmaProtocol,
    post: RdmaProtocol,
    now: u64,
    out: Seq<PacketView>,
)
    requires
        pre.ticked(&post, now, out),
    ensures
        post@.tx.dom() == pre@.tx.dom(),
        forall|k: int| 0 <= k < out.len() ==> pre@.tx.contains_key((#[trigger] out[k]).flow_id),
        forall|k: int, l: int| 0 <= k <= l < out.len() ==> out[k].flow_id <= out[l].flow_id,
        post@.next_packet_id == (pre@.next_packet_id + out.len()) % 0x1_0000_0000_0000_0000,
        forall|id: FlowId|
            #![trigger pre@.tx.contains_key(id)]
            pre@.tx.contains_key(id) && (forall|o: FlowId|
                #![trigger pre@.tx.contains_key(o)]
                pre@.tx.contains_key(o) ==> o == id) ==> (post@, out) == pre@.after_turn(id, now),
{
    let e = pre@;
    law_listing_ascends(e.tx.dom());
    let order = ascending(e.tx.dom());
    assert forall|i: int| 0 <= i < order.len() implies e.tx.contains_key(#[trigger] order[i]) by {
        assert(order.contains(order[i]));
    }
    lemma_turns(e, order, now);
    assert forall|k: int| 0 <= k < out.len() implies pre@.tx.contains_key(
        (#[trigger] out[k]).flow_id,
    ) by {
        assert(order.contains(out[k].flow_id));
    }
    assert forall|id: FlowId|
        #![trigger pre@.tx.contains_key(id)]
        pre@.tx.contains_key(id) && (forall|o: FlowId|
            #![trigger pre@.tx.contains_key(o)]
            pre@.tx.contains_key(o) ==> o == id) implies (post@, out) == pre@.after_turn(id, now) by {
        assert(order.contains(id));
        if order.len() > 1 {
            assert(e.tx.contains_key(order[0]) && e.tx.contains_key(order[1]));
            assert(order[0] < order[1]);
        }
        assert(order =~= seq![id]);
        assert(order.drop_last() =~= Seq::empty());
        reveal_with_fuel(RdmaView::after_turns, 3);
        assert(Seq::<PacketView>::empty() + e.after_turn(id, now).1 =~= e.after_turn(id, now).1);
    }
}

/// `q` is the control packet of the type `control_type` with which a host answers `pkt` at `now`; it carries
/// the mark of the packet.
pub open spec fn answers(
    q: PacketView,
    pkt: PacketView,
    control_type: u8,
    id: u64,
    host: EntityId,
    now: u64,
) -> bool {
    &&& super::endpoint_laws::answers_packet(q, pkt, control_type, id, host, now)
    &&& q.ecn == pkt.ecn
    &&& q.payload.len() == 0
}

/// A data packet is acknowledged: with what the flow has had acknowledged itself if the host sends it, or
/// else with the number behind the packet. The last packet of a message that is sent to a queue pair
/// without an unused buffer is answered by a second packet too, which names it.
pub proof fn law_rdma_answers_data(
    pre: RdmaProtocol,
    post: RdmaProtocol,
    pkt: PacketView,
    now: u64,
    out: Seq<PacketView>,
)
    requires
        pre.took_data(&post, pkt, now, out),
    ensures
        ({
            let (e, g) = (pre@, post@);
            let refused = pkt.qpn > 0 && pkt.msg_flags % 4 == 3 && pkt.rdma_opcode == 0
                && e.qps.contains_key(pkt.qpn) && forall|i: int|
                0 <= i < e.qps[pkt.qpn].recv_queue.len() ==> (
                #[trigger] e.qps[pkt.qpn].recv_queue[i]).doorbell_rung;
            let second = ((e.next_packet_id + 1) % 0x1_0000_0000_0000_0000) as u64;
            &&& out.len() == if refused {
                2int
            } else {
                1
            }
            &&& answers(out[0], pkt, 0, e.next_packet_id, e.host_id, now)
            &&& e.tx.contains_key(pkt.flow_id) ==> out[0].seq == e.tx[pkt.flow_id].un_acked_base
            &&& !e.tx.contains_key(pkt.flow_id) && pkt.seq < u32::MAX ==> out[0].seq == pkt.seq + 1
            &&& refused ==> answers(out[1], pkt, 1, second, e.host_id, now) && out[1].seq == pkt.seq
            &&& g.next_packet_id == (e.next_packet_id + out.len()) % 0x1_0000_0000_0000_0000
            &&& g.tx == e.tx && g.pending == e.pending && g.finished_flows == e.finished_flows
                && g.host_id == e.host_id
            &&& pkt.qpn == 0 ==> g.rx == e.rx && g.finished_messages == e.finished_messages && g.qps
                == e.qps
            &&& e.stats.packets_received + 2 <= u64::MAX ==> g.stats.packets_received
                == e.stats.packets_received + if pkt.qpn > 0 {
                2int
            } else {
                1
            }
            &&& g.stats.packets_sent == e.stats.packets_sent && g.stats.flows_completed
                == e.stats.flows_completed
        }),
{
    vstd::arithmetic::div_mod::lemma_small_mod(
        pre@.next_packet_id as nat,
        0x1_0000_0000_0000_0000,
    );
}

/// The packet of a message that arrives on a queue pair. The only packet, and the last, complete a message,
/// which is reported with its time and counted, unless a buffer was needed and none is unused; this is
/// counted too. The first begins a message anew, and one between adds its payload to it; the last takes
/// the message away.
pub proof fn law_rdma_message_is_gathered(
    pre: RdmaProtocol,
    post: RdmaProtocol,
    pkt: PacketView,
    now: u64,
    out: Seq<PacketView>,
)
    requires
        pre.took_data(&post, pkt, now, out),
        pkt.qpn > 0,
    ensures
        ({
            let (e, g) = (pre@, post@);
            let q = pkt.qpn;
            let place = pkt.msg_flags % 4;
            let none = forall|i: int|
                0 <= i < e.qps[q].recv_queue.len() ==> (
                #[trigger] e.qps[q].recv_queue[i]).doorbell_rung;
            let refused = place == 3 && pkt.rdma_opcode == 0 && e.qps.contains_key(q) && none;
            let whole = place == 0 || (place == 3 && !refused);
            let (r, s) = (e.rx[q], g.rx[q]);
            &&& whole ==> {
                &&& g.finished_messages == e.finished_messages.push((e.next_msg_id, q, now))
                &&& g.next_msg_id == (e.next_msg_id + 1) % 0x1_0000_0000_0000_0000
                &&& e.stats.messages_completed < u64::MAX ==> g.stats.messages_completed
                    == e.stats.messages_completed + 1
            }
            &&& !whole ==> g.finished_messages == e.finished_messages && g.next_msg_id
                == e.next_msg_id && g.stats.messages_completed == e.stats.messages_completed
            &&& refused ==> {
                &&& e.stats.rnr_naks_sent < u64::MAX ==> g.stats.rnr_naks_sent
                    == e.stats.rnr_naks_sent + 1
                &&& e.qps[q].rnr_naks_sent < u64::MAX ==> g.qps[q].rnr_naks_sent
                    == e.qps[q].rnr_naks_sent + 1
                &&& g.qps[q] == (QpView { rnr_naks_sent: g.qps[q].rnr_naks_sent, ..e.qps[q] })
                &&& g.qps.dom() =~= e.qps.dom()
            }
            &&& !refused ==> g.qps == e.qps && g.stats.rnr_naks_sent == e.stats.rnr_naks_sent
            &&& place == 1 ==> {
                &&& g.rx.contains_key(q)
                &&& s.first_psn == Some(pkt.psn)
                &&& forall|p: Psn| #[trigger] s.packets.contains_key(p) <==> p == pkt.psn
                &&& s.packets[pkt.psn] == pkt.payload
                &&& s.received_count == 1
                &&& s.total_bytes == pkt.size
            }
            &&& place == 2 && e.rx.contains_key(q) ==> {
                &&& g.rx.contains_key(q)
                &&& s.first_psn == r.first_psn
                &&& s.packets.contains_key(pkt.psn) && s.packets[pkt.psn] == pkt.payload
                &&& forall|p: Psn|
                    p != pkt.psn ==> (#[trigger] s.packets.contains_key(p)
                        <==> r.packets.contains_key(p))
                &&& forall|p: Psn|
                    p != pkt.psn && r.packets.contains_key(p) ==> #[trigger] s.packets[p]
                        == r.packets[p]
                &&& r.received_count < u32::MAX ==> s.received_count == r.received_count + 1
                &&& r.total_bytes + pkt.size <= u64::MAX ==> s.total_bytes == r.total_bytes
                    + pkt.size
            }
            &&& place == 3 ==> !g.rx.contains_key(q)
            &&& forall|o: Qpn|
                o != q ==> (#[trigger] g.rx.contains_key(o) <==> e.rx.contains_key(o))
            &&& forall|o: Qpn| o != q && e.rx.contains_key(o) ==> #[trigger] g.rx[o] == e.rx[o]
        }),
{
}

/// A new queue pair is ready to send to its remote host, has the next number, and is empty; the number after
/// the largest is one.
pub proof fn law_rdma_new_queue_pair(e: RdmaView, remote: EntityId, now: u64)
    ensures
        ({
            let g = e.with_qp(remote, now);
            let q = g.qps[e.next_qpn];
            &&& g.qps.contains_key(e.next_qpn)
            &&& q.qpn == e.next_qpn && q.remote_qpn == e.next_qpn && q.remote_id == remote
            &&& q.state is Rts
            &&& q.next_psn == 0 && q.e_psn == 0 && q.created_ns == now
            &&& q.send_queue.len() == 0 && q.recv_queue.len() == 0
            &&& q.rnr_naks_sent == 0 && q.rnr_naks_received == 0 && q.retransmissions == 0
            &&& g.next_qpn == if e.next_qpn < u32::MAX {
                e.next_qpn + 1
            } else {
                1
            }
            &&& forall|o: Qpn|
                o != e.next_qpn ==> (#[trigger] g.qps.contains_key(o) <==> e.qps.contains_key(o))
            &&& forall|o: Qpn|
                o != e.next_qpn && e.qps.contains_key(o) ==> #[trigger] g.qps[o] == e.qps[o]
            &&& g == (RdmaView { qps: g.qps, next_qpn: g.next_qpn, ..e })
        }),
{
}

/// A message that is posted on a queue pair comes behind those that are posted, with the next number and as
/// many packets as its bytes need, of which none has been sent. Its packets bear the next numbers of the
/// queue pair; a message without bytes uses up one of these. On an unknown queue pair nothing is posted.
pub proof fn law_rdma_message_is_posted(
    e: RdmaView,
    qpn: Qpn,
    bytes: u64,
    opcode: RdmaOpcode,
    now: u64,
)
    ensures
        ({
            let g = e.posted(qpn, bytes, opcode, now);
            let m = g.pending.last();
            let qp = e.qps[qpn];
            &&& g.next_msg_id == (e.next_msg_id + 1) % 0x1_0000_0000_0000_0000
            &&& !e.qps.contains_key(qpn) ==> g.pending == e.pending && g.qps == e.qps
            &&& e.qps.contains_key(qpn) ==> {
                &&& g.pending.len() == e.pending.len() + 1
                &&& g.pending.drop_last() =~= e.pending
                &&& m.msg_id == e.next_msg_id && m.qpn == qpn && m.dst == qp.remote_id && m.opcode
                    == opcode && m.total_bytes == bytes && m.posted_ns == now
                &&& just_holds(m.total_packets, bytes)
                &&& m.next_packet_idx == 0
                &&& m.base_psn == qp.next_psn
                &&& g.qps[qpn].next_psn == (qp.next_psn + if m.total_packets == 0 {
                    1
                } else {
                    m.total_packets as int
                }) % 0x100_0000
                &&& g.qps[qpn] == (QpView { next_psn: g.qps[qpn].next_psn, ..qp })
                &&& g.qps.dom() =~= e.qps.dom()
                &&& forall|o: Qpn|
                    o != qpn && e.qps.contains_key(o) ==> #[trigger] g.qps[o] == e.qps[o]
            }
            &&& g == (RdmaView {
                qps: g.qps,
                pending: g.pending,
                next_msg_id: g.next_msg_id,
                ..e
            })
        }),
{
}

/// A buffer that is posted on a queue pair comes behind the others and is unused, so the queue pair can take
/// a message.
pub proof fn law_rdma_buffer_is_posted(e: RdmaView, qpn: Qpn, bytes: u64, now: u64)
    ensures
        ({
            let g = e.buffer_posted(qpn, bytes, now);
            let (p, q) = (e.qps[qpn], g.qps[qpn]);
            &&& !e.qps.contains_key(qpn) ==> g == e
            &&& e.qps.contains_key(qpn) ==> {
                &&& q.recv_queue.len() == p.recv_queue.len() + 1
                &&& q.recv_queue.drop_last() =~= p.recv_queue
                &&& q.recv_queue.last() == (Wqe {
                    qpn,
                    opcode: RdmaOpcode::Send,
                    remote_id: p.remote_id,
                    remote_addr: 0,
                    local_addr: 0,
                    length: bytes,
                    posted_ns: now,
                    doorbell_rung: false,
                })
                &&& q.can_take_message()
                &&& q == (QpView { recv_queue: q.recv_queue, ..p })
                &&& g == (RdmaView { qps: g.qps, ..e })
                &&& forall|o: Qpn|
                    o != qpn && e.qps.contains_key(o) ==> #[trigger] g.qps[o] == e.qps[o]
            }
        }),
{
    if e.qps.contains_key(qpn) {
        let q = e.buffer_posted(qpn, bytes, now).qps[qpn];
        assert(!q.recv_queue[q.recv_queue.len() - 1].doorbell_rung);
    }
}

/// A queue pair can take a message if and only if one of its buffers is unused.
pub proof fn law_rdma_unused_buffer(q: QpView)
    ensures
        !q.can_take_message() <==> forall|i: int|
            0 <= i < q.recv_queue.len() ==> (#[trigger] q.recv_queue[i]).doorbell_rung,
{
}

/// A flow begins on a queue pair of its own, with one message of its bytes, with nothing sent, and with a
/// window of 16 and a threshold of 64 packets. No other flow is touched.
pub proof fn law_rdma_flow_starts(
    pre: RdmaProtocol,
    post: RdmaProtocol,
    id: FlowId,
    dst: EntityId,
    bytes: u64,
    now: u64,
)
    requires
        pre.started(&post, id, dst, bytes, now),
    ensures
        ({
            let (e, g) = (pre@, post@);
            let h = g.tx[id];
            let m = g.pending.last();
            &&& g.tx.contains_key(id)
            &&& h.flow_id == id && h.dst == dst && h.start_time == now && h.qpn == e.next_qpn
            &&& h.cwnd == 16 && h.ssthresh == 64 && h.in_flight == 0 && h.next_seq == 0
                && h.un_acked_base == 0 && h.dup_ack_count == 0 && !h.done && h.finish_time == 0
            &&& h.send_times == Map::<SeqNum, u64>::empty()
            &&& h.retransmit_queue.len() == 0 && h.sent_segments.len() == 0
            &&& g.qps.contains_key(e.next_qpn) && g.qps[e.next_qpn].remote_id == dst
                && g.qps[e.next_qpn].state is Rts
            &&& g.pending.len() == e.pending.len() + 1
            &&& g.pending.drop_last() =~= e.pending
            &&& m.qpn == e.next_qpn && m.dst == dst && m.opcode == RdmaOpcode::Send && m.total_bytes
                == bytes && m.next_packet_idx == 0 && m.base_psn == 0 && just_holds(
                m.total_packets,
                bytes,
            )
            &&& forall|o: FlowId|
                o != id ==> (#[trigger] g.tx.contains_key(o) <==> e.tx.contains_key(o))
            &&& forall|o: FlowId| o != id && e.tx.contains_key(o) ==> #[trigger] g.tx[o] == e.tx[o]
            &&& g.rx == e.rx && g.stats == e.stats && g.finished_flows == e.finished_flows
                && g.finished_messages == e.finished_messages
        }),
{
}

/// The next timeout is that of the packet in flight, of a flow that is not complete, that was sent first;
/// there is none without such a packet. The sender is not paced, and when a packet has really left the
/// NIC does not matter to it.
pub proof fn law_rdma_first_timeout(
    t: RdmaProtocol,
    after: RdmaProtocol,
    at: Option<u64>,
    tx_at: Option<u64>,
    id: FlowId,
    seq: SeqNum,
    left: u64,
)
    requires
        t.times_out(at),
        t.paced_until(tx_at),
        t.noted_departure(&after, id, seq, left),
    ensures
        ({
            let e = t@;
            &&& forall|id: FlowId, s: SeqNum|
                e.tx.contains_key(id) && !e.tx[id].done && (
                #[trigger] e.tx[id].send_times.contains_key(s)) ==> at is Some && (at->0
                    <= e.tx[id].send_times[s] + e.rto_ns)
            &&& at is Some && at->0 < u64::MAX ==> exists|id: FlowId, s: SeqNum|
                e.tx.contains_key(id) && !e.tx[id].done && (
                #[trigger] e.tx[id].send_times.contains_key(s)) && at->0
                    == e.tx[id].send_times[s] + e.rto_ns
            &&& at is Some ==> exists|id: FlowId, s: SeqNum|
                e.tx.contains_key(id) && !e.tx[id].done && (
                #[trigger] e.tx[id].send_times.contains_key(s))
            &&& tx_at is None
            &&& after == t
        }),
{
    let e = t@;
    assert forall|id: FlowId, s: SeqNum|
        e.tx.contains_key(id) && !e.tx[id].done && (
        #[trigger] e.tx[id].send_times.contains_key(s)) implies at is Some && (at->0
        <= e.tx[id].send_times[s] + e.rto_ns) by {
        assert(e.times_out_at(id, s, e.tx[id].send_times[s].saturating_add(e.rto_ns)));
    }
    if at is Some {
        let (id, s) = choose|id: FlowId, s: SeqNum| #[trigger] e.times_out_at(id, s, at->0);
        assert(e.times_out_at(id, s, at->0));
        assert(e.tx[id].send_times.contains_key(s));
    }
}

/// There is something to send if a flow that is not complete has packets to send again, or has room in its
/// window and packets of messages left. All is done if there are flows, each of them is complete, and
/// every message has been sent. What has completed is handed out once.
pub proof fn law_rdma_work_and_end(
    t: RdmaProtocol,
    after: RdmaProtocol,
    out: Seq<(FlowId, u64)>,
)
    requires
        t.finishes(&after, out),
    ensures
        t.has_work() <==> exists|id: FlowId| #[trigger]
            t@.tx.contains_key(id) && !t@.tx[id].done && (t@.tx[id].retransmit_queue.len() > 0 || (
            t@.tx[id].in_flight < t@.tx[id].cwnd && has_open_message(t@.pending, t@.tx[id].qpn))),
        t.is_done() <==> (exists|id: FlowId| #[trigger] t@.tx.contains_key(id)) && (forall|id: FlowId|
            #[trigger] t@.tx.contains_key(id) ==> t@.tx[id].done) && (forall|i: int|
            0 <= i < t@.pending.len() ==> (#[trigger] t@.pending[i]).next_packet_idx
                >= t@.pending[i].total_packets),
        out == t@.finished_flows,
        after@.finished_flows.len() == 0,
        after@ == (RdmaView { finished_flows: after@.finished_flows, ..t@ }),
        t.counters() == t@.stats,
{
    let e = t@;
    assert forall|id: FlowId| #[trigger] e.tx.contains_key(id) implies e.flow_has_work(id) == (
    !e.tx[id].done && (e.tx[id].retransmit_queue.len() > 0 || (e.tx[id].in_flight < e.tx[id].cwnd
        && has_open_message(e.pending, e.tx[id].qpn)))) by {
        lemma_open(e.pending, e.tx[id].qpn);
    }
    if exists|id: FlowId| #[trigger] e.tx.contains_key(id) {
        let id = choose|id: FlowId| #[trigger] e.tx.contains_key(id);
        assert(e.tx.dom().contains(id));
    } else {
        assert(e.tx.dom() =~= Set::empty());
    }
    if !e.tx.dom().is_empty() {
        assert(exists|id: FlowId| e.tx.dom().contains(id)) by {
            if forall|id: FlowId| !e.tx.dom().contains(id) {
                assert(e.tx.dom() =~= Set::empty());
            }
        }
    }
}

/// A host begins without queue pairs, flows and messages; the first queue pair and packet have the number
/// one and the first message zero, the window is 16 packets, from 1 up to 256, and the timeout 100
/// microseconds.
pub proof fn law_rdma_begins(host: EntityId)
    ensures
        ({
            let e = super::rdma_protocol::fresh_host(host);
            &&& e.host_id == host
            &&& e.qps == Map::<Qpn, QpView>::empty() && e.tx == Map::<FlowId, TxView>::empty()
            &&& e.pending.len() == 0
            &&& e.next_packet_id == 1 && e.next_qpn == 1 && e.next_msg_id == 0
            &&& e.init_cwnd == 16 && e.max_cwnd == 256 && e.min_cwnd == 1 && e.rto_ns == 100_000
            &&& e.finished_flows.len() == 0 && e.finished_messages.len() == 0
        }),
{
}

} // verus!
