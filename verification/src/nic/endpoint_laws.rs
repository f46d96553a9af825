//! What holds of a window-based transport as a whole.
use super::protocol::ProtocolStats;
use crate::network::packet::{FlowId, PacketKind, SeqNum};
use crate::EntityId;
use vstd::prelude::*;

verus! {

use super::endpoint::EndpointView;
use super::receiver::RxView;
use crate::network::packet::PacketView;

/// Flow `id` is all that differs between two states of a transport, apart from what is counted and
/// reported of completed flows.
pub open spec fn changes_one_flow<T>(e: EndpointView<T>, g: EndpointView<T>, id: FlowId) -> bool {
    &&& g.tx.dom() =~= e.tx.dom()
    &&& forall|o: FlowId| e.tx.contains_key(o) && o != id ==> #[trigger] g.tx[o] == e.tx[o]
    &&& g.host_id == e.host_id
    &&& g.rx == e.rx
    &&& g.next_packet_id == e.next_packet_id
    &&& g.init_cwnd == e.init_cwnd
    &&& g.max_cwnd == e.max_cwnd
    &&& g.min_cwnd == e.min_cwnd
    &&& g.rto_ns == e.rto_ns
    &&& g.stats == (ProtocolStats { flows_completed: g.stats.flows_completed, ..e.stats })
}

/// Whether the completion of the flow that calls itself `name` is reported and counted is told by
/// `completes`.
pub open spec fn reports_completion<T>(
    e: EndpointView<T>,
    g: EndpointView<T>,
    name: FlowId,
    now: u64,
    completes: bool,
) -> bool {
    &&& completes ==> g.finished == e.finished.push((name, now))
    &&& completes && e.stats.flows_completed < u64::MAX ==> g.stats.flows_completed
        == e.stats.flows_completed + 1
    &&& !completes ==> g.finished == e.finished && g.stats.flows_completed
        == e.stats.flows_completed
}

/// Of the packets in flight those from `base` up to `seq` are forgotten, and no others.
pub open spec fn forgets(
    sent: Map<SeqNum, u64>,
    after: Map<SeqNum, u64>,
    base: SeqNum,
    seq: SeqNum,
) -> bool {
    &&& forall|s: SeqNum| #[trigger]
        after.contains_key(s) <==> sent.contains_key(s) && !(base <= s < seq)
    &&& forall|s: SeqNum| #[trigger] after.contains_key(s) ==> after[s] == sent[s]
}

/// `q` is the control packet of the type `control_type` with which `host` answers `pkt` at `now`.
pub open spec fn answers_packet(
    q: PacketView,
    pkt: PacketView,
    control_type: u8,
    id: u64,
    host: EntityId,
    now: u64,
) -> bool {
    &&& q.kind == PacketKind::Control(control_type)
    &&& q.id == id
    &&& q.trace_id == id
    &&& q.flow_id == pkt.flow_id
    &&& q.src == host
    &&& q.dst == pkt.src
    &&& q.size == 64
    &&& q.routing_tag == 0
    &&& q.depart_time == now
    &&& q.qpn == 0 && q.psn == 0 && q.msg_flags == 0 && q.rdma_opcode == 0
}

/// The packet `seq` takes a receiving flow from `r` to `g`: the next in order is delivered together
/// with the run of early ones behind it, one that comes early is kept, and an old one changes nothing.
pub open spec fn takes_in(r: RxView, g: RxView, seq: SeqNum) -> bool {
    &&& g.flow_id == r.flow_id
    &&& seq < r.next_expected ==> g == r
    &&& seq > r.next_expected ==> {
        &&& g.next_expected == r.next_expected
        &&& forall|s: SeqNum| #[trigger]
            g.out_of_order.contains(s) <==> r.out_of_order.contains(s) || s == seq
    }
    &&& seq == r.next_expected && seq < u32::MAX ==> {
        &&& g.next_expected > seq
        &&& forall|s: SeqNum| seq < s < g.next_expected ==> r.out_of_order.contains(s)
        &&& g.next_expected < u32::MAX ==> !r.out_of_order.contains(g.next_expected)
        &&& forall|s: SeqNum| #[trigger]
            g.out_of_order.contains(s) <==> r.out_of_order.contains(s) && !(seq < s
                < g.next_expected)
    }
}

/// What a receiving flow makes of a packet is delivery in order.
pub proof fn law_receiver_delivers_in_order(r: RxView, seq: SeqNum)
    ensures
        takes_in(r, r.after(seq), seq),
{
    if seq == r.next_expected && seq < u32::MAX {
        super::receiver::lemma_run(r.out_of_order, (seq + 1) as u32);
    }
}

/// `out` is what a transport in the state `e` answers the data packet `pkt` with at `now`, and `g` is
/// its state afterwards: one acknowledgement of everything that has arrived without a gap, with the
/// congestion mark of the packet.
pub open spec fn acknowledges_data<T>(
    e: EndpointView<T>,
    g: EndpointView<T>,
    pkt: PacketView,
    now: u64,
    out: Seq<PacketView>,
) -> bool {
    let id = pkt.flow_id;
    &&& out.len() == 1
    &&& answers_packet(out[0], pkt, 0, e.next_packet_id, e.host_id, now)
    &&& out[0].ecn == pkt.ecn
    &&& out[0].payload.len() == 0
    &&& g.rx.contains_key(id)
    &&& out[0].seq == g.rx[id].next_expected
    &&& takes_in(
        if e.rx.contains_key(id) {
            e.rx[id]
        } else {
            (RxView { flow_id: id, next_expected: 0, out_of_order: Set::empty() })
        },
        g.rx[id],
        pkt.seq,
    )
    &&& forall|o: FlowId| o != id ==> (#[trigger] g.rx.contains_key(o) <==> e.rx.contains_key(o))
    &&& forall|o: FlowId| o != id && e.rx.contains_key(o) ==> #[trigger] g.rx[o] == e.rx[o]
    &&& g.next_packet_id == (e.next_packet_id + 1) % 0x1_0000_0000_0000_0000
    &&& e.stats.packets_received < u64::MAX ==> g.stats.packets_received == e.stats.packets_received
        + 1
    &&& g.stats == (ProtocolStats { packets_received: g.stats.packets_received, ..e.stats })
    &&& g.tx == e.tx
    &&& g.finished == e.finished
    &&& g.host_id == e.host_id
    &&& g.init_cwnd == e.init_cwnd && g.max_cwnd == e.max_cwnd && g.min_cwnd == e.min_cwnd
    &&& g.rto_ns == e.rto_ns
}

/// A data packet is acknowledged as `acknowledges_data` says.
pub proof fn law_data_is_acknowledged<T>(e: EndpointView<T>, pkt: PacketView, now: u64)
    ensures
        acknowledges_data(e, e.received(pkt, now).0, pkt, now, e.received(pkt, now).1),
{
    law_receiver_delivers_in_order(super::receiver::rx_of(e.rx, pkt.flow_id), pkt.seq);
}

/// `n` packets hold `bytes` bytes, 1024 in each but the last, unless they are too many to be counted.
pub open spec fn just_holds(n: u32, bytes: u64) -> bool {
    &&& bytes <= 1024 * 0xffff_ffff ==> n * 1024 >= bytes && (n > 0 ==> (n - 1) * 1024 < bytes)
    &&& n as int == ((bytes + 1023) / 1024) % 0x1_0000_0000
}

/// A transport begins without flows, with a window of 16 packets, from 1 up to 256, and a timeout of 100
/// microseconds; its packets are numbered from one on.
pub proof fn law_transport_begins<T>(host: EntityId)
    ensures
        ({
            let e = super::endpoint::fresh_endpoint::<T>(host);
            &&& e.host_id == host
            &&& e.tx == Map::<FlowId, T>::empty() && e.rx == Map::<FlowId, RxView>::empty()
            &&& e.init_cwnd == 16 && e.max_cwnd == 256 && e.min_cwnd == 1
            &&& e.rto_ns == 100_000
            &&& e.next_packet_id == 1
            &&& e.finished.len() == 0
            &&& e.stats == (ProtocolStats {
                packets_sent: 0,
                packets_retransmitted: 0,
                packets_received: 0,
                ecn_ack_received: 0,
                nack_received: 0,
                nacks_sent: 0,
                flows_completed: 0,
                messages_completed: 0,
                rnr_naks_sent: 0,
                rnr_naks_received: 0,
            })
        }),
{
}

} // verus!
