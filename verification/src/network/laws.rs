//! What holds of the network elements.
use super::drop::{DropEvent, DropReason};
use super::packet::{FlowId, Packet, PacketId, PacketKind, SeqNum};
use super::switch::PortId;
use crate::EntityId;
use vstd::prelude::*;

verus! {

use super::drop::DropView;
use super::link::wire_time;
use super::packet::{control_packet, data_packet, rdma_packet};
use super::switch::{
    fresh_port, next_priority, queued_bytes, route_added, PortView, QueueView, SwitchView,
};

/// The port at which a packet that is routed to `ports` is queued: the one at the position below its
/// tag, if its tag reaches that far and is not zero, or else at the remainder of the hash.
pub open spec fn output_port(ports: Seq<PortId>, tag: u8, hash: u32) -> int {
    if tag > 0 && tag <= ports.len() {
        ports[tag - 1] as int
    } else {
        ports[hash as int % ports.len() as int] as int
    }
}

proof fn lemma_position(n: int, hash: u32)
    requires
        n > 0,
    ensures
        0 <= hash as int % n < n,
{
    assert(0 <= hash as int % n < n) by (nonlinear_arith)
        requires
            n > 0,
            hash >= 0,
    ;
}

/// A packet is dropped if and only if no port leads to its destination, or it would not fit into the
/// buffer of the port that it is to take. A drop is counted and changes nothing else, and the answer
/// names the port if there is one.
pub proof fn law_ingress_drops(sw: SwitchView, pkt: Packet, hash: u32)
    ensures
        ({
            let (after, (port, dropped)) = sw.after_ingress(pkt, hash);
            let routed = sw.routes.contains_key(pkt.dst) && sw.routes[pkt.dst].len() > 0;
            let out = output_port(sw.routes[pkt.dst], pkt.routing_tag, hash);
            &&& dropped <==> !routed || sw.ports[out].queue_bytes + pkt.size > sw.buffer_max_bytes
            &&& !routed ==> port is None
            &&& routed ==> port is Some && port->0 == out
            &&& dropped ==> after == (SwitchView { drops: after.drops, ..sw })
            &&& dropped && sw.drops < u64::MAX ==> after.drops == sw.drops + 1
            &&& !dropped ==> after.drops == sw.drops
        }),
{
}

/// A packet that is not dropped is queued behind those of its priority, high from tag 128 on and low
/// below. What is queued equals what came in, except that it is marked if it was marked before or if
/// the port holds more bytes with it than the marking threshold, which is counted.
pub proof fn law_ingress_queues_and_marks(sw: SwitchView, pkt: Packet, hash: u32)
    requires
        sw.wf(),
        !sw.after_ingress(pkt, hash).1.1,
    ensures
        ({
            let after = sw.after_ingress(pkt, hash).0;
            let out = output_port(sw.routes[pkt.dst], pkt.routing_tag, hash);
            let pri = if pkt.routing_tag >= 128 {
                0int
            } else {
                1
            };
            let (p, q) = (sw.ports[out], after.ports[out]);
            let over = p.queue_bytes + pkt.size > sw.ecn_threshold_bytes;
            &&& 0 <= out < sw.ports.len()
            &&& q.queues[pri].packets == p.queues[pri].packets.push(
                Packet { ecn: pkt.ecn || over, ..pkt },
            )
            &&& q.queues[1 - pri] == p.queues[1 - pri]
            &&& sw.ecn_marks < u64::MAX ==> after.ecn_marks == sw.ecn_marks + if over {
                1int
            } else {
                0
            }
        }),
{
    let ports = sw.routes[pkt.dst];
    lemma_position(ports.len() as int, hash);
    let out = output_port(ports, pkt.routing_tag, hash);
    assert(out < sw.ports.len());
    assert(sw.ports[out].wf());
}

/// A packet that is queued adds its size to what its port and its queue hold, and raises the largest
/// depth that has been seen if the port holds more than ever. Flow control pauses the queue, and counts
/// that, if it holds more than its threshold, has one, and is not paused yet. No other port changes, and
/// neither do the settings of the switch.
pub proof fn law_ingress_accounts(sw: SwitchView, pkt: Packet, hash: u32)
    requires
        sw.wf(),
        !sw.after_ingress(pkt, hash).1.1,
    ensures
        ({
            let after = sw.after_ingress(pkt, hash).0;
            let out = output_port(sw.routes[pkt.dst], pkt.routing_tag, hash);
            let pri = if pkt.routing_tag >= 128 {
                0int
            } else {
                1
            };
            let (p, q) = (sw.ports[out], after.ports[out]);
            let (x, y) = (p.queues[pri], q.queues[pri]);
            let pause = x.pfc_threshold_bytes > 0 && y.queue_bytes > x.pfc_threshold_bytes
                && !x.paused;
            &&& q.queue_bytes == p.queue_bytes + pkt.size
            &&& x.queue_bytes + pkt.size <= u32::MAX ==> y.queue_bytes == x.queue_bytes + pkt.size
            &&& y.pfc_threshold_bytes == x.pfc_threshold_bytes
            &&& q.max_queue_depth_seen == if q.queue_bytes > p.max_queue_depth_seen {
                q.queue_bytes
            } else {
                p.max_queue_depth_seen
            }
            &&& y.paused == (x.paused || pause)
            &&& sw.pfc_pause_sent < u64::MAX ==> after.pfc_pause_sent == sw.pfc_pause_sent + if pause {
                1int
            } else {
                0
            }
            &&& after.pfc_resume_sent == sw.pfc_resume_sent
            &&& q.id == p.id && q.link_id == p.link_id && q.busy_until == p.busy_until
                && q.egress_pending == p.egress_pending && q.queues.len() == p.queues.len()
            &&& after.ports.len() == sw.ports.len()
            &&& forall|i: int|
                0 <= i < sw.ports.len() && i != out ==> #[trigger] after.ports[i] == sw.ports[i]
            &&& after.id == sw.id && after.routes == sw.routes && after.ecn_threshold_bytes
                == sw.ecn_threshold_bytes && after.buffer_max_bytes == sw.buffer_max_bytes
        }),
{
    let ports = sw.routes[pkt.dst];
    lemma_position(ports.len() as int, hash);
    let out = output_port(ports, pkt.routing_tag, hash);
    assert(out < sw.ports.len());
    assert(sw.ports[out].wf());
}

/// A port that is served gives out the first packet of the high priority unless that is empty or
/// paused, and then of the low priority unless that is empty or paused. The packet is out of its
/// queue, and its size out of the counts. Nothing else changes.
pub proof fn law_dequeue_serves_by_priority(sw: SwitchView, at: int)
    requires
        sw.wf(),
        0 <= at < sw.ports.len(),
    ensures
        ({
            let (after, taken) = sw.after_dequeue(at);
            let (p, q) = (sw.ports[at], after.ports[at]);
            let high = p.queues[0].packets.len() > 0 && !p.queues[0].paused;
            let low = p.queues[1].packets.len() > 0 && !p.queues[1].paused;
            let pri = if high {
                0int
            } else {
                1
            };
            &&& !high && !low ==> taken is None && after == sw
            &&& high || low ==> {
                let first = p.queues[pri].packets[0];
                &&& taken == Some(first)
                &&& seq![first] + q.queues[pri].packets =~= p.queues[pri].packets
                &&& q.queues[1 - pri] == p.queues[1 - pri]
                &&& first.size <= p.queue_bytes ==> q.queue_bytes == p.queue_bytes - first.size
                &&& first.size <= p.queues[pri].queue_bytes ==> q.queues[pri].queue_bytes
                    == p.queues[pri].queue_bytes - first.size
                &&& !q.queues[pri].paused
                &&& q.queues[pri].pfc_threshold_bytes == p.queues[pri].pfc_threshold_bytes
                &&& q.queues.len() == p.queues.len()
                &&& q.id == p.id && q.link_id == p.link_id && q.busy_until == p.busy_until
                    && q.egress_pending == p.egress_pending && q.max_queue_depth_seen
                    == p.max_queue_depth_seen
                &&& after.ports.len() == sw.ports.len()
                &&& forall|i: int|
                    0 <= i < sw.ports.len() && i != at ==> #[trigger] after.ports[i] == sw.ports[i]
                &&& after == (SwitchView { ports: after.ports, ..sw })
            }
        }),
{
    reveal_with_fuel(next_priority, 3);
    assert(sw.ports[at].wf());
}

/// Without regard to flow control, the high priority is served before the low one.
pub proof fn law_next_priority(p: PortView)
    requires
        p.wf(),
    ensures
        ({
            let next = next_priority(p.queues, 0, false);
            &&& p.queues[0].packets.len() > 0 ==> next == Some(0int)
            &&& p.queues[0].packets.len() == 0 && p.queues[1].packets.len() > 0 ==> next == Some(1int)
            &&& p.queues[0].packets.len() == 0 && p.queues[1].packets.len() == 0 ==> next is None
        }),
{
    reveal_with_fuel(next_priority, 3);
}

/// Flow control pauses a queue that exceeds its threshold, and releases it once it has fallen below:
/// no queue is due for both, a queue without a threshold is due for neither, and between the two
/// nothing is due.
pub proof fn law_flow_control_is_due(q: QueueView)
    ensures
        q.pause_due() <==> !q.paused && q.pfc_threshold_bytes > 0 && q.queue_bytes
            > q.pfc_threshold_bytes,
        q.resume_due() <==> q.paused && q.queue_bytes < q.pfc_threshold_bytes,
        !(q.pause_due() && q.resume_due()),
        q.queue_bytes == q.pfc_threshold_bytes ==> !q.pause_due() && !q.resume_due(),
{
}

/// A packet that is put into a port's queue can be taken out again behind all that was in it, and a
/// pause changes nothing but the flag.
pub proof fn law_queue_operations(p: PortView, pri: int, pkt: Packet, paused: bool)
    requires
        p.wf(),
        0 <= pri < 2,
    ensures
        ({
            let x = p.queues[pri];
            let y = x.enqueued(pkt);
            &&& y.packets.len() == x.packets.len() + 1
            &&& y.packets.last() == pkt
            &&& y.packets.drop_last() =~= x.packets
            &&& x.queue_bytes + pkt.size <= u32::MAX ==> y.queue_bytes == x.queue_bytes + pkt.size
            &&& y.paused == x.paused && y.pfc_threshold_bytes == x.pfc_threshold_bytes
        }),
        ({
            let q = p.with_pause(pri, paused);
            &&& q.queues[pri] == (QueueView { paused, ..p.queues[pri] })
            &&& q.queues[1 - pri] == p.queues[1 - pri]
            &&& q.queues.len() == p.queues.len()
            &&& q == (PortView { queues: q.queues, ..p })
        }),
        p.queues[pri].packets.len() > 0 ==> {
            let q = p.dequeued(pri);
            let first = p.queues[pri].packets[0];
            &&& seq![first] + q.queues[pri].packets =~= p.queues[pri].packets
            &&& q.queues[1 - pri] == p.queues[1 - pri]
            &&& first.size <= p.queue_bytes ==> q.queue_bytes == p.queue_bytes - first.size
            &&& first.size <= p.queues[pri].queue_bytes ==> q.queues[pri].queue_bytes
                == p.queues[pri].queue_bytes - first.size
            &&& q.queues[pri].paused == p.queues[pri].paused
        },
{
}

/// A new route to a destination comes behind those that it has, and leaves the other destinations
/// alone.
pub proof fn law_route_comes_last(
    routes: Map<EntityId, Seq<PortId>>,
    dst: EntityId,
    port: PortId,
)
    ensures
        ({
            let after = route_added(routes, dst, port);
            let known = if routes.contains_key(dst) {
                routes[dst].len()
            } else {
                0
            };
            &&& after.contains_key(dst)
            &&& after[dst].len() == known + 1
            &&& after[dst].last() == port
            &&& routes.contains_key(dst) ==> after[dst].drop_last() =~= routes[dst]
            &&& forall|o: EntityId|
                o != dst ==> (#[trigger] after.contains_key(o) <==> routes.contains_key(o))
            &&& forall|o: EntityId|
                o != dst && routes.contains_key(o) ==> #[trigger] after[o] == routes[o]
        }),
{
}

/// A new port is empty, free and without flow control, and has two priorities.
pub proof fn law_new_port_is_empty(id: PortId, link_id: u32)
    ensures
        ({
            let p = fresh_port(id, link_id);
            &&& p.id == id && p.link_id == link_id
            &&& p.queues.len() == 2
            &&& forall|i: int|
                0 <= i < 2 ==> (#[trigger] p.queues[i]).packets.len() == 0 && p.queues[i].queue_bytes
                    == 0 && !p.queues[i].paused && p.queues[i].pfc_threshold_bytes == 0
            &&& p.queue_bytes == 0 && p.busy_until == 0 && p.max_queue_depth_seen == 0
                && !p.egress_pending
        }),
{
}

/// What is queued at all ports is what is queued at each of them, in any division.
pub proof fn law_queued_bytes_add_up(a: Seq<PortView>, b: Seq<PortView>, p: PortView)
    ensures
        queued_bytes(Seq::empty()) == 0,
        queued_bytes(seq![p]) == p.queue_bytes,
        queued_bytes(a + b) == queued_bytes(a) + queued_bytes(b),
    decreases b.len(),
{
    assert(seq![p].drop_last() =~= Seq::empty());
    if b.len() == 0 {
        assert(a + b =~= a);
    } else {
        law_queued_bytes_add_up(a, b.drop_last(), p);
        assert((a + b).drop_last() =~= a + b.drop_last());
    }
}

/// The time to put a packet on a wire is the whole number of nanoseconds in which the wire carries
/// just not more than the bits of the packet, unless it is too long to be represented.
pub proof fn law_wire_time_is_exact(size: u32, bps: u64)
    requires
        bps > 0,
    ensures
        wire_time(size, bps) * bps <= size * 8_000_000_000,
        wire_time(size, bps) < u64::MAX ==> size * 8_000_000_000 < (wire_time(size, bps) + 1) * bps,
{
    let (a, b) = (size as int * 8_000_000_000, bps as int);
    let q = a / b;
    vstd::arithmetic::div_mod::lemma_fundamental_div_mod(a, b);
    let t = wire_time(size, bps) as int;
    assert(0 <= q && q * b <= a && a < (q + 1) * b && t * b <= a) by (nonlinear_arith)
        requires
            a == b * q + a % b,
            0 <= a % b < b,
            a >= 0,
            b > 0,
            t <= q,
            q == a / b,
    ;
}

/// A larger packet takes no less time on a wire, and a faster wire no more.
pub proof fn law_wire_time_grows(small: u32, large: u32, slow: u64, fast: u64)
    requires
        small <= large,
        0 < slow <= fast,
    ensures
        wire_time(small, slow) <= wire_time(large, slow),
        wire_time(large, fast) <= wire_time(large, slow),
{
    vstd::arithmetic::div_mod::lemma_div_is_ordered(
        small as int * 8_000_000_000,
        large as int * 8_000_000_000,
        slow as int,
    );
    vstd::arithmetic::div_mod::lemma_div_is_ordered_by_denominator(
        large as int * 8_000_000_000,
        slow as int,
        fast as int,
    );
}

/// A data packet is full-sized and unmarked, without a tag and a payload; a control packet has 64 bytes
/// and carries its type, mark and payload; an RDMA packet is a data packet of its queue pair.
pub proof fn law_packets_are_made(
    id: PacketId,
    trace_id: PacketId,
    flow: FlowId,
    seq: SeqNum,
    src: EntityId,
    dst: EntityId,
    ecn: bool,
    control_type: u8,
    payload: Seq<u8>,
    now: u64,
    flags: u8,
    opcode: u8,
)
    ensures
        ({
            let p = data_packet(id, trace_id, flow, seq, src, dst, now);
            &&& p.kind == PacketKind::Data
            &&& p.id == id && p.trace_id == trace_id && p.flow_id == flow && p.seq == seq
            &&& p.src == src && p.dst == dst && p.depart_time == now
            &&& p.size == 1024 && !p.ecn && p.routing_tag == 0 && p.payload.len() == 0
            &&& p.qpn == 0 && p.psn == 0 && p.msg_flags == 0 && p.rdma_opcode == 0
        }),
        ({
            let p = control_packet(
                id,
                trace_id,
                flow,
                seq,
                src,
                dst,
                ecn,
                control_type,
                payload,
                now,
            );
            &&& p.kind == PacketKind::Control(control_type)
            &&& p.id == id && p.trace_id == trace_id && p.flow_id == flow && p.seq == seq
            &&& p.src == src && p.dst == dst && p.depart_time == now
            &&& p.size == 64 && p.ecn == ecn && p.routing_tag == 0 && p.payload == payload
            &&& p.qpn == 0 && p.psn == 0 && p.msg_flags == 0 && p.rdma_opcode == 0
        }),
        ({
            let p = rdma_packet(id, trace_id, flow, seq, flags, opcode, src, dst, now);
            &&& p.kind == PacketKind::Data
            &&& p.id == id && p.trace_id == trace_id && p.flow_id == flow && p.seq == seq
            &&& p.src == src && p.dst == dst && p.depart_time == now
            &&& p.size == 1024 && !p.ecn && p.routing_tag == 0 && p.payload.len() == 0
            &&& p.qpn == flow && p.psn == seq && p.msg_flags == flags && p.rdma_opcode == opcode
        }),
{
}

/// A drop counts once in all: for its reason, at its port if it has one, for its flow and in total.
/// Of a flow the drops for want of a route and of a full buffer are counted apart.
pub proof fn law_drop_counts_once(c: DropView, d: DropEvent)
    requires
        c.by_reason.len() == 4,
        c.total < u64::MAX,
        forall|r: int| 0 <= r < 4 ==> #[trigger] c.by_reason[r] < u64::MAX,
        forall|p: int| 0 <= p < c.by_port.len() ==> #[trigger] c.by_port[p] < u64::MAX,
        forall|f: FlowId| #[trigger]
            c.per_flow.contains_key(f) ==> c.per_flow[f].total < u64::MAX
                && c.per_flow[f].buffer_full < u64::MAX && c.per_flow[f].no_route < u64::MAX,
    ensures
        ({
            let g = c.recorded(d);
            let r = match d.reason {
                DropReason::NoRoute => 0int,
                DropReason::BufferFull => 1,
                DropReason::TtlExceeded => 2,
                DropReason::Other => 3,
            };
            let known = c.per_flow.contains_key(d.flow_id);
            let f = c.per_flow[d.flow_id];
            let h = g.per_flow[d.flow_id];
            &&& g.total == c.total + 1
            &&& g.by_reason.len() == 4
            &&& forall|k: int|
                0 <= k < 4 ==> #[trigger] g.by_reason[k] == c.by_reason[k] + if k == r {
                    1int
                } else {
                    0
                }
            &&& d.port is None ==> g.by_port == c.by_port
            &&& d.port is Some ==> {
                let p = d.port->0 as int;
                &&& g.by_port.len() == if p < c.by_port.len() {
                    c.by_port.len() as int
                } else {
                    p + 1
                }
                &&& forall|k: int|
                    0 <= k < g.by_port.len() ==> #[trigger] g.by_port[k] == (if k < c.by_port.len() {
                        c.by_port[k] as int
                    } else {
                        0
                    }) + if k == p {
                        1int
                    } else {
                        0
                    }
            }
            &&& g.per_flow.contains_key(d.flow_id)
            &&& h.total == (if known {
                f.total as int
            } else {
                0
            }) + 1
            &&& h.buffer_full == (if known {
                f.buffer_full as int
            } else {
                0
            }) + if d.reason == DropReason::BufferFull {
                1int
            } else {
                0
            }
            &&& h.no_route == (if known {
                f.no_route as int
            } else {
                0
            }) + if d.reason == DropReason::NoRoute {
                1int
            } else {
                0
            }
            &&& forall|o: FlowId|
                o != d.flow_id ==> (#[trigger] g.per_flow.contains_key(o)
                    <==> c.per_flow.contains_key(o))
            &&& forall|o: FlowId|
                o != d.flow_id && c.per_flow.contains_key(o) ==> #[trigger] g.per_flow[o]
                    == c.per_flow[o]
            &&& c.log_enabled ==> g.events == c.events.push(d)
            &&& !c.log_enabled ==> g.events == c.events
            &&& g.log_enabled == c.log_enabled
        }),
{
}

/// Every reason has a name of its own, which says what it is.
pub proof fn law_reasons_are_named()
    ensures
        DropReason::NoRoute.name() == "NoRoute"@,
        DropReason::BufferFull.name() == "BufferFull"@,
        DropReason::TtlExceeded.name() == "TtlExceeded"@,
        DropReason::Other.name() == "Other"@,
        DropReason::NoRoute.index() == 0,
        DropReason::BufferFull.index() == 1,
        DropReason::TtlExceeded.index() == 2,
        DropReason::Other.index() == 3,
{
}

/// An NVLink takes half of the time that an NVSwitch takes, and that a tenth of the way over the NIC.
pub proof fn law_gpu_links_rank()
    ensures
        super::host_delay::GpuLink::NvLink.delay() == 100,
        super::host_delay::GpuLink::NvSwitch.delay() == 2
            * super::host_delay::GpuLink::NvLink.delay(),
        super::host_delay::GpuLink::PcieNic.delay() == 10
            * super::host_delay::GpuLink::NvSwitch.delay(),
{
}

} // verus!
