//! What holds of packets on their way through links and switches.
use crate::engine::event::{Event, EventKind};
use crate::network::packet::Packet;
use crate::nic::Protocol;
use crate::EntityId;
use vstd::prelude::*;

verus! {

use super::dispatched;
use super::slab::law_slab_takes_out;
use super::state::{last_switch, RunnerView};
use crate::engine::simulator::SimulatorView;
use crate::network::laws::{
    law_dequeue_serves_by_priority, law_ingress_accounts, law_ingress_drops,
    law_ingress_queues_and_marks,
};
use crate::network::link::wire_time;
use crate::network::switch::{law_ingress_keeps_shape, PortView, SwitchView};

/// `w` has one event more than `v`, with the next number, and due at `time` or, if that is past, at
/// once.
pub open spec fn plans(
    v: RunnerView,
    w: RunnerView,
    time: u64,
    kind: EventKind,
    target: EntityId,
) -> bool {
    &&& w.sim.events == v.sim.events.insert(
        Event {
            time: if time < v.sim.clock {
                v.sim.clock
            } else {
                time
            },
            kind,
            target,
            seq: v.next_seq,
        },
    )
    &&& w.next_seq == (v.next_seq + 1) % 0x1_0000_0000_0000_0000
}

/// An event that is planned is added to the others, with the next number, and nothing else changes.
pub proof fn law_event_is_planned(v: RunnerView, time: u64, kind: EventKind, target: EntityId)
    ensures
        ({
            let w = v.scheduled(time, kind, target);
            &&& plans(v, w, time, kind, target)
            &&& w == (RunnerView {
                sim: SimulatorView { events: w.sim.events, ..v.sim },
                next_seq: w.next_seq,
                ..v
            })
        }),
{
}

/// The sum of two times, or the largest time if that is exceeded.
pub open spec fn sum(a: u64, b: u64) -> u64 {
    if a + b > u64::MAX {
        u64::MAX
    } else {
        (a + b) as u64
    }
}

/// A packet that starts onto a link at `start` keeps the link busy for the time that its bits take,
/// is counted with its bytes, and arrives after the propagation delay. It is kept until then under
/// the number of its slot. No other link is touched.
pub proof fn law_packet_goes_onto_link(
    v: RunnerView,
    link: u32,
    pkt: Packet,
    start: u64,
    src: EntityId,
    to: EntityId,
)
    requires
        v.wf(),
        link < v.topo.links.len(),
        v.packets.slots.len() < u64::MAX,
    ensures
        ({
            let w = v.on_wire(link, pkt, start, src, to);
            let l = v.topo.links[link as int];
            let done = sum(start, wire_time(pkt.size, l.bandwidth_bps));
            let slot = v.packets.next_slot();
            &&& w.link_busy[link as int] == done
            &&& w.link_bytes[link as int] == sum(v.link_bytes[link as int], pkt.size as u64)
            &&& forall|k: int|
                0 <= k < v.topo.links.len() && k != link ==> #[trigger] w.link_busy[k]
                    == v.link_busy[k]
            &&& forall|k: int|
                0 <= k < v.topo.links.len() && k != link ==> #[trigger] w.link_bytes[k]
                    == v.link_bytes[k]
            &&& v.packets.at(slot) is None
            &&& w.packets.at(slot) == Some(Packet { id: slot, ..pkt })
            &&& forall|o: u64| o != slot ==> #[trigger] w.packets.at(o) == v.packets.at(o)
            &&& plans(
                v,
                w,
                sum(done, l.prop_delay_ns),
                EventKind::PacketArrive { packet_id: slot, src },
                to,
            )
            &&& w == (RunnerView {
                packets: w.packets,
                link_busy: w.link_busy,
                link_bytes: w.link_bytes,
                sim: SimulatorView { events: w.sim.events, ..v.sim },
                next_seq: w.next_seq,
                ..v
            })
        }),
{
    let slot = v.packets.next_slot();
    if v.packets.free.len() > 0 {
        assert(v.packets.free[v.packets.free.len() - 1] == slot);
    }
}

/// A port that is busy sends nothing; it is served again when it is free, which is planned once.
pub proof fn law_busy_port_waits(v: RunnerView, i: int, port: u8, now: u64)
    requires
        v.wf(),
        0 <= i < v.topo.switches.len(),
        port < v.topo.switches[i].ports.len(),
        v.topo.switches[i].ports[port as int].busy_until > now,
    ensures
        ({
            let w = v.egressed(i, port, now);
            let (s, t) = (v.topo.switches[i], w.topo.switches[i]);
            let (p, q) = (s.ports[port as int], t.ports[port as int]);
            &&& w.packets == v.packets && w.link_busy == v.link_busy && w.link_bytes == v.link_bytes
            &&& q == (PortView { egress_pending: true, ..p })
            &&& p.egress_pending ==> w.sim.events == v.sim.events && w.next_seq == v.next_seq
            &&& !p.egress_pending ==> plans(
                v,
                w,
                p.busy_until,
                EventKind::PacketDepart { packet_id: 0, dst: 0, port },
                s.id,
            )
            &&& forall|k: int|
                0 <= k < s.ports.len() && k != port ==> #[trigger] t.ports[k] == s.ports[k]
            &&& forall|k: int|
                0 <= k < v.topo.switches.len() && k != i ==> #[trigger] w.topo.switches[k]
                    == v.topo.switches[k]
        }),
{
}

/// A free port puts the next packet by priority onto its link at once, and is busy until the packet is
/// on the link. If it has more to send, it is served again then, which is planned once. A port
/// without a packet that may leave does nothing.
pub proof fn law_free_port_sends(v: RunnerView, i: int, port: u8, now: u64)
    requires
        v.wf(),
        v.packets.slots.len() < u64::MAX,
        0 <= i < v.topo.switches.len(),
        port < v.topo.switches[i].ports.len(),
        v.topo.switches[i].ports[port as int].busy_until <= now,
    ensures
        ({
            let w = v.egressed(i, port, now);
            let (s, t) = (v.topo.switches[i], w.topo.switches[i]);
            let (p, q) = (s.ports[port as int], t.ports[port as int]);
            let high = p.queues[0].packets.len() > 0 && !p.queues[0].paused;
            let low = p.queues[1].packets.len() > 0 && !p.queues[1].paused;
            let pri = if high {
                0int
            } else {
                1
            };
            let pkt = p.queues[pri].packets[0];
            let l = v.topo.links[p.link_id as int];
            let done = sum(now, wire_time(pkt.size, l.bandwidth_bps));
            let slot = v.packets.next_slot();
            let arrival = Event {
                time: if sum(done, l.prop_delay_ns) < v.sim.clock {
                    v.sim.clock
                } else {
                    sum(done, l.prop_delay_ns)
                },
                kind: EventKind::PacketArrive { packet_id: slot, src: l.from },
                target: l.to,
                seq: v.next_seq,
            };
            let again = Event {
                time: if done < v.sim.clock {
                    v.sim.clock
                } else {
                    done
                },
                kind: EventKind::PacketDepart { packet_id: 0, dst: pkt.dst, port },
                target: s.id,
                seq: v.next_seq.wrapping_add(1),
            };
            &&& !high && !low ==> w == v
            &&& high || low ==> {
                &&& seq![pkt] + q.queues[pri].packets =~= p.queues[pri].packets
                &&& q.queues[1 - pri] == p.queues[1 - pri]
                &&& pkt.size <= p.queue_bytes ==> q.queue_bytes == p.queue_bytes - pkt.size
                &&& q.busy_until == done
                &&& q.egress_pending == (p.egress_pending || q.queue_bytes > 0)
                &&& w.link_busy[p.link_id as int] == done
                &&& w.link_bytes[p.link_id as int] == sum(
                    v.link_bytes[p.link_id as int],
                    pkt.size as u64,
                )
                &&& forall|k: int|
                    0 <= k < v.topo.links.len() && k != p.link_id ==> #[trigger] w.link_bytes[k]
                        == v.link_bytes[k]
                &&& w.packets.at(slot) == Some(Packet { id: slot, ..pkt })
                &&& forall|o: u64| o != slot ==> #[trigger] w.packets.at(o) == v.packets.at(o)
                &&& w.sim.events == if q.queue_bytes > 0 && !p.egress_pending {
                    v.sim.events.insert(arrival).insert(again)
                } else {
                    v.sim.events.insert(arrival)
                }
                &&& forall|k: int|
                    0 <= k < s.ports.len() && k != port ==> #[trigger] t.ports[k] == s.ports[k]
                &&& forall|k: int|
                    0 <= k < v.topo.switches.len() && k != i ==> #[trigger] w.topo.switches[k]
                        == v.topo.switches[k]
            }
        }),
{
    let s = v.topo.switches[i];
    assert(s.wf());
    assert(s.ports[port as int].wf());
    assert(v.topo.ports_linked(i));
    let link = s.ports[port as int].link_id;
    assert(link < v.topo.links.len());
    law_dequeue_serves_by_priority(s, port as int);
    if let (rest, Some(pkt)) = s.after_dequeue(port as int) {
        let l = v.topo.links[link as int];
        let done = v.wire_done(link, pkt.size, now);
        let left = PortView { busy_until: done, ..rest.ports[port as int] };
        let again = left.queue_bytes > 0 && !left.egress_pending;
        let served = rest.with_port(
            port as int,
            PortView { egress_pending: left.egress_pending || again, ..left },
        );
        crate::network::switch::law_dequeue_keeps_shape(s, port as int);
        let mid = v.with_switch(i, served);
        assert(served.wf());
        super::state::lemma_with_switch_wf(v, i, served);
        law_packet_goes_onto_link(mid, link, pkt, now, l.from, l.to);
    }
}

/// The event `ev` is the arrival of the packet `pkt` at the switch at position `i`.
pub open spec fn arrives_at_switch<P: Protocol>(
    pre: RunnerView,
    post: RunnerView,
    before: Seq<P>,
    after: Seq<P>,
    ev: Event,
    packet_id: u64,
    from: EntityId,
    pkt: Packet,
    i: int,
) -> bool {
    &&& pre.wf()
    &&& dispatched(pre, post, before, after, ev)
    &&& ev.kind == (EventKind::PacketArrive { packet_id, src: from })
    &&& pre.packets.at(packet_id) == Some(pkt)
    &&& pkt.id == packet_id
    &&& ev.target >= pre.topo.hosts.len()
    &&& 0 <= i < pre.topo.switches.len()
    &&& pre.topo.switches[i].id == ev.target
    &&& forall|j: int| i < j < pre.topo.switches.len() ==> (#[trigger] pre.topo.switches[j]).id
        != ev.target
}

/// The position of the port that a packet without a tag takes among `n` equal ones.
pub open spec fn spread(pkt: Packet, n: int) -> int {
    (pkt.src ^ pkt.dst ^ pkt.flow_id) as int % n
}

proof fn lemma_switch_found(v: RunnerView, id: EntityId, i: int)
    requires
        0 <= i < v.topo.switches.len(),
        v.topo.switches[i].id == id,
        forall|j: int| i < j < v.topo.switches.len() ==> (#[trigger] v.topo.switches[j]).id != id,
    ensures
        v.switch_at(id) == Some(i),
{
    lemma_last_switch_is(v.topo.switches, id, i, v.topo.switches.len() as int);
}

proof fn lemma_last_switch_is(switches: Seq<SwitchView>, id: EntityId, i: int, n: int)
    requires
        0 <= i < n <= switches.len(),
        switches[i].id == id,
        forall|j: int| i < j < n ==> (#[trigger] switches[j]).id != id,
    ensures
        last_switch(switches, id, n) == Some(i),
    decreases n,
{
    if n - 1 > i {
        assert(switches[n - 1].id != id);
        lemma_last_switch_is(switches, id, i, n - 1);
    }
}

/// A packet without a tag that arrives at a switch with equal ports to its destination takes the port
/// at the position that the exclusive or of its source, its destination and its flow number leaves as
/// a remainder of their number. It is queued there if the port is busy, with its congestion mark if it
/// has one. If the port is free and nothing waits there, the packet goes onto the link of this
/// port at once. No other port, and no other switch, is touched.
pub proof fn law_packet_takes_hashed_port<P: Protocol>(
    pre: RunnerView,
    post: RunnerView,
    before: Seq<P>,
    after: Seq<P>,
    ev: Event,
    packet_id: u64,
    from: EntityId,
    pkt: Packet,
    i: int,
)
    requires
        arrives_at_switch(pre, post, before, after, ev, packet_id, from, pkt, i),
        pre.packets.slots.len() < u64::MAX,
        pre.topo.switches[i].routes.contains_key(pkt.dst),
        pre.topo.switches[i].routes[pkt.dst].len() > 0,
        pkt.routing_tag == 0,
        ({
            let ports = pre.topo.switches[i].routes[pkt.dst];
            let out = ports[spread(pkt, ports.len() as int)];
            pre.topo.switches[i].ports[out as int].queue_bytes + pkt.size
                <= pre.topo.switches[i].buffer_max_bytes
        }),
    ensures
        ({
            let (s, t) = (pre.topo.switches[i], post.topo.switches[i]);
            let ports = s.routes[pkt.dst];
            let at = (pkt.src ^ pkt.dst ^ pkt.flow_id) as int % ports.len() as int;
            let out = ports[at] as int;
            let (p, q) = (s.ports[out], t.ports[out]);
            let over = p.queue_bytes + pkt.size > s.ecn_threshold_bytes;
            let idle = p.busy_until <= ev.time && p.queues[0].packets.len() == 0
                && p.queues[1].packets.len() == 0 && !p.queues[1].paused
                && p.queues[1].pfc_threshold_bytes == 0;
            let slot = pre.packets.removed(packet_id).next_slot();
            &&& 0 <= at < ports.len()
            &&& 0 <= out < s.ports.len()
            &&& forall|k: int|
                0 <= k < s.ports.len() && k != out ==> #[trigger] t.ports[k] == s.ports[k]
            &&& forall|k: int|
                0 <= k < pre.topo.switches.len() && k != i ==> #[trigger] post.topo.switches[k]
                    == pre.topo.switches[k]
            &&& p.busy_until > ev.time ==> {
                &&& q.queues[1].packets == p.queues[1].packets.push(
                    Packet { ecn: pkt.ecn || over, ..pkt },
                )
                &&& q.queues[0] == p.queues[0]
                &&& post.link_bytes == pre.link_bytes
                &&& post.packets.at(packet_id) is None
            }
            &&& idle ==> {
                &&& post.link_bytes[p.link_id as int] == sum(
                    pre.link_bytes[p.link_id as int],
                    pkt.size as u64,
                )
                &&& forall|k: int|
                    0 <= k < pre.topo.links.len() && k != p.link_id ==> #[trigger] post.link_bytes[k]
                        == pre.link_bytes[k]
                &&& post.packets.at(slot) == Some(
                    Packet { id: slot, ecn: pkt.ecn || over, ..pkt },
                )
                &&& q.busy_until == sum(
                    ev.time,
                    wire_time(pkt.size, pre.topo.links[p.link_id as int].bandwidth_bps),
                )
            }
        }),
{
    let rest = RunnerView { packets: pre.packets.removed(packet_id), ..pre };
    let s = pre.topo.switches[i];
    let hash = pkt.src ^ pkt.dst ^ pkt.flow_id;
    let ports = s.routes[pkt.dst];
    let n = ports.len() as int;
    assert(0 <= hash as int % n < n) by (nonlinear_arith)
        requires
            n > 0,
            hash >= 0,
    ;
    let out = ports[hash as int % n];
    assert(s.wf());
    assert(out < s.ports.len());
    lemma_switch_found(rest, ev.target, i);
    law_ingress_drops(s, pkt, hash);
    law_ingress_queues_and_marks(s, pkt, hash);
    law_ingress_accounts(s, pkt, hash);
    law_ingress_keeps_shape(s, pkt, hash);
    let (sw, (port, dropped)) = s.after_ingress(pkt, hash);
    assert(!dropped && port == Some(out));
    let taken = rest.with_switch(i, sw);
    law_slab_takes_out(pre.packets, packet_id, packet_id);
    assert(rest.wf());
    super::state::lemma_with_switch_wf(rest, i, sw);
    if s.ports[out as int].busy_until > ev.time {
        law_busy_port_waits(taken, i, out, ev.time);
    } else {
        law_free_port_sends(taken, i, out, ev.time);
    }
}

/// Of two packets with the same source and destination that arrive at a switch with distinct ports to
/// it, and whose flow numbers leave different remainders, each takes a port of its own: the port that the
/// one takes is not touched by the other.
pub proof fn law_flows_take_different_ports<P: Protocol>(
    pre: RunnerView,
    posts: (RunnerView, RunnerView),
    before: Seq<P>,
    afters: (Seq<P>, Seq<P>),
    evs: (Event, Event),
    ids: (u64, u64),
    froms: (EntityId, EntityId),
    pkts: (Packet, Packet),
    i: int,
)
    requires
        arrives_at_switch(pre, posts.0, before, afters.0, evs.0, ids.0, froms.0, pkts.0, i),
        arrives_at_switch(pre, posts.1, before, afters.1, evs.1, ids.1, froms.1, pkts.1, i),
        pre.packets.slots.len() < u64::MAX,
        pkts.0.src == pkts.1.src,
        pkts.0.dst == pkts.1.dst,
        pkts.0.routing_tag == 0,
        pkts.1.routing_tag == 0,
        pre.topo.switches[i].routes.contains_key(pkts.0.dst),
        pre.topo.switches[i].routes[pkts.0.dst].no_duplicates(),
        ({
            let ports = pre.topo.switches[i].routes[pkts.0.dst];
            &&& (pkts.0.src ^ pkts.0.dst ^ pkts.0.flow_id) as int % ports.len() as int != (
            pkts.1.src ^ pkts.1.dst ^ pkts.1.flow_id) as int % ports.len() as int
            &&& ports.len() > 0
            &&& forall|k: int|
                0 <= k < ports.len() ==> pre.topo.switches[i].ports[(
                #[trigger] ports[k]) as int].queue_bytes + pkts.0.size
                    <= pre.topo.switches[i].buffer_max_bytes
            &&& forall|k: int|
                0 <= k < ports.len() ==> pre.topo.switches[i].ports[(
                #[trigger] ports[k]) as int].queue_bytes + pkts.1.size
                    <= pre.topo.switches[i].buffer_max_bytes
            &&& forall|k: int|
                0 <= k < ports.len() ==> pre.topo.switches[i].ports[(
                #[trigger] ports[k]) as int].busy_until > evs.0.time
            &&& forall|k: int|
                0 <= k < ports.len() ==> pre.topo.switches[i].ports[(
                #[trigger] ports[k]) as int].busy_until > evs.1.time
        }),
    ensures
        exists|a: int, b: int|
            a != b && #[trigger] gains_packet(pre, posts.0, i, a) && #[trigger] gains_packet(
                pre,
                posts.1,
                i,
                b,
            ) && posts.0.topo.switches[i].ports[b] == pre.topo.switches[i].ports[b]
                && posts.1.topo.switches[i].ports[a] == pre.topo.switches[i].ports[a],
{
    let ports = pre.topo.switches[i].routes[pkts.0.dst];
    let n = ports.len() as int;
    let (j, k) = (spread(pkts.0, n), spread(pkts.1, n));
    let (x, y) = (
        (pkts.0.src ^ pkts.0.dst ^ pkts.0.flow_id) as int,
        (pkts.1.src ^ pkts.1.dst ^ pkts.1.flow_id) as int,
    );
    assert(0 <= x % n < n && 0 <= y % n < n) by (nonlinear_arith)
        requires
            n > 0,
            x >= 0,
            y >= 0,
    ;
    let (a, b) = (ports[j], ports[k]);
    law_packet_takes_hashed_port(
        pre,
        posts.0,
        before,
        afters.0,
        evs.0,
        ids.0,
        froms.0,
        pkts.0,
        i,
    );
    law_packet_takes_hashed_port(
        pre,
        posts.1,
        before,
        afters.1,
        evs.1,
        ids.1,
        froms.1,
        pkts.1,
        i,
    );
    assert(a != b);
    assert(gains_packet(pre, posts.0, i, a as int));
    assert(gains_packet(pre, posts.1, i, b as int));
}

/// One packet more is queued at the port `k` of the switch at position `i`.
pub open spec fn gains_packet(pre: RunnerView, post: RunnerView, i: int, k: int) -> bool {
    let (p, q) = (pre.topo.switches[i].ports[k], post.topo.switches[i].ports[k]);
    q.queues[0].packets.len() + q.queues[1].packets.len() == p.queues[0].packets.len()
        + p.queues[1].packets.len() + 1
}

/// Every one of the equal ports to a destination is taken by some flow: for the port at position `k`
/// it is the flow whose number is the exclusive or of the source, the destination and `k`.
pub proof fn law_every_port_is_taken<P: Protocol>(
    pre: RunnerView,
    post: RunnerView,
    before: Seq<P>,
    after: Seq<P>,
    ev: Event,
    packet_id: u64,
    from: EntityId,
    pkt: Packet,
    i: int,
    k: u32,
)
    requires
        arrives_at_switch(pre, post, before, after, ev, packet_id, from, pkt, i),
        pre.packets.slots.len() < u64::MAX,
        pre.topo.switches[i].routes.contains_key(pkt.dst),
        k < pre.topo.switches[i].routes[pkt.dst].len(),
        pkt.routing_tag == 0,
        pkt.flow_id == pkt.src ^ pkt.dst ^ k,
        ({
            let s = pre.topo.switches[i];
            let p = s.ports[s.routes[pkt.dst][k as int] as int];
            p.queue_bytes + pkt.size <= s.buffer_max_bytes && p.busy_until > ev.time
        }),
    ensures
        ({
            let (s, t) = (pre.topo.switches[i], post.topo.switches[i]);
            let out = s.routes[pkt.dst][k as int] as int;
            &&& gains_packet(pre, post, i, out)
            &&& forall|o: int|
                0 <= o < s.ports.len() && o != out ==> #[trigger] t.ports[o] == s.ports[o]
        }),
{
    let (a, b) = (pkt.src, pkt.dst);
    assert(a ^ b ^ (a ^ b ^ k) == k) by (bit_vector);
    let n = pre.topo.switches[i].routes[pkt.dst].len();
    vstd::arithmetic::div_mod::lemma_small_mod(k as nat, n);
    law_packet_takes_hashed_port(pre, post, before, after, ev, packet_id, from, pkt, i);
}

/// A packet with a tag that names one of the ports to its destination takes this port, whatever its
/// flow; the tag one names the first.
pub proof fn law_tag_names_port<P: Protocol>(
    pre: RunnerView,
    post: RunnerView,
    before: Seq<P>,
    after: Seq<P>,
    ev: Event,
    packet_id: u64,
    from: EntityId,
    pkt: Packet,
    i: int,
)
    requires
        arrives_at_switch(pre, post, before, after, ev, packet_id, from, pkt, i),
        pre.packets.slots.len() < u64::MAX,
        pre.topo.switches[i].routes.contains_key(pkt.dst),
        0 < pkt.routing_tag <= pre.topo.switches[i].routes[pkt.dst].len(),
        ({
            let s = pre.topo.switches[i];
            let p = s.ports[s.routes[pkt.dst][pkt.routing_tag - 1] as int];
            p.queue_bytes + pkt.size <= s.buffer_max_bytes && p.busy_until > ev.time
        }),
    ensures
        ({
            let (s, t) = (pre.topo.switches[i], post.topo.switches[i]);
            let out = s.routes[pkt.dst][pkt.routing_tag - 1] as int;
            &&& gains_packet(pre, post, i, out)
            &&& forall|o: int|
                0 <= o < s.ports.len() && o != out ==> #[trigger] t.ports[o] == s.ports[o]
        }),
{
    let rest = RunnerView { packets: pre.packets.removed(packet_id), ..pre };
    let s = pre.topo.switches[i];
    let hash = pkt.src ^ pkt.dst ^ pkt.flow_id;
    assert(s.wf());
    let out = s.routes[pkt.dst][pkt.routing_tag - 1];
    assert(out < s.ports.len());
    assert(s.ports[out as int].wf());
    lemma_switch_found(rest, ev.target, i);
    law_ingress_drops(s, pkt, hash);
    law_ingress_queues_and_marks(s, pkt, hash);
    law_ingress_accounts(s, pkt, hash);
    law_ingress_keeps_shape(s, pkt, hash);
    let sw = s.after_ingress(pkt, hash).0;
    let taken = rest.with_switch(i, sw);
    law_slab_takes_out(pre.packets, packet_id, packet_id);
    super::state::lemma_with_switch_wf(rest, i, sw);
    law_busy_port_waits(taken, i, out, ev.time);
}

/// A packet for which no port leads to its destination, or which would not fit into the buffer of its
/// port, is lost: the switch counts it, and its slot is free. No link carries anything, and nothing is
/// planned.
pub proof fn law_packet_is_lost<P: Protocol>(
    pre: RunnerView,
    post: RunnerView,
    before: Seq<P>,
    after: Seq<P>,
    ev: Event,
    packet_id: u64,
    from: EntityId,
    pkt: Packet,
    i: int,
)
    requires
        arrives_at_switch(pre, post, before, after, ev, packet_id, from, pkt, i),
        ({
            let s = pre.topo.switches[i];
            ||| !s.routes.contains_key(pkt.dst)
            ||| s.routes[pkt.dst].len() == 0
            ||| forall|k: int|
                0 <= k < s.ports.len() ==> (#[trigger] s.ports[k]).queue_bytes + pkt.size
                    > s.buffer_max_bytes
        }),
    ensures
        ({
            let (s, t) = (pre.topo.switches[i], post.topo.switches[i]);
            &&& s.drops < u64::MAX ==> t.drops == s.drops + 1
            &&& t == (SwitchView { drops: t.drops, ..s })
            &&& forall|k: int|
                0 <= k < pre.topo.switches.len() && k != i ==> #[trigger] post.topo.switches[k]
                    == pre.topo.switches[k]
            &&& post.packets.at(packet_id) is None
            &&& forall|o: u64| o != packet_id ==> #[trigger] post.packets.at(o) == pre.packets.at(o)
            &&& post.sim == pre.sim
            &&& post.link_bytes == pre.link_bytes && post.link_busy == pre.link_busy
            &&& after == before
        }),
{
    let rest = RunnerView { packets: pre.packets.removed(packet_id), ..pre };
    let s = pre.topo.switches[i];
    let hash = pkt.src ^ pkt.dst ^ pkt.flow_id;
    assert(s.wf());
    lemma_switch_found(rest, ev.target, i);
    law_ingress_drops(s, pkt, hash);
    law_ingress_keeps_shape(s, pkt, hash);
    if s.routes.contains_key(pkt.dst) && s.routes[pkt.dst].len() > 0 {
        let ports = s.routes[pkt.dst];
        let n = ports.len() as int;
        let x = hash as int;
        assert(0 <= x % n < n) by (nonlinear_arith)
            requires
                n > 0,
                x >= 0,
        ;
        let out = crate::network::laws::output_port(ports, pkt.routing_tag, hash);
        assert(out < s.ports.len());
        assert(s.ports[out].queue_bytes + pkt.size > s.buffer_max_bytes);
    }
    law_slab_takes_out(pre.packets, packet_id, packet_id);
    assert(rest.packets.at(pkt.id) is None);
}

/// When a port has become free, nothing is pending for it any more, and it goes on sending if it holds
/// anything.
pub proof fn law_freed_port_goes_on<P: Protocol>(
    pre: RunnerView,
    post: RunnerView,
    before: Seq<P>,
    after: Seq<P>,
    ev: Event,
    packet_id: u64,
    dst: EntityId,
    port: u8,
    i: int,
)
    requires
        pre.wf(),
        dispatched(pre, post, before, after, ev),
        ev.kind == (EventKind::PacketDepart { packet_id, dst, port }),
        0 <= i < pre.topo.switches.len(),
        pre.topo.switches[i].id == ev.target,
        forall|j: int|
            i < j < pre.topo.switches.len() ==> (#[trigger] pre.topo.switches[j]).id != ev.target,
        port < pre.topo.switches[i].ports.len(),
    ensures
        ({
            let s = pre.topo.switches[i];
            let p = s.ports[port as int];
            let cleared = PortView { egress_pending: false, ..p };
            let ready = pre.with_switch(
                i,
                SwitchView { ports: s.ports.update(port as int, cleared), ..s },
            );
            &&& after == before
            &&& p.queue_bytes == 0 ==> post == ready
            &&& p.queue_bytes > 0 ==> post == ready.egressed(i, port, ev.time)
        }),
{
    lemma_switch_found(pre, ev.target, i);
}

} // verus!
