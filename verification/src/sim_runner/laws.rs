//! What holds of a simulation whatever the protocols do.
use vstd::prelude::*;

verus! {

use super::host::{
    arrives, control_arrives_with, data_arrives_with, first_flow, ticks, ticks_with,
};
use super::slab::SlabView;
use super::state::{is_timeout, later, lemma_last_switch_bounds, with_finished, RunnerView};
use super::{ran, turned, turned_with};
use crate::engine::event::{Event, EventKind};
use crate::engine::simulator::{lifted, SimulatorView};
use crate::network::packet::{FlowId, Packet};
use crate::network::link::wire_time;
use crate::network::switch::{law_dequeue_keeps_shape, PortView, SwitchView};
use crate::nic::protocol::Protocol;
use crate::topology::HostUplink;
use crate::EntityId;
use vstd::multiset::Multiset;

/// The event is the arrival of the packet in slot `id`.
pub open spec fn is_arrival(ev: Event, id: u64) -> bool {
    ev.kind matches EventKind::PacketArrive { packet_id, .. } && packet_id == id
}

/// How many arrivals of the packet in slot `id` are pending.
pub open spec fn arrivals(events: Multiset<Event>, id: u64) -> nat {
    events.filter(|ev: Event| is_arrival(ev, id)).len()
}

/// A packet in slot `id` has the number of the slot, and one arrival of it is pending; no arrival
/// is pending for an empty slot.
pub open spec fn slot_accounted(v: RunnerView, id: u64) -> bool {
    match v.packets.at(id) {
        Some(pkt) => pkt.id == id && arrivals(v.sim.events, id) == 1,
        None => arrivals(v.sim.events, id) == 0,
    }
}

/// Every packet that is under way will arrive, once, and nothing else will.
pub open spec fn all_accounted(v: RunnerView) -> bool {
    &&& v.packets.wf()
    &&& v.packets.slots.len() <= u64::MAX
    &&& forall|id: u64| #[trigger] slot_accounted(v, id)
}

proof fn lemma_arrivals_insert(events: Multiset<Event>, ev: Event, id: u64)
    ensures
        arrivals(events.insert(ev), id) == arrivals(events, id) + (if is_arrival(ev, id) {
            1nat
        } else {
            0nat
        }),
{
    broadcast use vstd::multiset::group_multiset_axioms;

    let f = |e: Event| is_arrival(e, id);
    if is_arrival(ev, id) {
        assert(events.insert(ev).filter(f) =~= events.filter(f).insert(ev));
    } else {
        assert(events.insert(ev).filter(f) =~= events.filter(f));
    }
}

proof fn lemma_arrivals_remove(events: Multiset<Event>, ev: Event, id: u64)
    requires
        events.contains(ev),
    ensures
        arrivals(events.remove(ev), id) + (if is_arrival(ev, id) {
            1nat
        } else {
            0nat
        }) == arrivals(events, id),
{
    broadcast use vstd::multiset::group_multiset_axioms;

    assert(events.remove(ev).insert(ev) =~= events);
    lemma_arrivals_insert(events.remove(ev), ev, id);
}

/// What an operation that puts no packet on a link keeps.
pub open spec fn same_traffic(v: RunnerView, w: RunnerView) -> bool {
    &&& v.same_setting(w)
    &&& w.packets == v.packets
    &&& forall|id: u64| #[trigger] arrivals(w.sim.events, id) == arrivals(v.sim.events, id)
}

/// What every operation keeps: the network and the settings, the order of the slots, and, as long
/// as the slots can be numbered, that every packet under way will arrive.
pub open spec fn keeps(v: RunnerView, w: RunnerView) -> bool {
    &&& v.same_setting(w)
    &&& v.packets.wf() ==> w.packets.wf() && v.packets.slots.len() <= w.packets.slots.len()
    &&& all_accounted(v) && w.packets.slots.len() <= u64::MAX ==> all_accounted(w)
}

proof fn lemma_same_traffic_keeps(v: RunnerView, w: RunnerView)
    requires
        same_traffic(v, w),
    ensures
        keeps(v, w),
{
    if all_accounted(v) {
        assert forall|id: u64| #[trigger] slot_accounted(w, id) by {
            assert(slot_accounted(v, id));
            assert(arrivals(w.sim.events, id) == arrivals(v.sim.events, id));
        }
    }
}

proof fn lemma_scheduled(v: RunnerView, time: u64, kind: EventKind, target: EntityId)
    requires
        !(kind is PacketArrive),
    ensures
        same_traffic(v, v.scheduled(time, kind, target)),
        keeps(v, v.scheduled(time, kind, target)),
{
    let w = v.scheduled(time, kind, target);
    let ev = lifted(Event { time, kind, target, seq: v.next_seq }, v.sim.clock);
    assert forall|id: u64| #[trigger] arrivals(w.sim.events, id) == arrivals(v.sim.events, id) by {
        lemma_arrivals_insert(v.sim.events, ev, id);
    }
    lemma_same_traffic_keeps(v, w);
}

proof fn lemma_with_switch(v: RunnerView, i: int, sw: SwitchView)
    requires
        0 <= i < v.topo.switches.len(),
    ensures
        same_traffic(v, v.with_switch(i, sw)),
        keeps(v, v.with_switch(i, sw)),
{
    lemma_same_traffic_keeps(v, v.with_switch(i, sw));
}

proof fn lemma_on_wire(
    v: RunnerView,
    link: u32,
    pkt: Packet,
    start: u64,
    src: EntityId,
    to: EntityId,
)
    ensures
        keeps(v, v.on_wire(link, pkt, start, src, to)),
{
    let w = v.on_wire(link, pkt, start, src, to);
    let slot = v.packets.next_slot();
    if v.packets.wf() && v.packets.free.len() > 0 {
        assert(v.packets.free[v.packets.free.len() - 1] == slot);
    }
    if all_accounted(v) && w.packets.slots.len() <= u64::MAX {
        assert forall|id: u64| #[trigger] slot_accounted(w, id) by {
            assert(slot_accounted(v, id));
            let time = v.wire_done(link, pkt.size, start).saturating_add(
                v.topo.links[link as int].prop_delay_ns,
            );
            let ev = lifted(
                Event {
                    time,
                    kind: EventKind::PacketArrive { packet_id: slot, src },
                    target: to,
                    seq: v.next_seq,
                },
                v.sim.clock,
            );
            assert(w.sim.events == v.sim.events.insert(ev));
            lemma_arrivals_insert(v.sim.events, ev, id);
        }
    }
}

proof fn lemma_egressed(v: RunnerView, i: int, port: u8, now: u64)
    requires
        0 <= i < v.topo.switches.len(),
    ensures
        keeps(v, v.egressed(i, port, now)),
{
    let sw = v.topo.switches[i];
    let p = sw.ports[port as int];
    if p.busy_until <= now {
        if let (rest, Some(pkt)) = sw.after_dequeue(port as int) {
            let done = v.wire_done(p.link_id, pkt.size, now);
            let link = v.topo.links[p.link_id as int];
            let left = PortView {
                busy_until: done,
                ..rest.ports[port as int]
            };
            let again = left.queue_bytes > 0 && !left.egress_pending;
            let served = rest.with_port(
                port as int,
                PortView {
                    egress_pending: left.egress_pending || again,
                    ..left
                },
            );
            let mid = v.with_switch(i, served);
            lemma_with_switch(v, i, served);
            lemma_on_wire(mid, p.link_id, pkt, now, link.from, link.to);
            let sent = mid.on_wire(p.link_id, pkt, now, link.from, link.to);
            lemma_scheduled(
                sent,
                done,
                EventKind::PacketDepart { packet_id: 0, dst: pkt.dst, port },
                sw.id,
            );
        }
    } else if !p.egress_pending {
        let served = sw.with_port(
            port as int,
            PortView { egress_pending: true, ..p },
        );
        lemma_with_switch(v, i, served);
        lemma_scheduled(
            v.with_switch(i, served),
            p.busy_until,
            EventKind::PacketDepart { packet_id: 0, dst: 0, port },
            sw.id,
        );
    }
}

proof fn lemma_arrived_at_switch(v: RunnerView, pkt: Packet, id: EntityId, now: u64)
    requires
        v.packets.at(pkt.id) is None,
    ensures
        keeps(v, v.arrived_at_switch(pkt, id, now)),
{
    if let Some(i) = v.switch_at(id) {
        lemma_last_switch_bounds(v.topo.switches, id, v.topo.switches.len() as int);
        let hash = pkt.src ^ pkt.dst ^ pkt.flow_id;
        let (sw, (port, dropped)) = v.topo.switches[i].after_ingress(pkt, hash);
        let taken = v.with_switch(i, sw);
        lemma_with_switch(v, i, sw);
        if let Some(p) = port {
            lemma_egressed(taken, i, p, now);
        }
    }
}

proof fn lemma_port_freed(v: RunnerView, id: EntityId, port: u8, now: u64)
    ensures
        keeps(v, v.port_freed(id, port, now)),
{
    if let Some(i) = v.switch_at(id) {
        lemma_last_switch_bounds(v.topo.switches, id, v.topo.switches.len() as int);
        let sw = v.topo.switches[i];
        let p = sw.ports[port as int];
        let freed = sw.with_port(
            port as int,
            PortView { egress_pending: false, ..p },
        );
        lemma_with_switch(v, i, freed);
        lemma_egressed(v.with_switch(i, freed), i, port, now);
    }
}

proof fn lemma_picked(v: RunnerView, host: EntityId, hint: Option<FlowId>)
    ensures
        keeps(v, v.picked(host, hint).0),
{
    lemma_same_traffic_keeps(v, v.picked(host, hint).0);
}

proof fn lemma_host_sent_all(
    v: RunnerView,
    host: EntityId,
    up: HostUplink,
    pkts: Seq<Packet>,
    now: u64,
    n: nat,
)
    ensures
        keeps(v, v.host_sent_all(host, up, pkts, now, n)),
    decreases n,
{
    if n > 0 {
        lemma_host_sent_all(v, host, up, pkts, now, (n - 1) as nat);
        let before = v.host_sent_all(host, up, pkts, now, (n - 1) as nat);
        let pkt = pkts[n - 1];
        let after = before.host_sent(host, up, pkt, now);
        let depart = before.nic_time(host, pkt.size, now);
        let ready = RunnerView {
            total_fixed_ns: after.total_fixed_ns,
            total_dma_ns: after.total_dma_ns,
            total_wait_ns: after.total_wait_ns,
            max_depth_ns: after.max_depth_ns,
            tx_busy: after.tx_busy,
            ..before
        };
        lemma_same_traffic_keeps(before, ready);
        let start = later(before.link_busy[up.link_to_switch as int], depart);
        let sent = Packet { depart_time: depart, ..pkt };
        lemma_on_wire(ready, up.link_to_switch, sent, start, host, up.edge_switch);
        assert(after == ready.on_wire(up.link_to_switch, sent, start, host, up.edge_switch));
    } else {
        lemma_same_traffic_keeps(v, v);
    }
}

proof fn lemma_replied_all(
    v: RunnerView,
    host: EntityId,
    up: HostUplink,
    pkts: Seq<Packet>,
    now: u64,
    n: nat,
)
    ensures
        keeps(v, v.replied_all(host, up, pkts, now, n)),
    decreases n,
{
    if n > 0 {
        lemma_replied_all(v, host, up, pkts, now, (n - 1) as nat);
        let before = v.replied_all(host, up, pkts, now, (n - 1) as nat);
        lemma_on_wire(
            before,
            up.link_to_switch,
            Packet { depart_time: now, ..pkts[n - 1] },
            later(before.link_busy[up.link_to_switch as int], now),
            host,
            up.edge_switch,
        );
    } else {
        lemma_same_traffic_keeps(v, v);
    }
}

proof fn lemma_timeouts_cancelled(v: RunnerView, host: EntityId)
    ensures
        same_traffic(v, v.timeouts_cancelled(host)),
{
    broadcast use vstd::multiset::group_multiset_axioms;

    let w = v.timeouts_cancelled(host);
    assert forall|id: u64| #[trigger] arrivals(w.sim.events, id) == arrivals(v.sim.events, id) by {
        let f = |e: Event| is_arrival(e, id);
        assert(v.sim.events.filter(|e: Event| !is_timeout(e, host)).filter(f)
            =~= v.sim.events.filter(f));
    }
}

proof fn lemma_next_action(
    v: RunnerView,
    host: EntityId,
    now: u64,
    tick_delay: u64,
    has_work: bool,
    next_tx: Option<u64>,
    deadline: Option<u64>,
)
    ensures
        keeps(v, v.next_action(host, now, tick_delay, has_work, next_tx, deadline)),
{
    let w = v.next_action(host, now, tick_delay, has_work, next_tx, deadline);
    let cleared = v.with_deadline(host, u64::MAX);
    lemma_timeouts_cancelled(cleared, host);
    lemma_timeouts_cancelled(v, host);
    if has_work {
        let tick = match next_tx {
            Some(t) => t,
            None => now.saturating_add(tick_delay),
        };
        lemma_scheduled(
            cleared.timeouts_cancelled(host),
            later(tick, now),
            EventKind::TxTick { host },
            host,
        );
        lemma_same_traffic_keeps(v, w);
    } else if let Some(at) = deadline {
        lemma_scheduled(
            v.timeouts_cancelled(host).with_deadline(host, at),
            at,
            EventKind::Timeout { timer_id: 0 },
            host,
        );
        lemma_same_traffic_keeps(v, w);
    } else {
        lemma_same_traffic_keeps(v, w);
    }
}

proof fn lemma_ticks<P: Protocol>(
    pre: RunnerView,
    post: RunnerView,
    before: P,
    after: P,
    host: EntityId,
    now: u64,
)
    requires
        ticks(pre, post, before, after, host, now),
    ensures
        keeps(pre, post),
{
    let (pkts, sent, next_tx, deadline) = choose|
        pkts: Seq<Packet>,
        sent: P,
        next_tx: Option<u64>,
        deadline: Option<u64>,
    | #[trigger]
        ticks_with(pre, post, before, after, host, now, pkts, sent, next_tx, deadline);
    let (chosen, up) = pre.picked(host, first_flow(pkts));
    lemma_picked(pre, host, first_flow(pkts));
    if let Some(up) = up {
        lemma_host_sent_all(chosen, host, up, pkts, now, pkts.len());
        lemma_next_action(
            chosen.host_sent_all(host, up, pkts, now, pkts.len()),
            host,
            chosen.last_departure(host, up, pkts, now, pkts.len()),
            pre.tx_tick_ns,
            after.has_work(),
            next_tx,
            deadline,
        );
    }
}

proof fn lemma_arrives<P: Protocol>(
    pre: RunnerView,
    post: RunnerView,
    before: P,
    after: P,
    pkt: Packet,
    host: EntityId,
    now: u64,
)
    requires
        arrives(pre, post, before, after, pkt, host, now),
    ensures
        keeps(pre, post),
{
    if pkt.kind is Data {
        let (replies, next_tx, deadline) = choose|
            replies: Seq<Packet>,
            next_tx: Option<u64>,
            deadline: Option<u64>,
        | #[trigger]
            data_arrives_with(
                pre,
                post,
                before,
                after,
                pkt,
                host,
                now,
                replies,
                next_tx,
                deadline,
            );
        let (chosen, up) = pre.picked(host, Some(pkt.flow_id));
        lemma_picked(pre, host, Some(pkt.flow_id));
        if let Some(up) = up {
            lemma_replied_all(chosen, host, up, replies, now, replies.len());
            lemma_next_action(
                chosen.replied_all(host, up, replies, now, replies.len()),
                host,
                now,
                0,
                after.has_work(),
                next_tx,
                deadline,
            );
        }
    } else {
        let (taken, finished, next_tx, deadline) = choose|
            taken: P,
            finished: Seq<(FlowId, u64)>,
            next_tx: Option<u64>,
            deadline: Option<u64>,
        | #[trigger]
            control_arrives_with(
                pre,
                post,
                before,
                after,
                pkt,
                host,
                now,
                taken,
                finished,
                next_tx,
                deadline,
            );
        let noted = RunnerView {
            fcts: with_finished(pre.fcts, finished, finished.len()),
            ..pre
        };
        lemma_same_traffic_keeps(pre, noted);
        lemma_next_action(noted, host, now, 0, after.has_work(), next_tx, deadline);
    }
}

/// An event other than an arrival is taken out of the queue without touching the packets; an
/// arrival is taken out together with its packet.
proof fn lemma_popped(v: RunnerView, ev: Event)
    requires
        all_accounted(v),
        v.sim.events.contains(ev),
    ensures
        !(ev.kind is PacketArrive) ==> all_accounted(v.popped(ev)),
        ev.kind matches EventKind::PacketArrive { packet_id, .. } ==> v.packets.at(packet_id) is Some
            && v.packets.at(packet_id)->0.id == packet_id && all_accounted(
            RunnerView { packets: v.packets.removed(packet_id), ..v.popped(ev) },
        ),
{
    let w = v.popped(ev);
    if let EventKind::PacketArrive { packet_id, .. } = ev.kind {
        assert(slot_accounted(v, packet_id));
        lemma_arrivals_remove(v.sim.events, ev, packet_id);
        let rest = RunnerView { packets: v.packets.removed(packet_id), ..w };
        assert forall|id: u64| #[trigger] slot_accounted(rest, id) by {
            assert(slot_accounted(v, id));
            lemma_arrivals_remove(v.sim.events, ev, id);
        }
        lemma_removed_wf(v.packets, packet_id);
    } else {
        assert forall|id: u64| #[trigger] slot_accounted(w, id) by {
            assert(slot_accounted(v, id));
            lemma_arrivals_remove(v.sim.events, ev, id);
        }
    }
}

proof fn lemma_removed_wf(s: SlabView, id: u64)
    requires
        s.wf(),
    ensures
        s.removed(id).wf(),
{
}

/// The settings that a turn does not change, and the clock, which does not go back.
pub open spec fn moves_on(pre: RunnerView, post: RunnerView) -> bool {
    &&& post.topo.hosts == pre.topo.hosts
    &&& post.topo.links == pre.topo.links
    &&& post.topo.uplinks == pre.topo.uplinks
    &&& post.topo.switches.len() == pre.topo.switches.len()
    &&& post.sim.clock >= pre.sim.clock
    &&& post.packets.wf()
    &&& pre.packets.slots.len() <= post.packets.slots.len()
}

/// A turn of the event loop forgets no packet: if every packet under way will arrive once, this
/// is so after the turn, whatever the protocols do, as long as the slots can be numbered. The
/// network stays as it is and the clock does not go back.
pub proof fn law_turn_keeps_packets<P: Protocol>(
    pre: RunnerView,
    post: RunnerView,
    before: Seq<P>,
    after: Seq<P>,
    until: u64,
)
    requires
        pre.packets.wf(),
        turned(pre, post, before, after, until),
    ensures
        moves_on(pre, post),
        all_accounted(pre) && post.packets.slots.len() <= u64::MAX ==> all_accounted(post),
{
    let (ev, mid) = choose|ev: Event, mid: RunnerView| #[trigger]
        turned_with(pre, post, before, after, until, ev, mid);
    let start = pre.popped(ev);
    assert(pre.sim.events.contains(ev));
    if all_accounted(pre) {
        lemma_popped(pre, ev);
    }
    lemma_same_traffic_keeps(start, start);
    match ev.kind {
        EventKind::FlowStart { src, .. } => {
            lemma_scheduled(start, ev.time, EventKind::TxTick { host: src }, src);
        },
        EventKind::TxTick { host } => {
            if host < before.len() {
                lemma_ticks(
                    start,
                    mid,
                    before[host as int],
                    after[host as int],
                    host,
                    ev.time,
                );
            }
        },
        EventKind::PacketDepart { port, .. } => {
            lemma_port_freed(start, ev.target, port, ev.time);
        },
        EventKind::PacketArrive { packet_id, .. } => {
            let rest = RunnerView { packets: start.packets.removed(packet_id), ..start };
            if let Some(pkt) = start.packets.at(packet_id) {
                if ev.target < start.topo.hosts.len() {
                    lemma_arrives(
                        rest,
                        mid,
                        before[ev.target as int],
                        after[ev.target as int],
                        pkt,
                        ev.target,
                        rest.processed_at(pkt, ev.target, ev.time),
                    );
                } else if all_accounted(pre) {
                    lemma_arrived_at_switch(rest, pkt, ev.target, ev.time);
                } else {
                    lemma_arrived_same_setting(rest, pkt, ev.target, ev.time);
                }
            }
        },
        EventKind::Timeout { .. } => {
            let fired = if ev.target < start.deadlines.len() {
                start.with_deadline(ev.target, u64::MAX)
            } else {
                start
            };
            lemma_same_traffic_keeps(start, fired);
            lemma_scheduled(fired, ev.time, EventKind::TxTick { host: ev.target }, ev.target);
        },
        EventKind::Stop => {
            let stopped = RunnerView {
                sim: SimulatorView { stopped: true, ..start.sim },
                ..start
            };
            lemma_same_traffic_keeps(start, stopped);
        },
        EventKind::Custom(_) => {},
    }
    if all_accounted(mid) {
        assert forall|id: u64| #[trigger] slot_accounted(post, id) by {
            assert(slot_accounted(mid, id));
        }
    }
}

proof fn lemma_arrived_same_setting(v: RunnerView, pkt: Packet, id: EntityId, now: u64)
    ensures
        v.same_setting(v.arrived_at_switch(pkt, id, now)),
        v.packets.wf() ==> v.arrived_at_switch(pkt, id, now).packets.wf() && v.packets.slots.len()
            <= v.arrived_at_switch(pkt, id, now).packets.slots.len(),
{
    if let Some(i) = v.switch_at(id) {
        lemma_last_switch_bounds(v.topo.switches, id, v.topo.switches.len() as int);
        let hash = pkt.src ^ pkt.dst ^ pkt.flow_id;
        let (sw, (port, dropped)) = v.topo.switches[i].after_ingress(pkt, hash);
        lemma_with_switch(v, i, sw);
        if let Some(p) = port {
            lemma_egressed(v.with_switch(i, sw), i, p, now);
        }
    }
}

/// A run forgets no packet: if every packet under way will arrive once, this is so after the run,
/// whatever the protocols do, as long as the slots can be numbered. The network stays as it is and
/// the clock does not go back.
pub proof fn law_run_keeps_packets<P: Protocol>(
    pre: RunnerView,
    post: RunnerView,
    before: Seq<P>,
    after: Seq<P>,
    until: u64,
    n: nat,
)
    requires
        pre.packets.wf(),
        ran(pre, post, before, after, until, n),
    ensures
        moves_on(pre, post),
        all_accounted(pre) && post.packets.slots.len() <= u64::MAX ==> all_accounted(post),
    decreases n,
{
    if n > 0 {
        let (mid, between) = choose|mid: RunnerView, between: Seq<P>| #[trigger]
            turned(mid, post, between, after, until) && ran(
                pre,
                mid,
                before,
                between,
                until,
                (n - 1) as nat,
            );
        law_run_keeps_packets(pre, mid, before, between, until, (n - 1) as nat);
        law_turn_keeps_packets(mid, post, between, after, until);
    }
}

/// Without packets and arrivals, as at the beginning, every packet under way will arrive.
pub proof fn law_no_packet_at_first(v: RunnerView)
    requires
        v.packets == (SlabView { slots: Seq::empty(), free: Seq::empty() }),
        forall|ev: Event| #[trigger] v.sim.events.contains(ev) ==> !(ev.kind is PacketArrive),
    ensures
        all_accounted(v),
{
    broadcast use vstd::multiset::group_multiset_axioms;

    assert forall|id: u64| #[trigger] slot_accounted(v, id) by {
        let mine = v.sim.events.filter(|ev: Event| is_arrival(ev, id));
        assert forall|ev: Event| mine.count(ev) == 0 by {
            if v.sim.events.count(ev) > 0 {
                assert(v.sim.events.contains(ev));
            }
        }
        assert(mine =~= Multiset::empty());
    }
}

/// The packets that a host puts on a link do not overlap: each starts when the link is free and has
/// left the NIC, and the link is busy until it is on the link.
pub proof fn law_host_packets_do_not_overlap(
    v: RunnerView,
    host: EntityId,
    up: HostUplink,
    pkt: Packet,
    now: u64,
)
    requires
        host < v.tx_busy.len(),
        up.link_to_switch < v.link_busy.len(),
    ensures
        ({
            let w = v.host_sent(host, up, pkt, now);
            let link = up.link_to_switch as int;
            let wire = wire_time(pkt.size, v.topo.links[link].bandwidth_bps);
            let depart = v.nic_time(host, pkt.size, now);
            &&& w.link_busy[link] == u64::MAX || w.link_busy[link] >= v.link_busy[link] + wire
            &&& w.link_busy[link] == u64::MAX || w.link_busy[link] >= depart + wire
            &&& w.tx_busy[host as int] == depart
            &&& depart >= now
            &&& depart >= v.tx_busy[host as int]
        }),
{
}

/// The packets that a switch sends from a port do not overlap: nothing is sent while the port is
/// busy, and a port that sends is busy until the packet is on the link.
pub proof fn law_switch_packets_do_not_overlap(v: RunnerView, i: int, port: u8, now: u64)
    requires
        v.wf(),
        0 <= i < v.topo.switches.len(),
        port < v.topo.switches[i].ports.len(),
    ensures
        ({
            let w = v.egressed(i, port, now);
            let p = v.topo.switches[i].ports[port as int];
            let q = w.topo.switches[i].ports[port as int];
            &&& p.busy_until > now ==> w.packets == v.packets && q.busy_until == p.busy_until
            &&& w.packets != v.packets ==> p.busy_until <= now && q.busy_until >= now
            &&& q.queue_bytes > 0 && q.busy_until > now ==> q.egress_pending
        }),
{
    let sw = v.topo.switches[i];
    assert(sw.wf());
    assert(sw.ports[port as int].wf());
    law_dequeue_keeps_shape(sw, port as int);
}

/// A host that goes on sending gets its next tick no earlier than asked.
pub proof fn law_tick_waits(
    v: RunnerView,
    host: EntityId,
    now: u64,
    tick_delay: u64,
    next_tx: Option<u64>,
    deadline: Option<u64>,
)
    ensures
        exists|ev: Event| #[trigger]
            v.next_action(host, now, tick_delay, true, next_tx, deadline).sim.events.contains(ev)
                && ev.time >= now && ev.target == host && ev.kind == (EventKind::TxTick { host }),
{
    broadcast use vstd::multiset::group_multiset_axioms;

    let tick = match next_tx {
        Some(t) => t,
        None => now.saturating_add(tick_delay),
    };
    let ready = v.with_deadline(host, u64::MAX).timeouts_cancelled(host);
    let ev = lifted(
        Event {
            time: later(tick, now),
            kind: EventKind::TxTick { host },
            target: host,
            seq: ready.next_seq,
        },
        ready.sim.clock,
    );
    assert(v.next_action(host, now, tick_delay, true, next_tx, deadline).sim.events.contains(ev));
}

} // verus!
