//! What holds of packets on their way through hosts, and of what is planned for hosts.
use crate::engine::event::{Event, EventKind};
use crate::network::packet::{FlowId, Packet, SeqNum};
use crate::nic::Protocol;
use crate::topology::HostUplink;
use crate::EntityId;
use vstd::prelude::*;

verus! {

use super::delays::{delay_of, HostDelay};
use super::host::{
    control_arrives_with, data_arrives_with, first_flow, ticks_with, told,
};
use super::state::{is_timeout, with_finished, RunnerView};
use super::switch_laws::{law_packet_goes_onto_link, plans, sum};
use super::dispatched;
use crate::engine::simulator::SimulatorView;
use crate::monitor::FlowFct;
use crate::network::link::wire_time;
use crate::network::packet::packet_views;
use crate::traffic::FlowDesc;
use vstd::multiset::Multiset;

/// The larger of two times.
pub open spec fn latest(a: u64, b: u64) -> u64 {
    if a < b {
        b
    } else {
        a
    }
}

/// How long a host takes before it copies a packet; nothing if the host is not listed.
pub open spec fn fixed_delay(delays: Seq<HostDelay>, host: EntityId) -> u64 {
    if host < delays.len() {
        delays[host as int].tx_fixed_ns
    } else {
        0
    }
}

/// How long a host takes to copy a packet; nothing if the host is not listed, or if copying is not
/// modelled.
pub open spec fn copy_time(delays: Seq<HostDelay>, host: EntityId, size: u32) -> u64 {
    if host < delays.len() && delays[host as int].dma_bps > 0 {
        wire_time(size, delays[host as int].dma_bps)
    } else {
        0
    }
}

/// How long a host takes to process a packet that comes in: what every packet costs, and the copying.
pub open spec fn intake_time(delays: Seq<HostDelay>, host: EntityId, size: u32) -> u64 {
    sum(
        if host < delays.len() {
            delays[host as int].rx_fixed_ns
        } else {
            0
        },
        copy_time(delays, host, size),
    )
}

/// The delays of a host are what is listed for it.
pub proof fn law_host_delays(delays: Seq<HostDelay>, host: EntityId, size: u32)
    ensures
        delay_of(delays, host).tx_fixed_ns == fixed_delay(delays, host),
        delay_of(delays, host).dma(size) == copy_time(delays, host, size),
        delay_of(delays, host).rx(size) == intake_time(delays, host, size),
{
}

/// A host uses one of its own connections, if it has any: always the first, or the one at the position
/// that the flow number leaves as a remainder, or each in turn. The turn is all that changes.
pub proof fn law_connection_is_picked(v: RunnerView, host: EntityId, hint: Option<FlowId>)
    requires
        host < v.turns.len(),
        v.topo.uplinks.len() <= usize::MAX,
    ensures
        ({
            let ups = v.topo.uplinks.filter(|u: HostUplink| u.host == host);
            let n = ups.len() as int;
            let (w, up) = v.picked(host, hint);
            let turn = v.turns[host as int] as int % n;
            &&& up is None <==> n == 0
            &&& up is Some ==> up->0.host == host
            &&& n > 0 && v.selector is First ==> up == Some(ups[0])
            &&& n > 0 && v.selector is FlowHash && hint is Some ==> up == Some(
                ups[hint->0 as int % n],
            )
            &&& n > 0 && v.selector is FlowHash && hint is None ==> up == Some(ups[0])
            &&& n > 0 && v.selector is RoundRobin ==> {
                &&& up == Some(ups[turn])
                &&& w.turns[host as int] == turn + 1
                &&& forall|o: int|
                    0 <= o < v.turns.len() && o != host ==> #[trigger] w.turns[o] == v.turns[o]
            }
            &&& !(v.selector is RoundRobin) ==> w == v
            &&& w == (RunnerView { turns: w.turns, ..v })
        }),
{
    let mine = |u: HostUplink| u.host == host;
    let ups = v.topo.uplinks.filter(mine);
    assert(ups == v.uplinks_of(host));
    let n = ups.len() as int;
    v.topo.uplinks.lemma_filter_len(mine);
    if n > 0 {
        let up = v.picked(host, hint).1->0;
        let t = v.turns[host as int] as int;
        let f = match hint {
            Some(id) => id as int,
            None => 0,
        };
        assert(0 <= t % n < n && 0 <= f % n < n) by (nonlinear_arith)
            requires
                n > 0,
                t >= 0,
                f >= 0,
        ;
        assert(0int % n == 0) by {
            vstd::arithmetic::div_mod::lemma_small_mod(0, n as nat);
        }
        assert(ups.contains(up));
        v.topo.uplinks.lemma_filter_contains_rev(mine, up);
        v.topo.uplinks.lemma_filter_pred(mine, ups.index_of(up));
    }
}

/// The connections of a host take turns: after the one at position `k` comes the one behind it, and
/// after the last the first.
pub proof fn law_connections_take_turns(
    v: RunnerView,
    host: EntityId,
    hint: Option<FlowId>,
    next_hint: Option<FlowId>,
)
    requires
        host < v.turns.len(),
        v.topo.uplinks.len() <= usize::MAX,
        v.selector is RoundRobin,
        v.topo.uplinks.filter(|u: HostUplink| u.host == host).len() > 0,
    ensures
        ({
            let ups = v.topo.uplinks.filter(|u: HostUplink| u.host == host);
            let n = ups.len() as int;
            let k = v.turns[host as int] as int % n;
            let (w, first) = v.picked(host, hint);
            let second = w.picked(host, next_hint).1;
            &&& 0 <= k < n
            &&& first == Some(ups[k])
            &&& second == Some(
                ups[if k + 1 < n {
                    k + 1
                } else {
                    0
                }],
            )
        }),
{
    let mine = |u: HostUplink| u.host == host;
    let ups = v.topo.uplinks.filter(mine);
    assert(ups == v.uplinks_of(host));
    v.topo.uplinks.lemma_filter_len(mine);
    let n = ups.len() as int;
    let t = v.turns[host as int] as int;
    let k = t % n;
    assert(0 <= k < n) by (nonlinear_arith)
        requires
            n > 0,
            t >= 0,
            k == t % n,
    ;
    if k + 1 < n {
        vstd::arithmetic::div_mod::lemma_small_mod((k + 1) as nat, n as nat);
    } else {
        vstd::arithmetic::div_mod::lemma_mod_self_0(n);
    }
}

/// A packet of a host waits for what every packet costs and for the copying of those before it; then it
/// is copied, and leaves the NIC with that time noted. It starts onto the link when that is free, and
/// arrives at the switch when it is on the link and has travelled along it. The time spent is added up.
pub proof fn law_packet_leaves_host(
    v: RunnerView,
    host: EntityId,
    up: HostUplink,
    pkt: Packet,
    now: u64,
)
    requires
        v.wf(),
        v.packets.slots.len() < u64::MAX,
        host < v.tx_busy.len(),
        up.link_to_switch < v.topo.links.len(),
    ensures
        ({
            let w = v.host_sent(host, up, pkt, now);
            let (h, link) = (host as int, up.link_to_switch as int);
            let fixed = fixed_delay(v.delays, host);
            let copy = copy_time(v.delays, host, pkt.size);
            let ready = sum(now, fixed);
            let start = latest(ready, v.tx_busy[h]);
            let depart = sum(start, copy);
            let l = v.topo.links[link];
            let on_link = sum(latest(v.link_busy[link], depart), wire_time(pkt.size, l.bandwidth_bps));
            let slot = v.packets.next_slot();
            &&& w.tx_busy[h] == depart
            &&& forall|o: int|
                0 <= o < v.tx_busy.len() && o != h ==> #[trigger] w.tx_busy[o] == v.tx_busy[o]
            &&& w.link_busy[link] == on_link
            &&& w.link_bytes[link] == sum(v.link_bytes[link], pkt.size as u64)
            &&& forall|k: int|
                0 <= k < v.topo.links.len() && k != link ==> #[trigger] w.link_bytes[k]
                    == v.link_bytes[k]
            &&& forall|k: int|
                0 <= k < v.topo.links.len() && k != link ==> #[trigger] w.link_busy[k]
                    == v.link_busy[k]
            &&& w.packets.at(slot) == Some(Packet { id: slot, depart_time: depart, ..pkt })
            &&& forall|o: u64| o != slot ==> #[trigger] w.packets.at(o) == v.packets.at(o)
            &&& plans(
                v,
                w,
                sum(on_link, l.prop_delay_ns),
                EventKind::PacketArrive { packet_id: slot, src: host },
                up.edge_switch,
            )
            &&& w.total_fixed_ns == sum(v.total_fixed_ns, fixed)
            &&& w.total_dma_ns == sum(v.total_dma_ns, copy)
            &&& w.total_wait_ns == sum(v.total_wait_ns, (start - ready) as u64)
            &&& w.max_depth_ns == if v.tx_busy[h] > now && v.tx_busy[h] - now > v.max_depth_ns {
                (v.tx_busy[h] - now) as u64
            } else {
                v.max_depth_ns
            }
            &&& v.nic_time(host, pkt.size, now) == depart
            &&& w.topo == v.topo && w.fcts == v.fcts && w.deadlines == v.deadlines && w.turns
                == v.turns && w.sim.clock == v.sim.clock
        }),
{
    let d = delay_of(v.delays, host);
    let depart = v.nic_time(host, pkt.size, now);
    let mid = RunnerView {
        total_fixed_ns: v.total_fixed_ns.saturating_add(d.tx_fixed_ns),
        total_dma_ns: v.total_dma_ns.saturating_add(d.dma(pkt.size)),
        total_wait_ns: v.total_wait_ns.saturating_add(
            v.dma_start(host, now).saturating_sub(now.saturating_add(d.tx_fixed_ns)),
        ),
        max_depth_ns: super::state::later(
            v.max_depth_ns,
            v.tx_busy[host as int].saturating_sub(now),
        ),
        tx_busy: v.tx_busy.update(host as int, depart),
        ..v
    };
    law_packet_goes_onto_link(
        mid,
        up.link_to_switch,
        Packet { depart_time: depart, ..pkt },
        super::state::later(v.link_busy[up.link_to_switch as int], depart),
        host,
        up.edge_switch,
    );
}

/// A reply of a host leaves at once: it starts onto the link when that is free, with the time of the
/// reply noted.
pub proof fn law_reply_leaves_host(
    v: RunnerView,
    host: EntityId,
    up: HostUplink,
    pkt: Packet,
    now: u64,
)
    requires
        v.wf(),
        v.packets.slots.len() < u64::MAX,
        up.link_to_switch < v.topo.links.len(),
    ensures
        ({
            let w = v.replied(host, up, pkt, now);
            let link = up.link_to_switch as int;
            let l = v.topo.links[link];
            let on_link = sum(latest(v.link_busy[link], now), wire_time(pkt.size, l.bandwidth_bps));
            let slot = v.packets.next_slot();
            &&& w.link_busy[link] == on_link
            &&& w.link_bytes[link] == sum(v.link_bytes[link], pkt.size as u64)
            &&& w.packets.at(slot) == Some(Packet { id: slot, depart_time: now, ..pkt })
            &&& plans(
                v,
                w,
                sum(on_link, l.prop_delay_ns),
                EventKind::PacketArrive { packet_id: slot, src: host },
                up.edge_switch,
            )
            &&& w.tx_busy == v.tx_busy && w.topo == v.topo && w.fcts == v.fcts
        }),
{
    law_packet_goes_onto_link(
        v,
        up.link_to_switch,
        Packet { depart_time: now, ..pkt },
        super::state::later(v.link_busy[up.link_to_switch as int], now),
        host,
        up.edge_switch,
    );
}

/// The bytes of the first `n` packets.
pub open spec fn bytes_of(pkts: Seq<Packet>, n: nat) -> int
    decreases n,
{
    if n == 0 {
        0
    } else {
        bytes_of(pkts, (n - 1) as nat) + pkts[n - 1].size
    }
}

proof fn lemma_sent_all(
    v: RunnerView,
    host: EntityId,
    up: HostUplink,
    pkts: Seq<Packet>,
    now: u64,
    n: nat,
)
    requires
        host < v.tx_busy.len(),
        up.link_to_switch < v.link_bytes.len(),
        n <= pkts.len(),
    ensures
        ({
            let w = v.host_sent_all(host, up, pkts, now, n);
            let link = up.link_to_switch as int;
            &&& w.tx_busy.len() == v.tx_busy.len()
            &&& w.delays == v.delays
            &&& w.link_bytes.len() == v.link_bytes.len()
            &&& n > 0 ==> w.tx_busy[host as int] == v.departure(host, up, pkts, now, n - 1)
            &&& n == 0 ==> w == v
            &&& v.link_bytes[link] + bytes_of(pkts, n) <= u64::MAX ==> w.link_bytes[link]
                == v.link_bytes[link] + bytes_of(pkts, n)
            &&& forall|k: int|
                0 <= k < v.link_bytes.len() && k != link ==> #[trigger] w.link_bytes[k]
                    == v.link_bytes[k]
            &&& w.sim.events.len() == v.sim.events.len() + n
            &&& w.topo == v.topo && w.fcts == v.fcts && w.deadlines == v.deadlines && w.sim.clock
                == v.sim.clock
            &&& 0 <= bytes_of(pkts, n)
        }),
    decreases n,
{
    broadcast use vstd::multiset::group_multiset_axioms;

    if n > 0 {
        lemma_sent_all(v, host, up, pkts, now, (n - 1) as nat);
    }
}

/// The packets that a host sends at one time leave the NIC one after the other, each when it is copied:
/// the first when the copying is free, and every other when the one before it has left. The link has
/// then carried all of their bytes, no other link anything, and each will arrive.
pub proof fn law_packets_leave_in_turn(
    v: RunnerView,
    host: EntityId,
    up: HostUplink,
    pkts: Seq<Packet>,
    now: u64,
    k: int,
)
    requires
        host < v.tx_busy.len(),
        up.link_to_switch < v.link_bytes.len(),
        0 <= k < pkts.len(),
    ensures
        ({
            let gone = v.departures(host, up, pkts, now);
            let free = if k == 0 {
                v.tx_busy[host as int]
            } else {
                gone[k - 1].2
            };
            let ready = sum(now, fixed_delay(v.delays, host));
            let w = v.host_sent_all(host, up, pkts, now, pkts.len());
            let link = up.link_to_switch as int;
            &&& gone.len() == pkts.len()
            &&& gone[k].0 == pkts[k].flow_id
            &&& gone[k].1 == pkts[k].seq
            &&& gone[k].2 == sum(latest(ready, free), copy_time(v.delays, host, pkts[k].size))
            &&& w.tx_busy[host as int] == gone[pkts.len() - 1].2
            &&& v.link_bytes[link] + bytes_of(pkts, pkts.len()) <= u64::MAX ==> w.link_bytes[link]
                == v.link_bytes[link] + bytes_of(pkts, pkts.len())
            &&& forall|o: int|
                0 <= o < v.link_bytes.len() && o != link ==> #[trigger] w.link_bytes[o]
                    == v.link_bytes[o]
            &&& w.sim.events.len() == v.sim.events.len() + pkts.len()
        }),
{
    lemma_sent_all(v, host, up, pkts, now, k as nat);
    lemma_sent_all(v, host, up, pkts, now, pkts.len());
}

/// The last departure is the latest of all departures, and `now` without a packet.
pub proof fn law_last_departure_is_latest(
    v: RunnerView,
    host: EntityId,
    up: HostUplink,
    pkts: Seq<Packet>,
    now: u64,
    n: nat,
)
    ensures
        v.last_departure(host, up, pkts, now, n) >= now,
        forall|k: int|
            0 <= k < n ==> #[trigger] v.departure(host, up, pkts, now, k) <= v.last_departure(
                host,
                up,
                pkts,
                now,
                n,
            ),
        v.last_departure(host, up, pkts, now, n) == now || exists|k: int|
            0 <= k < n && #[trigger] v.departure(host, up, pkts, now, k) == v.last_departure(
                host,
                up,
                pkts,
                now,
                n,
            ),
    decreases n,
{
    if n > 0 {
        law_last_departure_is_latest(v, host, up, pkts, now, (n - 1) as nat);
        assert(v.departure(host, up, pkts, now, n - 1) <= v.last_departure(host, up, pkts, now, n));
        if v.last_departure(host, up, pkts, now, n) == v.last_departure(
            host,
            up,
            pkts,
            now,
            (n - 1) as nat,
        ) && v.last_departure(host, up, pkts, now, n) != now {
            let k = choose|k: int|
                0 <= k < n - 1 && #[trigger] v.departure(host, up, pkts, now, k)
                    == v.last_departure(host, up, pkts, now, (n - 1) as nat);
            assert(v.departure(host, up, pkts, now, k) == v.last_departure(host, up, pkts, now, n));
        }
    }
}

proof fn lemma_replied_all(
    v: RunnerView,
    host: EntityId,
    up: HostUplink,
    pkts: Seq<Packet>,
    now: u64,
    n: nat,
)
    requires
        up.link_to_switch < v.link_bytes.len(),
        n <= pkts.len(),
    ensures
        ({
            let w = v.replied_all(host, up, pkts, now, n);
            let link = up.link_to_switch as int;
            &&& w.link_bytes.len() == v.link_bytes.len()
            &&& v.link_bytes[link] + bytes_of(pkts, n) <= u64::MAX ==> w.link_bytes[link]
                == v.link_bytes[link] + bytes_of(pkts, n)
            &&& forall|k: int|
                0 <= k < v.link_bytes.len() && k != link ==> #[trigger] w.link_bytes[k]
                    == v.link_bytes[k]
            &&& w.sim.events.len() == v.sim.events.len() + n
            &&& w.topo == v.topo && w.fcts == v.fcts && w.deadlines == v.deadlines && w.tx_busy
                == v.tx_busy && w.sim.clock == v.sim.clock
            &&& 0 <= bytes_of(pkts, n)
        }),
    decreases n,
{
    broadcast use vstd::multiset::group_multiset_axioms;

    if n > 0 {
        lemma_replied_all(v, host, up, pkts, now, (n - 1) as nat);
    }
}

/// All replies of a host go onto its link, which carries their bytes, and each will arrive.
pub proof fn law_replies_leave(
    v: RunnerView,
    host: EntityId,
    up: HostUplink,
    pkts: Seq<Packet>,
    now: u64,
)
    requires
        up.link_to_switch < v.link_bytes.len(),
    ensures
        ({
            let w = v.replied_all(host, up, pkts, now, pkts.len());
            let link = up.link_to_switch as int;
            &&& v.link_bytes[link] + bytes_of(pkts, pkts.len()) <= u64::MAX ==> w.link_bytes[link]
                == v.link_bytes[link] + bytes_of(pkts, pkts.len())
            &&& forall|k: int|
                0 <= k < v.link_bytes.len() && k != link ==> #[trigger] w.link_bytes[k]
                    == v.link_bytes[k]
            &&& w.sim.events.len() == v.sim.events.len() + pkts.len()
        }),
{
    lemma_replied_all(v, host, up, pkts, now, pkts.len());
}

/// The next action of a host. With something to send it gets a tick: when it may send next, or after
/// the delay if it is not paced, but not before `now`; no timeout is pending then. With nothing to send
/// it gets a timeout when the first packet times out, unless one is pending that is due by then; with
/// no packet in flight there is no timeout.
pub proof fn law_next_action_is_planned(
    v: RunnerView,
    host: EntityId,
    now: u64,
    tick_delay: u64,
    has_work: bool,
    next_tx: Option<u64>,
    deadline: Option<u64>,
)
    requires
        host < v.deadlines.len(),
    ensures
        ({
            let w = v.next_action(host, now, tick_delay, has_work, next_tx, deadline);
            let others = v.sim.events.filter(|ev: Event| !(ev.target == host && ev.kind is Timeout));
            let h = host as int;
            let tick = match next_tx {
                Some(t) => latest(now, t),
                None => sum(now, tick_delay),
            };
            &&& has_work ==> {
                &&& w.deadlines[h] == u64::MAX
                &&& w.sim.events == others.insert(
                    Event {
                        time: latest(tick, v.sim.clock),
                        kind: EventKind::TxTick { host },
                        target: host,
                        seq: v.next_seq,
                    },
                )
            }
            &&& !has_work && deadline is None ==> {
                &&& w.deadlines[h] == u64::MAX
                &&& w.sim.events == others
            }
            &&& !has_work && deadline is Some && v.deadlines[h] < u64::MAX && v.deadlines[h]
                <= deadline->0 ==> w == v
            &&& !has_work && deadline is Some && (v.deadlines[h] == u64::MAX || v.deadlines[h]
                > deadline->0) ==> {
                &&& w.deadlines[h] == deadline->0
                &&& w.sim.events == others.insert(
                    Event {
                        time: latest(deadline->0, v.sim.clock),
                        kind: EventKind::Timeout { timer_id: 0 },
                        target: host,
                        seq: v.next_seq,
                    },
                )
            }
            &&& forall|o: int|
                0 <= o < v.deadlines.len() && o != h ==> #[trigger] w.deadlines[o] == v.deadlines[o]
            &&& w == (RunnerView {
                sim: SimulatorView { events: w.sim.events, ..v.sim },
                next_seq: w.next_seq,
                deadlines: w.deadlines,
                ..v
            })
        }),
{
    let others = v.sim.events.filter(|ev: Event| !(ev.target == host && ev.kind is Timeout));
    assert(others =~= v.sim.events.filter(|ev: Event| !is_timeout(ev, host))) by {
        broadcast use vstd::multiset::group_multiset_axioms;

    }
}

/// A flow that starts is registered with the protocol of its source, at the time of the event, and the
/// source gets a tick at once. No other protocol is touched.
pub proof fn law_flow_start_is_registered<P: Protocol>(
    pre: RunnerView,
    post: RunnerView,
    before: Seq<P>,
    after: Seq<P>,
    ev: Event,
    flow_id: FlowId,
    src: EntityId,
    dst: EntityId,
    bytes: u64,
)
    requires
        dispatched(pre, post, before, after, ev),
        ev.kind == (EventKind::FlowStart { flow_id, src, dst, bytes }),
        src < before.len(),
    ensures
        before[src as int].started(&after[src as int], flow_id, dst, bytes, ev.time),
        after.len() == before.len(),
        forall|o: int| 0 <= o < before.len() && o != src ==> #[trigger] after[o] == before[o],
        plans(pre, post, ev.time, EventKind::TxTick { host: src }, src),
        post == (RunnerView {
            sim: SimulatorView { events: post.sim.events, ..pre.sim },
            next_seq: post.next_seq,
            ..pre
        }),
{
}

/// A timeout that fires leaves none pending and gives the host a tick at once. The end of the simulation
/// is noted, and an event of another kind changes nothing.
pub proof fn law_other_events<P: Protocol>(
    pre: RunnerView,
    post: RunnerView,
    before: Seq<P>,
    after: Seq<P>,
    ev: Event,
)
    requires
        dispatched(pre, post, before, after, ev),
        ev.kind is Timeout || ev.kind is Stop || ev.kind is Custom,
    ensures
        after == before,
        ev.kind is Timeout ==> {
            &&& plans(pre, post, ev.time, EventKind::TxTick { host: ev.target }, ev.target)
            &&& ev.target < pre.deadlines.len() ==> post.deadlines =~= pre.deadlines.update(
                ev.target as int,
                u64::MAX,
            )
            &&& post == (RunnerView {
                sim: SimulatorView { events: post.sim.events, ..pre.sim },
                next_seq: post.next_seq,
                deadlines: post.deadlines,
                ..pre
            })
        },
        ev.kind is Stop ==> post.sim.stopped && post == (RunnerView {
            sim: SimulatorView { stopped: true, ..pre.sim },
            ..pre
        }),
        ev.kind is Custom ==> post == pre,
{
}

/// What is planned for a host whose protocol stands at `p` after it has acted at `at` and then answers
/// `next_tx` and `deadline`. With something to send a tick is pending, when it may send next, or after the
/// delay if it is not paced, and no timeout. With nothing to send a timeout is due by the deadline, if
/// there is one.
pub open spec fn plans_for_host<P: Protocol>(
    post: RunnerView,
    host: EntityId,
    p: P,
    at: u64,
    delay: u64,
    next_tx: Option<u64>,
    deadline: Option<u64>,
) -> bool {
    let h = host as int;
    let tick = match next_tx {
        Some(t) => latest(at, t),
        None => sum(at, delay),
    };
    &&& p.paced_until(next_tx)
    &&& p.times_out(deadline)
    &&& p.has_work() ==> post.deadlines[h] == u64::MAX && tick_is_pending(
        post.sim.events,
        latest(tick, post.sim.clock),
        host,
    )
    &&& !p.has_work() && deadline is None ==> post.deadlines[h] == u64::MAX
    &&& !p.has_work() && deadline is Some ==> post.deadlines[h] <= deadline->0
}

/// A tick of a host.
pub open spec fn tick_event(time: u64, host: EntityId, seq: u64) -> Event {
    Event { time, kind: EventKind::TxTick { host }, target: host, seq }
}

/// A tick of the host at `time` is among the events.
pub open spec fn tick_is_pending(events: Multiset<Event>, time: u64, host: EntityId) -> bool {
    exists|seq: u64| #[trigger] events.contains(tick_event(time, host, seq))
}

/// The next action of a host is planned as its protocol asks for it.
pub open spec fn next_is_planned<P: Protocol>(
    post: RunnerView,
    host: EntityId,
    p: P,
    at: u64,
    delay: u64,
) -> bool {
    exists|next_tx: Option<u64>, deadline: Option<u64>| #[trigger]
        plans_for_host(post, host, p, at, delay, next_tx, deadline)
}

proof fn lemma_plans_for_host<P: Protocol>(
    v: RunnerView,
    host: EntityId,
    p: P,
    at: u64,
    delay: u64,
    next_tx: Option<u64>,
    deadline: Option<u64>,
)
    requires
        host < v.deadlines.len(),
        p.paced_until(next_tx),
        p.times_out(deadline),
    ensures
        next_is_planned(
            v.next_action(host, at, delay, p.has_work(), next_tx, deadline),
            host,
            p,
            at,
            delay,
        ),
{
    broadcast use vstd::multiset::group_multiset_axioms;

    law_next_action_is_planned(v, host, at, delay, p.has_work(), next_tx, deadline);
    let w = v.next_action(host, at, delay, p.has_work(), next_tx, deadline);
    let tick = match next_tx {
        Some(t) => latest(at, t),
        None => sum(at, delay),
    };
    if p.has_work() {
        let time = latest(tick, w.sim.clock);
        assert(w.sim.events.contains(tick_event(time, host, v.next_seq)));
        assert(tick_is_pending(w.sim.events, time, host));
    }
    assert(plans_for_host(w, host, p, at, delay, next_tx, deadline));
}

/// On a tick of a host its protocol is asked for packets at the time of the event. They all go onto one
/// connection of the host, whose link carries their bytes, and the protocol is told when each of them has
/// left the NIC. The next action of the host is planned from when the last of them has left. No other
/// protocol is touched.
pub proof fn law_tick_sends_packets<P: Protocol>(
    pre: RunnerView,
    post: RunnerView,
    before: Seq<P>,
    after: Seq<P>,
    ev: Event,
    host: EntityId,
)
    requires
        dispatched(pre, post, before, after, ev),
        ev.kind == (EventKind::TxTick { host }),
        pre.wf(),
        host < before.len(),
        host < pre.topo.hosts.len(),
        pre.topo.uplinks.len() <= usize::MAX,
    ensures
        after.len() == before.len(),
        forall|o: int| 0 <= o < before.len() && o != host ==> #[trigger] after[o] == before[o],
        exists|pkts: Seq<Packet>, sent: P| #[trigger]
            before[host as int].ticked(&sent, ev.time, packet_views(pkts)) && tick_outcome(
                pre,
                post,
                sent,
                after[host as int],
                host,
                pkts,
                ev.time,
            ),
{
    let h = host as int;
    let (pkts, sent, next_tx, deadline) = choose|
        pkts: Seq<Packet>,
        sent: P,
        next_tx: Option<u64>,
        deadline: Option<u64>,
    | #[trigger]
        ticks_with(pre, post, before[h], after[h], host, ev.time, pkts, sent, next_tx, deadline);
    law_connection_is_picked(pre, host, first_flow(pkts));
    let (chosen, up) = pre.picked(host, first_flow(pkts));
    if let Some(u) = up {
        assert(pre.uplinks_of(host).contains(u)) by {
            let ups = pre.uplinks_of(host);
            let n = ups.len() as int;
            let t = pre.turns[h] as int;
            let f = match first_flow(pkts) {
                Some(id) => id as int,
                None => 0,
            };
            assert(0 <= t % n < n && 0 <= f % n < n) by (nonlinear_arith)
                requires
                    n > 0,
                    t >= 0,
                    f >= 0,
            ;
        }
        pre.topo.uplinks.lemma_filter_contains_rev(|u: HostUplink| u.host == host, u);
        let k = pre.topo.uplinks.index_of(u);
        assert(pre.topo.uplinks[k] == u);
        assert(u.link_to_switch < pre.topo.links.len());
        lemma_sent_all(chosen, host, u, pkts, ev.time, pkts.len());
        law_next_action_is_planned(
            chosen.host_sent_all(host, u, pkts, ev.time, pkts.len()),
            host,
            chosen.last_departure(host, u, pkts, ev.time, pkts.len()),
            pre.tx_tick_ns,
            after[h].has_work(),
            next_tx,
            deadline,
        );
        lemma_plans_for_host(
            chosen.host_sent_all(host, u, pkts, ev.time, pkts.len()),
            host,
            after[h],
            chosen.last_departure(host, u, pkts, ev.time, pkts.len()),
            pre.tx_tick_ns,
            next_tx,
            deadline,
        );
    }
    assert(before[h].ticked(&sent, ev.time, packet_views(pkts)) && tick_outcome(
        pre,
        post,
        sent,
        after[h],
        host,
        pkts,
        ev.time,
    ));
}

/// What a tick of a host makes of the packets that its protocol has given out.
pub open spec fn tick_outcome<P: Protocol>(
    pre: RunnerView,
    post: RunnerView,
    sent: P,
    told_all: P,
    host: EntityId,
    pkts: Seq<Packet>,
    now: u64,
) -> bool {
    let hint = if pkts.len() > 0 {
        Some(pkts[0].flow_id)
    } else {
        None
    };
    let (chosen, up) = pre.picked(host, hint);
    &&& up is None ==> told_all == sent && post.link_bytes == pre.link_bytes
    &&& up is Some ==> {
        let link = up->0.link_to_switch as int;
        &&& told(sent, told_all, chosen.departures(host, up->0, pkts, now), pkts.len())
        &&& next_is_planned(
            post,
            host,
            told_all,
            chosen.last_departure(host, up->0, pkts, now, pkts.len()),
            pre.tx_tick_ns,
        )
        &&& pre.link_bytes[link] + bytes_of(pkts, pkts.len()) <= u64::MAX ==> post.link_bytes[link]
            == pre.link_bytes[link] + bytes_of(pkts, pkts.len())
        &&& forall|k: int|
            0 <= k < pre.link_bytes.len() && k != link ==> #[trigger] post.link_bytes[k]
                == pre.link_bytes[k]
    }
}

/// A data packet that arrives at a host is handed to its protocol when it has been taken in. What the protocol replies goes onto one connection of the host. No other protocol is touched.
pub proof fn law_data_reaches_protocol<P: Protocol>(
    pre: RunnerView,
    post: RunnerView,
    before: Seq<P>,
    after: Seq<P>,
    ev: Event,
    packet_id: u64,
    from: EntityId,
    pkt: Packet,
)
    requires
        dispatched(pre, post, before, after, ev),
        ev.kind == (EventKind::PacketArrive { packet_id, src: from }),
        pre.packets.at(packet_id) == Some(pkt),
        pkt.kind is Data,
        pre.wf(),
        ev.target < pre.topo.hosts.len(),
        ev.target < before.len(),
        pre.topo.uplinks.len() <= usize::MAX,
    ensures
        after.len() == before.len(),
        forall|o: int| 0 <= o < before.len() && o != ev.target ==> #[trigger] after[o] == before[o],
        exists|replies: Seq<Packet>| #[trigger]
            before[ev.target as int].took_data(
                &after[ev.target as int],
                pkt@,
                sum(ev.time, intake_time(pre.delays, ev.target, pkt.size)),
                packet_views(replies),
            ) && reply_outcome(
                pre,
                post,
                after[ev.target as int],
                ev.target,
                pkt.flow_id,
                sum(ev.time, intake_time(pre.delays, ev.target, pkt.size)),
                replies,
            ),
{
    let h = ev.target as int;
    let rest = RunnerView { packets: pre.packets.removed(packet_id), ..pre };
    let at = rest.processed_at(pkt, ev.target, ev.time);
    let (replies, next_tx, deadline) = choose|
        replies: Seq<Packet>,
        next_tx: Option<u64>,
        deadline: Option<u64>,
    | #[trigger]
        data_arrives_with(
            rest,
            post,
            before[h],
            after[h],
            pkt,
            ev.target,
            at,
            replies,
            next_tx,
            deadline,
        );
    law_connection_is_picked(rest, ev.target, Some(pkt.flow_id));
    assert(pre.uplinks_of(ev.target) == rest.uplinks_of(ev.target));
    let (chosen, up) = rest.picked(ev.target, Some(pkt.flow_id));
    if let Some(u) = up {
        assert(pre.uplinks_of(ev.target).contains(u)) by {
            let n = pre.uplinks_of(ev.target).len() as int;
            let t = pre.turns[h] as int;
            let f = pkt.flow_id as int;
            assert(0 <= t % n < n && 0 <= f % n < n) by (nonlinear_arith)
                requires
                    n > 0,
                    t >= 0,
                    f >= 0,
            ;
        }
        pre.topo.uplinks.lemma_filter_contains_rev(|u: HostUplink| u.host == ev.target, u);
        let k = pre.topo.uplinks.index_of(u);
        assert(pre.topo.uplinks[k] == u);
        lemma_replied_all(chosen, ev.target, u, replies, at, replies.len());
        law_next_action_is_planned(
            chosen.replied_all(ev.target, u, replies, at, replies.len()),
            ev.target,
            at,
            0,
            after[h].has_work(),
            next_tx,
            deadline,
        );
        lemma_plans_for_host(
            chosen.replied_all(ev.target, u, replies, at, replies.len()),
            ev.target,
            after[h],
            at,
            0,
            next_tx,
            deadline,
        );
    }
    assert(before[h].took_data(
        &after[h],
        pkt@,
        sum(ev.time, intake_time(pre.delays, ev.target, pkt.size)),
        packet_views(replies),
    ) && reply_outcome(pre, post, after[h], ev.target, pkt.flow_id, at, replies));
}

/// What becomes of the replies of a host to a packet of flow `flow_id`: the link of the connection that is
/// picked for the flow carries their bytes, and no other link anything. The next action of the host is
/// planned from then on, without a delay.
pub open spec fn reply_outcome<P: Protocol>(
    pre: RunnerView,
    post: RunnerView,
    after: P,
    host: EntityId,
    flow_id: FlowId,
    at: u64,
    replies: Seq<Packet>,
) -> bool {
    let up = pre.picked(host, Some(flow_id)).1;
    &&& up is None ==> post.link_bytes == pre.link_bytes
    &&& up is Some ==> {
        let link = up->0.link_to_switch as int;
        &&& next_is_planned(post, host, after, at, 0)
        &&& pre.link_bytes[link] + bytes_of(replies, replies.len()) <= u64::MAX
            ==> post.link_bytes[link] == pre.link_bytes[link] + bytes_of(replies, replies.len())
        &&& forall|k: int|
            0 <= k < pre.link_bytes.len() && k != link ==> #[trigger] post.link_bytes[k]
                == pre.link_bytes[k]
    }
}

/// A control packet that arrives at a host is handed to its protocol when it has been taken in. The flows
/// that the protocol then hands out as complete are recorded, and the next action of the host is planned
/// from then on, without a delay. No other protocol is touched, and nothing goes onto a link.
pub proof fn law_control_reaches_protocol<P: Protocol>(
    pre: RunnerView,
    post: RunnerView,
    before: Seq<P>,
    after: Seq<P>,
    ev: Event,
    packet_id: u64,
    from: EntityId,
    pkt: Packet,
)
    requires
        dispatched(pre, post, before, after, ev),
        ev.kind == (EventKind::PacketArrive { packet_id, src: from }),
        pre.packets.at(packet_id) == Some(pkt),
        pkt.kind is Control,
        ev.target < pre.topo.hosts.len(),
        ev.target < before.len(),
        ev.target < pre.deadlines.len(),
    ensures
        after.len() == before.len(),
        forall|o: int| 0 <= o < before.len() && o != ev.target ==> #[trigger] after[o] == before[o],
        post.link_bytes == pre.link_bytes && post.link_busy == pre.link_busy,
        post.packets == pre.packets.removed(packet_id),
        exists|taken: P, finished: Seq<(FlowId, u64)>|
            before[ev.target as int].took_control(
                &taken,
                pkt@,
                sum(ev.time, intake_time(pre.delays, ev.target, pkt.size)),
            ) && #[trigger] taken.finishes(&after[ev.target as int], finished) && post.fcts
                == with_finished(pre.fcts, finished, finished.len()),
        next_is_planned(
            post,
            ev.target,
            after[ev.target as int],
            sum(ev.time, intake_time(pre.delays, ev.target, pkt.size)),
            0,
        ),
{
    let h = ev.target as int;
    let rest = RunnerView { packets: pre.packets.removed(packet_id), ..pre };
    let at = rest.processed_at(pkt, ev.target, ev.time);
    let (taken, finished, next_tx, deadline) = choose|
        taken: P,
        finished: Seq<(FlowId, u64)>,
        next_tx: Option<u64>,
        deadline: Option<u64>,
    | #[trigger]
        control_arrives_with(
            rest,
            post,
            before[h],
            after[h],
            pkt,
            ev.target,
            at,
            taken,
            finished,
            next_tx,
            deadline,
        );
    assert(taken.finishes(&after[h], finished));
    lemma_plans_for_host(
        RunnerView { fcts: with_finished(rest.fcts, finished, finished.len()), ..rest },
        ev.target,
        after[h],
        at,
        0,
        next_tx,
        deadline,
    );
    law_next_action_is_planned(
        RunnerView { fcts: with_finished(rest.fcts, finished, finished.len()), ..rest },
        ev.target,
        at,
        0,
        after[h].has_work(),
        next_tx,
        deadline,
    );
}

/// A packet that is not under way any more does nothing when it would arrive.
pub proof fn law_gone_packet_does_nothing<P: Protocol>(
    pre: RunnerView,
    post: RunnerView,
    before: Seq<P>,
    after: Seq<P>,
    ev: Event,
    packet_id: u64,
    from: EntityId,
)
    requires
        dispatched(pre, post, before, after, ev),
        ev.kind == (EventKind::PacketArrive { packet_id, src: from }),
        pre.packets.at(packet_id) is None,
    ensures
        post == pre,
        after == before,
{
}

/// The first completion of a flow that has no finish time is recorded with its time; a flow that has one
/// keeps it, and a flow that is not reported does not change.
pub proof fn law_first_completion_counts(
    fcts: Seq<FlowFct>,
    finished: Seq<(FlowId, u64)>,
    n: nat,
    id: FlowId,
)
    requires
        n <= finished.len(),
        id < fcts.len(),
        forall|k: int| 0 <= k < finished.len() ==> (#[trigger] finished[k]).1 > 0,
    ensures
        ({
            let (f, g) = (fcts[id as int], with_finished(fcts, finished, n)[id as int]);
            &&& with_finished(fcts, finished, n).len() == fcts.len()
            &&& g == (FlowFct { finish_ns: g.finish_ns, ..f })
            &&& f.finish_ns > 0 ==> g == f
            &&& (forall|k: int| 0 <= k < n ==> (#[trigger] finished[k]).0 != id) ==> g == f
            &&& f.finish_ns == 0 ==> forall|k: int|
                0 <= k < n && (#[trigger] finished[k]).0 == id && (forall|j: int|
                    0 <= j < k ==> (#[trigger] finished[j]).0 != id) ==> g.finish_ns == finished[k].1
        }),
    decreases n,
{
    if n > 0 {
        law_first_completion_counts(fcts, finished, (n - 1) as nat, id);
        let before = with_finished(fcts, finished, (n - 1) as nat);
        let f = fcts[id as int];
        assert forall|k: int|
            0 <= k < n && (#[trigger] finished[k]).0 == id && (forall|j: int|
                0 <= j < k ==> (#[trigger] finished[j]).0 != id) && f.finish_ns
                == 0 implies with_finished(fcts, finished, n)[id as int].finish_ns
            == finished[k].1 by {
            if k < n - 1 {
                assert(before[id as int].finish_ns == finished[k].1);
                assert(finished[k].1 > 0);
            }
        }
        if before[id as int].finish_ns > 0 && finished[n - 1].0 == id {
            assert(with_finished(fcts, finished, n) == before);
        }
    }
}

/// What is planned for the beginning of flow `f`.
pub open spec fn start_event(f: FlowDesc, clock: u64, seq: u64) -> Event {
    Event {
        time: latest(f.start_time_ns, clock),
        kind: EventKind::FlowStart { flow_id: f.flow_id, src: f.src, dst: f.dst, bytes: f.bytes },
        target: f.src,
        seq,
    }
}

/// The beginning of flow `f` is among the events.
pub open spec fn start_is_planned(events: Multiset<Event>, f: FlowDesc, clock: u64) -> bool {
    exists|seq: u64| #[trigger] events.contains(start_event(f, clock, seq))
}

/// Flows with numbers of their own that are announced are all recorded, with their start and their bytes,
/// and each is planned to start at its source at its time. A record between them that no flow has bears
/// another number than its position. Nothing else changes.
pub proof fn law_flows_are_announced(v: RunnerView, flows: Seq<FlowDesc>, n: nat)
    requires
        n <= flows.len(),
        forall|i: int, j: int|
            0 <= i < j < flows.len() ==> (#[trigger] flows[i]).flow_id != (
            #[trigger] flows[j]).flow_id,
    ensures
        ({
            let w = v.with_flows(flows, n);
            &&& forall|k: int|
                0 <= k < n ==> (#[trigger] flows[k]).flow_id < w.fcts.len()
                    && w.fcts[flows[k].flow_id as int] == (FlowFct {
                    flow_id: flows[k].flow_id,
                    start_ns: flows[k].start_time_ns,
                    finish_ns: 0,
                    bytes: flows[k].bytes,
                })
            &&& w.fcts.len() >= v.fcts.len()
            &&& forall|id: int|
                0 <= id < v.fcts.len() && (forall|k: int|
                    0 <= k < n ==> (#[trigger] flows[k]).flow_id != id) ==> #[trigger] w.fcts[id]
                    == v.fcts[id]
            &&& forall|id: int|
                v.fcts.len() <= id < w.fcts.len() && (forall|k: int|
                    0 <= k < n ==> (#[trigger] flows[k]).flow_id != id) ==> (
                #[trigger] w.fcts[id]).flow_id == u32::MAX
            &&& forall|k: int|
                0 <= k < n ==> start_is_planned(w.sim.events, #[trigger] flows[k], v.sim.clock)
            &&& w.sim.events.len() == v.sim.events.len() + n
            &&& w.sim.clock == v.sim.clock
            &&& w == (RunnerView {
                fcts: w.fcts,
                sim: SimulatorView { events: w.sim.events, ..v.sim },
                next_seq: w.next_seq,
                ..v
            })
        }),
    decreases n,
{
    broadcast use vstd::multiset::group_multiset_axioms;

    if n > 0 {
        law_flows_are_announced(v, flows, (n - 1) as nat);
        let before = v.with_flows(flows, (n - 1) as nat);
        let w = v.with_flows(flows, n);
        let last = flows[n - 1];
        assert forall|k: int| 0 <= k < n implies (#[trigger] flows[k]).flow_id < w.fcts.len()
            && w.fcts[flows[k].flow_id as int] == (FlowFct {
            flow_id: flows[k].flow_id,
            start_ns: flows[k].start_time_ns,
            finish_ns: 0,
            bytes: flows[k].bytes,
        }) by {
            if k < n - 1 {
                assert(flows[k].flow_id != flows[n - 1].flow_id);
                assert(flows[k].flow_id < before.fcts.len());
            }
        }
        assert forall|id: int|
            0 <= id < v.fcts.len() && (forall|k: int|
                0 <= k < n ==> (#[trigger] flows[k]).flow_id != id) implies #[trigger] w.fcts[id]
            == v.fcts[id] by {
            assert(flows[n - 1].flow_id != id);
            assert(before.fcts[id] == v.fcts[id]);
        }
        assert forall|id: int|
            v.fcts.len() <= id < w.fcts.len() && (forall|k: int|
                0 <= k < n ==> (#[trigger] flows[k]).flow_id != id) implies (
        #[trigger] w.fcts[id]).flow_id == u32::MAX by {
            assert(flows[n - 1].flow_id != id);
            if id < before.fcts.len() {
                assert(before.fcts[id].flow_id == u32::MAX);
                assert(w.fcts[id] == before.fcts[id]);
            }
        }
        assert forall|k: int| 0 <= k < n implies start_is_planned(
            w.sim.events,
            #[trigger] flows[k],
            v.sim.clock,
        ) by {
            if k < n - 1 {
                assert(start_is_planned(before.sim.events, flows[k], v.sim.clock));
                let seq = choose|seq: u64| #[trigger]
                    before.sim.events.contains(start_event(flows[k], v.sim.clock, seq));
                assert(w.sim.events.contains(start_event(flows[k], v.sim.clock, seq)));
            } else {
                assert(w.sim.events.contains(start_event(last, v.sim.clock, before.next_seq)));
            }
        }
    }
}

/// A protocol is told of the departures one after the other, of each with its flow, its number and the time
/// at which the packet has left.
pub proof fn law_departures_are_told<P: Protocol>(
    pre: P,
    post: P,
    departures: Seq<(FlowId, SeqNum, u64)>,
    n: nat,
)
    requires
        told(pre, post, departures, n),
    ensures
        n == 0 ==> post == pre,
        n == 1 ==> pre.noted_departure(&post, departures[0].0, departures[0].1, departures[0].2),
        n > 0 ==> exists|mid: P|
            told(pre, mid, departures, (n - 1) as nat) && #[trigger] mid.noted_departure(
                &post,
                departures[n - 1].0,
                departures[n - 1].1,
                departures[n - 1].2,
            ),
{
    reveal_with_fuel(told, 2);
    if n > 0 {
        let mid = choose|mid: P| #[trigger]
            super::host::told_one(mid, post, departures[n - 1]) && told(
                pre,
                mid,
                departures,
                (n - 1) as nat,
            );
        assert(mid.noted_departure(
            &post,
            departures[n - 1].0,
            departures[n - 1].1,
            departures[n - 1].2,
        ));
    }
}

} // verus!
