//! What holds of the event loop and of the summary of a simulation.
use crate::engine::event::Event;
use crate::monitor::FlowFct;
use crate::nic::Protocol;
use crate::EntityId;
use vstd::prelude::*;

verus! {

use super::state::RunnerView;
use crate::error::decimal;
use super::{
    announced, connection_error, deepest_port, deepest_queue, dispatched, fresh_runner,
    marks_and_drops, ran, sent_by, summary_of, turned, turned_with,
};
use crate::monitor::flow_summary;
use crate::network::switch::{PortView, SwitchView};
use crate::topology::laws::{law_first_connection_is_found, law_first_switch_is_found};
use crate::topology::{switch_from, uplink_from, TopologyView};

/// A turn of the event loop takes an event that no other event precedes, neither in time nor, at the
/// same time, by its number; it is not later than asked, and the simulation had not been stopped. The
/// event is gone, one more is counted, and the clock stands at its time unless it was later already.
/// What then happens is what the event does, and a sample if one is due.
pub proof fn law_turn_takes_first_event<P: Protocol>(
    pre: RunnerView,
    post: RunnerView,
    before: Seq<P>,
    after: Seq<P>,
    until: u64,
)
    requires
        turned(pre, post, before, after, until),
        pre.sim.processed < u64::MAX,
    ensures
        !pre.sim.stopped,
        exists|ev: Event, start: RunnerView, mid: RunnerView|
            {
                &&& pre.sim.events.contains(ev)
                &&& ev.time <= until
                &&& forall|o: Event| #[trigger]
                    pre.sim.events.contains(o) ==> ev.time < o.time || (ev.time == o.time && ev.seq
                        <= o.seq)
                &&& start.sim.events == pre.sim.events.remove(ev)
                &&& start.sim.clock == if ev.time > pre.sim.clock {
                    ev.time
                } else {
                    pre.sim.clock
                }
                &&& start.sim.processed == pre.sim.processed + 1
                &&& start == (RunnerView {
                    sim: crate::engine::simulator::SimulatorView {
                        events: start.sim.events,
                        clock: start.sim.clock,
                        processed: start.sim.processed,
                        ..pre.sim
                    },
                    ..pre
                })
                &&& #[trigger] dispatched(start, mid, before, after, ev)
                &&& post == (RunnerView {
                    sampler: mid.sampler.after(mid.sim.clock, mid.link_bytes, mid.topo),
                    ..mid
                })
            },
{
    let (ev, mid) = choose|ev: Event, mid: RunnerView| #[trigger]
        turned_with(pre, post, before, after, until, ev, mid);
    let start = pre.popped(ev);
    assert forall|o: Event| #[trigger] pre.sim.events.contains(o) implies ev.time < o.time || (
    ev.time == o.time && ev.seq <= o.seq) by {
        assert(!crate::engine::event::before(o, ev));
    }
    assert(dispatched(start, mid, before, after, ev));
}

/// No turn is taken when the simulation was stopped, when no event is pending, or when every event is
/// later than asked.
pub proof fn law_nothing_left_to_turn<P: Protocol>(
    pre: RunnerView,
    post: RunnerView,
    before: Seq<P>,
    after: Seq<P>,
    until: u64,
)
    requires
        pre.sim.stopped || forall|ev: Event| #[trigger] pre.sim.events.contains(ev) ==> ev.time > until,
    ensures
        !turned(pre, post, before, after, until),
{
    if turned(pre, post, before, after, until) {
        let (ev, mid) = choose|ev: Event, mid: RunnerView| #[trigger]
            turned_with(pre, post, before, after, until, ev, mid);
        assert(pre.sim.events.contains(ev));
    }
}

/// A run is its turns one after the other: it can be cut into a run and one more turn.
pub proof fn law_run_is_turns<P: Protocol>(
    pre: RunnerView,
    post: RunnerView,
    before: Seq<P>,
    after: Seq<P>,
    until: u64,
    n: nat,
)
    requires
        ran(pre, post, before, after, until, n),
    ensures
        n == 0 ==> post == pre && after == before,
        n > 0 ==> exists|mid: RunnerView, between: Seq<P>|
            ran(pre, mid, before, between, until, (n - 1) as nat) && #[trigger] turned(
                mid,
                post,
                between,
                after,
                until,
            ),
{
}

/// A simulation begins at time zero, without events, packets and flows, with every link and host free.
pub proof fn law_simulation_begins(topo: TopologyView, name: Seq<char>, index: Seq<usize>)
    ensures
        ({
            let v = fresh_runner(topo, name, index);
            &&& v.sim.clock == 0 && v.sim.events.len() == 0 && v.sim.processed == 0 && !v.sim.stopped
            &&& v.next_seq == 0
            &&& v.topo == topo && v.name == name && v.index == index
            &&& v.link_busy.len() == topo.links.len() && v.link_bytes.len() == topo.links.len()
            &&& forall|i: int| 0 <= i < topo.links.len() ==> #[trigger] v.link_busy[i] == 0
            &&& forall|i: int| 0 <= i < topo.links.len() ==> #[trigger] v.link_bytes[i] == 0
            &&& v.tx_busy.len() == topo.hosts.len() && v.turns.len() == topo.hosts.len()
                && v.deadlines.len() == topo.hosts.len()
            &&& forall|i: int| 0 <= i < topo.hosts.len() ==> #[trigger] v.tx_busy[i] == 0
            &&& forall|i: int| 0 <= i < topo.hosts.len() ==> #[trigger] v.turns[i] == 0
            &&& forall|i: int| 0 <= i < topo.hosts.len() ==> #[trigger] v.deadlines[i] == u64::MAX
            &&& v.packets.slots.len() == 0 && v.packets.free.len() == 0 && v.fcts.len() == 0
            &&& v.total_fixed_ns == 0 && v.total_dma_ns == 0 && v.total_wait_ns == 0
                && v.max_depth_ns == 0
            &&& v.selector is First && v.delays.len() == 0 && v.tx_tick_ns == 200
            &&& !v.sampler.enabled
        }),
{
    broadcast use vstd::multiset::group_multiset_axioms;

}

/// The host has a connection, and the switch of its first connection exists.
pub open spec fn is_connected(topo: TopologyView, host: EntityId) -> bool {
    exists|u: int|
        0 <= u < topo.uplinks.len() && (#[trigger] topo.uplinks[u]).host == host && (forall|w: int|
            0 <= w < u ==> (#[trigger] topo.uplinks[w]).host != host) && exists|s: int|
            0 <= s < topo.switches.len() && (#[trigger] topo.switches[s]).id
                == topo.uplinks[u].edge_switch
}

/// A network is accepted if and only if each of its hosts is connected.
pub proof fn law_network_is_checked(topo: TopologyView, n: nat)
    requires
        n <= topo.hosts.len(),
    ensures
        connection_error(topo, n) is None <==> forall|h: int|
            0 <= h < n ==> is_connected(topo, #[trigger] topo.hosts[h]),
    decreases n,
{
    if n > 0 {
        law_network_is_checked(topo, (n - 1) as nat);
        let host = topo.hosts[n - 1];
        law_first_connection_is_found(topo.uplinks, host, 0);
        if let Some(u) = uplink_from(topo.uplinks, host, 0) {
            let edge = topo.uplinks[u].edge_switch;
            law_first_switch_is_found(topo.switches, edge, 0);
            if let Some(s) = switch_from(topo.switches, edge, 0) {
                assert(topo.switches[s].id == edge);
                assert(is_connected(topo, host));
            } else {
                assert(!is_connected(topo, host)) by {
                    if is_connected(topo, host) {
                        let w = choose|w: int|
                            0 <= w < topo.uplinks.len() && (#[trigger] topo.uplinks[w]).host == host
                                && (forall|x: int|
                                0 <= x < w ==> (#[trigger] topo.uplinks[x]).host != host)
                                && exists|s: int|
                                0 <= s < topo.switches.len() && (#[trigger] topo.switches[s]).id
                                    == topo.uplinks[w].edge_switch;
                        assert(w == u);
                    }
                }
            }
        } else {
            assert(!is_connected(topo, host));
        }
        if forall|h: int| 0 <= h < n ==> is_connected(topo, #[trigger] topo.hosts[h]) {
            assert(is_connected(topo, topo.hosts[n - 1]));
        }
    }
}

/// The sum of what `of` gives for the first `n` numbers.
pub open spec fn total(of: spec_fn(int) -> int, n: nat) -> int
    decreases n,
{
    if n == 0 {
        0
    } else {
        total(of, (n - 1) as nat) + of(n - 1)
    }
}

/// The packets that are counted as sent, and as sent again, are those of all protocols together.
pub proof fn law_sent_packets_add_up<P: Protocol>(protocols: Seq<P>, n: nat)
    ensures
        ({
            let sent = total(|i: int| protocols[i].counters().packets_sent as int, n);
            let again = total(|i: int| protocols[i].counters().packets_retransmitted as int, n);
            &&& 0 <= sent && 0 <= again
            &&& sent <= u64::MAX ==> sent_by(protocols, n).0 == sent
            &&& again <= u64::MAX ==> sent_by(protocols, n).1 == again
        }),
    decreases n,
{
    if n > 0 {
        law_sent_packets_add_up(protocols, (n - 1) as nat);
    }
}

/// The marks and drops that are counted are those of all switches together.
pub proof fn law_marks_and_drops_add_up(switches: Seq<SwitchView>, n: nat)
    ensures
        ({
            let marks = total(|i: int| switches[i].ecn_marks as int, n);
            let drops = total(|i: int| switches[i].drops as int, n);
            &&& 0 <= marks && 0 <= drops
            &&& marks <= u64::MAX ==> marks_and_drops(switches, n).0 == marks
            &&& drops <= u64::MAX ==> marks_and_drops(switches, n).1 == drops
        }),
    decreases n,
{
    if n > 0 {
        law_marks_and_drops_add_up(switches, (n - 1) as nat);
    }
}

proof fn lemma_deepest_port(ports: Seq<PortView>, least: u32, n: nat)
    requires
        n <= ports.len(),
    ensures
        ({
            let d = deepest_port(ports, least, n);
            &&& d >= least
            &&& forall|p: int| 0 <= p < n ==> (#[trigger] ports[p]).max_queue_depth_seen <= d
            &&& d == least || exists|p: int|
                0 <= p < n && (#[trigger] ports[p]).max_queue_depth_seen == d
        }),
    decreases n,
{
    if n > 0 {
        lemma_deepest_port(ports, least, (n - 1) as nat);
        if ports[n - 1].max_queue_depth_seen > deepest_port(ports, least, (n - 1) as nat) {
            assert(ports[n - 1].max_queue_depth_seen == deepest_port(ports, least, n));
        }
    }
}

/// The deepest queue is the largest depth that any port of any switch has seen; zero without a port.
pub proof fn law_deepest_queue_is_largest(switches: Seq<SwitchView>, n: nat)
    requires
        n <= switches.len(),
    ensures
        ({
            let d = deepest_queue(switches, n);
            &&& forall|s: int, p: int|
                0 <= s < n && 0 <= p < switches[s].ports.len() ==> (
                #[trigger] switches[s].ports[p]).max_queue_depth_seen <= d
            &&& d == 0 || exists|s: int, p: int|
                0 <= s < n && 0 <= p < switches[s].ports.len() && (
                #[trigger] switches[s].ports[p]).max_queue_depth_seen == d
        }),
    decreases n,
{
    if n > 0 {
        let before = deepest_queue(switches, (n - 1) as nat);
        let ports = switches[n - 1].ports;
        law_deepest_queue_is_largest(switches, (n - 1) as nat);
        lemma_deepest_port(ports, before, ports.len());
        let d = deepest_queue(switches, n);
        if d != before {
            let p = choose|p: int|
                0 <= p < ports.len() && (#[trigger] ports[p]).max_queue_depth_seen == d;
            assert(switches[n - 1].ports[p].max_queue_depth_seen == d);
        } else if d != 0 {
            let (s, p) = choose|s: int, p: int|
                0 <= s < n - 1 && 0 <= p < switches[s].ports.len() && (
                #[trigger] switches[s].ports[p]).max_queue_depth_seen == before;
            assert(switches[s].ports[p].max_queue_depth_seen == d);
        }
        assert forall|s: int, p: int|
            0 <= s < n && 0 <= p < switches[s].ports.len() implies (
        #[trigger] switches[s].ports[p]).max_queue_depth_seen <= d by {
            if s < n - 1 {
                assert(switches[s].ports[p].max_queue_depth_seen <= before);
            } else {
                assert(ports[p].max_queue_depth_seen <= d);
            }
        }
    }
}

/// The flows that are summarised are the records that bear the number of their position, each once and
/// by rising number.
pub proof fn law_announced_flows_are_listed(fcts: Seq<FlowFct>, n: nat)
    requires
        n <= fcts.len(),
        n <= 0x1_0000_0000,
    ensures
        ({
            let list = announced(fcts, n);
            &&& forall|k: int|
                0 <= k < list.len() ==> (#[trigger] list[k]).flow_id < n && list[k]
                    == fcts[list[k].flow_id as int]
            &&& forall|id: int|
                0 <= id < n && (#[trigger] fcts[id]).flow_id == id ==> list.contains(fcts[id])
            &&& forall|j: int, k: int|
                0 <= j < k < list.len() ==> (#[trigger] list[j]).flow_id < (
                #[trigger] list[k]).flow_id
        }),
    decreases n,
{
    if n > 0 {
        law_announced_flows_are_listed(fcts, (n - 1) as nat);
        let before = announced(fcts, (n - 1) as nat);
        let list = announced(fcts, n);
        assert forall|id: int|
            0 <= id < n && (#[trigger] fcts[id]).flow_id == id implies list.contains(fcts[id]) by {
            if id < n - 1 {
                assert(before.contains(fcts[id]));
                let k = choose|k: int| 0 <= k < before.len() && before[k] == fcts[id];
                assert(list[k] == fcts[id]);
            } else {
                assert(list[list.len() - 1] == fcts[id]);
            }
        }
    }
}

/// The summary shows the time that the clock has reached, and the counts of the protocols and of the
/// switches, beside what it says of the flows.
pub proof fn law_summary_shows_counts<P: Protocol>(
    v: RunnerView,
    protocols: Seq<P>,
    sorted: Seq<FlowFct>,
)
    ensures
        ({
            let s = summary_of(v, protocols, sorted);
            let f = flow_summary(v.name, sorted);
            &&& s.total_time_ns == v.sim.clock
            &&& s.total_packets_sent == sent_by(protocols, protocols.len()).0
            &&& s.total_packets_retransmitted == sent_by(protocols, protocols.len()).1
            &&& s.total_ecn_marks == marks_and_drops(v.topo.switches, v.topo.switches.len()).0
            &&& s.total_drops == marks_and_drops(v.topo.switches, v.topo.switches.len()).1
            &&& s.max_queue_depth_bytes == deepest_queue(v.topo.switches, v.topo.switches.len())
            &&& s.mode == v.name
            &&& s.total_flows == f.total_flows && s.completed_flows == f.completed_flows
            &&& s.fct_p50_ns == f.fct_p50_ns && s.fct_p95_ns == f.fct_p95_ns && s.fct_p99_ns
                == f.fct_p99_ns && s.fct_max_ns == f.fct_max_ns
        }),
{
}

/// The first host that is not connected is reported: that it has no connection, or that the switch of its
/// first connection is missing.
pub proof fn law_first_fault_is_reported(topo: TopologyView, n: nat)
    requires
        n < topo.hosts.len(),
        forall|h: int| 0 <= h < n ==> is_connected(topo, #[trigger] topo.hosts[h]),
        !is_connected(topo, topo.hosts[n as int]),
    ensures
        ({
            let host = topo.hosts[n as int];
            let fault = connection_error(topo, topo.hosts.len());
            &&& (forall|u: int| 0 <= u < topo.uplinks.len() ==> (#[trigger] topo.uplinks[u]).host != host)
                ==> fault == Some("主机 "@ + decimal(host as nat) + " 缺少上行链路"@)
            &&& forall|u: int|
                0 <= u < topo.uplinks.len() && (#[trigger] topo.uplinks[u]).host == host && (forall|
                    w: int,
                | 0 <= w < u ==> (#[trigger] topo.uplinks[w]).host != host) ==> fault == Some(
                    "交换机 "@ + decimal(topo.uplinks[u].edge_switch as nat)
                        + " 不存在于拓扑中"@,
                )
        }),
{
    let host = topo.hosts[n as int];
    law_network_is_checked(topo, n);
    law_first_connection_is_found(topo.uplinks, host, 0);
    if let Some(u) = uplink_from(topo.uplinks, host, 0) {
        law_first_switch_is_found(topo.switches, topo.uplinks[u].edge_switch, 0);
        if let Some(s) = switch_from(topo.switches, topo.uplinks[u].edge_switch, 0) {
            assert(topo.switches[s].id == topo.uplinks[u].edge_switch);
            assert(is_connected(topo, host));
        }
    }
    super::lemma_first_error(topo, (n + 1) as nat, topo.hosts.len());
}

} // verus!
