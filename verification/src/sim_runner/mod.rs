//! The simulation of a network from end to end.
//!
//! Events are kept in order by the simulator; the loop here takes them one by one and changes the
//! state that they concern:
//!
//! - a flow that starts is registered with the protocol of its source
//! - a tick lets a protocol send; its packets go over the NIC onto the link to the switch
//! - a packet that arrives at a switch is routed and queued, and sent on when the port is free
//! - a packet that arrives at a host is given to the protocol, which may reply
use crate::engine::{Event, EventKind, EventSeq, Simulator};
use crate::error::{numbered_message, SimError, SimResult};
use crate::monitor::{FlowFct, SimSummary};
use crate::network::Packet;
use crate::nic::Protocol;
use crate::topology::Topology;
use crate::traffic::FlowDesc;
use crate::viz::TimeSeriesSampler;
use crate::EntityId;
use vstd::prelude::*;

pub mod delays;
pub mod host;
pub mod host_laws;
pub mod laws;
pub mod run_laws;
pub mod slab;
pub mod state;
pub mod switch;
pub mod switch_laws;

pub use delays::{HostDelay, HostDelays};
pub use slab::PacketSlab;

verus! {

use crate::engine::queue::is_first;
use crate::engine::simulator::SimulatorView;
use crate::error::decimal;
use crate::monitor::{flow_summary, sorts_flows, SummaryView};
use crate::network::switch::{PortView, SwitchView};
use crate::nic::protocol::counted;
use crate::topology::{switch_from, uplink_from, TopologyView};
use crate::viz::sampler::SamplerView;
use host::{arrives, ticks};
use slab::SlabView;
use state::{index_entry, indexes, last_switch, unknown_flow, with_record, RunnerView};
use vstd::multiset::Multiset;

/// How a host with several NICs picks one.
#[derive(Debug, Clone, Copy)]
pub enum NicSelector {
    /// Always the first.
    First,
    /// By the number of the flow.
    FlowHash,
    /// One after the other.
    RoundRobin,
}

/// A simulation.
pub struct SimRunner<P: Protocol> {
    pub sim: Simulator,
    pub topo: Topology,
    /// The protocol of each host, by the number of the host.
    pub protocols: Vec<P>,
    /// When each link becomes free.
    pub link_busy_until: Vec<u64>,
    /// The packets that are under way.
    pub packet_buf: PacketSlab,
    /// What is known of each flow, by its number.
    pub fcts: Vec<FlowFct>,
    /// The name of the protocol.
    pub protocol_name: String,
    /// How many bytes each link has carried.
    pub link_bytes_sent: Vec<u64>,
    pub sim_start_ns: u64,
    /// The time between two ticks of a host that goes on sending.
    pub tx_tick_ns: u64,
    pub sampler: TimeSeriesSampler,
    /// The position of each switch, by its number.
    pub switch_index: Vec<usize>,
    /// The source of event numbers.
    pub event_seq: EventSeq,
    pub nic_selector: NicSelector,
    pub nic_rr_counters: Vec<usize>,
    pub host_delays: HostDelays,
    /// When the copying of each host becomes free.
    pub host_tx_busy_until: Vec<u64>,
    /// When the pending timeout of each host is due; the largest time if none is pending.
    pub pending_timeout_deadline: Vec<u64>,
    pub host_total_fixed_overhead_ns: u64,
    pub host_total_dma_time_ns: u64,
    pub host_total_queue_wait_ns: u64,
    pub host_max_queue_depth: u64,
}

impl<P: Protocol> View for SimRunner<P> {
    type V = RunnerView;

    open spec fn view(&self) -> RunnerView {
        RunnerView {
            sim: self.sim@,
            next_seq: self.event_seq.next,
            topo: self.topo@,
            link_busy: self.link_busy_until@,
            link_bytes: self.link_bytes_sent@,
            packets: self.packet_buf@,
            fcts: self.fcts@,
            tx_busy: self.host_tx_busy_until@,
            turns: self.nic_rr_counters@,
            deadlines: self.pending_timeout_deadline@,
            total_fixed_ns: self.host_total_fixed_overhead_ns,
            total_dma_ns: self.host_total_dma_time_ns,
            total_wait_ns: self.host_total_queue_wait_ns,
            max_depth_ns: self.host_max_queue_depth,
            selector: self.nic_selector,
            delays: self.host_delays.hosts@,
            tx_tick_ns: self.tx_tick_ns,
            sim_start_ns: self.sim_start_ns,
            sampler: self.sampler@,
            index: self.switch_index@,
            name: self.protocol_name@,
        }
    }
}

impl<P: Protocol> SimRunner<P> {
    /// The parts of the simulation fit together, and every host has a protocol.
    pub open spec fn wf(&self) -> bool {
        &&& self@.wf()
        &&& self.protocols@.len() == self@.topo.hosts.len()
    }

    /// Adds an event.
    pub(crate) fn post(&mut self, time: u64, kind: EventKind, target: EntityId)
        requires
            old(self).wf(),
        ensures
            final(self).wf(),
            final(self)@ == old(self)@.scheduled(time, kind, target),
            final(self).protocols@ == old(self).protocols@,
            old(self)@.same_setting(final(self)@),
    {
        let ev = Event::new(time, kind, target, &mut self.event_seq);
        assert(ev == (Event { time, kind, target, seq: old(self).event_seq.next }));
        self.sim.schedule(ev);
        assert(self@ =~= old(self)@.scheduled(time, kind, target));
    }

    /// Puts a packet onto a link and returns when it has left.
    pub(crate) fn put_on_wire(
        &mut self,
        link_id: u32,
        pkt: Packet,
        start: u64,
        src: EntityId,
        to: EntityId,
    ) -> (done: u64)
        requires
            old(self).wf(),
            link_id < old(self)@.topo.links.len(),
        ensures
            final(self).wf(),
            final(self)@ == old(self)@.on_wire(link_id, pkt, start, src, to),
            final(self).protocols@ == old(self).protocols@,
            old(self)@.same_setting(final(self)@),
            done == old(self)@.wire_done(link_id, pkt.size, start),
    {
        let size: u32 = pkt.size;
        let at: usize = link_id as usize;
        let link = *self.topo.links.get(link_id);
        assert(self@.topo.links[link_id as int].bandwidth_bps > 0);
        let packet_id: u64 = self.packet_buf.insert(pkt);
        let done: u64 = start.saturating_add(link.serialization_ns(size));
        let arrive: u64 = done.saturating_add(link.prop_delay_ns);
        self.link_busy_until[at] = done;
        self.link_bytes_sent[at] = self.link_bytes_sent[at].saturating_add(size as u64);
        self.post(arrive, EventKind::PacketArrive { packet_id, src }, to);
        assert(self@ =~= old(self)@.on_wire(link_id, pkt, start, src, to));
        done
    }
}

/// What is wrong with the connections of the first `n` hosts: a host has no connection, or its
/// switch is missing.
pub open spec fn connection_error(topo: TopologyView, n: nat) -> Option<Seq<char>>
    decreases n,
{
    if n == 0 {
        None
    } else {
        match connection_error(topo, (n - 1) as nat) {
            Some(text) => Some(text),
            None => {
                let host = topo.hosts[n - 1];
                match uplink_from(topo.uplinks, host, 0) {
                    None => Some("主机 "@ + decimal(host as nat) + " 缺少上行链路"@),
                    Some(u) => {
                        let edge = topo.uplinks[u].edge_switch;
                        match switch_from(topo.switches, edge, 0) {
                            None => Some(
                                "交换机 "@ + decimal(edge as nat) + " 不存在于拓扑中"@,
                            ),
                            Some(_) => None,
                        }
                    },
                }
            },
        }
    }
}

/// The state of a simulation before anything has happened.
pub open spec fn fresh_runner(
    topo: TopologyView,
    name: Seq<char>,
    index: Seq<usize>,
) -> RunnerView {
    let links = topo.links.len();
    let hosts = topo.hosts.len();
    RunnerView {
        sim: SimulatorView {
            clock: 0,
            events: Multiset::empty(),
            handlers: Map::empty(),
            processed: 0,
            stopped: false,
        },
        next_seq: 0,
        topo,
        link_busy: Seq::new(links, |i: int| 0),
        link_bytes: Seq::new(links, |i: int| 0),
        packets: SlabView { slots: Seq::empty(), free: Seq::empty() },
        fcts: Seq::empty(),
        tx_busy: Seq::new(hosts, |i: int| 0),
        turns: Seq::new(hosts, |i: int| 0),
        deadlines: Seq::new(hosts, |i: int| u64::MAX),
        total_fixed_ns: 0,
        total_dma_ns: 0,
        total_wait_ns: 0,
        max_depth_ns: 0,
        selector: NicSelector::First,
        delays: Seq::empty(),
        tx_tick_ns: 200,
        sim_start_ns: 0,
        sampler: SamplerView {
            interval_ns: 0,
            next_sample_ns: u64::MAX,
            prev_bytes: Seq::empty(),
            frames: Seq::empty(),
            enabled: false,
        },
        index,
        name,
    }
}

fn filled_u64(n: usize, x: u64) -> (v: Vec<u64>)
    ensures
        v@ == Seq::new(n as nat, |i: int| x),
{
    let mut v: Vec<u64> = Vec::new();
    v.resize(n, x);
    assert(v@ =~= Seq::new(n as nat, |i: int| x));
    v
}

fn filled_usize(n: usize, x: usize) -> (v: Vec<usize>)
    ensures
        v@ == Seq::new(n as nat, |i: int| x),
{
    let mut v: Vec<usize> = Vec::new();
    v.resize(n, x);
    assert(v@ =~= Seq::new(n as nat, |i: int| x));
    v
}

/// The position of each switch, by its number.
fn make_index(topo: &Topology) -> (index: Vec<usize>)
    requires
        forall|i: int|
            0 <= i < topo@.switches.len() ==> (#[trigger] topo@.switches[i]).id < usize::MAX,
    ensures
        indexes(index@, topo@.switches),
{
    let n: usize = topo.switches.len();
    let mut size: usize = 1;
    let mut i: usize = 0;
    while i < n
        invariant
            i <= n,
            n == topo@.switches.len(),
            forall|k: int|
                0 <= k < topo@.switches.len() ==> (#[trigger] topo@.switches[k]).id < usize::MAX,
            forall|k: int| 0 <= k < i ==> (#[trigger] topo@.switches[k]).id < size,
            size as int <= 0x1_0000_0000,
        decreases n - i,
    {
        assert(topo@.switches[i as int].id == topo.switches@[i as int].id);
        let id: usize = topo.switches[i].id as usize;
        if id >= size {
            size = id + 1;
        }
        i = i + 1;
    }
    let mut index: Vec<usize> = filled_usize(size, usize::MAX);
    let mut j: usize = 0;
    while j < n
        invariant
            j <= n,
            n == topo@.switches.len(),
            index@.len() == size,
            size as int <= 0x1_0000_0000,
            forall|k: int| 0 <= k < n ==> (#[trigger] topo@.switches[k]).id < size,
            forall|id: int|
                0 <= id < size ==> match last_switch(topo@.switches, id as u32, j as int) {
                    Some(k) => #[trigger] index@[id] == k,
                    None => index@[id] == usize::MAX,
                },
        decreases n - j,
    {
        assert(topo@.switches[j as int].id == topo.switches@[j as int].id);
        let id: usize = topo.switches[j].id as usize;
        index[id] = j;
        j = j + 1;
    }
    assert forall|id: int| 0 <= id < index@.len() implies #[trigger] index_entry(
        index@,
        topo@.switches,
        id,
    ) by {
        assert(index@[id] == index@[id]);
    }
    index
}

fn check_connections(topo: &Topology) -> (r: SimResult<()>)
    ensures
        match connection_error(topo@, topo@.hosts.len()) {
            None => r is Ok,
            Some(text) => r matches Err(SimError::Topology(t)) && t@ == text,
        },
{
    let n: usize = topo.hosts.len();
    let mut i: usize = 0;
    while i < n
        invariant
            i <= n,
            n == topo@.hosts.len(),
            connection_error(topo@, i as nat) is None,
        decreases n - i,
    {
        let host: EntityId = topo.hosts[i];
        match topo.find_uplink(host) {
            None => {
                let text = numbered_message("主机 ", host, " 缺少上行链路");
                proof {
                    lemma_first_error(topo@, (i + 1) as nat, n as nat);
                }
                return Err(SimError::Topology(text));
            },
            Some(u) => {
                let edge: EntityId = topo.host_uplink[u].edge_switch;
                if topo.find_switch(edge).is_none() {
                    let text = numbered_message("交换机 ", edge, " 不存在于拓扑中");
                    proof {
                        lemma_first_error(topo@, (i + 1) as nat, n as nat);
                    }
                    return Err(SimError::Topology(text));
                }
            },
        }
        i = i + 1;
    }
    Ok(())
}

pub proof fn lemma_first_error(topo: TopologyView, m: nat, n: nat)
    requires
        m <= n,
        connection_error(topo, m) is Some,
    ensures
        connection_error(topo, n) == connection_error(topo, m),
    decreases n,
{
    if m < n {
        lemma_first_error(topo, m, (n - 1) as nat);
    }
}

/// What an event does.
pub open spec fn dispatched<P: Protocol>(
    pre: RunnerView,
    post: RunnerView,
    before: Seq<P>,
    after: Seq<P>,
    ev: Event,
) -> bool {
    match ev.kind {
        EventKind::FlowStart { flow_id, src, dst, bytes } => {
            &&& post == pre.scheduled(ev.time, EventKind::TxTick { host: src }, src)
            &&& if src < before.len() {
                &&& after == before.update(src as int, after[src as int])
                &&& before[src as int].started(&after[src as int], flow_id, dst, bytes, ev.time)
            } else {
                after == before
            }
        },
        EventKind::TxTick { host } => ticked_or_not(pre, post, before, after, host, ev.time),
        EventKind::PacketDepart { port, .. } => {
            &&& post == pre.port_freed(ev.target, port, ev.time)
            &&& after == before
        },
        EventKind::PacketArrive { packet_id, .. } => {
            let rest = RunnerView { packets: pre.packets.removed(packet_id), ..pre };
            match pre.packets.at(packet_id) {
                None => post == pre && after == before,
                Some(pkt) => if ev.target < pre.topo.hosts.len() {
                    &&& after == before.update(ev.target as int, after[ev.target as int])
                    &&& arrives(
                        rest,
                        post,
                        before[ev.target as int],
                        after[ev.target as int],
                        pkt,
                        ev.target,
                        rest.processed_at(pkt, ev.target, ev.time),
                    )
                } else {
                    &&& post == rest.arrived_at_switch(pkt, ev.target, ev.time)
                    &&& after == before
                },
            }
        },
        EventKind::Timeout { .. } => {
            &&& post == pre.timed_out(ev.target, ev.time)
            &&& after == before
        },
        EventKind::Stop => {
            &&& post == (RunnerView { sim: SimulatorView { stopped: true, ..pre.sim }, ..pre })
            &&& after == before
        },
        EventKind::Custom(_) => post == pre && after == before,
    }
}

/// What a tick does; there is no tick for a host that does not exist.
pub open spec fn ticked_or_not<P: Protocol>(
    pre: RunnerView,
    post: RunnerView,
    before: Seq<P>,
    after: Seq<P>,
    host: EntityId,
    now: u64,
) -> bool {
    if host < before.len() {
        &&& after == before.update(host as int, after[host as int])
        &&& ticks(pre, post, before[host as int], after[host as int], host, now)
    } else {
        post == pre && after == before
    }
}

/// What one turn of the event loop does with `ev`, of which `mid` is the outcome before a sample
/// is taken.
pub open spec fn turned_with<P: Protocol>(
    pre: RunnerView,
    post: RunnerView,
    before: Seq<P>,
    after: Seq<P>,
    until: u64,
    ev: Event,
    mid: RunnerView,
) -> bool {
    &&& !pre.sim.stopped
    &&& is_first(pre.sim.events, ev)
    &&& ev.time <= until
    &&& dispatched(pre.popped(ev), mid, before, after, ev)
    &&& post == mid.sampled()
}

/// What one turn of the event loop does: it takes the first event, if that is due by `until` and
/// the simulation was not stopped.
pub open spec fn turned<P: Protocol>(
    pre: RunnerView,
    post: RunnerView,
    before: Seq<P>,
    after: Seq<P>,
    until: u64,
) -> bool {
    exists|ev: Event, mid: RunnerView| #[trigger]
        turned_with(pre, post, before, after, until, ev, mid)
}

/// What `n` turns of the event loop do.
pub open spec fn ran<P: Protocol>(
    pre: RunnerView,
    post: RunnerView,
    before: Seq<P>,
    after: Seq<P>,
    until: u64,
    n: nat,
) -> bool
    decreases n,
{
    if n == 0 {
        post == pre && after == before
    } else {
        exists|mid: RunnerView, between: Seq<P>| #[trigger]
            turned(mid, post, between, after, until) && ran(
                pre,
                mid,
                before,
                between,
                until,
                (n - 1) as nat,
            )
    }
}

proof fn lemma_ran_one_more<P: Protocol>(
    pre: RunnerView,
    mid: RunnerView,
    post: RunnerView,
    before: Seq<P>,
    between: Seq<P>,
    after: Seq<P>,
    until: u64,
    n: nat,
)
    requires
        ran(pre, mid, before, between, until, n),
        turned(mid, post, between, after, until),
    ensures
        ran(pre, post, before, after, until, n + 1),
{
    assert(((n + 1) - 1) as nat == n);
}

/// The packets that the first `n` protocols have sent, and those that they have sent again.
pub open spec fn sent_by<P: Protocol>(protocols: Seq<P>, n: nat) -> (u64, u64)
    decreases n,
{
    if n == 0 {
        (0, 0)
    } else {
        let (sent, resent) = sent_by(protocols, (n - 1) as nat);
        let s = protocols[n - 1].counters();
        (
            counted(sent, s.packets_sent as int),
            counted(resent, s.packets_retransmitted as int),
        )
    }
}

/// The marks and the drops of the first `n` switches.
pub open spec fn marks_and_drops(switches: Seq<SwitchView>, n: nat) -> (u64, u64)
    decreases n,
{
    if n == 0 {
        (0, 0)
    } else {
        let (marks, drops) = marks_and_drops(switches, (n - 1) as nat);
        (
            counted(marks, switches[n - 1].ecn_marks as int),
            counted(drops, switches[n - 1].drops as int),
        )
    }
}

/// The deepest queue that the first `n` of the ports have seen, at least `least`.
pub open spec fn deepest_port(ports: Seq<PortView>, least: u32, n: nat) -> u32
    decreases n,
{
    if n == 0 {
        least
    } else {
        let before = deepest_port(ports, least, (n - 1) as nat);
        if ports[n - 1].max_queue_depth_seen > before {
            ports[n - 1].max_queue_depth_seen
        } else {
            before
        }
    }
}

/// The deepest queue that the first `n` switches have seen.
pub open spec fn deepest_queue(switches: Seq<SwitchView>, n: nat) -> u32
    decreases n,
{
    if n == 0 {
        0
    } else {
        deepest_port(
            switches[n - 1].ports,
            deepest_queue(switches, (n - 1) as nat),
            switches[n - 1].ports.len(),
        )
    }
}

/// The flows among the first `n` that have been announced: their records bear the number of
/// their position.
pub open spec fn announced(fcts: Seq<FlowFct>, n: nat) -> Seq<FlowFct>
    decreases n,
{
    if n == 0 {
        Seq::empty()
    } else {
        let before = announced(fcts, (n - 1) as nat);
        if fcts[n - 1].flow_id == n - 1 {
            before.push(fcts[n - 1])
        } else {
            before
        }
    }
}

/// The summary of a simulation whose flows, sorted by completion time, are `sorted`.
pub open spec fn summary_of<P: Protocol>(
    v: RunnerView,
    protocols: Seq<P>,
    sorted: Seq<FlowFct>,
) -> SummaryView {
    let switches = v.topo.switches;
    SummaryView {
        total_time_ns: v.sim.clock,
        total_packets_sent: sent_by(protocols, protocols.len()).0,
        total_packets_retransmitted: sent_by(protocols, protocols.len()).1,
        total_ecn_marks: marks_and_drops(switches, switches.len()).0,
        total_drops: marks_and_drops(switches, switches.len()).1,
        max_queue_depth_bytes: deepest_queue(switches, switches.len()),
        ..flow_summary(v.name, sorted)
    }
}

impl<P: Protocol> SimRunner<P> {
    /// A simulation of a network in which every host runs a protocol made by `make_proto`.
    ///
    /// Fails if a host has no connection or its switch is missing.
    pub fn new<F: Fn(EntityId, &Topology) -> P>(
        topo: Topology,
        protocol_name: String,
        make_proto: F,
    ) -> (r: SimResult<Self>)
        requires
            topo@.wf(),
            topo@.links.len() <= u32::MAX,
            forall|i: int|
                0 <= i < topo@.switches.len() ==> (#[trigger] topo@.switches[i]).id < usize::MAX,
            forall|h: EntityId| #[trigger] call_requires(make_proto, (h, &topo)),
        ensures
            match connection_error(topo@, topo@.hosts.len()) {
                Some(text) => r matches Err(SimError::Topology(t)) && t@ == text,
                None => {
                    &&& r is Ok
                    &&& r->Ok_0.wf()
                    &&& r->Ok_0@ == fresh_runner(topo@, protocol_name@, r->Ok_0@.index)
                    &&& forall|i: int|
                        0 <= i < topo@.hosts.len() ==> call_ensures(
                            make_proto,
                            (topo@.hosts[i], &topo),
                            #[trigger] r->Ok_0.protocols@[i],
                        )
                },
            },
    {
        if let Err(e) = check_connections(&topo) {
            return Err(e);
        }
        let mut protocols: Vec<P> = Vec::new();
        let n_hosts: usize = topo.hosts.len();
        let mut i: usize = 0;
        while i < n_hosts
            invariant
                i <= n_hosts,
                n_hosts == topo@.hosts.len(),
                protocols@.len() == i,
                forall|h: EntityId| #[trigger] call_requires(make_proto, (h, &topo)),
                forall|k: int|
                    0 <= k < i ==> call_ensures(
                        make_proto,
                        (topo@.hosts[k], &topo),
                        #[trigger] protocols@[k],
                    ),
            decreases n_hosts - i,
        {
            let host: EntityId = topo.hosts[i];
            protocols.push(make_proto(host, &topo));
            i = i + 1;
        }
        let n_links: usize = topo.links.len();
        let switch_index = make_index(&topo);
        let r = SimRunner {
            sim: Simulator::new(),
            topo,
            protocols,
            link_busy_until: filled_u64(n_links, 0),
            packet_buf: PacketSlab::new(),
            fcts: Vec::new(),
            protocol_name,
            link_bytes_sent: filled_u64(n_links, 0),
            sim_start_ns: 0,
            tx_tick_ns: 200,
            sampler: TimeSeriesSampler::disabled(),
            switch_index,
            event_seq: EventSeq::new(),
            nic_selector: NicSelector::First,
            nic_rr_counters: filled_usize(n_hosts, 0),
            host_delays: HostDelays::default(),
            host_tx_busy_until: filled_u64(n_hosts, 0),
            pending_timeout_deadline: filled_u64(n_hosts, u64::MAX),
            host_total_fixed_overhead_ns: 0,
            host_total_dma_time_ns: 0,
            host_total_queue_wait_ns: 0,
            host_max_queue_depth: 0,
        };
        assert(r@ =~= fresh_runner(topo@, protocol_name@, switch_index@));
        Ok(r)
    }

    /// The simulation with a sample of the links taken every `interval_ns`.
    pub fn with_sampling(self, interval_ns: u64) -> (r: Self)
        requires
            self.wf(),
        ensures
            r.wf(),
            r.protocols@ == self.protocols@,
            r@ == (RunnerView {
                sampler: SamplerView {
                    interval_ns,
                    next_sample_ns: interval_ns,
                    prev_bytes: Seq::new(self@.topo.links.len(), |i: int| 0),
                    frames: Seq::empty(),
                    enabled: true,
                },
                ..self@
            }),
    {
        let n_links: usize = self.topo.links.len();
        let mut r = self;
        r.sampler = TimeSeriesSampler::new(interval_ns, n_links);
        assert(r@ =~= (RunnerView { sampler: r.sampler@, ..self@ }));
        r
    }

    /// Announces flows.
    pub fn inject_flows(&mut self, flows: Vec<FlowDesc>)
        requires
            old(self).wf(),
        ensures
            final(self).wf(),
            final(self)@ == old(self)@.with_flows(flows@, flows@.len()),
            final(self).protocols@ == old(self).protocols@,
            old(self)@.same_setting(final(self)@),
    {
        let ghost v0 = self@;
        let mut k: usize = 0;
        while k < flows.len()
            invariant
                k <= flows@.len(),
                v0 == old(self)@,
                self.wf(),
                self@ == v0.with_flows(flows@, k as nat),
                self.protocols@ == old(self).protocols@,
                v0.same_setting(self@),
            decreases flows@.len() - k,
        {
            let f = flows[k];
            let ghost before = self@;
            self.record_start(&f);
            self.post(
                f.start_time_ns,
                EventKind::FlowStart {
                    flow_id: f.flow_id,
                    src: f.src,
                    dst: f.dst,
                    bytes: f.bytes,
                },
                f.src,
            );
            k = k + 1;
        }
    }

    /// Records the beginning of a flow.
    fn record_start(&mut self, f: &FlowDesc)
        requires
            old(self).wf(),
        ensures
            final(self).wf(),
            final(self)@ == (RunnerView { fcts: with_record(old(self)@.fcts, *f), ..old(self)@ }),
            final(self).protocols@ == old(self).protocols@,
            old(self)@.same_setting(final(self)@),
    {
        let ghost v0 = self@;
        while self.fcts.len() as u64 <= f.flow_id as u64
            invariant
                v0 == old(self)@,
                v0.fcts.len() <= self.fcts@.len(),
                f.flow_id < v0.fcts.len() ==> self.fcts@.len() == v0.fcts.len(),
                f.flow_id >= v0.fcts.len() ==> self.fcts@.len() <= f.flow_id + 1,
                self.fcts@ =~= v0.fcts + Seq::new(
                    (self.fcts@.len() - v0.fcts.len()) as nat,
                    |i: int| unknown_flow(),
                ),
                self@ == (RunnerView { fcts: self.fcts@, ..v0 }),
                self.protocols@ == old(self).protocols@,
            decreases f.flow_id + 1 - self.fcts@.len(),
        {
            let mut unknown = FlowFct::default();
            unknown.flow_id = u32::MAX;
            self.fcts.push(unknown);
        }
        let at: usize = f.flow_id as usize;
        self.fcts[at] = FlowFct {
            flow_id: f.flow_id,
            start_ns: f.start_time_ns,
            finish_ns: 0,
            bytes: f.bytes,
        };
        assert(self.fcts@ =~= with_record(v0.fcts, *f));
        assert(self@ =~= (RunnerView { fcts: with_record(v0.fcts, *f), ..v0 }));
    }

    /// Takes in a packet that has arrived at a host or at a switch.
    pub fn handle_packet_arrive(&mut self, packet_id: u64, target: EntityId, now: u64)
        requires
            old(self).wf(),
        ensures
            final(self).wf(),
            old(self)@.same_setting(final(self)@),
            forall|src: EntityId, seq: u64| #[trigger]
                dispatched(
                    old(self)@,
                    final(self)@,
                    old(self).protocols@,
                    final(self).protocols@,
                    arrival(packet_id, src, target, now, seq),
                ),
    {
        let ghost v0 = self@;
        match self.packet_buf.remove(packet_id) {
            None => {
                assert(self@ =~= v0);
            },
            Some(pkt) => {
                assert(self@ =~= (RunnerView { packets: v0.packets.removed(packet_id), ..v0 }));
                if (target as u64) < self.topo.hosts.len() as u64 {
                    self.handle_arrive_at_host(pkt, target, now);
                } else {
                    self.handle_arrive_at_switch(pkt, target, now);
                }
            },
        }
    }

    /// Handles an event.
    pub fn dispatch(&mut self, ev: Event)
        requires
            old(self).wf(),
        ensures
            final(self).wf(),
            old(self)@.same_setting(final(self)@),
            dispatched(old(self)@, final(self)@, old(self).protocols@, final(self).protocols@, ev),
    {
        let ghost v0 = self@;
        let ghost pp = self.protocols@;
        let now: u64 = ev.time;
        let target: EntityId = ev.target;
        match ev.kind {
            EventKind::FlowStart { flow_id, src, dst, bytes } => {
                if (src as u64) < self.protocols.len() as u64 {
                    self.protocols[src as usize].start_flow(flow_id, dst, bytes, now);
                    assert(self@ =~= v0);
                }
                self.post(now, EventKind::TxTick { host: src }, src);
            },
            EventKind::TxTick { host } => {
                self.handle_tx_tick(host, now);
            },
            EventKind::PacketDepart { port, .. } => {
                self.handle_packet_depart(target, port, now);
            },
            EventKind::PacketArrive { packet_id, src } => {
                self.handle_packet_arrive(packet_id, target, now);
                assert(ev == arrival(packet_id, src, target, now, ev.seq));
            },
            EventKind::Timeout { .. } => {
                if (target as u64) < self.pending_timeout_deadline.len() as u64 {
                    self.pending_timeout_deadline[target as usize] = u64::MAX;
                    assert(self@ =~= v0.with_deadline(target, u64::MAX));
                }
                self.post(now, EventKind::TxTick { host: target }, target);
            },
            EventKind::Stop => {
                self.sim.stop();
                assert(self@ =~= (RunnerView {
                    sim: SimulatorView { stopped: true, ..v0.sim },
                    ..v0
                }));
            },
            EventKind::Custom(_) => {},
        }
    }

    /// Takes the next event if it is due by `until`.
    fn pop_until(&mut self, until: u64) -> (r: Option<Event>)
        requires
            old(self).wf(),
            old(self)@.sim.processed < u64::MAX,
        ensures
            final(self).wf(),
            final(self).protocols@ == old(self).protocols@,
            match r {
                Some(ev) => is_first(old(self)@.sim.events, ev) && ev.time <= until
                    && final(self)@ == old(self)@.popped(ev),
                None => final(self)@ == old(self)@ && forall|ev: Event| #[trigger]
                    old(self)@.sim.events.contains(ev) ==> ev.time > until,
            },
    {
        match self.sim.peek_time() {
            Some(t) if t > until => {
                return None;
            },
            _ => {},
        }
        let r = self.sim.pop_event();
        proof {
            if r is Some {
                assert(self@ =~= old(self)@.popped(r->0));
            } else {
                assert(self@ =~= old(self)@);
                assert forall|ev: Event| #[trigger]
                    old(self)@.sim.events.contains(ev) implies ev.time > until by {
                    broadcast use vstd::multiset::group_multiset_properties;

                    assert(old(self)@.sim.events.count(ev) <= old(self)@.sim.events.len());
                }
            }
        }
        r
    }

    /// Handles events until none is pending that is due by `max_time_ns`, or the simulation is
    /// stopped.
    ///
    /// The loop also ends when the counter of processed events is exhausted.
    pub fn run(&mut self, max_time_ns: u64)
        requires
            old(self).wf(),
        ensures
            final(self).wf(),
            exists|n: nat, end: RunnerView|
                #[trigger] ran(
                    old(self)@,
                    end,
                    old(self).protocols@,
                    final(self).protocols@,
                    max_time_ns,
                    n,
                ) && final(self)@ == (RunnerView { sim_start_ns: 0, ..end }),
            !final(self)@.sim.stopped && final(self)@.sim.processed < u64::MAX ==> forall|ev: Event|
                #[trigger]
                final(self)@.sim.events.contains(ev) ==> ev.time > max_time_ns,
            final(self)@.sim.clock >= old(self)@.sim.clock,
            final(self)@.topo.hosts == old(self)@.topo.hosts,
            final(self)@.topo.links == old(self)@.topo.links,
            final(self)@.topo.uplinks == old(self)@.topo.uplinks,
    {
        let ghost v0 = self@;
        let ghost pp = self.protocols@;
        let ghost mut n: nat = 0;
        let mut go_on: bool = true;
        while go_on && !self.sim.is_stopped() && self.sim.processed() < u64::MAX
            invariant
                self.wf(),
                v0 == old(self)@,
                pp == old(self).protocols@,
                ran(v0, self@, pp, self.protocols@, max_time_ns, n),
                !go_on ==> forall|ev: Event| #[trigger]
                    self@.sim.events.contains(ev) ==> ev.time > max_time_ns,
                self@.sim.clock >= v0.sim.clock,
                self@.topo.hosts == v0.topo.hosts,
                self@.topo.links == v0.topo.links,
                self@.topo.uplinks == v0.topo.uplinks,
            decreases u64::MAX - self@.sim.processed, (if go_on { 1int } else { 0int }),
        {
            let ghost pre = self@;
            let ghost before = self.protocols@;
            match self.pop_until(max_time_ns) {
                None => {
                    go_on = false;
                },
                Some(ev) => {
                    let ghost first = ev;
                    self.dispatch(ev);
                    let ghost mid = self@;
                    let now: u64 = self.sim.now();
                    self.sampler.maybe_sample(now, &self.link_bytes_sent, &self.topo);
                    proof {
                        assert(self@ =~= mid.sampled());
                        assert(turned_with(
                            pre,
                            self@,
                            before,
                            self.protocols@,
                            max_time_ns,
                            first,
                            mid,
                        ));
                        lemma_ran_one_more(
                            v0,
                            pre,
                            self@,
                            pp,
                            before,
                            self.protocols@,
                            max_time_ns,
                            n,
                        );
                        n = n + 1;
                    }
                },
            }
        }
        let ghost end = self@;
        self.sim_start_ns = 0;
        assert(self@ =~= (RunnerView { sim_start_ns: 0, ..end }));
    }

    /// The summary of the simulation so far.
    pub fn summarize(&self) -> (s: SimSummary)
        requires
            self.wf(),
        ensures
            exists|sorted: Seq<FlowFct>|
                #[trigger] sorts_flows(announced(self@.fcts, self@.fcts.len()), sorted)
                    && s@ == summary_of(
                    self@,
                    self.protocols@,
                    sorted,
                ),
    {
        let mut list: Vec<FlowFct> = Vec::new();
        let mut i: usize = 0;
        while i < self.fcts.len()
            invariant
                i <= self.fcts@.len(),
                list@ == announced(self@.fcts, i as nat),
            decreases self.fcts@.len() - i,
        {
            if self.fcts[i].flow_id as usize == i {
                list.push(self.fcts[i]);
            }
            i = i + 1;
        }
        let mut s = SimSummary::from_fcts(self.protocol_name.as_str(), list.as_mut_slice());
        s.total_time_ns = self.sim.now();
        let mut p: usize = 0;
        let ghost base = s@;
        while p < self.protocols.len()
            invariant
                p <= self.protocols@.len(),
                s@ == (SummaryView {
                    total_packets_sent: sent_by(self.protocols@, p as nat).0,
                    total_packets_retransmitted: sent_by(self.protocols@, p as nat).1,
                    ..base
                }),
            decreases self.protocols@.len() - p,
        {
            let c = self.protocols[p].stats();
            s.total_packets_sent = s.total_packets_sent.saturating_add(c.packets_sent);
            s.total_packets_retransmitted = s.total_packets_retransmitted.saturating_add(
                c.packets_retransmitted,
            );
            p = p + 1;
        }
        let ghost base = s@;
        let ghost switches = self@.topo.switches;
        let mut k: usize = 0;
        while k < self.topo.switches.len()
            invariant
                k <= self.topo.switches@.len(),
                switches == self@.topo.switches,
                s@ == (SummaryView {
                    total_ecn_marks: marks_and_drops(switches, k as nat).0,
                    total_drops: marks_and_drops(switches, k as nat).1,
                    max_queue_depth_bytes: deepest_queue(switches, k as nat),
                    ..base
                }),
            decreases self.topo.switches@.len() - k,
        {
            let sw = &self.topo.switches[k];
            assert(sw@ == switches[k as int]);
            s.total_ecn_marks = s.total_ecn_marks.saturating_add(sw.ecn_marks);
            s.total_drops = s.total_drops.saturating_add(sw.drops);
            let ghost least = s.max_queue_depth_bytes;
            let ghost so_far = s@;
            let mut q: usize = 0;
            while q < sw.ports.len()
                invariant
                    q <= sw.ports@.len(),
                    s@ == (SummaryView {
                        max_queue_depth_bytes: deepest_port(sw@.ports, least, q as nat),
                        ..so_far
                    }),
                decreases sw.ports@.len() - q,
            {
                assert(sw@.ports[q as int] == sw.ports@[q as int]@);
                if sw.ports[q].max_queue_depth_seen > s.max_queue_depth_bytes {
                    s.max_queue_depth_bytes = sw.ports[q].max_queue_depth_seen;
                }
                q = q + 1;
            }
            k = k + 1;
        }
        assert(sorts_flows(announced(self@.fcts, self@.fcts.len()), list@));
        assert(s@ =~= summary_of(self@, self.protocols@, list@));
        s
    }
}

/// The event of a packet that arrives.
pub open spec fn arrival(
    packet_id: u64,
    src: EntityId,
    target: EntityId,
    time: u64,
    seq: u64,
) -> Event {
    Event { time, kind: EventKind::PacketArrive { packet_id, src }, target, seq }
}

} // verus!
