//! The state of a simulation, and how it changes.
use vstd::prelude::*;

verus! {

use super::delays::{delay_of, HostDelay};
use super::slab::SlabView;
use super::NicSelector;
use crate::engine::event::{Event, EventKind};
use crate::engine::simulator::{lifted, SimulatorView};
use crate::monitor::{no_flow, FlowFct};
use crate::network::link::wire_time;
use crate::network::packet::{FlowId, Packet, SeqNum};
use crate::network::switch::{PortView, SwitchView};
use crate::topology::{HostUplink, TopologyView};
use crate::traffic::FlowDesc;
use crate::viz::sampler::SamplerView;
use crate::EntityId;
use vstd::multiset::Multiset;

/// The state of a simulation, apart from the protocols.
#[verifier::ext_equal]
pub struct RunnerView {
    pub sim: SimulatorView,
    /// The number of the next event.
    pub next_seq: u64,
    pub topo: TopologyView,
    /// When each link becomes free.
    pub link_busy: Seq<u64>,
    /// How many bytes each link has carried.
    pub link_bytes: Seq<u64>,
    /// The packets that are under way.
    pub packets: SlabView,
    /// What is known of each flow, by its number.
    pub fcts: Seq<FlowFct>,
    /// When the copying of each host becomes free.
    pub tx_busy: Seq<u64>,
    /// The NIC that each host used last.
    pub turns: Seq<usize>,
    /// When the pending timeout of each host is due.
    pub deadlines: Seq<u64>,
    pub total_fixed_ns: u64,
    pub total_dma_ns: u64,
    pub total_wait_ns: u64,
    pub max_depth_ns: u64,
    pub selector: NicSelector,
    pub delays: Seq<HostDelay>,
    pub tx_tick_ns: u64,
    pub sim_start_ns: u64,
    pub sampler: SamplerView,
    /// The position of each switch, by its number.
    pub index: Seq<usize>,
    pub name: Seq<char>,
}

/// The position of the last switch with the number `id` among the first `n`.
pub open spec fn last_switch(switches: Seq<SwitchView>, id: EntityId, n: int) -> Option<int>
    decreases n,
{
    if n <= 0 {
        None
    } else if switches[n - 1].id == id {
        Some(n - 1)
    } else {
        last_switch(switches, id, n - 1)
    }
}

/// `index` gives the position of every switch by its number, and `usize::MAX` for numbers that no
/// switch has.
pub open spec fn indexes(index: Seq<usize>, switches: Seq<SwitchView>) -> bool {
    &&& forall|i: int| 0 <= i < switches.len() ==> (#[trigger] switches[i]).id < index.len()
    &&& forall|id: int| 0 <= id < index.len() ==> #[trigger] index_entry(index, switches, id)
}

/// The entry of `index` for the number `id` is right.
pub open spec fn index_entry(index: Seq<usize>, switches: Seq<SwitchView>, id: int) -> bool {
    match last_switch(switches, id as u32, switches.len() as int) {
        Some(i) => index[id] == i,
        None => index[id] == usize::MAX,
    }
}

/// The record at a position whose flow has not been announced: it bears another number.
pub open spec fn unknown_flow() -> FlowFct {
    FlowFct { flow_id: u32::MAX, ..no_flow() }
}

/// The flows, with what is known of flow `f` at its beginning.
pub open spec fn with_record(fcts: Seq<FlowFct>, f: FlowDesc) -> Seq<FlowFct> {
    let long = if f.flow_id < fcts.len() {
        fcts
    } else {
        fcts + Seq::new((f.flow_id + 1 - fcts.len()) as nat, |i: int| unknown_flow())
    };
    long.update(
        f.flow_id as int,
        FlowFct {
            flow_id: f.flow_id,
            start_ns: f.start_time_ns,
            finish_ns: 0,
            bytes: f.bytes,
        },
    )
}

/// The flows after the first `n` of `finished` were recorded; the first finish of a flow counts.
pub open spec fn with_finished(
    fcts: Seq<FlowFct>,
    finished: Seq<(FlowId, u64)>,
    n: nat,
) -> Seq<FlowFct>
    decreases n,
{
    if n == 0 {
        fcts
    } else {
        let before = with_finished(fcts, finished, (n - 1) as nat);
        let (id, at) = finished[n - 1];
        if id < before.len() && before[id as int].finish_ns == 0 {
            before.update(id as int, FlowFct { finish_ns: at, ..before[id as int] })
        } else {
            before
        }
    }
}

/// The event is a timeout of the host.
pub open spec fn is_timeout(ev: Event, host: EntityId) -> bool {
    ev.target == host && ev.kind is Timeout
}

/// The larger of two times.
pub open spec fn later(a: u64, b: u64) -> u64 {
    if a > b {
        a
    } else {
        b
    }
}

impl RunnerView {
    /// The parts of the state fit together.
    pub open spec fn wf(self) -> bool {
        &&& self.topo.wf()
        &&& self.topo.links.len() <= u32::MAX
        &&& self.link_busy.len() == self.topo.links.len()
        &&& self.link_bytes.len() == self.topo.links.len()
        &&& self.packets.wf()
        &&& self.tx_busy.len() == self.topo.hosts.len()
        &&& self.turns.len() == self.topo.hosts.len()
        &&& self.deadlines.len() == self.topo.hosts.len()
        &&& self.sampler.fits(self.topo.links.len())
        &&& indexes(self.index, self.topo.switches)
    }

    /// `self` and `post` have the same network, settings and clock, and have processed the same
    /// number of events.
    pub open spec fn same_setting(self, post: RunnerView) -> bool {
        &&& post.topo.hosts == self.topo.hosts
        &&& post.topo.links == self.topo.links
        &&& post.topo.uplinks == self.topo.uplinks
        &&& post.topo.switches.len() == self.topo.switches.len()
        &&& post.sim.clock == self.sim.clock
        &&& post.sim.processed == self.sim.processed
        &&& post.sim.handlers == self.sim.handlers
        &&& post.selector == self.selector
        &&& post.delays == self.delays
        &&& post.tx_tick_ns == self.tx_tick_ns
        &&& post.index == self.index
        &&& post.name == self.name
        &&& post.sampler == self.sampler
    }

    /// The state with an event added.
    pub open spec fn scheduled(self, time: u64, kind: EventKind, target: EntityId) -> RunnerView {
        let ev = Event { time, kind, target, seq: self.next_seq };
        RunnerView {
            sim: SimulatorView {
                events: self.sim.events.insert(lifted(ev, self.sim.clock)),
                ..self.sim
            },
            next_seq: self.next_seq.wrapping_add(1),
            ..self
        }
    }

    /// The state with the switch at `i` replaced.
    pub open spec fn with_switch(self, i: int, sw: SwitchView) -> RunnerView {
        RunnerView {
            topo: TopologyView { switches: self.topo.switches.update(i, sw), ..self.topo },
            ..self
        }
    }

    /// When a packet that starts at `start` has left onto a link.
    pub open spec fn wire_done(self, link: u32, size: u32, start: u64) -> u64 {
        start.saturating_add(wire_time(size, self.topo.links[link as int].bandwidth_bps))
    }

    /// The state after a packet has started onto a link at `start`. It arrives at `to` when it is
    /// on the link and has travelled along it.
    pub open spec fn on_wire(
        self,
        link: u32,
        pkt: Packet,
        start: u64,
        src: EntityId,
        to: EntityId,
    ) -> RunnerView {
        let done = self.wire_done(link, pkt.size, start);
        RunnerView {
            packets: self.packets.inserted(pkt),
            link_busy: self.link_busy.update(link as int, done),
            link_bytes: self.link_bytes.update(
                link as int,
                self.link_bytes[link as int].saturating_add(pkt.size as u64),
            ),
            ..self
        }.scheduled(
            done.saturating_add(self.topo.links[link as int].prop_delay_ns),
            EventKind::PacketArrive { packet_id: self.packets.next_slot(), src },
            to,
        )
    }

    // ---- at a switch ----

    /// The state after the port of a switch was given the chance to send at `now`. A free port
    /// sends its next packet; a port that is busy, or has packets left, is served again when it
    /// is free.
    pub open spec fn egressed(self, i: int, port: u8, now: u64) -> RunnerView {
        let sw = self.topo.switches[i];
        let p = sw.ports[port as int];
        if p.busy_until <= now {
            match sw.after_dequeue(port as int) {
                (_, None) => self,
                (rest, Some(pkt)) => {
                    let done = self.wire_done(p.link_id, pkt.size, now);
                    let link = self.topo.links[p.link_id as int];
                    let left = PortView { busy_until: done, ..rest.ports[port as int] };
                    let again = left.queue_bytes > 0 && !left.egress_pending;
                    let served = rest.with_port(
                        port as int,
                        PortView { egress_pending: left.egress_pending || again, ..left },
                    );
                    let sent = self.with_switch(i, served).on_wire(
                        p.link_id,
                        pkt,
                        now,
                        link.from,
                        link.to,
                    );
                    if again {
                        sent.scheduled(
                            done,
                            EventKind::PacketDepart { packet_id: 0, dst: pkt.dst, port },
                            sw.id,
                        )
                    } else {
                        sent
                    }
                },
            }
        } else if !p.egress_pending {
            self.with_switch(
                i,
                sw.with_port(port as int, PortView { egress_pending: true, ..p }),
            ).scheduled(
                p.busy_until,
                EventKind::PacketDepart { packet_id: 0, dst: 0, port },
                sw.id,
            )
        } else {
            self
        }
    }

    /// The position of a switch.
    pub open spec fn switch_at(self, id: EntityId) -> Option<int> {
        last_switch(self.topo.switches, id, self.topo.switches.len() as int)
    }

    /// The state after a packet has arrived at a switch.
    pub open spec fn arrived_at_switch(self, pkt: Packet, id: EntityId, now: u64) -> RunnerView {
        match self.switch_at(id) {
            None => self,
            Some(i) => {
                let hash = pkt.src ^ pkt.dst ^ pkt.flow_id;
                let (sw, (port, dropped)) = self.topo.switches[i].after_ingress(pkt, hash);
                let taken = self.with_switch(i, sw);
                if dropped {
                    RunnerView { packets: taken.packets.removed(pkt.id), ..taken }
                } else {
                    match port {
                        None => taken,
                        Some(port) => taken.egressed(i, port, now),
                    }
                }
            },
        }
    }

    /// The state after a port of a switch has become free.
    pub open spec fn port_freed(self, id: EntityId, port: u8, now: u64) -> RunnerView {
        match self.switch_at(id) {
            None => self,
            Some(i) => {
                let sw = self.topo.switches[i];
                if port < sw.ports.len() {
                    let p = sw.ports[port as int];
                    let freed = self.with_switch(
                        i,
                        sw.with_port(port as int, PortView { egress_pending: false, ..p }),
                    );
                    if p.queue_bytes > 0 {
                        freed.egressed(i, port, now)
                    } else {
                        freed
                    }
                } else {
                    self
                }
            },
        }
    }

    // ---- at a host ----

    /// The connections of a host.
    pub open spec fn uplinks_of(self, host: EntityId) -> Seq<HostUplink> {
        self.topo.uplinks.filter(|u: HostUplink| u.host == host)
    }

    /// The connection that a host uses for its next packets, and the state after that choice.
    pub open spec fn picked(self, host: EntityId, hint: Option<FlowId>) -> (
        RunnerView,
        Option<HostUplink>,
    ) {
        let ups = self.uplinks_of(host);
        let n = ups.len() as int;
        if n == 0 {
            (self, None)
        } else {
            match self.selector {
                NicSelector::First => (self, Some(ups[0])),
                NicSelector::FlowHash => (
                    self,
                    Some(
                        ups[match hint {
                            Some(id) => id as int,
                            None => 0,
                        } % n],
                    ),
                ),
                NicSelector::RoundRobin => {
                    let i = self.turns[host as int] as int % n;
                    (
                        RunnerView {
                            turns: self.turns.update(host as int, (i + 1) as usize),
                            ..self
                        },
                        Some(ups[i]),
                    )
                },
            }
        }
    }

    /// When a host can start to copy a packet to its NIC.
    pub open spec fn dma_start(self, host: EntityId, now: u64) -> u64 {
        later(
            now.saturating_add(delay_of(self.delays, host).tx_fixed_ns),
            self.tx_busy[host as int],
        )
    }

    /// When a packet leaves the NIC of a host.
    pub open spec fn nic_time(self, host: EntityId, size: u32, now: u64) -> u64 {
        self.dma_start(host, now).saturating_add(delay_of(self.delays, host).dma(size))
    }

    /// The state after a host has sent a packet: it is copied to the NIC when the copying is
    /// free, and goes onto the link when that is free.
    pub open spec fn host_sent(
        self,
        host: EntityId,
        up: HostUplink,
        pkt: Packet,
        now: u64,
    ) -> RunnerView {
        let d = delay_of(self.delays, host);
        let ready = now.saturating_add(d.tx_fixed_ns);
        let depart = self.nic_time(host, pkt.size, now);
        RunnerView {
            total_fixed_ns: self.total_fixed_ns.saturating_add(d.tx_fixed_ns),
            total_dma_ns: self.total_dma_ns.saturating_add(d.dma(pkt.size)),
            total_wait_ns: self.total_wait_ns.saturating_add(
                self.dma_start(host, now).saturating_sub(ready),
            ),
            max_depth_ns: later(
                self.max_depth_ns,
                self.tx_busy[host as int].saturating_sub(now),
            ),
            tx_busy: self.tx_busy.update(host as int, depart),
            ..self
        }.on_wire(
            up.link_to_switch,
            Packet { depart_time: depart, ..pkt },
            later(self.link_busy[up.link_to_switch as int], depart),
            host,
            up.edge_switch,
        )
    }

    /// The state after a host has sent the first `n` of `pkts`.
    pub open spec fn host_sent_all(
        self,
        host: EntityId,
        up: HostUplink,
        pkts: Seq<Packet>,
        now: u64,
        n: nat,
    ) -> RunnerView
        decreases n,
    {
        if n == 0 {
            self
        } else {
            self.host_sent_all(host, up, pkts, now, (n - 1) as nat).host_sent(
                host,
                up,
                pkts[n - 1],
                now,
            )
        }
    }

    /// When packet `k` of `pkts` leaves the NIC.
    pub open spec fn departure(
        self,
        host: EntityId,
        up: HostUplink,
        pkts: Seq<Packet>,
        now: u64,
        k: int,
    ) -> u64 {
        self.host_sent_all(host, up, pkts, now, k as nat).nic_time(host, pkts[k].size, now)
    }

    /// When the packets of `pkts` leave the NIC, by flow and sequence number.
    pub open spec fn departures(
        self,
        host: EntityId,
        up: HostUplink,
        pkts: Seq<Packet>,
        now: u64,
    ) -> Seq<(FlowId, SeqNum, u64)> {
        Seq::new(
            pkts.len(),
            |k: int| (pkts[k].flow_id, pkts[k].seq, self.departure(host, up, pkts, now, k)),
        )
    }

    /// When the last of the first `n` packets leaves the NIC; `now` without a packet.
    pub open spec fn last_departure(
        self,
        host: EntityId,
        up: HostUplink,
        pkts: Seq<Packet>,
        now: u64,
        n: nat,
    ) -> u64
        decreases n,
    {
        if n == 0 {
            now
        } else {
            later(
                self.last_departure(host, up, pkts, now, (n - 1) as nat),
                self.departure(host, up, pkts, now, n - 1),
            )
        }
    }

    /// When a host has processed a packet that arrives at `now`.
    pub open spec fn processed_at(self, pkt: Packet, host: EntityId, now: u64) -> u64 {
        now.saturating_add(delay_of(self.delays, host).rx(pkt.size))
    }

    /// The state after a host has sent a reply at `now`.
    pub open spec fn replied(
        self,
        host: EntityId,
        up: HostUplink,
        pkt: Packet,
        now: u64,
    ) -> RunnerView {
        self.on_wire(
            up.link_to_switch,
            Packet { depart_time: now, ..pkt },
            later(self.link_busy[up.link_to_switch as int], now),
            host,
            up.edge_switch,
        )
    }

    /// The state after a host has sent the first `n` of `pkts` as replies.
    pub open spec fn replied_all(
        self,
        host: EntityId,
        up: HostUplink,
        pkts: Seq<Packet>,
        now: u64,
        n: nat,
    ) -> RunnerView
        decreases n,
    {
        if n == 0 {
            self
        } else {
            self.replied_all(host, up, pkts, now, (n - 1) as nat).replied(
                host,
                up,
                pkts[n - 1],
                now,
            )
        }
    }

    /// The state without the pending timeouts of a host.
    pub open spec fn timeouts_cancelled(self, host: EntityId) -> RunnerView {
        RunnerView {
            sim: SimulatorView {
                events: self.sim.events.filter(|ev: Event| !is_timeout(ev, host)),
                ..self.sim
            },
            ..self
        }
    }

    /// The state with the time at which the timeout of a host is due.
    pub open spec fn with_deadline(self, host: EntityId, at: u64) -> RunnerView {
        RunnerView { deadlines: self.deadlines.update(host as int, at), ..self }
    }

    /// The state after the next action of a host was planned. A host with work gets a tick, no
    /// earlier than `now`; otherwise a timeout is set if a packet is unacknowledged, unless one is
    /// pending that is due by then.
    pub open spec fn next_action(
        self,
        host: EntityId,
        now: u64,
        tick_delay: u64,
        has_work: bool,
        next_tx: Option<u64>,
        deadline: Option<u64>,
    ) -> RunnerView {
        if has_work {
            let tick = match next_tx {
                Some(t) => t,
                None => now.saturating_add(tick_delay),
            };
            self.with_deadline(host, u64::MAX).timeouts_cancelled(host).scheduled(
                later(tick, now),
                EventKind::TxTick { host },
                host,
            )
        } else {
            match deadline {
                Some(at) => {
                    let pending = self.deadlines[host as int];
                    if pending != u64::MAX && pending <= at {
                        self
                    } else {
                        self.timeouts_cancelled(host).with_deadline(host, at).scheduled(
                            at,
                            EventKind::Timeout { timer_id: 0 },
                            host,
                        )
                    }
                },
                None => self.with_deadline(host, u64::MAX).timeouts_cancelled(host),
            }
        }
    }

    /// The state after a timeout of a host has fired: none is pending, and the host gets a tick.
    pub open spec fn timed_out(self, host: EntityId, now: u64) -> RunnerView {
        let fired = if host < self.deadlines.len() {
            self.with_deadline(host, u64::MAX)
        } else {
            self
        };
        fired.scheduled(now, EventKind::TxTick { host }, host)
    }

    // ---- the event loop ----

    /// The state after an event was taken out of the queue.
    pub open spec fn popped(self, ev: Event) -> RunnerView {
        RunnerView {
            sim: SimulatorView {
                clock: later(ev.time, self.sim.clock),
                events: self.sim.events.remove(ev),
                processed: (self.sim.processed + 1) as u64,
                ..self.sim
            },
            ..self
        }
    }

    /// The state after the sampler was asked for a sample.
    pub open spec fn sampled(self) -> RunnerView {
        RunnerView {
            sampler: self.sampler.after(self.sim.clock, self.link_bytes, self.topo),
            ..self
        }
    }

    /// The state after the first `n` of `flows` were announced.
    pub open spec fn with_flows(self, flows: Seq<FlowDesc>, n: nat) -> RunnerView
        decreases n,
    {
        if n == 0 {
            self
        } else {
            let before = self.with_flows(flows, (n - 1) as nat);
            let f = flows[n - 1];
            RunnerView { fcts: with_record(before.fcts, f), ..before }.scheduled(
                f.start_time_ns,
                EventKind::FlowStart {
                    flow_id: f.flow_id,
                    src: f.src,
                    dst: f.dst,
                    bytes: f.bytes,
                },
                f.src,
            )
        }
    }
}

proof fn lemma_last_switch_same(a: Seq<SwitchView>, b: Seq<SwitchView>, id: EntityId, n: int)
    requires
        0 <= n <= a.len(),
        a.len() == b.len(),
        forall|i: int| 0 <= i < a.len() ==> (#[trigger] a[i]).id == b[i].id,
    ensures
        last_switch(a, id, n) == last_switch(b, id, n),
    decreases n,
{
    if n > 0 {
        assert(a[n - 1].id == b[n - 1].id);
        lemma_last_switch_same(a, b, id, n - 1);
    }
}

pub proof fn lemma_last_switch_bounds(switches: Seq<SwitchView>, id: EntityId, n: int)
    requires
        0 <= n <= switches.len(),
    ensures
        match last_switch(switches, id, n) {
            Some(i) => 0 <= i < n && switches[i].id == id,
            None => forall|i: int| 0 <= i < n ==> (#[trigger] switches[i]).id != id,
        },
    decreases n,
{
    if n > 0 && switches[n - 1].id != id {
        lemma_last_switch_bounds(switches, id, n - 1);
    }
}

/// A switch can be replaced by one with the same number and the same links.
pub proof fn lemma_with_switch_wf(v: RunnerView, i: int, sw: SwitchView)
    requires
        v.wf(),
        0 <= i < v.topo.switches.len(),
        sw.wf(),
        sw.id == v.topo.switches[i].id,
        sw.ports.len() == v.topo.switches[i].ports.len(),
        forall|p: int|
            0 <= p < sw.ports.len() ==> (#[trigger] sw.ports[p]).link_id
                == v.topo.switches[i].ports[p].link_id,
    ensures
        v.with_switch(i, sw).wf(),
        v.same_setting(v.with_switch(i, sw)),
{
    let w = v.with_switch(i, sw);
    assert forall|k: int| 0 <= k < w.topo.switches.len() implies (
    #[trigger] w.topo.switches[k]).wf() && w.topo.ports_linked(k) by {
        assert(v.topo.switches[k].wf() && v.topo.ports_linked(k));
        if k == i {
            assert forall|p: int| 0 <= p < sw.ports.len() implies (#[trigger] sw.ports[p]).link_id
                < w.topo.links.len() by {
                assert(v.topo.switches[i].ports[p].link_id < v.topo.links.len());
            }
        } else {
            assert(w.topo.switches[k] == v.topo.switches[k]);
        }
    }
    assert forall|id: int| 0 <= id < w.index.len() implies #[trigger] index_entry(
        w.index,
        w.topo.switches,
        id,
    ) by {
        assert(index_entry(v.index, v.topo.switches, id));
        lemma_last_switch_same(
            v.topo.switches,
            w.topo.switches,
            id as u32,
            v.topo.switches.len() as int,
        );
    }
}

/// Planning the next action of a host leaves at most one timeout of it, at the time that was
/// asked for, and does not touch the events of others.
pub proof fn law_one_timeout(
    v: RunnerView,
    host: EntityId,
    now: u64,
    tick_delay: u64,
    has_work: bool,
    next_tx: Option<u64>,
    deadline: Option<u64>,
    ev: Event,
)
    requires
        host < v.deadlines.len(),
    ensures
        ({
            let w = v.next_action(host, now, tick_delay, has_work, next_tx, deadline);
            let timeouts = w.sim.events.filter(|e: Event| is_timeout(e, host));
            &&& (has_work || deadline is None) ==> timeouts.len() == 0 && w.deadlines[host as int]
                == u64::MAX
            &&& !has_work && deadline is Some && v.deadlines[host as int] == u64::MAX
                ==> timeouts.len() == 1 && w.deadlines[host as int] == deadline->0
            &&& !has_work && deadline is Some && v.deadlines[host as int] > deadline->0
                ==> timeouts.len() == 1 && w.deadlines[host as int] == deadline->0
            &&& ev.target != host ==> w.sim.events.count(ev) == v.sim.events.count(ev)
        }),
{
    broadcast use vstd::multiset::group_multiset_axioms;
    broadcast use vstd::multiset::group_multiset_properties;

    let w = v.next_action(host, now, tick_delay, has_work, next_tx, deadline);
    let mine = |e: Event| is_timeout(e, host);
    let rest = v.sim.events.filter(|e: Event| !is_timeout(e, host));
    assert(rest.filter(mine) =~= Multiset::empty());
    let timeouts = w.sim.events.filter(mine);
    if has_work {
        assert(timeouts =~= Multiset::empty());
    } else if let Some(at) = deadline {
        let pending = v.deadlines[host as int];
        if !(pending != u64::MAX && pending <= at) {
            let timer = lifted(
                Event {
                    time: at,
                    kind: EventKind::Timeout { timer_id: 0 },
                    target: host,
                    seq: v.next_seq,
                },
                v.sim.clock,
            );
            assert(w.sim.events == rest.insert(timer));
            assert(timeouts =~= Multiset::singleton(timer));
        }
    } else {
        assert(timeouts =~= Multiset::empty());
    }
}

} // verus!
