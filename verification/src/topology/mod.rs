//! Topologies.
//!
//! - `Dumbell`: two switches joined by a bottleneck link
//! - `LeafSpine`: two layers, fully meshed
//! - `FatTree`: the three-layer k-ary tree
//! - `MultiRailLeafSpine`: a leaf-spine network of hosts with several NICs
//!
//! Each of them builds a [`Topology`]: hosts, switches with their routes, and links.
use crate::network::{Link, LinkRegistry, PortId, RoutingTable, Switch};
use crate::util::low_u8;
use crate::EntityId;
use vstd::prelude::*;

pub mod dumbell;
pub mod fat_tree;
pub mod laws;
pub mod leaf_spine;
pub mod multi_rail;

pub use dumbell::Dumbell;
pub use fat_tree::FatTree;
pub use leaf_spine::LeafSpine;
pub use multi_rail::MultiRailLeafSpine;

verus! {

use crate::network::switch::{fresh_port, fresh_switch, SwitchView};

/// A network.
pub struct Topology {
    /// The hosts, numbered from zero.
    pub hosts: Vec<EntityId>,
    /// The switches, numbered behind the hosts.
    pub switches: Vec<Switch>,
    /// The links.
    pub links: LinkRegistry,
    /// How each host is connected.
    pub host_uplink: Vec<HostUplink>,
}

/// The connection of a host to its switch.
#[derive(Clone, Copy, Debug)]
pub struct HostUplink {
    pub host: EntityId,
    pub edge_switch: EntityId,
    pub link_to_switch: u32,
    pub link_to_host: u32,
}

/// What a network consists of.
#[verifier::ext_equal]
pub struct TopologyView {
    pub hosts: Seq<EntityId>,
    pub switches: Seq<SwitchView>,
    pub links: Seq<Link>,
    pub uplinks: Seq<HostUplink>,
}

impl View for Topology {
    type V = TopologyView;

    open spec fn view(&self) -> TopologyView {
        TopologyView {
            hosts: self.hosts@,
            switches: switch_views(self.switches@),
            links: self.links@,
            uplinks: self.host_uplink@,
        }
    }
}

/// The views of a sequence of switches.
pub open spec fn switch_views(switches: Seq<Switch>) -> Seq<SwitchView> {
    switches.map_values(|s: Switch| s@)
}

impl TopologyView {
    /// Every link can carry data, every switch is well-formed, and every port and every host is
    /// connected to an existing link.
    pub open spec fn wf(self) -> bool {
        &&& forall|i: int| 0 <= i < self.links.len() ==> (#[trigger] self.links[i]).bandwidth_bps > 0
        &&& forall|i: int|
            0 <= i < self.switches.len() ==> (#[trigger] self.switches[i]).wf()
                && self.ports_linked(i)
        &&& forall|i: int|
            0 <= i < self.uplinks.len() ==> (#[trigger] self.uplinks[i]).link_to_switch
                < self.links.len()
    }

    /// Every port of the switch at `i` is connected to an existing link.
    pub open spec fn ports_linked(self, i: int) -> bool {
        forall|p: int|
            0 <= p < self.switches[i].ports.len() ==> (#[trigger] self.switches[i].ports[p]).link_id
                < self.links.len()
    }

    /// Every switch has a route to every host.
    pub open spec fn routes_complete(self) -> bool {
        forall|i: int, h: int|
            0 <= i < self.switches.len() && 0 <= h < self.hosts.len() ==> (
            #[trigger] self.switches[i]).has_route(#[trigger] self.hosts[h])
    }

    /// The entity that a packet reaches when it leaves the switch at `i` by the port `p`.
    pub open spec fn next_hop(self, i: int, p: int) -> EntityId {
        self.links[self.switches[i].ports[p].link_id as int].to
    }
}

impl Topology {
    /// The number of hosts.
    pub fn num_hosts(&self) -> (n: usize)
        ensures
            n == self@.hosts.len(),
    {
        self.hosts.len()
    }

    /// The number of switches.
    pub fn num_switches(&self) -> (n: usize)
        ensures
            n == self@.switches.len(),
    {
        self.switches.len()
    }

    /// The number of links.
    pub fn num_links(&self) -> (n: usize)
        ensures
            n == self@.links.len(),
    {
        self.links.len()
    }
}

/// The position of the first connection of `host` from position `from` on.
pub open spec fn uplink_from(uplinks: Seq<HostUplink>, host: EntityId, from: int) -> Option<int>
    decreases uplinks.len() - from,
{
    if from < 0 || from >= uplinks.len() {
        None
    } else if uplinks[from].host == host {
        Some(from)
    } else {
        uplink_from(uplinks, host, from + 1)
    }
}

/// The position of the first switch with the number `id` from position `from` on.
pub open spec fn switch_from(switches: Seq<SwitchView>, id: EntityId, from: int) -> Option<int>
    decreases switches.len() - from,
{
    if from < 0 || from >= switches.len() {
        None
    } else if switches[from].id == id {
        Some(from)
    } else {
        switch_from(switches, id, from + 1)
    }
}

impl Topology {
    /// The first connection of a host.
    pub fn find_uplink(&self, host: EntityId) -> (r: Option<usize>)
        ensures
            match uplink_from(self@.uplinks, host, 0) {
                Some(i) => r is Some && r->0 == i && 0 <= i < self.host_uplink@.len()
                    && self.host_uplink@[i].host == host,
                None => r is None,
            },
    {
        let mut i: usize = 0;
        while i < self.host_uplink.len()
            invariant
                i <= self.host_uplink@.len(),
                uplink_from(self@.uplinks, host, 0) == uplink_from(self@.uplinks, host, i as int),
            decreases self.host_uplink@.len() - i,
        {
            if self.host_uplink[i].host == host {
                return Some(i);
            }
            i = i + 1;
        }
        None
    }

    /// The position of the switch with the number `id`.
    pub fn find_switch(&self, id: EntityId) -> (r: Option<usize>)
        ensures
            match switch_from(self@.switches, id, 0) {
                Some(i) => r is Some && r->0 == i && 0 <= i < self.switches@.len()
                    && self.switches@[i].id == id,
                None => r is None,
            },
    {
        let mut i: usize = 0;
        while i < self.switches.len()
            invariant
                i <= self.switches@.len(),
                switch_from(self@.switches, id, 0) == switch_from(self@.switches, id, i as int),
            decreases self.switches@.len() - i,
        {
            if self.switches[i].id == id {
                return Some(i);
            }
            i = i + 1;
        }
        None
    }
}

/// The number of the port at position `i`.
pub open spec fn port_number(i: int) -> PortId {
    (i % 256) as u8
}

/// The numbers of `count` ports from position `first` on.
pub open spec fn port_range(first: int, count: int) -> Seq<PortId> {
    Seq::new(count as nat, |i: int| port_number(first + i))
}

/// The hosts `0`, `1`, ... of a network of `n` hosts.
pub open spec fn host_range(n: int) -> Seq<EntityId> {
    Seq::new(n as nat, |i: int| i as u32)
}

/// An unused switch whose ports are connected to the given links.
pub open spec fn wired(
    id: EntityId,
    ecn_threshold_bytes: u32,
    buffer_bytes: u32,
    port_links: Seq<u32>,
    routes: Map<EntityId, Seq<PortId>>,
) -> SwitchView {
    SwitchView {
        ports: Seq::new(port_links.len(), |i: int| fresh_port(port_number(i), port_links[i])),
        routes,
        ..fresh_switch(id, ecn_threshold_bytes, buffer_bytes)
    }
}

/// A link of a network; links are numbered by their position.
pub open spec fn link_at(
    i: int,
    from: int,
    to: int,
    bandwidth_bps: u64,
    prop_delay_ns: u64,
) -> Link {
    Link { id: i as u32, from: from as u32, to: to as u32, bandwidth_bps, prop_delay_ns }
}

/// The `i`-th of the links between hosts and their switches, two for each host: to the switch
/// `edge` and back. They are numbered from `first` on.
pub open spec fn host_link(
    first: int,
    i: int,
    edge: int,
    bandwidth_bps: u64,
    prop_delay_ns: u64,
) -> Link {
    if i % 2 == 0 {
        link_at(first + i, i / 2, edge, bandwidth_bps, prop_delay_ns)
    } else {
        link_at(first + i, edge, i / 2, bandwidth_bps, prop_delay_ns)
    }
}

/// A wired switch without routes or with routes to existing ports is well-formed.
pub proof fn lemma_wired_wf(
    id: EntityId,
    ecn: u32,
    buf: u32,
    port_links: Seq<u32>,
    routes: Map<EntityId, Seq<PortId>>,
)
    requires
        forall|d: EntityId, i: int|
            routes.contains_key(d) && 0 <= i < routes[d].len() ==> (#[trigger] routes[d][i])
                < port_links.len(),
    ensures
        wired(id, ecn, buf, port_links, routes).wf(),
{
    let sw = wired(id, ecn, buf, port_links, routes);
    assert forall|i: int| 0 <= i < sw.ports.len() implies (#[trigger] sw.ports[i]).wf() by {
        assert(sw.ports[i] == fresh_port(port_number(i), port_links[i]));
    }
}

/// Makes the list of the hosts `0`, `1`, ...
pub(crate) fn list_hosts(n: u32) -> (v: Vec<EntityId>)
    ensures
        v@ == host_range(n as int),
{
    let mut v: Vec<EntityId> = Vec::new();
    let mut i: u32 = 0;
    while i < n
        invariant
            i <= n,
            v@ == host_range(i as int),
        decreases n - i,
    {
        v.push(i);
        i = i + 1;
        assert(v@ =~= host_range(i as int));
    }
    v
}

/// Adds the two links between `a` and `b`.
pub(crate) fn add_duplex(
    links: &mut LinkRegistry,
    a: EntityId,
    b: EntityId,
    bandwidth_bps: u64,
    prop_delay_ns: u64,
) -> (ids: (u32, u32))
    requires
        old(links)@.len() + 1 <= u32::MAX,
    ensures
        ids.0 == old(links)@.len(),
        ids.1 == old(links)@.len() + 1,
        final(links)@ == old(links)@.push(
            Link { id: ids.0, from: a, to: b, bandwidth_bps, prop_delay_ns },
        ).push(Link { id: ids.1, from: b, to: a, bandwidth_bps, prop_delay_ns }),
{
    let there: u32 = links.add(Link { id: 0, from: a, to: b, bandwidth_bps, prop_delay_ns });
    let back: u32 = links.add(Link { id: 0, from: b, to: a, bandwidth_bps, prop_delay_ns });
    (there, back)
}

/// Makes an unused switch whose ports are connected to the given links.
pub(crate) fn wire_switch(
    id: EntityId,
    ecn_threshold_bytes: u32,
    buffer_bytes: u32,
    port_links: &Vec<u32>,
) -> (sw: Switch)
    ensures
        sw@ == wired(id, ecn_threshold_bytes, buffer_bytes, port_links@, Map::empty()),
{
    let mut sw = Switch::new(id, ecn_threshold_bytes, buffer_bytes);
    let mut i: usize = 0;
    assert(sw@ =~= wired(
        id,
        ecn_threshold_bytes,
        buffer_bytes,
        port_links@.take(0),
        Map::empty(),
    ));
    while i < port_links.len()
        invariant
            i <= port_links@.len(),
            sw@ == wired(
                id,
                ecn_threshold_bytes,
                buffer_bytes,
                port_links@.take(i as int),
                Map::empty(),
            ),
        decreases port_links@.len() - i,
    {
        sw.add_port(port_links[i]);
        i = i + 1;
        assert(sw@.ports =~= wired(
            id,
            ecn_threshold_bytes,
            buffer_bytes,
            port_links@.take(i as int),
            Map::empty(),
        ).ports);
    }
    assert(port_links@.take(i as int) =~= port_links@);
    sw
}

/// The routes with those to `dst` over `count` ports added; without a port nothing is added.
pub open spec fn with_route(
    routes: Map<EntityId, Seq<PortId>>,
    dst: EntityId,
    first: int,
    count: int,
) -> Map<EntityId, Seq<PortId>> {
    if count > 0 {
        routes.insert(dst, port_range(first, count))
    } else {
        routes
    }
}

/// Adds `count` ports from position `first` on as the routes to a new destination.
pub(crate) fn add_routes(routing: &mut RoutingTable, dst: EntityId, first: usize, count: usize)
    requires
        !old(routing)@.contains_key(dst),
        first + count <= usize::MAX,
    ensures
        final(routing)@ == with_route(old(routing)@, dst, first as int, count as int),
{
    let mut i: usize = 0;
    while i < count
        invariant
            i <= count,
            first + count <= usize::MAX,
            !old(routing)@.contains_key(dst),
            routing@ == with_route(old(routing)@, dst, first as int, i as int),
        decreases count - i,
    {
        routing.add(dst, low_u8(first + i));
        i = i + 1;
        assert(port_range(first as int, 0) =~= Seq::empty());
        assert(port_range(first as int, i as int) =~= port_range(
            first as int,
            i - 1,
        ).push(port_number(first + i - 1)));
        assert(routing@ =~= with_route(old(routing)@, dst, first as int, i as int));
    }
}

/// A product of natural numbers is positive only if both are.
pub proof fn lemma_product_sign(a: int, b: int)
    requires
        a >= 0,
        b >= 0,
    ensures
        a * b >= 0,
        a * b > 0 ==> a > 0 && b > 0,
{
    assert(a * b >= 0 && (a * b > 0 ==> a > 0 && b > 0)) by (nonlinear_arith)
        requires
            a >= 0,
            b >= 0,
    ;
}

/// A position in a table of `rows` rows of `width` entries.
pub proof fn lemma_flat_index(row: int, rows: int, col: int, width: int)
    requires
        0 <= row < rows,
        0 <= col < width,
    ensures
        0 <= row * width + col < rows * width,
        (row * width + col) / width == row,
        (row * width + col) % width == col,
{
    assert(0 <= row * width + col < rows * width) by (nonlinear_arith)
        requires
            0 <= row < rows,
            0 <= col < width,
    ;
    vstd::arithmetic::div_mod::lemma_fundamental_div_mod_converse(
        row * width + col,
        width,
        row,
        col,
    );
}

/// The row and the column of a position in a table.
pub proof fn lemma_flat_parts(i: int, rows: int, width: int)
    requires
        0 <= i < rows * width,
        0 < width,
    ensures
        0 <= i / width < rows,
        0 <= i % width < width,
        i == (i / width) * width + i % width,
{
    vstd::arithmetic::div_mod::lemma_fundamental_div_mod(i, width);
    assert(0 <= i / width < rows) by (nonlinear_arith)
        requires
            0 <= i < rows * width,
            0 < width,
            i == width * (i / width) + i % width,
            0 <= i % width < width,
    ;
    assert(width * (i / width) == (i / width) * width) by (nonlinear_arith);
}

} // verus!
