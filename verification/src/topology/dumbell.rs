//! The dumbbell: two switches joined by a bottleneck link.
//!
//! Each switch has `hosts_per_side` hosts. The hosts on the left come first, then those on
//! the right, then the left and the right switch.
use super::{add_duplex, add_routes, list_hosts, wire_switch, HostUplink, Topology};
use crate::network::{LinkRegistry, Switch};
use crate::EntityId;
use vstd::prelude::*;

verus! {

use super::{
    host_link, host_range, lemma_wired_wf, link_at, port_number, port_range, wired,
    TopologyView,
};
use crate::network::switch::SwitchView;
use crate::network::{Link, PortId};

/// The parameters of a dumbbell.
pub struct Dumbell {
    pub hosts_per_side: u32,
    pub host_link_bps: u64,
    pub bottleneck_link_bps: u64,
    pub prop_delay_ns: u64,
    pub ecn_threshold_bytes: u32,
    pub buffer_bytes: u32,
}

impl Dumbell {
    /// The numbers of all links fit.
    pub open spec fn fits(self) -> bool {
        4 * self.hosts_per_side + 2 <= u32::MAX
    }

    /// The switch of host `h`: zero is the left one.
    pub open spec fn side(self, h: int) -> int {
        if h < self.hosts_per_side {
            0
        } else {
            1
        }
    }

    /// The number of the switch of a side.
    pub open spec fn switch_id(self, side: int) -> int {
        2 * self.hosts_per_side + side
    }

    /// The links: those of the hosts, then the bottleneck from left to right and back.
    pub open spec fn link(self, i: int) -> Link {
        let n = self.hosts_per_side as int;
        if i < 4 * n {
            host_link(
                0,
                i,
                self.switch_id(self.side(i / 2)),
                self.host_link_bps,
                self.prop_delay_ns,
            )
        } else if i == 4 * n {
            link_at(
                i,
                self.switch_id(0),
                self.switch_id(1),
                self.bottleneck_link_bps,
                self.prop_delay_ns,
            )
        } else {
            link_at(
                i,
                self.switch_id(1),
                self.switch_id(0),
                self.bottleneck_link_bps,
                self.prop_delay_ns,
            )
        }
    }

    /// The links of a switch: those to its hosts, then the bottleneck.
    pub open spec fn port_links(self, side: int) -> Seq<u32> {
        let n = self.hosts_per_side as int;
        Seq::new(
            (n + 1) as nat,
            |p: int|
                if p < n {
                    (2 * (side * n + p) + 1) as u32
                } else {
                    (4 * n + side) as u32
                },
        )
    }

    /// The routes of a switch: to its own hosts directly, to the others over the bottleneck.
    pub open spec fn routes(self, side: int) -> Map<EntityId, Seq<PortId>> {
        let n = self.hosts_per_side as int;
        Map::new(
            |d: EntityId| d < 2 * n,
            |d: EntityId|
                if self.side(d as int) == side {
                    port_range(d - side * n, 1)
                } else {
                    port_range(n, 1)
                },
        )
    }

    /// The switch of a side.
    pub open spec fn switch(self, side: int) -> SwitchView {
        wired(
            self.switch_id(side) as u32,
            self.ecn_threshold_bytes,
            self.buffer_bytes,
            self.port_links(side),
            self.routes(side),
        )
    }

    /// The connection of host `h`.
    pub open spec fn uplink(self, h: int) -> HostUplink {
        HostUplink {
            host: h as u32,
            edge_switch: self.switch_id(self.side(h)) as u32,
            link_to_switch: (2 * h) as u32,
            link_to_host: (2 * h + 1) as u32,
        }
    }

    /// The whole network.
    pub open spec fn topology(self) -> TopologyView {
        let n = self.hosts_per_side as int;
        TopologyView {
            hosts: host_range(2 * n),
            switches: Seq::new(2, |side: int| self.switch(side)),
            links: Seq::new((4 * n + 2) as nat, |i: int| self.link(i)),
            uplinks: Seq::new((2 * n) as nat, |h: int| self.uplink(h)),
        }
    }

    fn build_switch(&self, right: bool) -> (sw: Switch)
        requires
            self.fits(),
        ensures
            sw@ == self.switch(
                if right {
                    1
                } else {
                    0
                },
            ),
    {
        let n: u32 = self.hosts_per_side;
        let side: u32 = if right {
            1
        } else {
            0
        };
        let own: u32 = if right {
            n
        } else {
            0
        };
        assert(own == side * n) by (nonlinear_arith)
            requires
                side == 0 && own == 0 || side == 1 && own == n,
        ;
        let mut port_links: Vec<u32> = Vec::new();
        let mut p: u32 = 0;
        while p < n
            invariant
                p <= n,
                self.fits(),
                n == self.hosts_per_side,
                own == side * n,
                own <= n,
                port_links@ =~= self.port_links(side as int).take(p as int),
            decreases n - p,
        {
            port_links.push(2 * (own + p) + 1);
            p = p + 1;
        }
        port_links.push(4 * n + side);
        assert(port_links@ =~= self.port_links(side as int));
        let mut sw = wire_switch(
            2 * n + side,
            self.ecn_threshold_bytes,
            self.buffer_bytes,
            &port_links,
        );
        let mut d: u32 = 0;
        let ghost want = self.routes(side as int);
        while d < 2 * n
            invariant
                d <= 2 * n,
                self.fits(),
                n == self.hosts_per_side,
                own == side * n,
                side == 0 && own == 0 || side == 1 && own == n,
                want == self.routes(side as int),
                sw@ == wired(
                    self.switch_id(side as int) as u32,
                    self.ecn_threshold_bytes,
                    self.buffer_bytes,
                    self.port_links(side as int),
                    want.restrict(Set::new(|e: EntityId| e < d)),
                ),
            decreases 2 * n - d,
        {
            let port: u32 = if own <= d && d - own < n {
                d - own
            } else {
                n
            };
            let ghost before = sw@;
            add_routes(&mut sw.routing, d, port as usize, 1);
            d = d + 1;
            assert(sw@.routes =~= want.restrict(Set::new(|e: EntityId| e < d)));
            assert(sw@.ports =~= before.ports);
        }
        assert(sw@.routes =~= want);
        sw
    }

    /// Builds the network.
    pub fn build(self) -> (t: Topology)
        requires
            self.fits(),
        ensures
            t@ == self.topology(),
    {
        let n: u32 = self.hosts_per_side;
        let mut links = LinkRegistry::new();
        let mut host_uplink: Vec<HostUplink> = Vec::new();
        let mut h: u32 = 0;
        let ghost want = self.topology();
        while h < 2 * n
            invariant
                h <= 2 * n,
                self.fits(),
                n == self.hosts_per_side,
                want == self.topology(),
                links@ =~= want.links.take(2 * h),
                host_uplink@ =~= want.uplinks.take(h as int),
            decreases 2 * n - h,
        {
            let edge: EntityId = if h < n {
                2 * n
            } else {
                2 * n + 1
            };
            let (to_switch, to_host) = add_duplex(
                &mut links,
                h,
                edge,
                self.host_link_bps,
                self.prop_delay_ns,
            );
            host_uplink.push(
                HostUplink {
                    host: h,
                    edge_switch: edge,
                    link_to_switch: to_switch,
                    link_to_host: to_host,
                },
            );
            assert(self.link(2 * h) == links@[2 * h]);
            assert(self.link(2 * h + 1) == links@[2 * h + 1]);
            h = h + 1;
        }
        add_duplex(
            &mut links,
            2 * n,
            2 * n + 1,
            self.bottleneck_link_bps,
            self.prop_delay_ns,
        );
        let mut switches: Vec<Switch> = Vec::new();
        switches.push(self.build_switch(false));
        switches.push(self.build_switch(true));
        let t = Topology { hosts: list_hosts(2 * n), switches, links, host_uplink };
        assert(t@.links =~= want.links);
        assert(t@.switches =~= want.switches);
        t
    }
}

/// How many links a packet for host `h` still takes from the switch of a side.
pub open spec fn dumbell_distance(d: Dumbell, side: int, h: int) -> int {
    if d.side(h) == side {
        1
    } else {
        2
    }
}

/// In a dumbbell every switch has a route to every host, and every hop of a route leads to the
/// host or to a switch that is closer to it.
pub proof fn law_dumbell_delivers(d: Dumbell, side: int, h: int)
    requires
        d.fits(),
        0 <= side < 2,
        0 <= h < 2 * d.hosts_per_side,
        d.hosts_per_side < 256,
    ensures
        d.topology().switches[side].has_route(h as u32),
        forall|i: int|
            0 <= i < d.topology().switches[side].routes[h as u32].len() ==> {
                let p = #[trigger] d.topology().switches[side].routes[h as u32][i];
                let next = d.topology().next_hop(side, p as int);
                if dumbell_distance(d, side, h) == 1 {
                    next == h
                } else {
                    next == d.switch_id(1 - side) && dumbell_distance(d, 1 - side, h)
                        < dumbell_distance(d, side, h)
                }
            },
{
    let t = d.topology();
    let n = d.hosts_per_side as int;
    let sw = t.switches[side];
    assert(sw == d.switch(side));
    assert(sw.routes.contains_key(h as u32));
    assert forall|i: int| 0 <= i < sw.routes[h as u32].len() implies {
        let p = #[trigger] sw.routes[h as u32][i];
        let next = t.next_hop(side, p as int);
        if dumbell_distance(d, side, h) == 1 {
            next == h
        } else {
            next == d.switch_id(1 - side) && dumbell_distance(d, 1 - side, h) < dumbell_distance(
                d,
                side,
                h,
            )
        }
    } by {
        let p = sw.routes[h as u32][i] as int;
        if d.side(h) == side {
            assert(side * n == if side == 0 { 0 } else { n }) by (nonlinear_arith)
                requires
                    0 <= side < 2,
            ;
            assert(p == h - side * n);
            assert(sw.ports[p].link_id == 2 * h + 1);
            assert(t.links[2 * h + 1] == d.link(2 * h + 1));
        } else {
            assert(p == n);
            assert(sw.ports[n].link_id == 4 * n + side);
            assert(t.links[4 * n + side] == d.link(4 * n + side));
        }
    }
}

/// A dumbbell whose links can carry data is a well-formed network.
pub proof fn law_dumbell_wf(d: Dumbell)
    requires
        d.fits(),
        d.host_link_bps > 0,
        d.bottleneck_link_bps > 0,
    ensures
        d.topology().wf(),
        d.topology().routes_complete(),
{
    let t = d.topology();
    let n = d.hosts_per_side as int;
    assert forall|i: int| 0 <= i < t.switches.len() implies (#[trigger] t.switches[i]).wf()
        && t.ports_linked(i) by {
        assert(t.switches[i] == d.switch(i));
        assert(i * n == if i == 0 { 0 } else { n }) by (nonlinear_arith)
            requires
                0 <= i < 2,
        ;
        let routes = d.routes(i);
        assert forall|e: EntityId, j: int|
            routes.contains_key(e) && 0 <= j < routes[e].len() implies (#[trigger] routes[e][j])
            < d.port_links(i).len() by {
            if d.side(e as int) == i {
                assert(routes[e] == port_range(e - i * n, 1));
                assert(routes[e][j] == port_number(e - i * n + j));
            } else {
                assert(routes[e] == port_range(n, 1));
            }
        }
        lemma_wired_wf(
            d.switch_id(i) as u32,
            d.ecn_threshold_bytes,
            d.buffer_bytes,
            d.port_links(i),
            routes,
        );
        assert forall|p: int| 0 <= p < t.switches[i].ports.len() implies (
        #[trigger] t.switches[i].ports[p]).link_id < t.links.len() by {
            assert(t.switches[i].ports[p].link_id == d.port_links(i)[p]);
        }
    }
    assert forall|i: int, h: int|
        0 <= i < t.switches.len() && 0 <= h < t.hosts.len() implies (
    #[trigger] t.switches[i]).has_route(#[trigger] t.hosts[h]) by {
        assert(t.switches[i] == d.switch(i));
        assert(d.routes(i).contains_key(t.hosts[h]));
    }
}

} // verus!
