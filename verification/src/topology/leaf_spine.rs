//! The leaf-spine network: every leaf switch is connected to every spine switch.
//!
//! The hosts come first, leaf by leaf; then the leaves, then the spines.
use super::{add_duplex, add_routes, list_hosts, wire_switch, HostUplink, Topology};
use crate::network::{LinkRegistry, Switch};
use crate::EntityId;
use vstd::prelude::*;

verus! {

use super::{
    host_link, host_range, lemma_flat_index, lemma_flat_parts, lemma_product_sign, lemma_wired_wf,
    link_at, port_number, port_range, wired, TopologyView,
};
use crate::network::switch::SwitchView;
use crate::network::{Link, PortId};

/// The parameters of a leaf-spine network.
pub struct LeafSpine {
    pub n_leaf: u32,
    pub n_spine: u32,
    pub hosts_per_leaf: u32,
    pub host_link_bps: u64,
    pub fabric_link_bps: u64,
    pub prop_delay_ns: u64,
    pub ecn_threshold_bytes: u32,
    pub buffer_bytes: u32,
}

impl LeafSpine {
    /// The number of hosts.
    pub open spec fn n_hosts(self) -> int {
        self.n_leaf * self.hosts_per_leaf
    }

    /// The number of pairs of a leaf and a spine.
    pub open spec fn n_pairs(self) -> int {
        self.n_leaf * self.n_spine
    }

    /// The numbers of all switches and links fit.
    pub open spec fn fits(self) -> bool {
        &&& self.n_hosts() + self.n_leaf + self.n_spine <= u32::MAX
        &&& 2 * self.n_hosts() + 2 * self.n_pairs() <= u32::MAX
    }

    /// The leaf of host `h`.
    pub open spec fn leaf_of(self, h: int) -> int {
        h / self.hosts_per_leaf as int
    }

    /// The number of leaf `i`.
    pub open spec fn leaf_id(self, i: int) -> int {
        self.n_hosts() + i
    }

    /// The number of spine `j`.
    pub open spec fn spine_id(self, j: int) -> int {
        self.n_hosts() + self.n_leaf + j
    }

    /// The links: those of the hosts, then up and down between each leaf and each spine.
    pub open spec fn link(self, i: int) -> Link {
        let first = 2 * self.n_hosts();
        if i < first {
            host_link(
                0,
                i,
                self.leaf_id(self.leaf_of(i / 2)),
                self.host_link_bps,
                self.prop_delay_ns,
            )
        } else {
            let pair = (i - first) / 2;
            let leaf = self.leaf_id(pair / self.n_spine as int);
            let spine = self.spine_id(pair % self.n_spine as int);
            if (i - first) % 2 == 0 {
                link_at(i, leaf, spine, self.fabric_link_bps, self.prop_delay_ns)
            } else {
                link_at(i, spine, leaf, self.fabric_link_bps, self.prop_delay_ns)
            }
        }
    }

    /// The links of leaf `i`: those to its hosts, then those to the spines.
    pub open spec fn leaf_links(self, i: int) -> Seq<u32> {
        let h = self.hosts_per_leaf as int;
        Seq::new(
            (h + self.n_spine) as nat,
            |p: int|
                if p < h {
                    (2 * (i * h + p) + 1) as u32
                } else {
                    (2 * self.n_hosts() + 2 * (i * self.n_spine + (p - h))) as u32
                },
        )
    }

    /// The links of spine `j`: those to the leaves.
    pub open spec fn spine_links(self, j: int) -> Seq<u32> {
        Seq::new(
            self.n_leaf as nat,
            |i: int| (2 * self.n_hosts() + 2 * (i * self.n_spine + j) + 1) as u32,
        )
    }

    /// The routes of leaf `i`: to its own hosts directly, to the others over every spine.
    pub open spec fn leaf_routes(self, i: int) -> Map<EntityId, Seq<PortId>> {
        let h = self.hosts_per_leaf as int;
        Map::new(
            |d: EntityId| d < self.n_hosts() && (self.leaf_of(d as int) == i || self.n_spine > 0),
            |d: EntityId|
                if self.leaf_of(d as int) == i {
                    port_range(d as int % h, 1)
                } else {
                    port_range(h, self.n_spine as int)
                },
        )
    }

    /// The routes of a spine: to every host over its leaf.
    pub open spec fn spine_routes(self) -> Map<EntityId, Seq<PortId>> {
        Map::new(
            |d: EntityId| d < self.n_hosts(),
            |d: EntityId| port_range(self.leaf_of(d as int), 1),
        )
    }

    /// Leaf `i`.
    pub open spec fn leaf(self, i: int) -> SwitchView {
        wired(
            self.leaf_id(i) as u32,
            self.ecn_threshold_bytes,
            self.buffer_bytes,
            self.leaf_links(i),
            self.leaf_routes(i),
        )
    }

    /// Spine `j`.
    pub open spec fn spine(self, j: int) -> SwitchView {
        wired(
            self.spine_id(j) as u32,
            self.ecn_threshold_bytes,
            self.buffer_bytes,
            self.spine_links(j),
            self.spine_routes(),
        )
    }

    /// The connection of host `h`.
    pub open spec fn uplink(self, h: int) -> HostUplink {
        HostUplink {
            host: h as u32,
            edge_switch: self.leaf_id(self.leaf_of(h)) as u32,
            link_to_switch: (2 * h) as u32,
            link_to_host: (2 * h + 1) as u32,
        }
    }

    /// The whole network.
    pub open spec fn topology(self) -> TopologyView {
        TopologyView {
            hosts: host_range(self.n_hosts()),
            switches: Seq::new(
                (self.n_leaf + self.n_spine) as nat,
                |i: int|
                    if i < self.n_leaf {
                        self.leaf(i)
                    } else {
                        self.spine(i - self.n_leaf)
                    },
            ),
            links: Seq::new(
                (2 * self.n_hosts() + 2 * self.n_pairs()) as nat,
                |i: int| self.link(i),
            ),
            uplinks: Seq::new(self.n_hosts() as nat, |h: int| self.uplink(h)),
        }
    }

    fn build_leaf(&self, i: u32) -> (sw: Switch)
        requires
            self.fits(),
            i < self.n_leaf,
        ensures
            sw@ == self.leaf(i as int),
    {
        let h: u32 = self.hosts_per_leaf;
        let s: u32 = self.n_spine;
        let n: u32 = self.n_leaf * h;
        proof {
            lemma_product_sign(self.n_leaf as int, h as int);
        }
        assert(h <= n) by (nonlinear_arith)
            requires
                n == self.n_leaf * h,
                self.n_leaf > 0,
        ;
        let mut port_links: Vec<u32> = Vec::new();
        let mut p: u32 = 0;
        while p < h + s
            invariant
                p <= h + s <= u32::MAX,
                self.fits(),
                i < self.n_leaf,
                h == self.hosts_per_leaf,
                s == self.n_spine,
                n == self.n_hosts(),
                port_links@ =~= self.leaf_links(i as int).take(p as int),
            decreases h + s - p,
        {
            if p < h {
                proof {
                    lemma_flat_index(i as int, self.n_leaf as int, p as int, h as int);
                    lemma_product_sign(i as int, h as int);
                }
                port_links.push(2 * (i * h + p) + 1);
            } else {
                proof {
                    lemma_flat_index(i as int, self.n_leaf as int, p - h, s as int);
                    lemma_product_sign(i as int, s as int);
                }
                port_links.push(2 * n + 2 * (i * s + (p - h)));
            }
            p = p + 1;
        }
        assert(port_links@ =~= self.leaf_links(i as int));
        let mut sw = wire_switch(
            n + i,
            self.ecn_threshold_bytes,
            self.buffer_bytes,
            &port_links,
        );
        let mut d: u32 = 0;
        let ghost want = self.leaf_routes(i as int);
        while d < n
            invariant
                d <= n,
                h <= n,
                h + s <= u32::MAX,
                h == self.hosts_per_leaf,
                s == self.n_spine,
                n == self.n_hosts(),
                n > 0 ==> h > 0,
                want == self.leaf_routes(i as int),
                sw@ == wired(
                    self.leaf_id(i as int) as u32,
                    self.ecn_threshold_bytes,
                    self.buffer_bytes,
                    self.leaf_links(i as int),
                    want.restrict(Set::new(|e: EntityId| e < d)),
                ),
            decreases n - d,
        {
            let ghost before = sw@;
            if d / h == i {
                add_routes(&mut sw.routing, d, (d % h) as usize, 1);
            } else {
                add_routes(&mut sw.routing, d, h as usize, s as usize);
            }
            d = d + 1;
            assert(sw@.routes =~= want.restrict(Set::new(|e: EntityId| e < d)));
            assert(sw@.ports =~= before.ports);
        }
        assert(sw@.routes =~= want);
        sw
    }

    fn build_spine(&self, j: u32) -> (sw: Switch)
        requires
            self.fits(),
            j < self.n_spine,
        ensures
            sw@ == self.spine(j as int),
    {
        let h: u32 = self.hosts_per_leaf;
        let s: u32 = self.n_spine;
        let n: u32 = self.n_leaf * h;
        proof {
            lemma_product_sign(self.n_leaf as int, h as int);
        }
        let mut port_links: Vec<u32> = Vec::new();
        let mut i: u32 = 0;
        while i < self.n_leaf
            invariant
                i <= self.n_leaf,
                self.fits(),
                j < s,
                s == self.n_spine,
                n == self.n_hosts(),
                port_links@ =~= self.spine_links(j as int).take(i as int),
            decreases self.n_leaf - i,
        {
            proof {
                lemma_flat_index(i as int, self.n_leaf as int, j as int, s as int);
                lemma_product_sign(i as int, s as int);
            }
            port_links.push(2 * n + 2 * (i * s + j) + 1);
            i = i + 1;
        }
        assert(port_links@ =~= self.spine_links(j as int));
        let mut sw = wire_switch(
            n + self.n_leaf + j,
            self.ecn_threshold_bytes,
            self.buffer_bytes,
            &port_links,
        );
        let mut d: u32 = 0;
        let ghost want = self.spine_routes();
        while d < n
            invariant
                d <= n,
                h == self.hosts_per_leaf,
                n == self.n_hosts(),
                n > 0 ==> h > 0,
                want == self.spine_routes(),
                sw@ == wired(
                    self.spine_id(j as int) as u32,
                    self.ecn_threshold_bytes,
                    self.buffer_bytes,
                    self.spine_links(j as int),
                    want.restrict(Set::new(|e: EntityId| e < d)),
                ),
            decreases n - d,
        {
            let ghost before = sw@;
            proof {
                lemma_flat_parts(d as int, self.n_leaf as int, h as int);
            }
            add_routes(&mut sw.routing, d, (d / h) as usize, 1);
            d = d + 1;
            assert(sw@.routes =~= want.restrict(Set::new(|e: EntityId| e < d)));
            assert(sw@.ports =~= before.ports);
        }
        assert(sw@.routes =~= want);
        sw
    }

    fn build_links(&self) -> (links: LinkRegistry)
        requires
            self.fits(),
        ensures
            links@ == self.topology().links,
    {
        let h: u32 = self.hosts_per_leaf;
        let s: u32 = self.n_spine;
        let n: u32 = self.n_leaf * h;
        proof {
            lemma_product_sign(self.n_leaf as int, h as int);
        }
        let pairs: u32 = self.n_leaf * s;
        proof {
            lemma_product_sign(self.n_leaf as int, s as int);
        }
        let mut links = LinkRegistry::new();
        let ghost want = self.topology().links;
        let mut host: u32 = 0;
        while host < n
            invariant
                host <= n,
                self.fits(),
                h == self.hosts_per_leaf,
                n == self.n_hosts(),
                n > 0 ==> h > 0,
                want == self.topology().links,
                want.len() >= 2 * n,
                links@ =~= want.take(2 * host),
            decreases n - host,
        {
            proof {
                lemma_flat_parts(host as int, self.n_leaf as int, h as int);
                assert(2 * host / 2 == host && (2 * host + 1) / 2 == host);
            }
            add_duplex(&mut links, host, n + host / h, self.host_link_bps, self.prop_delay_ns);
            assert(self.link(2 * host) == links@[2 * host]);
            assert(self.link(2 * host + 1) == links@[2 * host + 1]);
            host = host + 1;
        }
        let mut pair: u32 = 0;
        while pair < pairs
            invariant
                pair <= pairs,
                self.fits(),
                s == self.n_spine,
                n == self.n_hosts(),
                pairs == self.n_pairs(),
                pairs > 0 ==> s > 0,
                want == self.topology().links,
                want.len() == 2 * n + 2 * pairs,
                links@ =~= want.take(2 * n + 2 * pair),
            decreases pairs - pair,
        {
            proof {
                lemma_flat_parts(pair as int, self.n_leaf as int, s as int);
            }
            let ghost at = 2 * n + 2 * pair;
            add_duplex(
                &mut links,
                n + pair / s,
                n + self.n_leaf + pair % s,
                self.fabric_link_bps,
                self.prop_delay_ns,
            );
            assert((at - 2 * n) / 2 == pair && (at + 1 - 2 * n) / 2 == pair);
            assert(self.link(at) == links@[at]);
            assert(self.link(at + 1) == links@[at + 1]);
            pair = pair + 1;
        }
        assert(links@ =~= want);
        links
    }

    /// Builds the network.
    pub fn build(self) -> (t: Topology)
        requires
            self.fits(),
        ensures
            t@ == self.topology(),
    {
        let h: u32 = self.hosts_per_leaf;
        let n: u32 = self.n_leaf * h;
        proof {
            lemma_product_sign(self.n_leaf as int, h as int);
        }
        let ghost want = self.topology();
        let links = self.build_links();
        let mut host_uplink: Vec<HostUplink> = Vec::new();
        let mut host: u32 = 0;
        proof {
            lemma_product_sign(self.n_leaf as int, self.n_spine as int);
        }
        while host < n
            invariant
                host <= n,
                self.fits(),
                h == self.hosts_per_leaf,
                n == self.n_hosts(),
                n > 0 ==> h > 0,
                want == self.topology(),
                host_uplink@ =~= want.uplinks.take(host as int),
                self.n_pairs() >= 0,
            decreases n - host,
        {
            proof {
                lemma_flat_parts(host as int, self.n_leaf as int, h as int);
            }
            host_uplink.push(
                HostUplink {
                    host,
                    edge_switch: n + host / h,
                    link_to_switch: 2 * host,
                    link_to_host: 2 * host + 1,
                },
            );
            host = host + 1;
        }
        let mut switches: Vec<Switch> = Vec::new();
        let mut i: u32 = 0;
        while i < self.n_leaf
            invariant
                i <= self.n_leaf,
                self.fits(),
                want == self.topology(),
                switches@.len() == i,
                forall|k: int| 0 <= k < i ==> (#[trigger] switches@[k])@ == want.switches[k],
            decreases self.n_leaf - i,
        {
            switches.push(self.build_leaf(i));
            i = i + 1;
        }
        let mut j: u32 = 0;
        while j < self.n_spine
            invariant
                j <= self.n_spine,
                self.fits(),
                want == self.topology(),
                switches@.len() == self.n_leaf + j,
                forall|k: int|
                    0 <= k < self.n_leaf + j ==> (#[trigger] switches@[k])@ == want.switches[k],
            decreases self.n_spine - j,
        {
            switches.push(self.build_spine(j));
            j = j + 1;
        }
        let t = Topology { hosts: list_hosts(n), switches, links, host_uplink };
        assert(t@.switches =~= want.switches);
        assert(t@.uplinks =~= want.uplinks);
        t
    }
}

/// How many links a packet for host `h` still takes from the switch at `i`.
pub open spec fn leaf_spine_distance(c: LeafSpine, i: int, h: int) -> int {
    if i >= c.n_leaf {
        2
    } else if c.leaf_of(h) == i {
        1
    } else {
        3
    }
}

/// In a leaf-spine network with a spine every switch has a route to every host, and every hop
/// of a route leads to the host or to a switch that is closer to it. A leaf has a route over
/// every spine to the hosts of other leaves.
pub proof fn law_leaf_spine_delivers(c: LeafSpine, i: int, h: int)
    requires
        c.fits(),
        c.n_spine > 0,
        0 <= i < c.n_leaf + c.n_spine,
        0 <= h < c.n_hosts(),
        c.hosts_per_leaf + c.n_spine <= 256,
        c.n_leaf <= 256,
    ensures
        c.topology().switches[i].has_route(h as u32),
        leaf_spine_distance(c, i, h) == 3 ==> c.topology().switches[i].routes[h as u32].len()
            == c.n_spine,
        forall|r: int|
            0 <= r < c.topology().switches[i].routes[h as u32].len() ==> {
                let p = #[trigger] c.topology().switches[i].routes[h as u32][r];
                let next = c.topology().next_hop(i, p as int);
                let dist = leaf_spine_distance(c, i, h);
                if dist == 1 {
                    next == h
                } else if dist == 2 {
                    next == c.leaf_id(c.leaf_of(h)) && leaf_spine_distance(c, c.leaf_of(h), h)
                        < dist
                } else {
                    next == c.spine_id(r) && leaf_spine_distance(c, c.n_leaf + r, h) < dist
                }
            },
{
    let t = c.topology();
    let sw = t.switches[i];
    let n = c.n_hosts();
    let hp = c.hosts_per_leaf as int;
    let s = c.n_spine as int;
    lemma_product_sign(c.n_leaf as int, hp);
    lemma_flat_parts(h, c.n_leaf as int, hp);
    let home = c.leaf_of(h);
    assert(sw.routes.contains_key(h as u32));
    assert forall|r: int| 0 <= r < sw.routes[h as u32].len() implies {
        let p = #[trigger] sw.routes[h as u32][r];
        let next = t.next_hop(i, p as int);
        let dist = leaf_spine_distance(c, i, h);
        if dist == 1 {
            next == h
        } else if dist == 2 {
            next == c.leaf_id(home) && leaf_spine_distance(c, home, h) < dist
        } else {
            next == c.spine_id(r) && leaf_spine_distance(c, c.n_leaf + r, h) < dist
        }
    } by {
        let p = sw.routes[h as u32][r] as int;
        if i >= c.n_leaf {
            let j = i - c.n_leaf;
            assert(sw == c.spine(j));
            assert(p == home);
            lemma_flat_index(home, c.n_leaf as int, j, s);
            let at = 2 * n + 2 * (home * s + j) + 1;
            assert(sw.ports[p].link_id == at);
            assert(t.links[at] == c.link(at));
            assert((at - 2 * n) / 2 == home * s + j);
        } else if home == i {
            assert(sw == c.leaf(i));
            assert(p == h % hp);
            assert(sw.ports[p].link_id == 2 * h + 1);
            lemma_product_sign(c.n_leaf as int, s);
            assert(t.links[2 * h + 1] == c.link(2 * h + 1));
            assert((2 * h + 1) / 2 == h);
        } else {
            assert(sw == c.leaf(i));
            assert(p == hp + r);
            lemma_flat_index(i, c.n_leaf as int, r, s);
            let at = 2 * n + 2 * (i * s + r);
            assert(sw.ports[p].link_id == at);
            assert(t.links[at] == c.link(at));
            assert((at - 2 * n) / 2 == i * s + r);
        }
    }
}

/// A leaf-spine network whose links can carry data is a well-formed network. With a spine every
/// switch has a route to every host.
pub proof fn law_leaf_spine_wf(c: LeafSpine)
    requires
        c.fits(),
        c.host_link_bps > 0,
        c.fabric_link_bps > 0,
    ensures
        c.topology().wf(),
        c.n_spine > 0 ==> c.topology().routes_complete(),
{
    let t = c.topology();
    let n = c.n_hosts();
    let hp = c.hosts_per_leaf as int;
    lemma_product_sign(c.n_leaf as int, hp);
    lemma_product_sign(c.n_leaf as int, c.n_spine as int);
    assert forall|i: int| 0 <= i < t.switches.len() implies (#[trigger] t.switches[i]).wf()
        && t.ports_linked(i) by {
        if i < c.n_leaf {
            let routes = c.leaf_routes(i);
            assert(t.switches[i] == c.leaf(i));
            assert forall|e: EntityId, j: int|
                routes.contains_key(e) && 0 <= j < routes[e].len() implies (#[trigger] routes[e][j])
                < c.leaf_links(i).len() by {
                lemma_product_sign(c.n_leaf as int, hp);
                lemma_flat_parts(e as int, c.n_leaf as int, hp);
                if c.leaf_of(e as int) == i {
                    assert(routes[e][j] == port_number(e as int % hp + j));
                } else {
                    assert(routes[e][j] == port_number(hp + j));
                }
            }
            lemma_wired_wf(
                c.leaf_id(i) as u32,
                c.ecn_threshold_bytes,
                c.buffer_bytes,
                c.leaf_links(i),
                routes,
            );
            assert forall|p: int| 0 <= p < t.switches[i].ports.len() implies (
            #[trigger] t.switches[i].ports[p]).link_id < t.links.len() by {
                assert(t.switches[i].ports[p].link_id == c.leaf_links(i)[p]);
                if p < hp {
                    lemma_flat_index(i, c.n_leaf as int, p, hp);
                } else {
                    lemma_flat_index(i, c.n_leaf as int, p - hp, c.n_spine as int);
                }
            }
        } else {
            let j = i - c.n_leaf;
            let routes = c.spine_routes();
            assert(t.switches[i] == c.spine(j));
            assert forall|e: EntityId, q: int|
                routes.contains_key(e) && 0 <= q < routes[e].len() implies (#[trigger] routes[e][q])
                < c.spine_links(j).len() by {
                lemma_product_sign(c.n_leaf as int, hp);
                lemma_flat_parts(e as int, c.n_leaf as int, hp);
                assert(routes[e][q] == port_number(c.leaf_of(e as int) + q));
            }
            lemma_wired_wf(
                c.spine_id(j) as u32,
                c.ecn_threshold_bytes,
                c.buffer_bytes,
                c.spine_links(j),
                routes,
            );
            assert forall|p: int| 0 <= p < t.switches[i].ports.len() implies (
            #[trigger] t.switches[i].ports[p]).link_id < t.links.len() by {
                assert(t.switches[i].ports[p].link_id == c.spine_links(j)[p]);
                lemma_flat_index(p, c.n_leaf as int, j, c.n_spine as int);
            }
        }
    }
    if c.n_spine > 0 {
        assert forall|i: int, h: int|
            0 <= i < t.switches.len() && 0 <= h < t.hosts.len() implies (
        #[trigger] t.switches[i]).has_route(#[trigger] t.hosts[h]) by {
            if i < c.n_leaf {
                assert(t.switches[i] == c.leaf(i));
                assert(c.leaf_routes(i).contains_key(t.hosts[h]));
            } else {
                assert(t.switches[i] == c.spine(i - c.n_leaf));
                assert(c.spine_routes().contains_key(t.hosts[h]));
            }
        }
    }
}

} // verus!
