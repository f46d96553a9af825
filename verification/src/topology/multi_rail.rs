//! A leaf-spine network of hosts with several NICs.
//!
//! Every NIC of a host is an entity of its own. The NICs come first, leaf by leaf and host by
//! host; then the leaves, then the spines. Each NIC takes up two ports of its leaf: one stands for
//! the link from the NIC, and the other sends to it.
//!
//! The spines are divided into rails, and each NIC of a host belongs to another rail as long as
//! there are enough spines. What a leaf sends to a NIC of another leaf goes over the rail of that
//! NIC alone, so that the rails do not get in each other's way.
use super::{add_duplex, add_routes, list_hosts, wire_switch, HostUplink, Topology};
use crate::network::{LinkRegistry, Switch};
use crate::EntityId;
use vstd::prelude::*;

verus! {

use super::{
    host_link, host_range, lemma_flat_index, lemma_flat_parts, lemma_product_sign, lemma_wired_wf,
    link_at, port_number, port_range, wired, TopologyView,
};
use crate::network::switch::SwitchView;
use crate::network::{Link, PortId};

/// The parameters of the network.
pub struct MultiRailLeafSpine {
    pub n_leaf: u32,
    pub n_spine: u32,
    pub hosts_per_leaf: u32,
    pub nics_per_host: u32,
    pub host_link_bps: u64,
    pub fabric_link_bps: u64,
    pub prop_delay_ns: u64,
    pub ecn_threshold_bytes: u32,
    pub buffer_bytes: u32,
}

impl MultiRailLeafSpine {
    /// The number of NICs at a leaf.
    pub open spec fn per_leaf(self) -> int {
        self.hosts_per_leaf * self.nics_per_host
    }

    /// The number of NICs.
    pub open spec fn n_nics(self) -> int {
        self.n_leaf * self.per_leaf()
    }

    /// The number of pairs of a leaf and a spine.
    pub open spec fn n_pairs(self) -> int {
        self.n_leaf * self.n_spine
    }

    /// The numbers of all switches, links and ports fit.
    pub open spec fn fits(self) -> bool {
        &&& self.n_nics() + self.n_leaf + self.n_spine <= u32::MAX
        &&& 2 * self.n_nics() + 2 * self.n_pairs() <= u32::MAX
        &&& self.per_leaf() <= u32::MAX
        &&& self.n_spine + 2 * self.per_leaf() <= u32::MAX
    }

    /// The leaf of NIC `h`.
    pub open spec fn leaf_of(self, h: int) -> int {
        h / self.per_leaf()
    }

    /// The number of rails: one for each NIC of a host, as far as there are spines.
    pub open spec fn n_rails(self) -> int {
        if self.nics_per_host <= self.n_spine {
            self.nics_per_host as int
        } else {
            self.n_spine as int
        }
    }

    /// The rail of NIC `h`.
    pub open spec fn rail_of(self, h: int) -> int {
        if self.n_rails() == 0 {
            0
        } else {
            h % self.nics_per_host as int % self.n_rails()
        }
    }

    /// The first spine of rail `r`.
    pub open spec fn rail_first(self, r: int) -> int {
        if self.n_rails() == 0 {
            0
        } else {
            r * (self.n_spine as int / self.n_rails())
        }
    }

    /// The number of spines of rail `r`. They are shared out equally; what is left over belongs to
    /// the last rail.
    pub open spec fn rail_size(self, r: int) -> int {
        if self.n_rails() == 0 {
            0
        } else if r == self.n_rails() - 1 {
            self.n_spine - self.rail_first(r)
        } else {
            self.n_spine as int / self.n_rails()
        }
    }

    /// Spine `j` belongs to rail `r`.
    pub open spec fn on_rail(self, j: int, r: int) -> bool {
        self.rail_first(r) <= j < self.rail_first(r) + self.rail_size(r)
    }

    /// The number of leaf `i`.
    pub open spec fn leaf_id(self, i: int) -> int {
        self.n_nics() + i
    }

    /// The number of spine `j`.
    pub open spec fn spine_id(self, j: int) -> int {
        self.n_nics() + self.n_leaf + j
    }

    /// The links: up and down between each leaf and each spine, then those of the NICs.
    pub open spec fn link(self, i: int) -> Link {
        let fabric = 2 * self.n_pairs();
        if i < fabric {
            let leaf = self.leaf_id(i / 2 / self.n_spine as int);
            let spine = self.spine_id(i / 2 % self.n_spine as int);
            if i % 2 == 0 {
                link_at(i, leaf, spine, self.fabric_link_bps, self.prop_delay_ns)
            } else {
                link_at(i, spine, leaf, self.fabric_link_bps, self.prop_delay_ns)
            }
        } else {
            host_link(
                fabric,
                i - fabric,
                self.leaf_id(self.leaf_of((i - fabric) / 2)),
                self.host_link_bps,
                self.prop_delay_ns,
            )
        }
    }

    /// The links of leaf `i`: those to the spines, then for each of its NICs the one from it and the
    /// one to it.
    pub open spec fn leaf_links(self, i: int) -> Seq<u32> {
        let s = self.n_spine as int;
        Seq::new(
            (s + 2 * self.per_leaf()) as nat,
            |p: int|
                if p < s {
                    (2 * (i * s + p)) as u32
                } else {
                    (2 * self.n_pairs() + 2 * (i * self.per_leaf()) + (p - s)) as u32
                },
        )
    }

    /// The links of spine `j`: those to the leaves.
    pub open spec fn spine_links(self, j: int) -> Seq<u32> {
        Seq::new(self.n_leaf as nat, |i: int| (2 * (i * self.n_spine + j) + 1) as u32)
    }

    /// The routes of leaf `i`: to its own NICs directly, to the other NICs over every spine of
    /// their rail, and to the spines.
    pub open spec fn leaf_routes(self, i: int) -> Map<EntityId, Seq<PortId>> {
        let s = self.n_spine as int;
        Map::new(
            |d: EntityId|
                (d < self.n_nics() && (self.leaf_of(d as int) == i || s > 0)) || self.spine_id(0)
                    <= d < self.spine_id(s),
            |d: EntityId|
                if d >= self.n_nics() {
                    port_range(d - self.spine_id(0), 1)
                } else if self.leaf_of(d as int) == i {
                    port_range(s + 2 * (d as int % self.per_leaf()) + 1, 1)
                } else {
                    let r = self.rail_of(d as int);
                    port_range(self.rail_first(r), self.rail_size(r))
                },
        )
    }

    /// The routes of a spine: to every NIC over its leaf, and to the leaves.
    pub open spec fn spine_routes(self) -> Map<EntityId, Seq<PortId>> {
        Map::new(
            |d: EntityId| d < self.leaf_id(self.n_leaf as int),
            |d: EntityId|
                if d < self.n_nics() {
                    port_range(self.leaf_of(d as int), 1)
                } else {
                    port_range(d - self.leaf_id(0), 1)
                },
        )
    }

    /// A switch: the leaves come first.
    pub open spec fn switch(self, i: int) -> SwitchView {
        if i < self.n_leaf {
            wired(
                self.leaf_id(i) as u32,
                self.ecn_threshold_bytes,
                self.buffer_bytes,
                self.leaf_links(i),
                self.leaf_routes(i),
            )
        } else {
            wired(
                self.spine_id(i - self.n_leaf) as u32,
                self.ecn_threshold_bytes,
                self.buffer_bytes,
                self.spine_links(i - self.n_leaf),
                self.spine_routes(),
            )
        }
    }

    /// The connection of NIC `h`.
    pub open spec fn uplink(self, h: int) -> HostUplink {
        HostUplink {
            host: h as u32,
            edge_switch: self.leaf_id(self.leaf_of(h)) as u32,
            link_to_switch: (2 * self.n_pairs() + 2 * h) as u32,
            link_to_host: (2 * self.n_pairs() + 2 * h + 1) as u32,
        }
    }

    /// The whole network.
    pub open spec fn topology(self) -> TopologyView {
        TopologyView {
            hosts: host_range(self.n_nics()),
            switches: Seq::new(
                (self.n_leaf + self.n_spine) as nat,
                |i: int| self.switch(i),
            ),
            links: Seq::new(
                (2 * self.n_nics() + 2 * self.n_pairs()) as nat,
                |i: int| self.link(i),
            ),
            uplinks: Seq::new(self.n_nics() as nat, |h: int| self.uplink(h)),
        }
    }

    /// The numbers of a network are natural numbers.
    pub proof fn lemma_sizes(self)
        ensures
            self.per_leaf() >= 0,
            self.n_nics() >= 0,
            self.n_pairs() >= 0,
            self.n_nics() > 0 ==> self.per_leaf() > 0 && self.n_leaf > 0 && self.nics_per_host > 0,
            self.n_pairs() > 0 ==> self.n_spine > 0 && self.n_leaf > 0,
            self.n_leaf > 0 ==> self.per_leaf() <= self.n_nics(),
    {
        lemma_product_sign(self.hosts_per_leaf as int, self.nics_per_host as int);
        lemma_product_sign(self.n_leaf as int, self.per_leaf());
        lemma_product_sign(self.n_leaf as int, self.n_spine as int);
        let (l, p) = (self.n_leaf as int, self.per_leaf());
        assert(l > 0 ==> p <= l * p) by (nonlinear_arith)
            requires
                p >= 0,
        ;
    }

    /// Every rail has a spine of its own.
    pub proof fn lemma_rail(self, r: int)
        requires
            0 <= r < self.n_rails(),
        ensures
            0 <= self.rail_first(r),
            self.rail_size(r) >= 1,
            self.rail_first(r) + self.rail_size(r) <= self.n_spine,
            r < self.n_rails() - 1 ==> self.rail_first(r) + self.rail_size(r) == self.rail_first(
                r + 1,
            ),
    {
        let (s, k) = (self.n_spine as int, self.n_rails());
        let q = s / k;
        assert(q >= 1 && k * q <= s) by (nonlinear_arith)
            requires
                q == s / k,
                0 < k <= s,
        ;
        assert(0 <= r * q && r * q + q <= k * q && (r + 1) * q == r * q + q) by (nonlinear_arith)
            requires
                0 <= r < k,
                q >= 1,
        ;
    }

    /// The rail of a NIC exists.
    pub proof fn lemma_rail_of(self, h: int)
        requires
            self.n_spine > 0,
            self.nics_per_host > 0,
        ensures
            0 <= self.rail_of(h) < self.n_rails(),
    {
        assert(0 <= h % self.nics_per_host as int % self.n_rails() < self.n_rails())
            by (nonlinear_arith)
            requires
                self.n_rails() > 0,
        ;
    }

    /// The first port of a leaf to the rail of NIC `h`, and how many there are.
    fn rail_ports(&self, h: u32) -> (r: (u32, u32))
        requires
            self.n_spine > 0,
            self.nics_per_host > 0,
        ensures
            r.0 == self.rail_first(self.rail_of(h as int)),
            r.1 == self.rail_size(self.rail_of(h as int)),
            r.1 >= 1,
            r.0 + r.1 <= self.n_spine,
    {
        let rails: u32 = if self.nics_per_host <= self.n_spine {
            self.nics_per_host
        } else {
            self.n_spine
        };
        let rail: u32 = h % self.nics_per_host % rails;
        let share: u32 = self.n_spine / rails;
        proof {
            self.lemma_rail_of(h as int);
            self.lemma_rail(rail as int);
        }
        let first: u32 = rail * share;
        if rail == rails - 1 {
            (first, self.n_spine - first)
        } else {
            (first, share)
        }
    }

    fn build_leaf(&self, i: u32) -> (sw: Switch)
        requires
            self.fits(),
            i < self.n_leaf,
        ensures
            sw@ == self.switch(i as int),
    {
        proof {
            self.lemma_sizes();
        }
        let s: u32 = self.n_spine;
        let per: u32 = self.hosts_per_leaf * self.nics_per_host;
        let n: u32 = self.n_leaf * per;
        let pairs: u32 = self.n_leaf * s;
        let mut port_links: Vec<u32> = Vec::new();
        let mut p: u32 = 0;
        while p < s + 2 * per
            invariant
                p <= s + 2 * per <= u32::MAX,
                self.fits(),
                i < self.n_leaf,
                s == self.n_spine,
                per == self.per_leaf(),
                n == self.n_nics(),
                pairs == self.n_pairs(),
                port_links@ =~= self.leaf_links(i as int).take(p as int),
            decreases s + 2 * per - p,
        {
            if p < s {
                proof {
                    lemma_flat_index(i as int, self.n_leaf as int, p as int, s as int);
                    lemma_product_sign(i as int, s as int);
                }
                port_links.push(2 * (i * s + p));
            } else {
                proof {
                    lemma_flat_index(i as int, self.n_leaf as int, (p - s) / 2, per as int);
                    lemma_product_sign(i as int, per as int);
                }
                port_links.push(2 * pairs + 2 * (i * per) + (p - s));
            }
            p = p + 1;
        }
        assert(port_links@ =~= self.leaf_links(i as int));
        let mut sw = wire_switch(
            n + i,
            self.ecn_threshold_bytes,
            self.buffer_bytes,
            &port_links,
        );
        let ghost want = self.leaf_routes(i as int);
        let mut d: u32 = 0;
        while d < n
            invariant
                d <= n,
                self.fits(),
                s == self.n_spine,
                per == self.per_leaf(),
                n > 0 ==> per > 0 && self.nics_per_host > 0,
                n == self.n_nics(),
                want == self.leaf_routes(i as int),
                sw@ == wired(
                    self.leaf_id(i as int) as u32,
                    self.ecn_threshold_bytes,
                    self.buffer_bytes,
                    self.leaf_links(i as int),
                    want.restrict(Set::new(|e: EntityId| e < d)),
                ),
            decreases n - d,
        {
            let ghost before = sw@;
            if d / per == i {
                let at: u32 = s + 2 * (d % per) + 1;
                add_routes(&mut sw.routing, d, at as usize, 1);
            } else if s > 0 {
                let (first, count) = self.rail_ports(d);
                add_routes(&mut sw.routing, d, first as usize, count as usize);
            }
            d = d + 1;
            assert(sw@.routes =~= want.restrict(Set::new(|e: EntityId| e < d)));
            assert(sw@.ports =~= before.ports);
        }
        let mut j: u32 = 0;
        let first: u32 = n + self.n_leaf;
        assert(want.restrict(Set::new(|e: EntityId| e < d)) =~= want.restrict(
            Set::new(|e: EntityId| e < first + j),
        ));
        while j < s
            invariant
                j <= s,
                self.fits(),
                s == self.n_spine,
                n == self.n_nics(),
                first == n + self.n_leaf,
                want == self.leaf_routes(i as int),
                sw@ == wired(
                    self.leaf_id(i as int) as u32,
                    self.ecn_threshold_bytes,
                    self.buffer_bytes,
                    self.leaf_links(i as int),
                    want.restrict(Set::new(|e: EntityId| e < first + j)),
                ),
            decreases s - j,
        {
            let ghost before = sw@;
            add_routes(&mut sw.routing, first + j, j as usize, 1);
            j = j + 1;
            assert(sw@.routes =~= want.restrict(Set::new(|e: EntityId| e < first + j)));
            assert(sw@.ports =~= before.ports);
        }
        assert(sw@.routes =~= want);
        sw
    }

    fn build_spine(&self, j: u32) -> (sw: Switch)
        requires
            self.fits(),
            j < self.n_spine,
        ensures
            sw@ == self.switch(self.n_leaf + j),
    {
        proof {
            self.lemma_sizes();
        }
        let s: u32 = self.n_spine;
        let per: u32 = self.hosts_per_leaf * self.nics_per_host;
        let n: u32 = self.n_leaf * per;
        let mut port_links: Vec<u32> = Vec::new();
        let mut i: u32 = 0;
        while i < self.n_leaf
            invariant
                i <= self.n_leaf,
                self.fits(),
                j < s,
                s == self.n_spine,
                self.n_nics() >= 0,
                port_links@ =~= self.spine_links(j as int).take(i as int),
            decreases self.n_leaf - i,
        {
            proof {
                lemma_flat_index(i as int, self.n_leaf as int, j as int, s as int);
                lemma_product_sign(i as int, s as int);
            }
            port_links.push(2 * (i * s + j) + 1);
            i = i + 1;
        }
        assert(port_links@ =~= self.spine_links(j as int));
        let mut sw = wire_switch(
            n + self.n_leaf + j,
            self.ecn_threshold_bytes,
            self.buffer_bytes,
            &port_links,
        );
        let ghost want = self.spine_routes();
        let mut d: u32 = 0;
        while d < n
            invariant
                d <= n,
                self.fits(),
                per == self.per_leaf(),
                n > 0 ==> per > 0,
                n == self.n_nics(),
                want == self.spine_routes(),
                sw@ == wired(
                    self.spine_id(j as int) as u32,
                    self.ecn_threshold_bytes,
                    self.buffer_bytes,
                    self.spine_links(j as int),
                    want.restrict(Set::new(|e: EntityId| e < d)),
                ),
            decreases n - d,
        {
            let ghost before = sw@;
            proof {
                lemma_flat_parts(d as int, self.n_leaf as int, per as int);
            }
            add_routes(&mut sw.routing, d, (d / per) as usize, 1);
            d = d + 1;
            assert(sw@.routes =~= want.restrict(Set::new(|e: EntityId| e < d)));
            assert(sw@.ports =~= before.ports);
        }
        let mut l: u32 = 0;
        assert(want.restrict(Set::new(|e: EntityId| e < d)) =~= want.restrict(
            Set::new(|e: EntityId| e < n + l),
        ));
        while l < self.n_leaf
            invariant
                l <= self.n_leaf,
                self.fits(),
                n == self.n_nics(),
                want == self.spine_routes(),
                sw@ == wired(
                    self.spine_id(j as int) as u32,
                    self.ecn_threshold_bytes,
                    self.buffer_bytes,
                    self.spine_links(j as int),
                    want.restrict(Set::new(|e: EntityId| e < n + l)),
                ),
            decreases self.n_leaf - l,
        {
            let ghost before = sw@;
            add_routes(&mut sw.routing, n + l, l as usize, 1);
            l = l + 1;
            assert(sw@.routes =~= want.restrict(Set::new(|e: EntityId| e < n + l)));
            assert(sw@.ports =~= before.ports);
        }
        assert(sw@.routes =~= want);
        sw
    }

    fn build_links(&self) -> (links: LinkRegistry)
        requires
            self.fits(),
        ensures
            links@ == self.topology().links,
    {
        proof {
            self.lemma_sizes();
        }
        let s: u32 = self.n_spine;
        let per: u32 = self.hosts_per_leaf * self.nics_per_host;
        let n: u32 = self.n_leaf * per;
        let pairs: u32 = self.n_leaf * s;
        let mut links = LinkRegistry::new();
        let ghost want = self.topology().links;
        let mut pair: u32 = 0;
        while pair < pairs
            invariant
                pair <= pairs,
                self.fits(),
                s == self.n_spine,
                n == self.n_nics(),
                pairs == self.n_pairs(),
                pairs > 0 ==> s > 0,
                want == self.topology().links,
                want.len() == 2 * n + 2 * pairs,
                links@ =~= want.take(2 * pair),
            decreases pairs - pair,
        {
            proof {
                lemma_flat_parts(pair as int, self.n_leaf as int, s as int);
                assert(2 * pair / 2 == pair && (2 * pair + 1) / 2 == pair);
            }
            add_duplex(
                &mut links,
                n + pair / s,
                n + self.n_leaf + pair % s,
                self.fabric_link_bps,
                self.prop_delay_ns,
            );
            assert(self.link(2 * pair) == links@[2 * pair]);
            assert(self.link(2 * pair + 1) == links@[2 * pair + 1]);
            pair = pair + 1;
        }
        let mut nic: u32 = 0;
        while nic < n
            invariant
                nic <= n,
                self.fits(),
                per == self.per_leaf(),
                n == self.n_nics(),
                n > 0 ==> per > 0,
                pairs == self.n_pairs(),
                want == self.topology().links,
                want.len() == 2 * n + 2 * pairs,
                links@ =~= want.take(2 * pairs + 2 * nic),
            decreases n - nic,
        {
            proof {
                lemma_flat_parts(nic as int, self.n_leaf as int, per as int);
            }
            let ghost at = 2 * pairs + 2 * nic;
            add_duplex(&mut links, nic, n + nic / per, self.host_link_bps, self.prop_delay_ns);
            assert((at - 2 * pairs) / 2 == nic && (at + 1 - 2 * pairs) / 2 == nic);
            assert(self.link(at) == links@[at]);
            assert(self.link(at + 1) == links@[at + 1]);
            nic = nic + 1;
        }
        assert(links@ =~= want);
        links
    }

    /// Builds the network.
    pub fn build(self) -> (t: Topology)
        requires
            self.fits(),
        ensures
            t@ == self.topology(),
    {
        proof {
            self.lemma_sizes();
        }
        let per: u32 = self.hosts_per_leaf * self.nics_per_host;
        let n: u32 = self.n_leaf * per;
        let pairs: u32 = self.n_leaf * self.n_spine;
        let ghost want = self.topology();
        let links = self.build_links();
        let mut host_uplink: Vec<HostUplink> = Vec::new();
        let mut nic: u32 = 0;
        while nic < n
            invariant
                nic <= n,
                self.fits(),
                per == self.per_leaf(),
                n == self.n_nics(),
                n > 0 ==> per > 0,
                pairs == self.n_pairs(),
                want == self.topology(),
                host_uplink@ =~= want.uplinks.take(nic as int),
            decreases n - nic,
        {
            proof {
                lemma_flat_parts(nic as int, self.n_leaf as int, per as int);
            }
            host_uplink.push(
                HostUplink {
                    host: nic,
                    edge_switch: n + nic / per,
                    link_to_switch: 2 * pairs + 2 * nic,
                    link_to_host: 2 * pairs + 2 * nic + 1,
                },
            );
            nic = nic + 1;
        }
        let mut switches: Vec<Switch> = Vec::new();
        let mut i: u32 = 0;
        while i < self.n_leaf
            invariant
                i <= self.n_leaf,
                self.fits(),
                want == self.topology(),
                switches@.len() == i,
                forall|q: int| 0 <= q < i ==> (#[trigger] switches@[q])@ == want.switches[q],
            decreases self.n_leaf - i,
        {
            switches.push(self.build_leaf(i));
            i = i + 1;
        }
        let mut j: u32 = 0;
        while j < self.n_spine
            invariant
                j <= self.n_spine,
                self.fits(),
                want == self.topology(),
                switches@.len() == self.n_leaf + j,
                forall|q: int|
                    0 <= q < self.n_leaf + j ==> (#[trigger] switches@[q])@ == want.switches[q],
            decreases self.n_spine - j,
        {
            switches.push(self.build_spine(j));
            j = j + 1;
        }
        let t = Topology { hosts: list_hosts(n), switches, links, host_uplink };
        assert(t@.switches =~= want.switches);
        assert(t@.uplinks =~= want.uplinks);
        t
    }
}

/// Every NIC is an entity of its own with its own connection to the leaf of its host.
pub proof fn law_multi_rail_connects(c: MultiRailLeafSpine, leaf: int, host: int, nic: int)
    requires
        c.fits(),
        0 <= leaf < c.n_leaf,
        0 <= host < c.hosts_per_leaf,
        0 <= nic < c.nics_per_host,
    ensures
        ({
            let id = (leaf * c.hosts_per_leaf + host) * c.nics_per_host + nic;
            let t = c.topology();
            &&& 0 <= id < t.hosts.len()
            &&& t.hosts[id] == id
            &&& t.uplinks[id].host == id
            &&& t.uplinks[id].edge_switch == c.leaf_id(leaf)
            &&& t.links[t.uplinks[id].link_to_switch as int].to == c.leaf_id(leaf)
            &&& t.links[t.uplinks[id].link_to_host as int].to == id
            &&& t.switches[leaf].has_route(id as u32)
        }),
{
    c.lemma_sizes();
    let (h, k) = (c.hosts_per_leaf as int, c.nics_per_host as int);
    lemma_flat_index(host, h, nic, k);
    let local = host * k + nic;
    lemma_flat_index(leaf, c.n_leaf as int, local, c.per_leaf());
    let id = (leaf * h + host) * k + nic;
    assert(id == leaf * c.per_leaf() + local) by (nonlinear_arith)
        requires
            id == (leaf * h + host) * k + nic,
            local == host * k + nic,
            c.per_leaf() == h * k,
    ;
    let t = c.topology();
    let at = 2 * c.n_pairs() + 2 * id;
    assert(t.links[at] == c.link(at));
    assert(t.links[at + 1] == c.link(at + 1));
    assert((at - 2 * c.n_pairs()) / 2 == id && (at + 1 - 2 * c.n_pairs()) / 2 == id);
    assert(t.switches[leaf] == c.switch(leaf));
}

/// Every spine has a route to every leaf, and every leaf to every spine.
pub proof fn law_multi_rail_fabric_is_routed(c: MultiRailLeafSpine, leaf: int, spine: int)
    requires
        c.fits(),
        0 <= leaf < c.n_leaf,
        0 <= spine < c.n_spine,
    ensures
        c.topology().switches[c.n_leaf + spine].has_route(c.leaf_id(leaf) as u32),
        c.topology().switches[leaf].has_route(c.spine_id(spine) as u32),
{
    c.lemma_sizes();
    let t = c.topology();
    assert(t.switches[c.n_leaf + spine] == c.switch(c.n_leaf + spine));
    assert(t.switches[leaf] == c.switch(leaf));
}

/// The network is well-formed if its links can carry data. With a spine every switch has a route to
/// every NIC.
pub proof fn law_multi_rail_wf(c: MultiRailLeafSpine)
    requires
        c.fits(),
        c.host_link_bps > 0,
        c.fabric_link_bps > 0,
    ensures
        c.topology().wf(),
        c.n_spine > 0 ==> c.topology().routes_complete(),
{
    let t = c.topology();
    c.lemma_sizes();
    let s = c.n_spine as int;
    assert forall|i: int| 0 <= i < t.switches.len() implies (#[trigger] t.switches[i]).wf()
        && t.ports_linked(i) by {
        assert(t.switches[i] == c.switch(i));
        let (id, links, routes) = if i < c.n_leaf {
            (c.leaf_id(i), c.leaf_links(i), c.leaf_routes(i))
        } else {
            (c.spine_id(i - c.n_leaf), c.spine_links(i - c.n_leaf), c.spine_routes())
        };
        assert forall|d: EntityId, j: int|
            routes.contains_key(d) && 0 <= j < routes[d].len() implies (#[trigger] routes[d][j])
            < links.len() by {
            if d < c.n_nics() {
                lemma_flat_parts(d as int, c.n_leaf as int, c.per_leaf());
                if i < c.n_leaf && c.leaf_of(d as int) != i {
                    c.lemma_rail_of(d as int);
                    c.lemma_rail(c.rail_of(d as int));
                    assert(routes[d][j] == port_number(c.rail_first(c.rail_of(d as int)) + j));
                }
            }
        }
        lemma_wired_wf(id as u32, c.ecn_threshold_bytes, c.buffer_bytes, links, routes);
        assert forall|p: int| 0 <= p < t.switches[i].ports.len() implies (
        #[trigger] t.switches[i].ports[p]).link_id < t.links.len() by {
            assert(t.switches[i].ports[p].link_id == links[p]);
            if i < c.n_leaf {
                if p < s {
                    lemma_flat_index(i, c.n_leaf as int, p, s);
                } else {
                    lemma_flat_index(i, c.n_leaf as int, (p - s) / 2, c.per_leaf());
                }
            } else {
                lemma_flat_index(p, c.n_leaf as int, i - c.n_leaf, s);
            }
        }
    }
    if c.n_spine > 0 {
        assert forall|i: int, h: int|
            0 <= i < t.switches.len() && 0 <= h < t.hosts.len() implies (
        #[trigger] t.switches[i]).has_route(#[trigger] t.hosts[h]) by {
            assert(t.switches[i] == c.switch(i));
            c.lemma_rail_of(h);
            c.lemma_rail(c.rail_of(h));
        }
    }
}

/// How many links a packet for NIC `h` still takes from the switch at `i`.
pub open spec fn multi_rail_distance(c: MultiRailLeafSpine, i: int, h: int) -> int {
    if i >= c.n_leaf {
        2
    } else if c.leaf_of(h) == i {
        1
    } else {
        3
    }
}

/// In a network with a spine every switch has a route to every NIC, and every hop of a route leads
/// to the NIC or to a switch that is closer to it. A leaf has a route over every spine of its rail,
/// and over no other, to a NIC of another leaf.
pub proof fn law_multi_rail_delivers(c: MultiRailLeafSpine, i: int, h: int)
    requires
        c.fits(),
        c.n_spine > 0,
        0 <= i < c.n_leaf + c.n_spine,
        0 <= h < c.n_nics(),
        2 * c.per_leaf() + c.n_spine <= 256,
        c.n_leaf <= 256,
    ensures
        c.topology().switches[i].has_route(h as u32),
        multi_rail_distance(c, i, h) == 3 ==> c.topology().switches[i].routes[h as u32].len()
            == c.rail_size(c.rail_of(h)),
        forall|r: int|
            0 <= r < c.topology().switches[i].routes[h as u32].len() ==> {
                let p = #[trigger] c.topology().switches[i].routes[h as u32][r];
                let next = c.topology().next_hop(i, p as int);
                let dist = multi_rail_distance(c, i, h);
                let spine = c.rail_first(c.rail_of(h)) + r;
                if dist == 1 {
                    next == h
                } else if dist == 2 {
                    next == c.leaf_id(c.leaf_of(h)) && multi_rail_distance(c, c.leaf_of(h), h)
                        < dist
                } else {
                    &&& next == c.spine_id(spine)
                    &&& c.on_rail(spine, c.rail_of(h))
                    &&& multi_rail_distance(c, c.n_leaf + spine, h) < dist
                }
            },
{
    let t = c.topology();
    let sw = t.switches[i];
    let s = c.n_spine as int;
    let pairs = c.n_pairs();
    c.lemma_sizes();
    lemma_flat_parts(h, c.n_leaf as int, c.per_leaf());
    c.lemma_rail_of(h);
    c.lemma_rail(c.rail_of(h));
    let home = c.leaf_of(h);
    let first = c.rail_first(c.rail_of(h));
    assert(sw == c.switch(i));
    assert forall|r: int| 0 <= r < sw.routes[h as u32].len() implies {
        let p = #[trigger] sw.routes[h as u32][r];
        let next = t.next_hop(i, p as int);
        let dist = multi_rail_distance(c, i, h);
        if dist == 1 {
            next == h
        } else if dist == 2 {
            next == c.leaf_id(home) && multi_rail_distance(c, home, h) < dist
        } else {
            &&& next == c.spine_id(first + r)
            &&& c.on_rail(first + r, c.rail_of(h))
            &&& multi_rail_distance(c, c.n_leaf + (first + r), h) < dist
        }
    } by {
        let p = sw.routes[h as u32][r] as int;
        if i >= c.n_leaf {
            let j = i - c.n_leaf;
            assert(p == home);
            lemma_flat_index(home, c.n_leaf as int, j, s);
            let at = 2 * (home * s + j) + 1;
            assert(sw.ports[p].link_id == at);
            assert(t.links[at] == c.link(at));
            assert(at / 2 == home * s + j);
        } else if home == i {
            assert(p == s + 2 * (h % c.per_leaf()) + 1);
            let at = 2 * pairs + 2 * h + 1;
            assert(sw.ports[p].link_id == at);
            assert(t.links[at] == c.link(at));
            assert((at - 2 * pairs) / 2 == h);
        } else {
            assert(p == first + r);
            lemma_flat_index(i, c.n_leaf as int, first + r, s);
            let at = 2 * (i * s + (first + r));
            assert(sw.ports[p].link_id == at);
            assert(t.links[at] == c.link(at));
            assert(at / 2 == i * s + (first + r));
        }
    }
}

/// The rails are kept apart: no spine belongs to two of them.
pub proof fn law_rails_are_apart(c: MultiRailLeafSpine, spine: int, a: int, b: int)
    requires
        0 <= a < c.n_rails(),
        0 <= b < c.n_rails(),
        c.on_rail(spine, a),
        c.on_rail(spine, b),
    ensures
        a == b,
{
    let q = c.n_spine as int / c.n_rails();
    c.lemma_rail(a);
    c.lemma_rail(b);
    if a < b {
        assert((a + 1) * q <= b * q) by (nonlinear_arith)
            requires
                a + 1 <= b,
                q >= 0,
        ;
    } else if b < a {
        assert((b + 1) * q <= a * q) by (nonlinear_arith)
            requires
                b + 1 <= a,
                q >= 0,
        ;
    }
}

/// As long as there are enough spines, the NICs of a host are on different rails.
pub proof fn law_nics_are_on_different_rails(c: MultiRailLeafSpine, host: int, a: int, b: int)
    requires
        c.nics_per_host <= c.n_spine,
        0 <= host,
        0 <= a < c.nics_per_host,
        0 <= b < c.nics_per_host,
        a != b,
    ensures
        c.rail_of(host * c.nics_per_host + a) == a,
        c.rail_of(host * c.nics_per_host + a) != c.rail_of(host * c.nics_per_host + b),
{
    let k = c.nics_per_host as int;
    lemma_flat_index(host, host + 1, a, k);
    lemma_flat_index(host, host + 1, b, k);
    vstd::arithmetic::div_mod::lemma_small_mod(a as nat, k as nat);
    vstd::arithmetic::div_mod::lemma_small_mod(b as nat, k as nat);
}

} // verus!
