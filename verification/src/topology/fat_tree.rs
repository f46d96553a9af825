//! The k-ary fat tree.
//!
//! - `k` pods of `k/2` edge and `k/2` aggregation switches
//! - `k/2` hosts at every edge switch
//! - `(k/2)^2` core switches; the `a`-th aggregation switch of every pod is connected to the
//!   `a`-th group of `k/2` of them
//!
//! The hosts come first, then the edge, the aggregation and the core switches. A packet goes
//! up over any of the equal paths until it is below a switch of its destination's pod or at
//! its edge, and then down.
use super::{add_duplex, add_routes, list_hosts, wire_switch, HostUplink, Topology};
use crate::network::{LinkRegistry, Switch};
use crate::EntityId;
use vstd::prelude::*;

verus! {

use super::{
    host_link, host_range, lemma_flat_index, lemma_flat_parts, lemma_product_sign, lemma_wired_wf,
    link_at, port_range, wired, TopologyView,
};
use crate::network::switch::SwitchView;
use crate::network::{Link, PortId};

/// The parameters of a fat tree.
pub struct FatTree {
    /// The number of ports of a switch; it is even.
    pub k: u32,
    pub host_link_bps: u64,
    pub fabric_link_bps: u64,
    pub prop_delay_ns: u64,
    pub ecn_threshold_bytes: u32,
    pub buffer_bytes: u32,
}

impl FatTree {
    /// Half the number of ports.
    pub open spec fn half(self) -> int {
        self.k as int / 2
    }

    /// The number of edge switches, which is also that of aggregation switches.
    pub open spec fn n_edge(self) -> int {
        self.k * self.half()
    }

    /// The number of hosts.
    pub open spec fn n_hosts(self) -> int {
        self.n_edge() * self.half()
    }

    /// The number of core switches.
    pub open spec fn n_core(self) -> int {
        self.half() * self.half()
    }

    /// The tree exists, and the numbers of all switches and links fit.
    pub open spec fn fits(self) -> bool {
        &&& self.k % 2 == 0
        &&& 6 * self.n_hosts() <= u32::MAX
        &&& self.n_hosts() + 2 * self.n_edge() + self.n_core() <= u32::MAX
    }

    /// The edge switch of host `h`.
    pub open spec fn edge_of(self, h: int) -> int {
        h / self.half()
    }

    /// The pod of an edge or aggregation switch.
    pub open spec fn pod_of(self, g: int) -> int {
        g / self.half()
    }

    /// The position of an edge or aggregation switch in its pod.
    pub open spec fn place_of(self, g: int) -> int {
        g % self.half()
    }

    /// The edge or aggregation switch at a place of a pod.
    pub open spec fn at_place(self, pod: int, place: int) -> int {
        pod * self.half() + place
    }

    /// The number of edge switch `g`.
    pub open spec fn edge_id(self, g: int) -> int {
        self.n_hosts() + g
    }

    /// The number of aggregation switch `g`.
    pub open spec fn agg_id(self, g: int) -> int {
        self.n_hosts() + self.n_edge() + g
    }

    /// The number of core switch `c`.
    pub open spec fn core_id(self, c: int) -> int {
        self.n_hosts() + 2 * self.n_edge() + c
    }

    /// The aggregation switch at the upper end of the `x`-th pair of an edge and an aggregation
    /// switch.
    pub open spec fn agg_of_pair(self, x: int) -> int {
        self.at_place(self.pod_of(x / self.half()), x % self.half())
    }

    /// The core switch at the upper end of the `x`-th pair of an aggregation and a core switch.
    pub open spec fn core_of_pair(self, x: int) -> int {
        self.place_of(x / self.half()) * self.half() + x % self.half()
    }

    /// The links: those of the hosts, then up and down between edge and aggregation switches,
    /// then up and down between aggregation and core switches.
    pub open spec fn link(self, i: int) -> Link {
        let n = self.n_hosts();
        if i < 2 * n {
            host_link(
                0,
                i,
                self.edge_id(self.edge_of(i / 2)),
                self.host_link_bps,
                self.prop_delay_ns,
            )
        } else if i < 4 * n {
            let x = (i - 2 * n) / 2;
            let low = self.edge_id(x / self.half());
            let high = self.agg_id(self.agg_of_pair(x));
            if (i - 2 * n) % 2 == 0 {
                link_at(i, low, high, self.fabric_link_bps, self.prop_delay_ns)
            } else {
                link_at(i, high, low, self.fabric_link_bps, self.prop_delay_ns)
            }
        } else {
            let x = (i - 4 * n) / 2;
            let low = self.agg_id(x / self.half());
            let high = self.core_id(self.core_of_pair(x));
            if (i - 4 * n) % 2 == 0 {
                link_at(i, low, high, self.fabric_link_bps, self.prop_delay_ns)
            } else {
                link_at(i, high, low, self.fabric_link_bps, self.prop_delay_ns)
            }
        }
    }

    /// The pair of edge switch `g` and the aggregation switch at a place of its pod, or of
    /// aggregation switch `g` and a core switch of its group.
    pub open spec fn pair(self, g: int, place: int) -> int {
        g * self.half() + place
    }

    /// The links of edge switch `g`: to its hosts, then to the aggregation switches of its pod.
    pub open spec fn edge_links(self, g: int) -> Seq<u32> {
        Seq::new(
            (2 * self.half()) as nat,
            |p: int|
                if p < self.half() {
                    (2 * self.pair(g, p) + 1) as u32
                } else {
                    (2 * self.n_hosts() + 2 * self.pair(g, p - self.half())) as u32
                },
        )
    }

    /// The links of aggregation switch `g`: to the edge switches of its pod, then to the core
    /// switches of its group.
    pub open spec fn agg_links(self, g: int) -> Seq<u32> {
        Seq::new(
            (2 * self.half()) as nat,
            |p: int|
                if p < self.half() {
                    (2 * self.n_hosts() + 2 * self.pair(
                        self.at_place(self.pod_of(g), p),
                        self.place_of(g),
                    ) + 1) as u32
                } else {
                    (4 * self.n_hosts() + 2 * self.pair(g, p - self.half())) as u32
                },
        )
    }

    /// The links of core switch `c`: to one aggregation switch of every pod.
    pub open spec fn core_links(self, c: int) -> Seq<u32> {
        Seq::new(
            self.k as nat,
            |pod: int|
                (4 * self.n_hosts() + 2 * self.pair(
                    self.at_place(pod, c / self.half()),
                    c % self.half(),
                ) + 1) as u32,
        )
    }

    /// The routes of edge switch `g`: to its own hosts directly, to the others over every
    /// aggregation switch of its pod.
    pub open spec fn edge_routes(self, g: int) -> Map<EntityId, Seq<PortId>> {
        Map::new(
            |d: EntityId| d < self.n_hosts(),
            |d: EntityId|
                if self.edge_of(d as int) == g {
                    port_range(d as int % self.half(), 1)
                } else {
                    port_range(self.half(), self.half())
                },
        )
    }

    /// The routes of aggregation switch `g`: to the hosts of its pod over their edge switch, to
    /// the others over every core switch of its group.
    pub open spec fn agg_routes(self, g: int) -> Map<EntityId, Seq<PortId>> {
        Map::new(
            |d: EntityId| d < self.n_hosts(),
            |d: EntityId|
                if self.pod_of(self.edge_of(d as int)) == self.pod_of(g) {
                    port_range(self.place_of(self.edge_of(d as int)), 1)
                } else {
                    port_range(self.half(), self.half())
                },
        )
    }

    /// The routes of a core switch: to every host over its pod.
    pub open spec fn core_routes(self) -> Map<EntityId, Seq<PortId>> {
        Map::new(
            |d: EntityId| d < self.n_hosts(),
            |d: EntityId| port_range(self.pod_of(self.edge_of(d as int)), 1),
        )
    }

    /// A switch of the tree.
    pub open spec fn switch(self, i: int) -> SwitchView {
        let e = self.n_edge();
        if i < e {
            wired(
                self.edge_id(i) as u32,
                self.ecn_threshold_bytes,
                self.buffer_bytes,
                self.edge_links(i),
                self.edge_routes(i),
            )
        } else if i < 2 * e {
            wired(
                self.agg_id(i - e) as u32,
                self.ecn_threshold_bytes,
                self.buffer_bytes,
                self.agg_links(i - e),
                self.agg_routes(i - e),
            )
        } else {
            wired(
                self.core_id(i - 2 * e) as u32,
                self.ecn_threshold_bytes,
                self.buffer_bytes,
                self.core_links(i - 2 * e),
                self.core_routes(),
            )
        }
    }

    /// The connection of host `h`.
    pub open spec fn uplink(self, h: int) -> HostUplink {
        HostUplink {
            host: h as u32,
            edge_switch: self.edge_id(self.edge_of(h)) as u32,
            link_to_switch: (2 * h) as u32,
            link_to_host: (2 * h + 1) as u32,
        }
    }

    /// The whole network.
    pub open spec fn topology(self) -> TopologyView {
        TopologyView {
            hosts: host_range(self.n_hosts()),
            switches: Seq::new(
                (2 * self.n_edge() + self.n_core()) as nat,
                |i: int| self.switch(i),
            ),
            links: Seq::new((6 * self.n_hosts()) as nat, |i: int| self.link(i)),
            uplinks: Seq::new(self.n_hosts() as nat, |h: int| self.uplink(h)),
        }
    }

    /// The numbers of a tree are natural numbers.
    pub proof fn lemma_sizes(self)
        ensures
            0 <= self.half() <= self.k,
            self.n_edge() >= 0,
            self.n_hosts() >= 0,
            self.n_core() >= 0,
            self.n_hosts() > 0 ==> self.half() > 0 && self.n_edge() > 0,
            self.n_edge() > 0 ==> self.half() > 0,
            self.n_core() > 0 ==> self.half() > 0,
            self.n_edge() <= self.n_hosts() || self.half() == 0,
            self.n_core() <= self.n_edge(),
    {
        lemma_product_sign(self.k as int, self.half());
        lemma_product_sign(self.n_edge(), self.half());
        lemma_product_sign(self.half(), self.half());
        let (e, h, k) = (self.n_edge(), self.half(), self.k as int);
        assert(h >= 1 ==> e * h >= e) by (nonlinear_arith)
            requires
                e >= 0,
        ;
        assert(h * h <= k * h) by (nonlinear_arith)
            requires
                0 <= h <= k,
        ;
    }

    /// A place below a switch, or of a group, belongs to a pair.
    proof fn lemma_pair(self, g: int, place: int)
        requires
            0 <= g < self.n_edge(),
            0 <= place < self.half(),
        ensures
            0 <= self.pair(g, place) < self.n_hosts(),
            self.pair(g, place) / self.half() == g,
            self.pair(g, place) % self.half() == place,
            g * self.half() >= 0,
    {
        lemma_flat_index(g, self.n_edge(), place, self.half());
        lemma_product_sign(g, self.half());
    }

    /// A place of a pod belongs to a switch.
    proof fn lemma_place(self, pod: int, place: int)
        requires
            0 <= pod < self.k,
            0 <= place < self.half(),
        ensures
            0 <= self.at_place(pod, place) < self.n_edge(),
            self.pod_of(self.at_place(pod, place)) == pod,
            self.place_of(self.at_place(pod, place)) == place,
            pod * self.half() >= 0,
    {
        lemma_flat_index(pod, self.k as int, place, self.half());
        lemma_product_sign(pod, self.half());
    }

    /// An edge or aggregation switch has a place in a pod.
    proof fn lemma_switch_parts(self, g: int)
        requires
            0 <= g < self.n_edge(),
            0 < self.half(),
        ensures
            0 <= self.pod_of(g) < self.k,
            0 <= self.place_of(g) < self.half(),
            g == self.at_place(self.pod_of(g), self.place_of(g)),
    {
        lemma_flat_parts(g, self.k as int, self.half());
    }

    /// A host has an edge switch.
    proof fn lemma_host_parts(self, h: int)
        requires
            0 <= h < self.n_hosts(),
            0 < self.half(),
        ensures
            0 <= self.edge_of(h) < self.n_edge(),
            0 <= h % self.half() < self.half(),
            h == self.pair(self.edge_of(h), h % self.half()),
    {
        lemma_flat_parts(h, self.n_edge(), self.half());
    }

    fn build_edge(&self, g: u32) -> (sw: Switch)
        requires
            self.fits(),
            g < self.n_edge(),
        ensures
            sw@ == self.switch(g as int),
    {
        proof {
            self.lemma_sizes();
        }
        let kh: u32 = self.k / 2;
        let n: u32 = self.k * kh * kh;
        let mut port_links: Vec<u32> = Vec::new();
        let mut p: u32 = 0;
        while p < 2 * kh
            invariant
                p <= 2 * kh <= u32::MAX,
                self.fits(),
                0 <= g < self.n_edge(),
                kh == self.half(),
                n == self.n_hosts(),
                port_links@ =~= self.edge_links(g as int).take(p as int),
            decreases 2 * kh - p,
        {
            if p < kh {
                proof {
                    self.lemma_pair(g as int, p as int);
                }
                port_links.push(2 * (g * kh + p) + 1);
            } else {
                proof {
                    self.lemma_pair(g as int, p - kh);
                }
                port_links.push(2 * n + 2 * (g * kh + (p - kh)));
            }
            p = p + 1;
        }
        assert(port_links@ =~= self.edge_links(g as int));
        let mut sw = wire_switch(
            n + g,
            self.ecn_threshold_bytes,
            self.buffer_bytes,
            &port_links,
        );
        let mut d: u32 = 0;
        let ghost want = self.edge_routes(g as int);
        while d < n
            invariant
                d <= n,
                0 < kh <= self.k / 2,
                kh == self.half(),
                n == self.n_hosts(),
                g < self.n_edge(),
                want == self.edge_routes(g as int),
                sw@ == wired(
                    self.edge_id(g as int) as u32,
                    self.ecn_threshold_bytes,
                    self.buffer_bytes,
                    self.edge_links(g as int),
                    want.restrict(Set::new(|e: EntityId| e < d)),
                ),
            decreases n - d,
        {
            let ghost before = sw@;
            if d / kh == g {
                add_routes(&mut sw.routing, d, (d % kh) as usize, 1);
            } else {
                add_routes(&mut sw.routing, d, kh as usize, kh as usize);
            }
            d = d + 1;
            assert(sw@.routes =~= want.restrict(Set::new(|e: EntityId| e < d)));
            assert(sw@.ports =~= before.ports);
        }
        assert(sw@.routes =~= want);
        sw
    }

    fn build_agg(&self, g: u32) -> (sw: Switch)
        requires
            self.fits(),
            g < self.n_edge(),
        ensures
            sw@ == self.switch(self.n_edge() + g),
    {
        proof {
            self.lemma_sizes();
            self.lemma_switch_parts(g as int);
        }
        let kh: u32 = self.k / 2;
        let e: u32 = self.k * kh;
        let n: u32 = e * kh;
        let pod: u32 = g / kh;
        let place: u32 = g % kh;
        let mut port_links: Vec<u32> = Vec::new();
        let mut p: u32 = 0;
        while p < 2 * kh
            invariant
                p <= 2 * kh <= u32::MAX,
                self.fits(),
                0 <= g < self.n_edge(),
                kh == self.half(),
                n == self.n_hosts(),
                pod == self.pod_of(g as int),
                place == self.place_of(g as int),
                0 <= pod < self.k,
                0 <= place < kh,
                port_links@ =~= self.agg_links(g as int).take(p as int),
            decreases 2 * kh - p,
        {
            if p < kh {
                proof {
                    self.lemma_place(pod as int, p as int);
                    self.lemma_pair(self.at_place(pod as int, p as int), place as int);
                    self.lemma_sizes();
                }
                let edge: u32 = pod * kh + p;
                port_links.push(2 * n + 2 * (edge * kh + place) + 1);
            } else {
                proof {
                    self.lemma_pair(g as int, p - kh);
                }
                port_links.push(4 * n + 2 * (g * kh + (p - kh)));
            }
            p = p + 1;
        }
        assert(port_links@ =~= self.agg_links(g as int));
        let mut sw = wire_switch(
            n + e + g,
            self.ecn_threshold_bytes,
            self.buffer_bytes,
            &port_links,
        );
        let mut d: u32 = 0;
        let ghost want = self.agg_routes(g as int);
        while d < n
            invariant
                d <= n,
                0 < kh <= self.k / 2,
                kh == self.half(),
                n == self.n_hosts(),
                pod == self.pod_of(g as int),
                want == self.agg_routes(g as int),
                sw@ == wired(
                    self.agg_id(g as int) as u32,
                    self.ecn_threshold_bytes,
                    self.buffer_bytes,
                    self.agg_links(g as int),
                    want.restrict(Set::new(|e: EntityId| e < d)),
                ),
            decreases n - d,
        {
            let ghost before = sw@;
            let edge: u32 = d / kh;
            if edge / kh == pod {
                add_routes(&mut sw.routing, d, (edge % kh) as usize, 1);
            } else {
                add_routes(&mut sw.routing, d, kh as usize, kh as usize);
            }
            d = d + 1;
            assert(sw@.routes =~= want.restrict(Set::new(|e: EntityId| e < d)));
            assert(sw@.ports =~= before.ports);
        }
        assert(sw@.routes =~= want);
        sw
    }

    fn build_core(&self, c: u32) -> (sw: Switch)
        requires
            self.fits(),
            c < self.n_core(),
        ensures
            sw@ == self.switch(2 * self.n_edge() + c),
    {
        proof {
            self.lemma_sizes();
            lemma_flat_parts(c as int, self.half(), self.half());
        }
        let kh: u32 = self.k / 2;
        let e: u32 = self.k * kh;
        let n: u32 = e * kh;
        let place: u32 = c / kh;
        let offset: u32 = c % kh;
        let mut port_links: Vec<u32> = Vec::new();
        let mut pod: u32 = 0;
        while pod < self.k
            invariant
                pod <= self.k,
                self.fits(),
                kh == self.half(),
                n == self.n_hosts(),
                place == c as int / self.half(),
                offset == c as int % self.half(),
                0 <= place < kh,
                0 <= offset < kh,
                port_links@ =~= self.core_links(c as int).take(pod as int),
            decreases self.k - pod,
        {
            proof {
                self.lemma_place(pod as int, place as int);
                self.lemma_pair(self.at_place(pod as int, place as int), offset as int);
                self.lemma_sizes();
            }
            let agg: u32 = pod * kh + place;
            port_links.push(4 * n + 2 * (agg * kh + offset) + 1);
            pod = pod + 1;
        }
        assert(port_links@ =~= self.core_links(c as int));
        let mut sw = wire_switch(
            n + 2 * e + c,
            self.ecn_threshold_bytes,
            self.buffer_bytes,
            &port_links,
        );
        let mut d: u32 = 0;
        let ghost want = self.core_routes();
        while d < n
            invariant
                d <= n,
                0 < kh,
                kh == self.half(),
                n == self.n_hosts(),
                want == self.core_routes(),
                sw@ == wired(
                    self.core_id(c as int) as u32,
                    self.ecn_threshold_bytes,
                    self.buffer_bytes,
                    self.core_links(c as int),
                    want.restrict(Set::new(|e: EntityId| e < d)),
                ),
            decreases n - d,
        {
            let ghost before = sw@;
            proof {
                self.lemma_host_parts(d as int);
                self.lemma_switch_parts(self.edge_of(d as int));
            }
            add_routes(&mut sw.routing, d, (d / kh / kh) as usize, 1);
            d = d + 1;
            assert(sw@.routes =~= want.restrict(Set::new(|e: EntityId| e < d)));
            assert(sw@.ports =~= before.ports);
        }
        assert(sw@.routes =~= want);
        sw
    }

    fn build_links(&self) -> (links: LinkRegistry)
        requires
            self.fits(),
        ensures
            links@ == self.topology().links,
    {
        proof {
            self.lemma_sizes();
        }
        let kh: u32 = self.k / 2;
        let e: u32 = self.k * kh;
        let n: u32 = e * kh;
        let mut links = LinkRegistry::new();
        let ghost want = self.topology().links;
        let mut host: u32 = 0;
        while host < n
            invariant
                host <= n,
                self.fits(),
                kh == self.half(),
                n > 0 ==> kh > 0,
                e == self.n_edge(),
                n == self.n_hosts(),
                self.n_core() >= 0,
                want == self.topology().links,
                links@ =~= want.take(2 * host),
            decreases n - host,
        {
            proof {
                self.lemma_host_parts(host as int);
                assert(2 * host / 2 == host && (2 * host + 1) / 2 == host);
            }
            add_duplex(&mut links, host, n + host / kh, self.host_link_bps, self.prop_delay_ns);
            assert(self.link(2 * host) == links@[2 * host]);
            assert(self.link(2 * host + 1) == links@[2 * host + 1]);
            host = host + 1;
        }
        let mut x: u32 = 0;
        while x < n
            invariant
                x <= n,
                self.fits(),
                kh == self.half(),
                n > 0 ==> kh > 0,
                e == self.n_edge(),
                n == self.n_hosts(),
                self.n_core() >= 0,
                want == self.topology().links,
                links@ =~= want.take(2 * n + 2 * x),
            decreases n - x,
        {
            proof {
                self.lemma_host_parts(x as int);
                self.lemma_switch_parts(self.edge_of(x as int));
                self.lemma_place(self.pod_of(self.edge_of(x as int)), x as int % self.half());
            }
            let ghost at = 2 * n + 2 * x;
            let edge: u32 = x / kh;
            let agg: u32 = edge / kh * kh + x % kh;
            add_duplex(
                &mut links,
                n + edge,
                n + e + agg,
                self.fabric_link_bps,
                self.prop_delay_ns,
            );
            assert((at - 2 * n) / 2 == x && (at + 1 - 2 * n) / 2 == x);
            assert(self.link(at) == links@[at]);
            assert(self.link(at + 1) == links@[at + 1]);
            x = x + 1;
        }
        let mut y: u32 = 0;
        while y < n
            invariant
                y <= n,
                self.fits(),
                kh == self.half(),
                n > 0 ==> kh > 0,
                e == self.n_edge(),
                n == self.n_hosts(),
                self.n_core() >= 0,
                want == self.topology().links,
                links@ =~= want.take(4 * n + 2 * y),
            decreases n - y,
        {
            proof {
                self.lemma_host_parts(y as int);
                self.lemma_switch_parts(self.edge_of(y as int));
                lemma_flat_index(
                    self.place_of(self.edge_of(y as int)),
                    self.half(),
                    y as int % self.half(),
                    self.half(),
                );
                lemma_product_sign(self.place_of(self.edge_of(y as int)), self.half());
            }
            let ghost at = 4 * n + 2 * y;
            let agg: u32 = y / kh;
            let core: u32 = agg % kh * kh + y % kh;
            add_duplex(
                &mut links,
                n + e + agg,
                n + 2 * e + core,
                self.fabric_link_bps,
                self.prop_delay_ns,
            );
            assert((at - 4 * n) / 2 == y && (at + 1 - 4 * n) / 2 == y);
            assert(self.link(at) == links@[at]);
            assert(self.link(at + 1) == links@[at + 1]);
            y = y + 1;
        }
        assert(links@ =~= want);
        links
    }

    /// Builds the network.
    pub fn build(self) -> (t: Topology)
        requires
            self.fits(),
        ensures
            t@ == self.topology(),
    {
        proof {
            self.lemma_sizes();
        }
        let kh: u32 = self.k / 2;
        let e: u32 = self.k * kh;
        let n: u32 = e * kh;
        let cores: u32 = kh * kh;
        let ghost want = self.topology();
        let links = self.build_links();
        let mut host_uplink: Vec<HostUplink> = Vec::new();
        let mut host: u32 = 0;
        while host < n
            invariant
                host <= n,
                self.fits(),
                kh == self.half(),
                n > 0 ==> kh > 0,
                e == self.n_edge(),
                n == self.n_hosts(),
                self.n_core() >= 0,
                want == self.topology(),
                host_uplink@ =~= want.uplinks.take(host as int),
            decreases n - host,
        {
            proof {
                self.lemma_host_parts(host as int);
            }
            host_uplink.push(
                HostUplink {
                    host,
                    edge_switch: n + host / kh,
                    link_to_switch: 2 * host,
                    link_to_host: 2 * host + 1,
                },
            );
            host = host + 1;
        }
        let mut switches: Vec<Switch> = Vec::new();
        let mut i: u32 = 0;
        while i < e
            invariant
                i <= e,
                self.fits(),
                e == self.n_edge(),
                self.n_core() >= 0,
                want == self.topology(),
                switches@.len() == i,
                forall|q: int| 0 <= q < i ==> (#[trigger] switches@[q])@ == want.switches[q],
            decreases e - i,
        {
            switches.push(self.build_edge(i));
            i = i + 1;
        }
        let mut j: u32 = 0;
        while j < e
            invariant
                j <= e,
                self.fits(),
                e == self.n_edge(),
                self.n_core() >= 0,
                want == self.topology(),
                switches@.len() == e + j,
                forall|q: int| 0 <= q < e + j ==> (#[trigger] switches@[q])@ == want.switches[q],
            decreases e - j,
        {
            switches.push(self.build_agg(j));
            j = j + 1;
        }
        let mut c: u32 = 0;
        while c < cores
            invariant
                c <= cores,
                self.fits(),
                e == self.n_edge(),
                cores == self.n_core(),
                want == self.topology(),
                switches@.len() == 2 * e + c,
                forall|q: int|
                    0 <= q < 2 * e + c ==> (#[trigger] switches@[q])@ == want.switches[q],
            decreases cores - c,
        {
            switches.push(self.build_core(c));
            c = c + 1;
        }
        let t = Topology { hosts: list_hosts(n), switches, links, host_uplink };
        assert(t@.switches =~= want.switches);
        assert(t@.uplinks =~= want.uplinks);
        t
    }
}

/// How many links a packet for host `h` still takes from the switch at `i`.
pub open spec fn fat_tree_distance(c: FatTree, i: int, h: int) -> int {
    let e = c.n_edge();
    let home = c.edge_of(h);
    if i < e {
        if home == i {
            1
        } else if c.pod_of(home) == c.pod_of(i) {
            3
        } else {
            5
        }
    } else if i < 2 * e {
        if c.pod_of(home) == c.pod_of(i - e) {
            2
        } else {
            4
        }
    } else {
        3
    }
}

/// The switch that the `r`-th route for host `h` leads to from the switch at `i`, which is not
/// the edge switch of the host.
pub open spec fn fat_tree_hop(c: FatTree, i: int, h: int, r: int) -> int {
    let e = c.n_edge();
    let home = c.edge_of(h);
    if i < e {
        e + c.at_place(c.pod_of(i), r)
    } else if i < 2 * e {
        if c.pod_of(home) == c.pod_of(i - e) {
            home
        } else {
            2 * e + c.place_of(i - e) * c.half() + r
        }
    } else {
        e + c.at_place(c.pod_of(home), (i - 2 * e) / c.half())
    }
}

/// The `r`-th route for host `h` of the switch at `i` leads to the host or to a switch that is
/// closer to it.
pub open spec fn leads_closer(c: FatTree, i: int, h: int, r: int) -> bool {
    let t = c.topology();
    let next = t.next_hop(i, t.switches[i].routes[h as u32][r] as int);
    if fat_tree_distance(c, i, h) == 1 {
        next == h
    } else {
        let hop = fat_tree_hop(c, i, h, r);
        &&& 0 <= hop < t.switches.len()
        &&& next == t.switches[hop].id
        &&& fat_tree_distance(c, hop, h) < fat_tree_distance(c, i, h)
    }
}

proof fn lemma_edge_leads_closer(c: FatTree, i: int, h: int, r: int)
    requires
        c.fits(),
        c.k <= 256,
        0 <= i < c.n_edge(),
        0 <= h < c.n_hosts(),
        0 <= r < c.topology().switches[i].routes[h as u32].len(),
    ensures
        leads_closer(c, i, h, r),
{
    let t = c.topology();
    c.lemma_sizes();
    let sw = t.switches[i];
    assert(sw == c.switch(i));
    let n = c.n_hosts();
    let e = c.n_edge();
    let kh = c.half();
    c.lemma_host_parts(h);
    let home = c.edge_of(h);
    c.lemma_switch_parts(home);
    assert(sw.routes.contains_key(h as u32));
    let p = sw.routes[h as u32][r] as int;
    let hop = fat_tree_hop(c, i, h, r);
    c.lemma_switch_parts(i);
    if home == i {
        assert(p == h % kh);
        assert(sw.ports[p].link_id == 2 * h + 1);
        assert(t.links[2 * h + 1] == c.link(2 * h + 1));
        assert((2 * h + 1) / 2 == h);
    } else {
        assert(p == kh + r);
        c.lemma_pair(i, r);
        c.lemma_place(c.pod_of(i), r);
        let at = 2 * n + 2 * c.pair(i, r);
        assert(sw.ports[p].link_id == at);
        assert(t.links[at] == c.link(at));
        assert((at - 2 * n) / 2 == c.pair(i, r));
        assert(t.switches[hop] == c.switch(hop));
    }
}

proof fn lemma_aggregation_leads_closer(c: FatTree, i: int, h: int, r: int)
    requires
        c.fits(),
        c.k <= 256,
        c.n_edge() <= i < 2 * c.n_edge(),
        0 <= h < c.n_hosts(),
        0 <= r < c.topology().switches[i].routes[h as u32].len(),
    ensures
        leads_closer(c, i, h, r),
{
    let t = c.topology();
    c.lemma_sizes();
    let sw = t.switches[i];
    assert(sw == c.switch(i));
    let n = c.n_hosts();
    let e = c.n_edge();
    let kh = c.half();
    c.lemma_host_parts(h);
    let home = c.edge_of(h);
    c.lemma_switch_parts(home);
    assert(sw.routes.contains_key(h as u32));
    let p = sw.routes[h as u32][r] as int;
    let hop = fat_tree_hop(c, i, h, r);
    let g = i - e;
    c.lemma_switch_parts(g);
    if c.pod_of(home) == c.pod_of(g) {
        assert(p == c.place_of(home));
        c.lemma_pair(home, c.place_of(g));
        let x = c.pair(home, c.place_of(g));
        let at = 2 * n + 2 * x + 1;
        assert(c.at_place(c.pod_of(g), p) == home);
        assert(sw.ports[p].link_id == at);
        assert(t.links[at] == c.link(at));
        assert((at - 2 * n) / 2 == x);
        assert(t.switches[hop] == c.switch(hop));
    } else {
        assert(p == kh + r);
        c.lemma_pair(g, r);
        lemma_flat_index(c.place_of(g), kh, r, kh);
        let x = c.pair(g, r);
        let at = 4 * n + 2 * x;
        assert(sw.ports[p].link_id == at);
        assert(t.links[at] == c.link(at));
        assert((at - 4 * n) / 2 == x);
        assert(t.switches[hop] == c.switch(hop));
    }
}

proof fn lemma_core_leads_closer(c: FatTree, i: int, h: int, r: int)
    requires
        c.fits(),
        c.k <= 256,
        2 * c.n_edge() <= i < 2 * c.n_edge() + c.n_core(),
        0 <= h < c.n_hosts(),
        0 <= r < c.topology().switches[i].routes[h as u32].len(),
    ensures
        leads_closer(c, i, h, r),
{
    let t = c.topology();
    c.lemma_sizes();
    let sw = t.switches[i];
    assert(sw == c.switch(i));
    let n = c.n_hosts();
    let e = c.n_edge();
    let kh = c.half();
    c.lemma_host_parts(h);
    let home = c.edge_of(h);
    c.lemma_switch_parts(home);
    assert(sw.routes.contains_key(h as u32));
    let p = sw.routes[h as u32][r] as int;
    let hop = fat_tree_hop(c, i, h, r);
    let m = i - 2 * e;
    lemma_flat_parts(m, kh, kh);
    let pod = c.pod_of(home);
    assert(p == pod);
    c.lemma_place(pod, m / kh);
    c.lemma_pair(c.at_place(pod, m / kh), m % kh);
    let x = c.pair(c.at_place(pod, m / kh), m % kh);
    let at = 4 * n + 2 * x + 1;
    assert(sw.ports[p].link_id == at);
    assert(t.links[at] == c.link(at));
    assert((at - 4 * n) / 2 == x);
    assert(t.switches[hop] == c.switch(hop));
}

/// In a fat tree every switch has a route to every host, over every equal path, and every hop
/// of a route leads to the host or to a switch that is closer to it.
pub proof fn law_fat_tree_delivers(c: FatTree, i: int, h: int)
    requires
        c.fits(),
        c.k <= 256,
        0 <= i < 2 * c.n_edge() + c.n_core(),
        0 <= h < c.n_hosts(),
    ensures
        c.topology().switches[i].has_route(h as u32),
        c.topology().switches[i].routes[h as u32].len() == if fat_tree_distance(c, i, h) <= 2
            || i >= 2 * c.n_edge() {
            1
        } else {
            c.half()
        },
        forall|r: int|
            0 <= r < c.topology().switches[i].routes[h as u32].len() ==> #[trigger] leads_closer(
                c,
                i,
                h,
                r,
            ),
{
    let t = c.topology();
    c.lemma_sizes();
    let sw = t.switches[i];
    assert(sw == c.switch(i));
    let e = c.n_edge();
    c.lemma_host_parts(h);
    let home = c.edge_of(h);
    c.lemma_switch_parts(home);
    assert(sw.routes.contains_key(h as u32));
    assert forall|r: int| 0 <= r < sw.routes[h as u32].len() implies #[trigger] leads_closer(
        c,
        i,
        h,
        r,
    ) by {
        if i < e {
            lemma_edge_leads_closer(c, i, h, r);
        } else if i < 2 * e {
            lemma_aggregation_leads_closer(c, i, h, r);
        } else {
            lemma_core_leads_closer(c, i, h, r);
        }
    }
}

/// A fat tree whose links can carry data is a well-formed network in which every switch has a
/// route to every host.
pub proof fn law_fat_tree_wf(c: FatTree)
    requires
        c.fits(),
        c.host_link_bps > 0,
        c.fabric_link_bps > 0,
    ensures
        c.topology().wf(),
        c.topology().routes_complete(),
{
    let t = c.topology();
    c.lemma_sizes();
    let n = c.n_hosts();
    let e = c.n_edge();
    let kh = c.half();
    assert forall|i: int| 0 <= i < t.switches.len() implies (#[trigger] t.switches[i]).wf()
        && t.ports_linked(i) by {
        assert(t.switches[i] == c.switch(i));
        let sw = c.switch(i);
        let (id, links, routes) = if i < e {
            (c.edge_id(i), c.edge_links(i), c.edge_routes(i))
        } else if i < 2 * e {
            (c.agg_id(i - e), c.agg_links(i - e), c.agg_routes(i - e))
        } else {
            (c.core_id(i - 2 * e), c.core_links(i - 2 * e), c.core_routes())
        };
        assert forall|d: EntityId, j: int|
            routes.contains_key(d) && 0 <= j < routes[d].len() implies (#[trigger] routes[d][j])
            < links.len() by {
            c.lemma_host_parts(d as int);
            c.lemma_switch_parts(c.edge_of(d as int));
        }
        lemma_wired_wf(id as u32, c.ecn_threshold_bytes, c.buffer_bytes, links, routes);
        assert forall|p: int| 0 <= p < t.switches[i].ports.len() implies (
        #[trigger] t.switches[i].ports[p]).link_id < t.links.len() by {
            assert(t.switches[i].ports[p].link_id == links[p]);
            if i < e {
                c.lemma_pair(i, if p < kh { p } else { p - kh });
            } else if i < 2 * e {
                let g = i - e;
                c.lemma_switch_parts(g);
                if p < kh {
                    c.lemma_place(c.pod_of(g), p);
                    c.lemma_pair(c.at_place(c.pod_of(g), p), c.place_of(g));
                } else {
                    c.lemma_pair(g, p - kh);
                }
            } else {
                let m = i - 2 * e;
                lemma_flat_parts(m, kh, kh);
                c.lemma_place(p, m / kh);
                c.lemma_pair(c.at_place(p, m / kh), m % kh);
            }
        }
    }
    assert forall|i: int, h: int|
        0 <= i < t.switches.len() && 0 <= h < t.hosts.len() implies (
    #[trigger] t.switches[i]).has_route(#[trigger] t.hosts[h]) by {
        assert(t.switches[i] == c.switch(i));
        assert(t.switches[i].routes.contains_key(t.hosts[h]));
    }
}

} // verus!
