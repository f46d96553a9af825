//! What holds of the layout of the networks: how many nodes and links there are, how they are numbered
//! and joined, and what their parameters are.
use super::dumbell::Dumbell;
use super::fat_tree::FatTree;
use super::leaf_spine::LeafSpine;
use super::multi_rail::MultiRailLeafSpine;
use super::HostUplink;
use crate::network::Link;
use crate::EntityId;
use vstd::prelude::*;

verus! {

use super::{lemma_flat_index, lemma_product_sign, switch_from, uplink_from, TopologyView};
use crate::network::switch::SwitchView;

/// The link `i` leads from `a` to `b`, and the one behind it back.
pub open spec fn joins(t: TopologyView, i: int, a: int, b: int, bps: u64, delay_ns: u64) -> bool {
    &&& 0 <= i && i + 1 < t.links.len()
    &&& t.links[i] == (Link {
        id: i as u32,
        from: a as u32,
        to: b as u32,
        bandwidth_bps: bps,
        prop_delay_ns: delay_ns,
    })
    &&& t.links[i + 1] == (Link {
        id: (i + 1) as u32,
        from: b as u32,
        to: a as u32,
        bandwidth_bps: bps,
        prop_delay_ns: delay_ns,
    })
}

/// The switch has the number `id` and `ports` ports, with the given thresholds, and nothing has passed
/// through it.
pub open spec fn is_new(sw: SwitchView, id: int, ecn: u32, buffer: u32, ports: int) -> bool {
    &&& sw.id == id
    &&& sw.ecn_threshold_bytes == ecn
    &&& sw.buffer_max_bytes == buffer
    &&& sw.drops == 0 && sw.ecn_marks == 0 && sw.pfc_pause_sent == 0 && sw.pfc_resume_sent == 0
    &&& sw.ports.len() == ports
    &&& forall|p: int|
        0 <= p < ports ==> (#[trigger] sw.ports[p]).queue_bytes == 0 && sw.ports[p].busy_until == 0
            && sw.ports[p].max_queue_depth_seen == 0 && !sw.ports[p].egress_pending
            && sw.ports[p].queues.len() == 2
    &&& forall|p: int| 0 <= p < ports && p < 256 ==> (#[trigger] sw.ports[p]).id == p
}

/// The host `h` is connected to the switch `edge` by the link `i`, and back by the one behind it.
pub open spec fn is_connected(up: HostUplink, h: int, edge: int, i: int) -> bool {
    &&& up.host == h
    &&& up.edge_switch == edge
    &&& up.link_to_switch == i
    &&& up.link_to_host == i + 1
}

/// A dumbbell of `2 * n` hosts: the hosts are numbered from zero on, the left switch behind them and then
/// the right one. Every host is joined to the switch of its side, the two switches to each other. A switch
/// reaches its own hosts by a port each and the others by the port behind these.
pub proof fn law_dumbell_layout(d: Dumbell, right: bool, x: int)
    requires
        d.fits(),
        0 <= x < d.hosts_per_side < 256,
    ensures
        ({
            let t = d.topology();
            let n = d.hosts_per_side as int;
            let side = if right {
                1int
            } else {
                0
            };
            let h = if right {
                n + x
            } else {
                x
            };
            let sw = t.switches[side];
            &&& t.hosts.len() == 2 * n && t.switches.len() == 2 && t.links.len() == 4 * n + 2
                && t.uplinks.len() == 2 * n
            &&& t.hosts[h] == h
            &&& is_connected(t.uplinks[h], h, 2 * n + side, 2 * h)
            &&& joins(t, 2 * h, h, 2 * n + side, d.host_link_bps, d.prop_delay_ns)
            &&& joins(t, 4 * n, 2 * n, 2 * n + 1, d.bottleneck_link_bps, d.prop_delay_ns)
            &&& is_new(sw, 2 * n + side, d.ecn_threshold_bytes, d.buffer_bytes, n + 1)
            &&& sw.ports[x].link_id == 2 * h + 1
            &&& sw.ports[n].link_id == 4 * n + side
            &&& sw.routes[h as u32] =~= seq![x as u8]
            &&& t.switches[1 - side].routes[h as u32] =~= seq![n as u8]
        }),
{
    let t = d.topology();
    let n = d.hosts_per_side as int;
    let side = if right {
        1int
    } else {
        0
    };
    assert(side * n == if right { n } else { 0 }) by (nonlinear_arith)
        requires
            side == if right { 1int } else { 0 },
    ;
    assert(t.switches[0] == d.switch(0) && t.switches[1] == d.switch(1));
    assert(t.links[4 * n] == d.link(4 * n) && t.links[4 * n + 1] == d.link(4 * n + 1));
}

/// A leaf-spine network: the hosts are numbered leaf by leaf, behind them the leaves and then the spines.
/// Every host is joined to its leaf, and every leaf to every spine. A leaf has a port for each of its hosts
/// and then one for each spine; a spine has a port for each leaf.
pub proof fn law_leaf_spine_layout(c: LeafSpine, i: int, x: int, j: int)
    requires
        c.fits(),
        0 <= i < c.n_leaf,
        0 <= x < c.hosts_per_leaf,
        0 <= j < c.n_spine,
    ensures
        ({
            let t = c.topology();
            let (w, s) = (c.hosts_per_leaf as int, c.n_spine as int);
            let n = c.n_leaf * c.hosts_per_leaf;
            let h = i * w + x;
            let pair = i * s + j;
            let (leaf, spine) = (t.switches[i], t.switches[c.n_leaf + j]);
            &&& t.hosts.len() == n && t.switches.len() == c.n_leaf + s && t.uplinks.len() == n
            &&& t.links.len() == 2 * n + 2 * (c.n_leaf * c.n_spine)
            &&& 0 <= h < n && t.hosts[h] == h
            &&& is_connected(t.uplinks[h], h, n + i, 2 * h)
            &&& joins(t, 2 * h, h, n + i, c.host_link_bps, c.prop_delay_ns)
            &&& joins(
                t,
                2 * n + 2 * pair,
                n + i,
                n + c.n_leaf + j,
                c.fabric_link_bps,
                c.prop_delay_ns,
            )
            &&& is_new(leaf, n + i, c.ecn_threshold_bytes, c.buffer_bytes, w + s)
            &&& is_new(
                spine,
                n + c.n_leaf + j,
                c.ecn_threshold_bytes,
                c.buffer_bytes,
                c.n_leaf as int,
            )
            &&& leaf.ports[x].link_id == 2 * h + 1
            &&& leaf.ports[w + j].link_id == 2 * n + 2 * pair
            &&& spine.ports[i].link_id == 2 * n + 2 * pair + 1
        }),
{
    let t = c.topology();
    let (w, s, l) = (c.hosts_per_leaf as int, c.n_spine as int, c.n_leaf as int);
    let n = c.n_hosts();
    lemma_product_sign(l, w);
    lemma_product_sign(l, s);
    lemma_flat_index(i, l, x, w);
    lemma_flat_index(i, l, j, s);
    let h = i * w + x;
    let pair = i * s + j;
    assert(t.links[2 * h] == c.link(2 * h) && t.links[2 * h + 1] == c.link(2 * h + 1));
    let f = 2 * n + 2 * pair;
    assert(t.links[f] == c.link(f) && t.links[f + 1] == c.link(f + 1));
    assert(t.switches[i] == c.leaf(i));
    assert(t.switches[l + j] == c.spine(j));
}

/// A fat tree of switches with `k` ports has `k` pods of `k / 2` edge and `k / 2` aggregation switches, with
/// `k / 2` hosts at each edge switch, and `k / 2` groups of `k / 2` core switches. The hosts are numbered
/// first, then the edge, the aggregation and the core switches. Every host is joined to its edge switch,
/// every edge switch to every aggregation switch of its pod, and the aggregation switch at each place of
/// a pod to every core switch of the group of this place.
pub proof fn law_fat_tree_layout(c: FatTree, pod: int, e: int, x: int, a: int, o: int)
    requires
        c.fits(),
        0 <= pod < c.k,
        0 <= e < c.k as int / 2,
        0 <= x < c.k as int / 2,
        0 <= a < c.k as int / 2,
        0 <= o < c.k as int / 2,
    ensures
        ({
            let t = c.topology();
            let half = c.k as int / 2;
            let m = c.k * half;
            let n = m * half;
            let (g, b) = (pod * half + e, pod * half + a);
            let h = g * half + x;
            let core = a * half + o;
            &&& t.hosts.len() == n && t.uplinks.len() == n && t.links.len() == 6 * n
            &&& t.switches.len() == 2 * m + half * half
            &&& 0 <= h < n && t.hosts[h] == h
            &&& is_connected(t.uplinks[h], h, n + g, 2 * h)
            &&& joins(t, 2 * h, h, n + g, c.host_link_bps, c.prop_delay_ns)
            &&& joins(
                t,
                2 * n + 2 * (g * half + a),
                n + g,
                n + m + b,
                c.fabric_link_bps,
                c.prop_delay_ns,
            )
            &&& joins(
                t,
                4 * n + 2 * (b * half + o),
                n + m + b,
                n + 2 * m + core,
                c.fabric_link_bps,
                c.prop_delay_ns,
            )
            &&& is_new(t.switches[g], n + g, c.ecn_threshold_bytes, c.buffer_bytes, 2 * half)
            &&& is_new(t.switches[m + b], n + m + b, c.ecn_threshold_bytes, c.buffer_bytes, 2 * half)
            &&& is_new(
                t.switches[2 * m + core],
                n + 2 * m + core,
                c.ecn_threshold_bytes,
                c.buffer_bytes,
                c.k as int,
            )
            &&& t.switches[g].ports[x].link_id == 2 * h + 1
            &&& t.switches[g].ports[half + a].link_id == 2 * n + 2 * (g * half + a)
            &&& t.switches[m + b].ports[e].link_id == 2 * n + 2 * (g * half + a) + 1
            &&& t.switches[m + b].ports[half + o].link_id == 4 * n + 2 * (b * half + o)
            &&& t.switches[2 * m + core].ports[pod].link_id == 4 * n + 2 * (b * half + o) + 1
        }),
{
    let t = c.topology();
    let (k, half) = (c.k as int, c.half());
    let (m, n) = (c.n_edge(), c.n_hosts());
    c.lemma_sizes();
    lemma_flat_index(pod, k, e, half);
    lemma_flat_index(pod, k, a, half);
    let (g, b) = (pod * half + e, pod * half + a);
    lemma_flat_index(g, m, x, half);
    lemma_flat_index(g, m, a, half);
    lemma_flat_index(b, m, o, half);
    lemma_flat_index(a, half, o, half);
    let h = g * half + x;
    let core = a * half + o;
    let (y, z) = (g * half + a, b * half + o);
    assert(t.links[2 * h] == c.link(2 * h) && t.links[2 * h + 1] == c.link(2 * h + 1));
    assert(t.links[2 * n + 2 * y] == c.link(2 * n + 2 * y));
    assert(t.links[2 * n + 2 * y + 1] == c.link(2 * n + 2 * y + 1));
    assert(t.links[4 * n + 2 * z] == c.link(4 * n + 2 * z));
    assert(t.links[4 * n + 2 * z + 1] == c.link(4 * n + 2 * z + 1));
    assert(t.switches[g] == c.switch(g));
    assert(t.switches[m + b] == c.switch(m + b));
    assert(t.switches[2 * m + core] == c.switch(2 * m + core));
}

/// A multi-rail network: the NICs are numbered leaf by leaf, behind them the leaves and then the spines. The
/// links between leaves and spines come first, then those of the NICs. Every NIC is joined to its leaf, and
/// every leaf to every spine. A leaf has a port for each spine, and then two for each of its NICs; a spine
/// has a port for each leaf.
pub proof fn law_multi_rail_layout(c: MultiRailLeafSpine, i: int, x: int, j: int)
    requires
        c.fits(),
        0 <= i < c.n_leaf,
        0 <= x < c.hosts_per_leaf * c.nics_per_host,
        0 <= j < c.n_spine,
    ensures
        ({
            let t = c.topology();
            let w = c.hosts_per_leaf * c.nics_per_host;
            let s = c.n_spine as int;
            let n = c.n_leaf * w;
            let f = 2 * (c.n_leaf * c.n_spine);
            let h = i * w + x;
            let pair = i * s + j;
            let (leaf, spine) = (t.switches[i], t.switches[c.n_leaf + j]);
            &&& t.hosts.len() == n && t.switches.len() == c.n_leaf + s && t.uplinks.len() == n
                && t.links.len() == 2 * n + f
            &&& 0 <= h < n && t.hosts[h] == h
            &&& is_connected(t.uplinks[h], h, n + i, f + 2 * h)
            &&& joins(t, f + 2 * h, h, n + i, c.host_link_bps, c.prop_delay_ns)
            &&& joins(t, 2 * pair, n + i, n + c.n_leaf + j, c.fabric_link_bps, c.prop_delay_ns)
            &&& is_new(leaf, n + i, c.ecn_threshold_bytes, c.buffer_bytes, s + 2 * w)
            &&& is_new(
                spine,
                n + c.n_leaf + j,
                c.ecn_threshold_bytes,
                c.buffer_bytes,
                c.n_leaf as int,
            )
            &&& leaf.ports[j].link_id == 2 * pair
            &&& leaf.ports[s + 2 * x].link_id == f + 2 * h
            &&& leaf.ports[s + 2 * x + 1].link_id == f + 2 * h + 1
            &&& spine.ports[i].link_id == 2 * pair + 1
        }),
{
    let t = c.topology();
    let (w, s, l) = (c.per_leaf(), c.n_spine as int, c.n_leaf as int);
    let n = c.n_nics();
    c.lemma_sizes();
    lemma_flat_index(i, l, x, w);
    lemma_flat_index(i, l, j, s);
    let f = 2 * c.n_pairs();
    let h = i * w + x;
    let pair = i * s + j;
    let at = f + 2 * h;
    assert(t.links[at] == c.link(at) && t.links[at + 1] == c.link(at + 1));
    assert(t.links[2 * pair] == c.link(2 * pair) && t.links[2 * pair + 1] == c.link(2 * pair + 1));
    assert(t.switches[i] == c.switch(i));
    assert(t.switches[l + j] == c.switch(l + j));
    assert(c.leaf_links(i)[s + 2 * x] == at);
    assert(c.leaf_links(i)[s + 2 * x + 1] == at + 1);
}

/// The spines of a multi-rail network are shared out to as many rails as a host has NICs, or as there are
/// spines if these are fewer, equally but for what is left over, which the last rail has. NIC `m` of every
/// host is on the rail that its position leaves as a remainder; packets for it from other leaves go over
/// the spines of this rail, and over each of them.
pub proof fn law_rails_share_spines(c: MultiRailLeafSpine, leaf: int, host: int, m: int, i: int)
    requires
        c.fits(),
        0 <= leaf < c.n_leaf,
        0 <= host < c.hosts_per_leaf,
        0 <= m < c.nics_per_host,
        0 <= i < c.n_leaf,
        i != leaf,
        0 < c.n_spine < 256,
    ensures
        ({
            let h = (leaf * c.hosts_per_leaf + host) * c.nics_per_host + m;
            let rails = if c.nics_per_host < c.n_spine {
                c.nics_per_host as int
            } else {
                c.n_spine as int
            };
            let share = c.n_spine as int / rails;
            let r = m % rails;
            let ports = c.topology().switches[i].routes[h as u32];
            &&& r < rails - 1 ==> ports.len() == share
            &&& r == rails - 1 ==> ports.len() == c.n_spine - r * share
            &&& forall|q: int| 0 <= q < ports.len() ==> #[trigger] ports[q] == r * share + q
        }),
{
    let (k, w) = (c.nics_per_host as int, c.per_leaf());
    c.lemma_sizes();
    lemma_flat_index(host, c.hosts_per_leaf as int, m, k);
    let local = host * k + m;
    lemma_flat_index(leaf, c.n_leaf as int, local, w);
    let h = (leaf * c.hosts_per_leaf + host) * k + m;
    assert(h == leaf * w + local) by (nonlinear_arith)
        requires
            h == (leaf * c.hosts_per_leaf + host) * k + m,
            local == host * k + m,
            w == c.hosts_per_leaf * k,
    ;
    assert(0 <= leaf * c.hosts_per_leaf) by (nonlinear_arith)
        requires
            leaf >= 0,
            c.hosts_per_leaf >= 0,
    ;
    vstd::arithmetic::div_mod::lemma_fundamental_div_mod_converse(
        h,
        k,
        leaf * c.hosts_per_leaf + host,
        m,
    );
    c.lemma_rail_of(h);
    c.lemma_rail(c.rail_of(h));
    let sw = c.topology().switches[i];
    assert(sw == c.switch(i));
    assert(c.leaf_of(h) == leaf);
}

/// The connection of a host that is found is its first.
pub proof fn law_first_connection_is_found(uplinks: Seq<HostUplink>, host: EntityId, from: int)
    requires
        0 <= from <= uplinks.len(),
    ensures
        match uplink_from(uplinks, host, from) {
            Some(u) => from <= u < uplinks.len() && uplinks[u].host == host && forall|w: int|
                from <= w < u ==> (#[trigger] uplinks[w]).host != host,
            None => forall|w: int| from <= w < uplinks.len() ==> (#[trigger] uplinks[w]).host != host,
        },
    decreases uplinks.len() - from,
{
    if from < uplinks.len() && uplinks[from].host != host {
        law_first_connection_is_found(uplinks, host, from + 1);
    }
}

/// The switch of a number that is found is the first of this number.
pub proof fn law_first_switch_is_found(switches: Seq<SwitchView>, id: EntityId, from: int)
    requires
        0 <= from <= switches.len(),
    ensures
        match switch_from(switches, id, from) {
            Some(s) => from <= s < switches.len() && switches[s].id == id && forall|o: int|
                from <= o < s ==> (#[trigger] switches[o]).id != id,
            None => forall|s: int| from <= s < switches.len() ==> (#[trigger] switches[s]).id != id,
        },
    decreases switches.len() - from,
{
    if from < switches.len() && switches[from].id != id {
        law_first_switch_is_found(switches, id, from + 1);
    }
}


} // verus!
