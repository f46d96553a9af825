//! What a visualisation needs of a network and a run.
use crate::topology::Topology;
use vstd::prelude::*;

pub mod data;
pub mod position;
pub mod sampler;

pub use data::{LinkSnapshot, VizFrame, VizLink};
pub use position::{compute_positions, NodePlace, PlacedNode};
pub use sampler::TimeSeriesSampler;

verus! {

use crate::network::Link;

/// The shape of a network, from which its nodes are laid out.
#[derive(Debug, Clone, Copy)]
pub enum TopoKind {
    Dumbell { hosts_per_side: u32 },
    LeafSpine { n_leaf: u32, n_spine: u32, hosts_per_leaf: u32 },
}

/// What is shown of a link.
pub open spec fn shown_link(l: Link) -> VizLink {
    VizLink { id: l.id, from: l.from, to: l.to, bandwidth_bps: l.bandwidth_bps }
}

/// What is shown of the links of a network.
pub fn build_viz_links(topo: &Topology) -> (v: Vec<VizLink>)
    requires
        topo@.links.len() <= u32::MAX,
    ensures
        v@ == topo@.links.map_values(|l: Link| shown_link(l)),
{
    let mut v: Vec<VizLink> = Vec::new();
    let n: usize = topo.links.len();
    let mut i: u32 = 0;
    while (i as usize) < n
        invariant
            i <= n,
            n == topo@.links.len(),
            n <= u32::MAX,
            v@ =~= topo@.links.map_values(|l: Link| shown_link(l)).take(i as int),
        decreases n - i,
    {
        let l = topo.links.get(i);
        v.push(VizLink { id: l.id, from: l.from, to: l.to, bandwidth_bps: l.bandwidth_bps });
        i = i + 1;
    }
    assert(v@ =~= topo@.links.map_values(|l: Link| shown_link(l)));
    v
}

/// A link is shown as it is, without its delay.
pub proof fn law_link_is_shown(l: Link)
    ensures
        shown_link(l).id == l.id,
        shown_link(l).from == l.from,
        shown_link(l).to == l.to,
        shown_link(l).bandwidth_bps == l.bandwidth_bps,
{
}

} // verus!
