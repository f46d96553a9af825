//! Where the nodes of a network stand.
//!
//! A place is given by its part of the network and its position among the nodes of that part;
//! coordinates follow from it.
use super::TopoKind;
use crate::error::numbered_message;
use crate::EntityId;
use vstd::prelude::*;

verus! {

use crate::error::decimal;
use crate::topology::{lemma_flat_parts, lemma_product_sign};

/// The place of a node.
#[derive(Debug, Clone, Copy, PartialEq, Eq, Structural)]
pub enum NodePlace {
    /// The `index`-th of `count` hosts on one side of a dumbbell.
    SideHost { right: bool, index: u32, count: u32 },
    /// The switch on one side of a dumbbell.
    SideSwitch { right: bool },
    /// The `index`-th of `count` hosts at the `leaf`-th of `n_leaf` leaves.
    LeafHost { leaf: u32, n_leaf: u32, index: u32, count: u32 },
    /// The `index`-th of `count` leaves.
    Leaf { index: u32, count: u32 },
    /// The `index`-th of `count` spines.
    Spine { index: u32, count: u32 },
}

/// A node and its place.
#[derive(Debug, Clone, Copy)]
pub struct PlacedNode {
    pub id: EntityId,
    pub place: NodePlace,
}

impl PlacedNode {
    /// The name of the node: hosts are named by their number, switches by their place.
    pub open spec fn name(self) -> Seq<char> {
        match self.place {
            NodePlace::SideHost { .. } => "H"@ + decimal(self.id as nat),
            NodePlace::LeafHost { .. } => "H"@ + decimal(self.id as nat),
            NodePlace::SideSwitch { right } => if right {
                "SW-R"@
            } else {
                "SW-L"@
            },
            NodePlace::Leaf { index, .. } => "Leaf"@ + decimal(index as nat),
            NodePlace::Spine { index, .. } => "Spine"@ + decimal(index as nat),
        }
    }

    /// The name of the node.
    pub fn label(&self) -> (text: String)
        ensures
            text@ == self.name(),
    {
        proof {
            reveal_strlit("");
            assert forall|s: Seq<char>| #[trigger] (s + ""@) =~= s by {
            }
        }
        match self.place {
            NodePlace::SideHost { .. } => numbered_message("H", self.id, ""),
            NodePlace::LeafHost { .. } => numbered_message("H", self.id, ""),
            NodePlace::SideSwitch { right } => if right {
                "SW-R".to_owned()
            } else {
                "SW-L".to_owned()
            },
            NodePlace::Leaf { index, .. } => numbered_message("Leaf", index, ""),
            NodePlace::Spine { index, .. } => numbered_message("Spine", index, ""),
        }
    }

    /// What the node is.
    pub fn kind(&self) -> (text: &'static str)
        ensures
            text@ == (match self.place {
                NodePlace::SideHost { .. } => "host"@,
                NodePlace::LeafHost { .. } => "host"@,
                _ => "switch"@,
            }),
    {
        match self.place {
            NodePlace::SideHost { .. } => "host",
            NodePlace::LeafHost { .. } => "host",
            _ => "switch",
        }
    }
}

/// The nodes of a network are few enough to be numbered.
pub open spec fn nodes_fit(kind: TopoKind) -> bool {
    match kind {
        TopoKind::Dumbell { hosts_per_side } => 2 * hosts_per_side + 1 <= u32::MAX,
        TopoKind::LeafSpine { n_leaf, n_spine, hosts_per_leaf } => n_leaf * hosts_per_leaf + n_leaf
            + n_spine <= u32::MAX,
    }
}

/// The place of node `i` of a dumbbell.
pub open spec fn dumbell_place(n: int, i: int) -> NodePlace {
    if i < n {
        NodePlace::SideHost { right: false, index: i as u32, count: n as u32 }
    } else if i < 2 * n {
        NodePlace::SideHost { right: true, index: (i - n) as u32, count: n as u32 }
    } else {
        NodePlace::SideSwitch { right: i > 2 * n }
    }
}

/// The place of node `i` of a leaf-spine network.
pub open spec fn leafspine_place(n_leaf: int, n_spine: int, per_leaf: int, i: int) -> NodePlace {
    let hosts = n_leaf * per_leaf;
    if i < hosts {
        NodePlace::LeafHost {
            leaf: (i / per_leaf) as u32,
            n_leaf: n_leaf as u32,
            index: (i % per_leaf) as u32,
            count: per_leaf as u32,
        }
    } else if i < hosts + n_leaf {
        NodePlace::Leaf { index: (i - hosts) as u32, count: n_leaf as u32 }
    } else {
        NodePlace::Spine { index: (i - hosts - n_leaf) as u32, count: n_spine as u32 }
    }
}

/// The nodes of a network in the order of their numbers.
pub open spec fn placed_nodes(kind: TopoKind) -> Seq<PlacedNode> {
    match kind {
        TopoKind::Dumbell { hosts_per_side } => Seq::new(
            (2 * hosts_per_side + 2) as nat,
            |i: int| PlacedNode { id: i as u32, place: dumbell_place(hosts_per_side as int, i) },
        ),
        TopoKind::LeafSpine { n_leaf, n_spine, hosts_per_leaf } => Seq::new(
            (n_leaf * hosts_per_leaf + n_leaf + n_spine) as nat,
            |i: int|
                PlacedNode {
                    id: i as u32,
                    place: leafspine_place(
                        n_leaf as int,
                        n_spine as int,
                        hosts_per_leaf as int,
                        i,
                    ),
                },
        ),
    }
}

fn dumbell_positions(n: u32) -> (v: Vec<PlacedNode>)
    requires
        2 * n + 1 <= u32::MAX,
    ensures
        v@ == placed_nodes(TopoKind::Dumbell { hosts_per_side: n }),
{
    let ghost want = placed_nodes(TopoKind::Dumbell { hosts_per_side: n });
    let mut v: Vec<PlacedNode> = Vec::new();
    let mut i: u32 = 0;
    while i < 2 * n
        invariant
            i <= 2 * n,
            2 * n + 1 <= u32::MAX,
            want == placed_nodes(TopoKind::Dumbell { hosts_per_side: n }),
            v@ =~= want.take(i as int),
        decreases 2 * n - i,
    {
        let right: bool = i >= n;
        let index: u32 = if right {
            i - n
        } else {
            i
        };
        v.push(PlacedNode { id: i, place: NodePlace::SideHost { right, index, count: n } });
        i = i + 1;
    }
    v.push(PlacedNode { id: 2 * n, place: NodePlace::SideSwitch { right: false } });
    v.push(PlacedNode { id: 2 * n + 1, place: NodePlace::SideSwitch { right: true } });
    assert(v@ =~= want);
    v
}

fn leafspine_positions(n_leaf: u32, n_spine: u32, hosts_per_leaf: u32) -> (v: Vec<PlacedNode>)
    requires
        n_leaf * hosts_per_leaf + n_leaf + n_spine <= u32::MAX,
    ensures
        v@ == placed_nodes(TopoKind::LeafSpine { n_leaf, n_spine, hosts_per_leaf }),
{
    let ghost want = placed_nodes(TopoKind::LeafSpine { n_leaf, n_spine, hosts_per_leaf });
    proof {
        lemma_product_sign(n_leaf as int, hosts_per_leaf as int);
    }
    let hosts: u32 = n_leaf * hosts_per_leaf;
    let total: u32 = hosts + n_leaf + n_spine;
    let mut v: Vec<PlacedNode> = Vec::new();
    let mut i: u32 = 0;
    while i < total
        invariant
            i <= total,
            hosts == n_leaf * hosts_per_leaf,
            hosts > 0 ==> hosts_per_leaf > 0,
            total == hosts + n_leaf + n_spine,
            want == placed_nodes(TopoKind::LeafSpine { n_leaf, n_spine, hosts_per_leaf }),
            v@ =~= want.take(i as int),
        decreases total - i,
    {
        let place: NodePlace = if i < hosts {
            proof {
                lemma_flat_parts(i as int, n_leaf as int, hosts_per_leaf as int);
            }
            NodePlace::LeafHost {
                leaf: i / hosts_per_leaf,
                n_leaf,
                index: i % hosts_per_leaf,
                count: hosts_per_leaf,
            }
        } else if i < hosts + n_leaf {
            NodePlace::Leaf { index: i - hosts, count: n_leaf }
        } else {
            NodePlace::Spine { index: i - hosts - n_leaf, count: n_spine }
        };
        v.push(PlacedNode { id: i, place });
        i = i + 1;
    }
    assert(v@ =~= want);
    v
}

/// The nodes of a network and their places, in the order of their numbers.
pub fn compute_positions(kind: &TopoKind) -> (v: Vec<PlacedNode>)
    requires
        nodes_fit(*kind),
    ensures
        v@ == placed_nodes(*kind),
{
    match *kind {
        TopoKind::Dumbell { hosts_per_side } => dumbell_positions(hosts_per_side),
        TopoKind::LeafSpine { n_leaf, n_spine, hosts_per_leaf } => leafspine_positions(
            n_leaf,
            n_spine,
            hosts_per_leaf,
        ),
    }
}

/// The nodes of a dumbbell: the hosts of the left side, those of the right side, and the two switches, each
/// under its number.
pub proof fn law_dumbell_nodes(n: u32, i: int)
    requires
        nodes_fit(TopoKind::Dumbell { hosts_per_side: n }),
        0 <= i < 2 * n + 2,
    ensures
        ({
            let v = placed_nodes(TopoKind::Dumbell { hosts_per_side: n });
            &&& v.len() == 2 * n + 2
            &&& v[i].id == i
            &&& i < n ==> v[i].place == (NodePlace::SideHost {
                right: false,
                index: i as u32,
                count: n,
            })
            &&& n <= i < 2 * n ==> v[i].place == (NodePlace::SideHost {
                right: true,
                index: (i - n) as u32,
                count: n,
            })
            &&& i == 2 * n ==> v[i].place == (NodePlace::SideSwitch { right: false })
            &&& i == 2 * n + 1 ==> v[i].place == (NodePlace::SideSwitch { right: true })
        }),
{
}

/// The nodes of a leaf-spine network: the hosts leaf by leaf, the leaves and the spines, each under its
/// number.
pub proof fn law_leafspine_nodes(
    n_leaf: u32,
    n_spine: u32,
    per_leaf: u32,
    leaf: int,
    host: int,
    spine: int,
)
    requires
        nodes_fit(TopoKind::LeafSpine { n_leaf, n_spine, hosts_per_leaf: per_leaf }),
        0 <= leaf < n_leaf,
        0 <= host < per_leaf,
        0 <= spine < n_spine,
    ensures
        ({
            let v = placed_nodes(TopoKind::LeafSpine { n_leaf, n_spine, hosts_per_leaf: per_leaf });
            let hosts = n_leaf * per_leaf;
            let h = leaf * per_leaf + host;
            &&& v.len() == hosts + n_leaf + n_spine
            &&& 0 <= h < hosts
            &&& v[h] == (PlacedNode {
                id: h as u32,
                place: NodePlace::LeafHost {
                    leaf: leaf as u32,
                    n_leaf,
                    index: host as u32,
                    count: per_leaf,
                },
            })
            &&& v[hosts + leaf] == (PlacedNode {
                id: (hosts + leaf) as u32,
                place: NodePlace::Leaf { index: leaf as u32, count: n_leaf },
            })
            &&& v[hosts + n_leaf + spine] == (PlacedNode {
                id: (hosts + n_leaf + spine) as u32,
                place: NodePlace::Spine { index: spine as u32, count: n_spine },
            })
        }),
{
    let (p, h) = (per_leaf as int, leaf * per_leaf + host);
    assert(0 <= leaf * p && leaf * p + p <= n_leaf * p) by (nonlinear_arith)
        requires
            0 <= leaf,
            leaf + 1 <= n_leaf,
            p >= 0,
    ;
    vstd::arithmetic::div_mod::lemma_fundamental_div_mod_converse(h, p, leaf, host);
}

/// Hosts are named by their number, switches by their place.
pub proof fn law_node_names(id: EntityId, index: u32, count: u32, leaf: u32, n_leaf: u32, right: bool)
    ensures
        (PlacedNode { id, place: NodePlace::SideHost { right, index, count } }).name() == "H"@
            + decimal(id as nat),
        (PlacedNode { id, place: NodePlace::LeafHost { leaf, n_leaf, index, count } }).name() == "H"@
            + decimal(id as nat),
        (PlacedNode { id, place: NodePlace::SideSwitch { right: true } }).name() == "SW-R"@,
        (PlacedNode { id, place: NodePlace::SideSwitch { right: false } }).name() == "SW-L"@,
        (PlacedNode { id, place: NodePlace::Leaf { index, count } }).name() == "Leaf"@ + decimal(
            index as nat,
        ),
        (PlacedNode { id, place: NodePlace::Spine { index, count } }).name() == "Spine"@ + decimal(
            index as nat,
        ),
{
}

} // verus!
