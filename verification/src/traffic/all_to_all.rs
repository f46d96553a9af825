//! Every node sends to every other.
use super::FlowDesc;
use crate::EntityId;
use vstd::prelude::*;

verus! {

use super::ids_distinct;

/// The pairs of positions, the first running slowest.
pub open spec fn grid(nodes: Seq<EntityId>) -> Seq<(EntityId, EntityId)> {
    let n = nodes.len() as int;
    Seq::new((n * n) as nat, |k: int| (nodes[k / n], nodes[k % n]))
}

/// The pairs of different nodes, by source and then by destination.
pub open spec fn ordered_pairs(nodes: Seq<EntityId>) -> Seq<(EntityId, EntityId)> {
    grid(nodes).filter(|p: (EntityId, EntityId)| p.0 != p.1)
}

/// The pairs of different nodes, by source and then by destination.
pub fn list_pairs(nodes: &[EntityId]) -> (pairs: Vec<(EntityId, EntityId)>)
    ensures
        pairs@ == ordered_pairs(nodes@),
{
    let ghost differ = |p: (EntityId, EntityId)| p.0 != p.1;
    let n: usize = nodes.len();
    let mut pairs: Vec<(EntityId, EntityId)> = Vec::new();
    let mut i: usize = 0;
    assert(grid(nodes@).take(0).filter(differ) =~= Seq::empty()) by {
        reveal(Seq::filter);
    }
    while i < n
        invariant
            i <= n,
            n == nodes@.len(),
            differ == (|p: (EntityId, EntityId)| p.0 != p.1),
            pairs@ == grid(nodes@).take(i * n).filter(differ),
        decreases n - i,
    {
        let mut j: usize = 0;
        while j < n
            invariant
                j <= n,
                i < n,
                n == nodes@.len(),
                differ == (|p: (EntityId, EntityId)| p.0 != p.1),
                pairs@ == grid(nodes@).take(i * n + j).filter(differ),
            decreases n - j,
        {
            let ghost k = i * n + j;
            proof {
                vstd::arithmetic::div_mod::lemma_fundamental_div_mod_converse(
                    k,
                    n as int,
                    i as int,
                    j as int,
                );
                assert(0 <= i * n && i * n + n <= n * n) by (nonlinear_arith)
                    requires
                        0 <= i,
                        i + 1 <= n,
                ;
                assert(grid(nodes@)[k] == (nodes@[i as int], nodes@[j as int]));
                assert(grid(nodes@).take(k + 1) =~= grid(nodes@).take(k).push(grid(nodes@)[k]));
                grid(nodes@).take(k).lemma_filter_push(grid(nodes@)[k], differ);
            }
            if nodes[i] != nodes[j] {
                pairs.push((nodes[i], nodes[j]));
            }
            j = j + 1;
        }
        assert((i + 1) * n == i * n + n) by (nonlinear_arith);
        i = i + 1;
    }
    assert(grid(nodes@).take(n * n) =~= grid(nodes@));
    pairs
}

/// Every node sends the same number of bytes to every other.
pub struct AllToAll {
    pub nodes: Vec<EntityId>,
    pub bytes_per_pair: u64,
    pub start_time_ns: u64,
}

impl AllToAll {
    /// The flows can be numbered.
    pub open spec fn fits(self) -> bool {
        ordered_pairs(self.nodes@).len() <= u32::MAX
    }

    /// The flows, by source and then by destination.
    pub open spec fn flows(self) -> Seq<FlowDesc> {
        let pairs = ordered_pairs(self.nodes@);
        Seq::new(
            pairs.len(),
            |i: int|
                FlowDesc {
                    flow_id: i as u32,
                    src: pairs[i].0,
                    dst: pairs[i].1,
                    bytes: self.bytes_per_pair,
                    start_time_ns: self.start_time_ns,
                },
        )
    }

    /// The flows, by source and then by destination.
    pub fn generate(&self) -> (v: Vec<FlowDesc>)
        requires
            self.fits(),
        ensures
            v@ == self.flows(),
    {
        let pairs = list_pairs(&self.nodes);
        let mut v: Vec<FlowDesc> = Vec::new();
        let mut i: usize = 0;
        while i < pairs.len()
            invariant
                i <= pairs@.len(),
                pairs@ == ordered_pairs(self.nodes@),
                self.fits(),
                v@ =~= self.flows().take(i as int),
            decreases pairs@.len() - i,
        {
            let (src, dst) = pairs[i];
            v.push(
                FlowDesc {
                    flow_id: i as u32,
                    src,
                    dst,
                    bytes: self.bytes_per_pair,
                    start_time_ns: self.start_time_ns,
                },
            );
            i = i + 1;
        }
        assert(v@ =~= self.flows());
        v
    }
}

/// The flows have numbers of their own, no node sends to itself, and every pair of different
/// nodes has a flow.
pub proof fn law_all_to_all_is_complete(a: AllToAll, i: int, j: int)
    requires
        a.fits(),
        0 <= i < a.nodes@.len(),
        0 <= j < a.nodes@.len(),
        a.nodes@[i] != a.nodes@[j],
    ensures
        ids_distinct(a.flows()),
        forall|k: int| 0 <= k < a.flows().len() ==> (#[trigger] a.flows()[k]).src != a.flows()[k].dst,
        exists|k: int|
            0 <= k < a.flows().len() && (#[trigger] a.flows()[k]).src == a.nodes@[i]
                && a.flows()[k].dst == a.nodes@[j],
{
    let differ = |p: (EntityId, EntityId)| p.0 != p.1;
    let n = a.nodes@.len() as int;
    let pairs = ordered_pairs(a.nodes@);
    let all = grid(a.nodes@);
    assert forall|k: int| 0 <= k < a.flows().len() implies (#[trigger] a.flows()[k]).src
        != a.flows()[k].dst by {
        all.lemma_filter_pred(differ, k);
    }
    let at = i * n + j;
    vstd::arithmetic::div_mod::lemma_fundamental_div_mod_converse(at, n, i, j);
    assert(0 <= i * n && i * n + n <= n * n) by (nonlinear_arith)
        requires
            0 <= i,
            i + 1 <= n,
    ;
    assert(all[at] == (a.nodes@[i], a.nodes@[j]));
    all.lemma_filter_contains(differ, at);
    let k = pairs.index_of((a.nodes@[i], a.nodes@[j]));
    assert(pairs[k] == (a.nodes@[i], a.nodes@[j]));
    assert(a.flows()[k].src == a.nodes@[i]);
}

} // verus!
