//! Several lists of flows put together.
//!
//! The flows are numbered anew, so that their numbers are distinct.
use super::FlowDesc;
use crate::util::stable_order;
use vstd::prelude::*;

verus! {

use super::ids_distinct;
use crate::util::{is_stable_order, lists};

/// A list of flows and the weight by which it is placed.
#[derive(Debug, Clone)]
pub struct MixComponent {
    pub flows: Vec<FlowDesc>,
    /// The weight, as a number that grows with it.
    pub weight: u64,
}

/// Several lists of flows.
#[derive(Debug, Clone)]
pub struct Mix {
    pub components: Vec<MixComponent>,
}

/// A list of flows and its weight.
#[verifier::ext_equal]
pub struct ComponentView {
    pub flows: Seq<FlowDesc>,
    pub weight: u64,
}

impl View for MixComponent {
    type V = ComponentView;

    open spec fn view(&self) -> ComponentView {
        ComponentView { flows: self.flows@, weight: self.weight }
    }
}

impl View for Mix {
    type V = Seq<ComponentView>;

    open spec fn view(&self) -> Seq<ComponentView> {
        self.components@.map_values(|c: MixComponent| c@)
    }
}

/// Numbers that fall as the weights grow.
pub open spec fn reversed_weights(parts: Seq<ComponentView>) -> Seq<u64> {
    parts.map_values(|c: ComponentView| (u64::MAX - c.weight) as u64)
}

/// The number of flows in the lists at the first `n` of the positions `order`.
pub open spec fn flows_among(parts: Seq<ComponentView>, order: Seq<usize>, n: int) -> int
    decreases n,
{
    if n <= 0 {
        0
    } else {
        flows_among(parts, order, n - 1) + parts[order[n - 1] as int].flows.len()
    }
}

/// The number of flows in the first `n` lists.
pub open spec fn flow_total(parts: Seq<ComponentView>, n: int) -> int
    decreases n,
{
    if n <= 0 {
        0
    } else {
        flow_total(parts, n - 1) + parts[n - 1].flows.len()
    }
}

/// The lists at the first `n` of the positions `order`, one after the other.
pub open spec fn joined(parts: Seq<ComponentView>, order: Seq<usize>, n: int) -> Seq<FlowDesc>
    decreases n,
{
    if n <= 0 {
        Seq::empty()
    } else {
        joined(parts, order, n - 1) + parts[order[n - 1] as int].flows
    }
}

/// The flows numbered from zero on.
pub open spec fn numbered(flows: Seq<FlowDesc>) -> Seq<FlowDesc> {
    Seq::new(flows.len(), |i: int| FlowDesc { flow_id: i as u32, ..flows[i] })
}

/// `flows` holds the lists by falling weight, lists of equal weight in their given order, with
/// the flows numbered from zero on.
pub open spec fn mixes(parts: Seq<ComponentView>, flows: Seq<FlowDesc>) -> bool {
    exists|order: Seq<usize>|
        #[trigger] is_stable_order(reversed_weights(parts), order) && flows == numbered(
            joined(parts, order, parts.len() as int),
        )
}

pub proof fn lemma_joined_len(parts: Seq<ComponentView>, order: Seq<usize>, n: int)
    ensures
        joined(parts, order, n).len() == flows_among(parts, order, n),
    decreases n,
{
    if n > 0 {
        lemma_joined_len(parts, order, n - 1);
    }
}

pub proof fn lemma_among_grows(parts: Seq<ComponentView>, order: Seq<usize>, m: int, n: int)
    requires
        0 <= m <= n,
    ensures
        0 <= flows_among(parts, order, m) <= flows_among(parts, order, n),
    decreases n,
{
    if m < n {
        lemma_among_grows(parts, order, m, n - 1);
    } else if n > 0 {
        lemma_among_grows(parts, order, n - 1, n - 1);
    }
}

/// The number of flows does not depend on the order of the lists.
proof fn lemma_order_keeps_total(parts: Seq<ComponentView>, order: Seq<usize>)
    requires
        order.len() == parts.len(),
        forall|a: int| 0 <= a < order.len() ==> (#[trigger] order[a]) < parts.len(),
        order.no_duplicates(),
        forall|i: int| 0 <= i < parts.len() ==> #[trigger] lists(order, i),
    ensures
        flows_among(parts, order, order.len() as int) == flow_total(parts, parts.len() as int),
    decreases parts.len(),
{
    let n = parts.len() as int;
    if n > 0 {
        assert(lists(order, n - 1));
        let at = choose|a: int| 0 <= a < order.len() && #[trigger] order[a] == n - 1;
        let rest = order.remove(at);
        let fewer = parts.drop_last();
        lemma_among_without(parts, order, at, n);
        assert forall|a: int| 0 <= a < rest.len() implies (#[trigger] rest[a]) < fewer.len() by {
            if a < at {
                assert(rest[a] == order[a]);
            } else {
                assert(rest[a] == order[a + 1]);
            }
        }
        assert forall|i: int| 0 <= i < fewer.len() implies #[trigger] lists(rest, i) by {
            assert(lists(order, i));
            let a = choose|a: int| 0 <= a < order.len() && #[trigger] order[a] == i;
            if a < at {
                assert(rest[a] == i);
            } else {
                assert(rest[a - 1] == i);
            }
        }
        lemma_order_keeps_total(fewer, rest);
        lemma_among_prefix(parts, rest, n - 1);
        lemma_total_prefix(parts, n - 1);
    }
}

proof fn lemma_among_without(parts: Seq<ComponentView>, order: Seq<usize>, at: int, n: int)
    requires
        0 <= at < n <= order.len(),
    ensures
        flows_among(parts, order, n) == flows_among(parts, order.remove(at), n - 1)
            + parts[order[at] as int].flows.len(),
    decreases n,
{
    if at == n - 1 {
        lemma_among_same(parts, order, order.remove(at), n - 1);
    } else {
        lemma_among_without(parts, order, at, n - 1);
        assert(order.remove(at)[n - 2] == order[n - 1]);
    }
}

proof fn lemma_among_same(parts: Seq<ComponentView>, a: Seq<usize>, b: Seq<usize>, n: int)
    requires
        forall|i: int| 0 <= i < n ==> #[trigger] a[i] == b[i],
    ensures
        flows_among(parts, a, n) == flows_among(parts, b, n),
    decreases n,
{
    if n > 0 {
        lemma_among_same(parts, a, b, n - 1);
        assert(a[n - 1] == b[n - 1]);
    }
}

proof fn lemma_among_prefix(parts: Seq<ComponentView>, order: Seq<usize>, n: int)
    requires
        n <= order.len(),
        parts.len() > 0,
        forall|a: int| 0 <= a < order.len() ==> (#[trigger] order[a]) < parts.len() - 1,
    ensures
        flows_among(parts, order, n) == flows_among(parts.drop_last(), order, n),
    decreases n,
{
    if n > 0 {
        lemma_among_prefix(parts, order, n - 1);
        assert(order[n - 1] < parts.len() - 1);
    }
}

proof fn lemma_total_prefix(parts: Seq<ComponentView>, n: int)
    requires
        n < parts.len(),
    ensures
        flow_total(parts, n) == flow_total(parts.drop_last(), n),
    decreases n,
{
    if n > 0 {
        lemma_total_prefix(parts, n - 1);
    }
}

impl Mix {
    /// No lists.
    pub fn new() -> (m: Self)
        ensures
            m@ == Seq::<ComponentView>::empty(),
    {
        let m = Mix { components: Vec::new() };
        assert(m@ =~= Seq::<ComponentView>::empty());
        m
    }

    /// The lists of `self` and one more.
    pub fn add(self, flows: Vec<FlowDesc>, weight: u64) -> (m: Self)
        ensures
            m@ == self@.push(ComponentView { flows: flows@, weight }),
    {
        let mut components = self.components;
        components.push(MixComponent { flows, weight });
        let m = Mix { components };
        assert(m@ =~= self@.push(ComponentView { flows: flows@, weight }));
        m
    }

    /// The flows of all lists: the lists by falling weight, lists of equal weight in their given
    /// order. The flows are numbered from zero on.
    pub fn generate(&self) -> (all: Vec<FlowDesc>)
        requires
            flow_total(self@, self@.len() as int) <= u32::MAX,
        ensures
            mixes(self@, all@),
            all@.len() == flow_total(self@, self@.len() as int),
            ids_distinct(all@),
    {
        let ghost parts = self@;
        let n: usize = self.components.len();
        let mut keys: Vec<u64> = Vec::new();
        let mut i: usize = 0;
        while i < n
            invariant
                i <= n,
                n == self.components@.len(),
                keys@ =~= reversed_weights(self@).take(i as int),
            decreases n - i,
        {
            keys.push(u64::MAX - self.components[i].weight);
            i = i + 1;
        }
        assert(keys@ =~= reversed_weights(parts));
        let order = stable_order(&keys);
        proof {
            assert forall|a: int, b: int| 0 <= a < b < order@.len() implies order@[a] != order@[b] by {
                assert(crate::util::comes_before(keys@, order@[a] as int, order@[b] as int));
            }
            lemma_order_keeps_total(parts, order@);
        }
        let mut all: Vec<FlowDesc> = Vec::new();
        let mut next_fid: u32 = 0;
        let mut k: usize = 0;
        while k < n
            invariant
                k <= n,
                n == self.components@.len(),
                parts == self@,
                order@.len() == n,
                is_stable_order(reversed_weights(parts), order@),
                flows_among(parts, order@, n as int) <= u32::MAX,
                next_fid == flows_among(parts, order@, k as int),
                all@ =~= numbered(joined(parts, order@, k as int)),
                all@.len() == next_fid,
            decreases n - k,
        {
            assert(order@[k as int] < n);
            let comp = &self.components[order[k]];
            assert(comp@ == parts[order@[k as int] as int]);
            proof {
                lemma_among_grows(parts, order@, k + 1, n as int);
                lemma_joined_len(parts, order@, k as int);
            }
            let ghost next = joined(parts, order@, k + 1);
            let ghost base = next_fid as int;
            let mut j: usize = 0;
            while j < comp.flows.len()
                invariant
                    j <= comp.flows@.len(),
                    next_fid == base + j,
                    base + comp.flows@.len() <= u32::MAX,
                    all@.len() == next_fid,
                    next.len() == base + comp.flows@.len(),
                    forall|x: int| 0 <= x < comp.flows@.len() ==> next[base + x] == (
                    #[trigger] comp.flows@[x]),
                    all@ =~= numbered(next.take(base + j)),
                decreases comp.flows@.len() - j,
            {
                let mut f = comp.flows[j];
                f.flow_id = next_fid;
                assert(next[base + j] == comp.flows@[j as int]);
                next_fid = next_fid + 1;
                all.push(f);
                j = j + 1;
            }
            assert(next.take(next.len() as int) =~= next);
            k = k + 1;
        }
        proof {
            lemma_joined_len(parts, order@, n as int);
        }
        all
    }
}

impl Default for Mix {
    fn default() -> (m: Self)
        ensures
            m@ == Seq::<ComponentView>::empty(),
    {
        Mix::new()
    }
}

} // verus!
