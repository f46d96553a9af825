//! Synthetic traffic: a pattern of pairs, a distribution of flow sizes and an arrival process.
//!
//! The seed determines the traffic.
use super::all_to_all::list_pairs;
use super::permute::draw_permutation;
use super::rng::SeededRng;
use super::FlowDesc;
use crate::util::low_u32;
use crate::EntityId;
use vstd::prelude::*;

verus! {

use super::all_to_all::ordered_pairs;
use super::permute::{drawn_permutation, identity, shuffled_until_moved};
use super::rng::{pcg64_draw, RngView};

/// How often a permutation is drawn before a node that sends to itself is dealt with otherwise.
pub const MAX_PAIR_SHUFFLES: u32 = 100;

/// How often a destination that equals the source is drawn again: more often than any program can
/// draw, so that the loop ends in any case and the limit is never met.
pub const MAX_REDRAWS: u64 = 0xffff_ffff_ffff_ffff;

/// A distribution of flow sizes over the integers.
#[derive(Debug, Clone, Copy)]
pub enum FlowSizeDist {
    /// Always the same size.
    Fixed(u64),
    /// Any size from `min` to `max`, all equally likely.
    Uniform { min: u64, max: u64 },
}

impl FlowSizeDist {
    /// The draws for one size.
    pub open spec fn draws(self) -> Seq<(bool, u64, u64)> {
        match self {
            FlowSizeDist::Uniform { min, max } if min < max => seq![(false, min, max)],
            _ => Seq::empty(),
        }
    }

    /// The size that a generator draws.
    pub open spec fn size(self, rng: RngView) -> u64 {
        match self {
            FlowSizeDist::Fixed(bytes) => bytes,
            FlowSizeDist::Uniform { min, max } => if min < max {
                pcg64_draw(rng.seed, rng.draws.push((false, min, max)))
            } else {
                min
            },
        }
    }

    /// The generator after `n` sizes.
    pub open spec fn after(self, rng: RngView, n: nat) -> RngView
        decreases n,
    {
        if n == 0 {
            rng
        } else {
            let before = self.after(rng, (n - 1) as nat);
            before.after(self.draws())
        }
    }

    /// The first `n` sizes that a generator draws.
    pub open spec fn sizes(self, rng: RngView, n: nat) -> Seq<u64> {
        Seq::new(n, |i: int| self.size(self.after(rng, i as nat)))
    }

    /// The sizes that can come up.
    pub open spec fn admits(self, bytes: u64) -> bool {
        match self {
            FlowSizeDist::Fixed(b) => bytes == b,
            FlowSizeDist::Uniform { min, max } => if min < max {
                min <= bytes <= max
            } else {
                bytes == min
            },
        }
    }

    /// Draws a size.
    pub fn sample(&self, rng: &mut SeededRng) -> (bytes: u64)
        ensures
            bytes == self.size(old(rng)@),
            self.admits(bytes),
            final(rng)@ == old(rng)@.after(self.draws()),
    {
        match *self {
            FlowSizeDist::Fixed(bytes) => {
                assert(rng@ =~= old(rng)@.after(self.draws()));
                bytes
            },
            FlowSizeDist::Uniform { min, max } => {
                if min >= max {
                    assert(rng@ =~= old(rng)@.after(self.draws()));
                    min
                } else {
                    let bytes: u64 = rng.draw_u64(min, max);
                    assert(rng@ =~= old(rng)@.after(self.draws()));
                    bytes
                }
            },
        }
    }

    /// Draws `n` sizes.
    pub fn sample_many(&self, rng: &mut SeededRng, n: usize) -> (sizes: Vec<u64>)
        ensures
            sizes@ == self.sizes(old(rng)@, n as nat),
            forall|i: int| 0 <= i < sizes@.len() ==> self.admits(#[trigger] sizes@[i]),
            final(rng)@ == self.after(old(rng)@, n as nat),
    {
        let mut sizes: Vec<u64> = Vec::new();
        let mut i: usize = 0;
        while i < n
            invariant
                i <= n,
                rng@ == self.after(old(rng)@, i as nat),
                sizes@ =~= self.sizes(old(rng)@, i as nat),
                forall|k: int| 0 <= k < sizes@.len() ==> self.admits(#[trigger] sizes@[k]),
            decreases n - i,
        {
            let bytes: u64 = self.sample(rng);
            sizes.push(bytes);
            i = i + 1;
        }
        sizes
    }
}

/// When the flows start.
#[derive(Debug, Clone, Copy)]
pub enum ArrivalProcess {
    /// All at the same time.
    Simultaneous(u64),
    /// One after the other, from `start` on, at a fixed interval.
    FixedInterval { start: u64, interval_ns: u64 },
    /// One after the other, from `start` on, at gaps of a mean length.
    Poisson { start: u64, mean_interval_ns: u64 },
}

/// The start of flow `i` when the flows start one after the other, with a gap of at least a
/// nanosecond behind each.
pub open spec fn start_after_gaps(start: u64, gaps: Seq<u64>, i: nat) -> u64
    decreases i,
{
    if i == 0 {
        start
    } else {
        let gap = gaps[i - 1];
        start_after_gaps(start, gaps, (i - 1) as nat).saturating_add(
            if gap > 1 {
                gap
            } else {
                1
            },
        )
    }
}

impl ArrivalProcess {
    /// The times fit, and gaps are at hand where they are needed.
    pub open spec fn fits(self, n: nat, gaps: Seq<u64>) -> bool {
        match self {
            ArrivalProcess::Simultaneous(_) => true,
            ArrivalProcess::FixedInterval { start, interval_ns } => n > 0 ==> start + (n - 1)
                * interval_ns <= u64::MAX,
            ArrivalProcess::Poisson { .. } => n <= gaps.len() + 1,
        }
    }

    /// The start of flow `i`.
    pub open spec fn start(self, gaps: Seq<u64>, i: int) -> u64 {
        match self {
            ArrivalProcess::Simultaneous(t) => t,
            ArrivalProcess::FixedInterval { start, interval_ns } => (start + i
                * interval_ns) as u64,
            ArrivalProcess::Poisson { start, .. } => start_after_gaps(start, gaps, i as nat),
        }
    }

    /// The times at which `n` flows start. The gaps are those that were drawn for a Poisson
    /// process.
    pub fn sample(&self, n: usize, gaps: &Vec<u64>) -> (times: Vec<u64>)
        requires
            self.fits(n as nat, gaps@),
        ensures
            times@ == Seq::new(n as nat, |i: int| self.start(gaps@, i)),
    {
        let mut times: Vec<u64> = Vec::new();
        let mut last: u64 = 0;
        let mut i: usize = 0;
        while i < n
            invariant
                i <= n,
                self.fits(n as nat, gaps@),
                i > 0 ==> last == self.start(gaps@, i - 1),
                times@ =~= Seq::new(i as nat, |k: int| self.start(gaps@, k)),
            decreases n - i,
        {
            let t: u64 = match *self {
                ArrivalProcess::Simultaneous(t) => t,
                ArrivalProcess::FixedInterval { start, interval_ns } => {
                    proof {
                        assert(0 <= i * interval_ns <= (n - 1) * interval_ns) by (nonlinear_arith)
                            requires
                                0 <= i <= n - 1,
                                0 <= interval_ns,
                        ;
                    }
                    start + i as u64 * interval_ns
                },
                ArrivalProcess::Poisson { start, .. } => {
                    if i == 0 {
                        start
                    } else {
                        let gap: u64 = gaps[i - 1];
                        last.saturating_add(
                            if gap > 1 {
                                gap
                            } else {
                                1
                            },
                        )
                    }
                },
            };
            times.push(t);
            last = t;
            i = i + 1;
        }
        times
    }
}

/// The flows start in order.
pub proof fn law_arrivals_in_order(a: ArrivalProcess, n: nat, gaps: Seq<u64>, i: int, j: int)
    requires
        a.fits(n, gaps),
        0 <= i <= j < n,
    ensures
        a.start(gaps, i) <= a.start(gaps, j),
        i == 0 ==> match a {
            ArrivalProcess::Simultaneous(t) => a.start(gaps, i) == t,
            ArrivalProcess::FixedInterval { start, .. } => a.start(gaps, i) == start,
            ArrivalProcess::Poisson { start, .. } => a.start(gaps, i) == start,
        },
    decreases j - i,
{
    match a {
        ArrivalProcess::FixedInterval { start, interval_ns } => {
            assert(0 <= i * interval_ns <= j * interval_ns <= (n - 1) * interval_ns)
                by (nonlinear_arith)
                requires
                    0 <= i <= j <= n - 1,
                    0 <= interval_ns,
            ;
            if i == 0 {
                assert(i * interval_ns == 0) by (nonlinear_arith)
                    requires
                        i == 0,
                ;
            }
        },
        _ => {
            if i < j {
                law_arrivals_in_order(a, n, gaps, i, j - 1);
            }
        },
    }
}

/// Which nodes send to which.
#[derive(Debug, Clone)]
pub enum PairPattern {
    /// Every node to every other.
    AllToAll,
    /// Every node to one other node, no two to the same.
    Permutation,
    /// A number of random pairs.
    RandomPairs(u64),
    /// Pairs that are given.
    Custom(Vec<(EntityId, EntityId)>),
}

/// The first node from position `from` on that is not `src`.
pub open spec fn first_other(nodes: Seq<EntityId>, src: EntityId, from: int) -> EntityId
    decreases nodes.len() - from,
{
    if from < 0 || from >= nodes.len() {
        src
    } else if nodes[from] != src {
        nodes[from]
    } else {
        first_other(nodes, src, from + 1)
    }
}

/// The generator after one node was drawn.
pub open spec fn after_node(rng: RngView, nodes: Seq<EntityId>) -> RngView {
    rng.then_draws(true, 0, (nodes.len() - 1) as u64)
}

/// The node that a generator draws.
pub open spec fn drawn_node(rng: RngView, nodes: Seq<EntityId>) -> EntityId {
    nodes[pcg64_draw(rng.seed, after_node(rng, nodes).draws) as int]
}

/// The first node other than `src` that a generator draws, and the generator afterwards. After
/// `redraws` further draws in vain it is the first other node of the list.
pub open spec fn drawn_other(
    rng: RngView,
    nodes: Seq<EntityId>,
    src: EntityId,
    redraws: nat,
) -> (EntityId, RngView)
    decreases redraws,
{
    let dst = drawn_node(rng, nodes);
    if dst != src {
        (dst, after_node(rng, nodes))
    } else if redraws == 0 {
        (first_other(nodes, src, 0), after_node(rng, nodes))
    } else {
        drawn_other(after_node(rng, nodes), nodes, src, (redraws - 1) as nat)
    }
}

/// The first `count` pairs that a generator draws, and the generator afterwards.
pub open spec fn drawn_pairs(rng: RngView, nodes: Seq<EntityId>, count: nat) -> (
    Seq<(EntityId, EntityId)>,
    RngView,
)
    decreases count,
{
    if count == 0 {
        (Seq::empty(), rng)
    } else {
        let (pairs, before) = drawn_pairs(rng, nodes, (count - 1) as nat);
        let src = drawn_node(before, nodes);
        let (dst, after) = drawn_other(
            after_node(before, nodes),
            nodes,
            src,
            MAX_REDRAWS as nat,
        );
        (pairs.push((src, dst)), after)
    }
}

impl PairPattern {
    /// Pairs can be drawn: there are two different nodes, and the nodes can be numbered.
    pub open spec fn fits(self, nodes: Seq<EntityId>) -> bool {
        match self {
            PairPattern::RandomPairs(count) => count > 0 && nodes.len() >= 2 ==> {
                &&& nodes.len() <= u32::MAX
                &&& exists|i: int| 0 <= i < nodes.len() && #[trigger] nodes[i] != nodes[0]
            },
            _ => true,
        }
    }

    /// The pairs that come up, and the generator afterwards.
    pub open spec fn pairs(self, nodes: Seq<EntityId>, rng: RngView) -> (
        Seq<(EntityId, EntityId)>,
        RngView,
    ) {
        match self {
            PairPattern::AllToAll => (ordered_pairs(nodes), rng),
            PairPattern::Permutation => if nodes.len() < 2 {
                (Seq::empty(), rng)
            } else {
                let to = drawn_permutation(nodes.len(), rng, MAX_PAIR_SHUFFLES as nat);
                (
                    Seq::new(nodes.len(), |i: int| (nodes[i], nodes[to[i] as int])),
                    shuffled_until_moved(
                        identity(nodes.len()),
                        rng,
                        MAX_PAIR_SHUFFLES as nat,
                    ).1,
                )
            },
            PairPattern::RandomPairs(count) => if nodes.len() < 2 {
                (Seq::empty(), rng)
            } else {
                drawn_pairs(rng, nodes, count as nat)
            },
            PairPattern::Custom(pairs) => (pairs@, rng),
        }
    }

    /// The pairs. No node of a list without repetition sends to itself, unless the pairs are
    /// given.
    pub fn generate(&self, nodes: &[EntityId], rng: &mut SeededRng) -> (pairs: Vec<
        (EntityId, EntityId),
    >)
        requires
            self.fits(nodes@),
        ensures
            pairs@ == self.pairs(nodes@, old(rng)@).0,
            final(rng)@ == self.pairs(nodes@, old(rng)@).1,
            !(self is Custom) && nodes@.no_duplicates() ==> forall|i: int|
                0 <= i < pairs@.len() ==> (#[trigger] pairs@[i]).0 != pairs@[i].1 && nodes@.contains(
                    pairs@[i].0,
                ) && nodes@.contains(pairs@[i].1),
            self is RandomPairs && nodes@.len() >= 2 ==> pairs@.len() == self->RandomPairs_0,
            self is Permutation && nodes@.len() >= 2 ==> pairs@.len() == nodes@.len(),
            self is Permutation && nodes@.no_duplicates() ==> forall|i: int, j: int|
                0 <= i < j < pairs@.len() ==> (#[trigger] pairs@[i]).0 != (#[trigger] pairs@[j]).0
                    && pairs@[i].1 != pairs@[j].1,
    {
        match self {
            PairPattern::AllToAll => {
                let pairs = list_pairs(nodes);
                proof {
                    lemma_pairs_differ(nodes@);
                }
                pairs
            },
            PairPattern::Permutation => permuted_pairs(nodes, rng),
            PairPattern::RandomPairs(count) => random_pairs(nodes, *count, rng),
            PairPattern::Custom(given) => {
                let mut pairs: Vec<(EntityId, EntityId)> = Vec::new();
                let mut i: usize = 0;
                while i < given.len()
                    invariant
                        i <= given@.len(),
                        pairs@ =~= given@.take(i as int),
                    decreases given@.len() - i,
                {
                    pairs.push(given[i]);
                    i = i + 1;
                }
                assert(pairs@ =~= given@);
                pairs
            },
        }
    }
}

proof fn lemma_pairs_differ(nodes: Seq<EntityId>)
    ensures
        forall|i: int|
            0 <= i < ordered_pairs(nodes).len() ==> (#[trigger] ordered_pairs(nodes)[i]).0
                != ordered_pairs(nodes)[i].1 && nodes.contains(ordered_pairs(nodes)[i].0)
                && nodes.contains(ordered_pairs(nodes)[i].1),
{
    let differ = |p: (EntityId, EntityId)| p.0 != p.1;
    let all = super::all_to_all::grid(nodes);
    let n = nodes.len() as int;
    assert forall|i: int| 0 <= i < ordered_pairs(nodes).len() implies (
    #[trigger] ordered_pairs(nodes)[i]).0 != ordered_pairs(nodes)[i].1 && nodes.contains(
        ordered_pairs(nodes)[i].0,
    ) && nodes.contains(ordered_pairs(nodes)[i].1) by {
        all.lemma_filter_pred(differ, i);
        let p = ordered_pairs(nodes)[i];
        assert(ordered_pairs(nodes).contains(p));
        all.lemma_filter_contains_rev(differ, p);
        let k = all.index_of(p);
        assert(all[k] == p);
        assert(0 <= k < n * n);
        crate::topology::lemma_flat_parts(k, n, n);
        assert(nodes[k / n] == p.0 && nodes[k % n] == p.1);
    }
}

fn permuted_pairs(nodes: &[EntityId], rng: &mut SeededRng) -> (pairs: Vec<(EntityId, EntityId)>)
    ensures
        (pairs@, final(rng)@) == PairPattern::Permutation.pairs(nodes@, old(rng)@),
        nodes@.no_duplicates() ==> forall|i: int|
            0 <= i < pairs@.len() ==> (#[trigger] pairs@[i]).0 != pairs@[i].1 && nodes@.contains(
                pairs@[i].0,
            ) && nodes@.contains(pairs@[i].1),
        nodes@.len() >= 2 ==> pairs@.len() == nodes@.len(),
        nodes@.no_duplicates() ==> forall|i: int, j: int|
            0 <= i < j < pairs@.len() ==> (#[trigger] pairs@[i]).0 != (#[trigger] pairs@[j]).0
                && pairs@[i].1 != pairs@[j].1,
{
    let n: usize = nodes.len();
    let mut pairs: Vec<(EntityId, EntityId)> = Vec::new();
    if n < 2 {
        assert(pairs@ =~= Seq::empty());
        return pairs;
    }
    let to = draw_permutation(rng, n, MAX_PAIR_SHUFFLES);
    let mut i: usize = 0;
    while i < n
        invariant
            i <= n,
            n == nodes@.len(),
            to@.len() == n,
            forall|k: int| 0 <= k < n ==> (#[trigger] to@[k]) < n,
            pairs@ =~= Seq::new(i as nat, |k: int| (nodes@[k], nodes@[to@[k] as int])),
        decreases n - i,
    {
        assert(to@[i as int] < n);
        pairs.push((nodes[i], nodes[to[i]]));
        i = i + 1;
    }
    proof {
        if nodes@.no_duplicates() {
            assert forall|i: int| 0 <= i < pairs@.len() implies (#[trigger] pairs@[i]).0
                != pairs@[i].1 by {
                assert(to@[i] != i);
            }
            assert forall|i: int, j: int| 0 <= i < j < pairs@.len() implies (#[trigger] pairs@[i]).0
                != (#[trigger] pairs@[j]).0 && pairs@[i].1 != pairs@[j].1 by {
                assert(to@[i] != to@[j]);
            }
        }
    }
    pairs
}

fn draw_node(nodes: &[EntityId], rng: &mut SeededRng) -> (node: EntityId)
    requires
        2 <= nodes@.len() <= u32::MAX,
    ensures
        node == drawn_node(old(rng)@, nodes@),
        nodes@.contains(node),
        final(rng)@ == after_node(old(rng)@, nodes@),
{
    let n: usize = nodes.len();
    let at: u32 = rng.draw_u32(0, (n - 1) as u32);
    assert(nodes@[at as int] == nodes@[at as int]);
    nodes[at as usize]
}

fn draw_other(nodes: &[EntityId], src: EntityId, rng: &mut SeededRng) -> (dst: EntityId)
    requires
        2 <= nodes@.len() <= u32::MAX,
        exists|i: int| 0 <= i < nodes@.len() && #[trigger] nodes@[i] != src,
    ensures
        (dst, final(rng)@) == drawn_other(old(rng)@, nodes@, src, MAX_REDRAWS as nat),
        nodes@.contains(dst),
        dst != src,
{
    let mut dst: EntityId = draw_node(nodes, rng);
    let mut redraws: u64 = MAX_REDRAWS;
    let ghost mut before = old(rng)@;
    while dst == src && redraws > 0
        invariant
            2 <= nodes@.len() <= u32::MAX,
            nodes@.contains(dst),
            dst == drawn_node(before, nodes@),
            rng@ == after_node(before, nodes@),
            drawn_other(old(rng)@, nodes@, src, MAX_REDRAWS as nat) == drawn_other(
                before,
                nodes@,
                src,
                redraws as nat,
            ),
        decreases redraws,
    {
        proof {
            before = rng@;
        }
        dst = draw_node(nodes, rng);
        redraws = redraws - 1;
    }
    if dst == src {
        let mut i: usize = 0;
        while i < nodes.len() && nodes[i] == src
            invariant
                i <= nodes@.len(),
                forall|k: int| 0 <= k < i ==> #[trigger] nodes@[k] == src,
                first_other(nodes@, src, 0) == first_other(nodes@, src, i as int),
            decreases nodes@.len() - i,
        {
            i = i + 1;
        }
        assert(nodes@[i as int] != src);
        dst = nodes[i];
    }
    dst
}

fn random_pairs(nodes: &[EntityId], count: u64, rng: &mut SeededRng) -> (pairs: Vec<
    (EntityId, EntityId),
>)
    requires
        PairPattern::RandomPairs(count).fits(nodes@),
    ensures
        (pairs@, final(rng)@) == PairPattern::RandomPairs(count).pairs(nodes@, old(rng)@),
        nodes@.len() >= 2 ==> pairs@.len() == count,
        forall|i: int|
            0 <= i < pairs@.len() ==> (#[trigger] pairs@[i]).0 != pairs@[i].1 && nodes@.contains(
                pairs@[i].0,
            ) && nodes@.contains(pairs@[i].1),
{
    let mut pairs: Vec<(EntityId, EntityId)> = Vec::new();
    assert(pairs@ =~= Seq::empty());
    if nodes.len() < 2 {
        return pairs;
    }
    let mut i: u64 = 0;
    while i < count
        invariant
            i <= count,
            nodes@.len() >= 2,
            PairPattern::RandomPairs(count).fits(nodes@),
            pairs@.len() == i,
            (pairs@, rng@) == drawn_pairs(old(rng)@, nodes@, i as nat),
            forall|k: int|
                0 <= k < pairs@.len() ==> (#[trigger] pairs@[k]).0 != pairs@[k].1 && nodes@.contains(
                    pairs@[k].0,
                ) && nodes@.contains(pairs@[k].1),
        decreases count - i,
    {
        let src: EntityId = draw_node(nodes, rng);
        proof {
            let other = choose|i: int| 0 <= i < nodes@.len() && #[trigger] nodes@[i] != nodes@[0];
            assert(nodes@[other] != src || nodes@[0] != src);
        }
        let dst: EntityId = draw_other(nodes, src, rng);
        pairs.push((src, dst));
        i = i + 1;
    }
    pairs
}

/// Synthetic traffic.
#[derive(Debug, Clone)]
pub struct Synthetic {
    pub nodes: Vec<EntityId>,
    pub pair_pattern: PairPattern,
    pub flow_size: FlowSizeDist,
    pub arrival: ArrivalProcess,
    pub seed: u64,
}

/// The flows with the given pairs, sizes and times.
pub open spec fn assembled(
    pairs: Seq<(EntityId, EntityId)>,
    sizes: Seq<u64>,
    times: Seq<u64>,
) -> Seq<FlowDesc> {
    Seq::new(
        pairs.len(),
        |i: int|
            FlowDesc {
                flow_id: (i % 0x1_0000_0000) as u32,
                src: pairs[i].0,
                dst: pairs[i].1,
                bytes: sizes[i],
                start_time_ns: times[i],
            },
    )
}

/// Puts flows together from their pairs, sizes and times.
pub fn assemble(
    pairs: &Vec<(EntityId, EntityId)>,
    sizes: &Vec<u64>,
    times: &Vec<u64>,
) -> (flows: Vec<FlowDesc>)
    requires
        sizes@.len() == pairs@.len(),
        times@.len() == pairs@.len(),
    ensures
        flows@ == assembled(pairs@, sizes@, times@),
{
    let mut flows: Vec<FlowDesc> = Vec::new();
    let n: usize = pairs.len();
    let mut i: usize = 0;
    while i < n
        invariant
            i <= n,
            n == pairs@.len(),
            sizes@.len() == n,
            times@.len() == n,
            flows@ =~= assembled(pairs@, sizes@, times@).take(i as int),
        decreases n - i,
    {
        let (src, dst) = pairs[i];
        let flow_id: u32 = low_u32(i);
        flows.push(FlowDesc { flow_id, src, dst, bytes: sizes[i], start_time_ns: times[i] });
        i = i + 1;
    }
    assert(flows@ =~= assembled(pairs@, sizes@, times@));
    flows
}

impl Synthetic {
    /// The pairs of the traffic.
    pub open spec fn pairs(self) -> Seq<(EntityId, EntityId)> {
        self.pair_pattern.pairs(self.nodes@, RngView::fresh(self.seed)).0
    }

    /// The sizes of the flows, which are drawn after the pairs.
    pub open spec fn sizes(self) -> Seq<u64> {
        self.flow_size.sizes(
            self.pair_pattern.pairs(self.nodes@, RngView::fresh(self.seed)).1,
            self.pairs().len(),
        )
    }

    /// The number of flows, where it does not depend on what is drawn.
    pub open spec fn flow_count(self) -> nat {
        match self.pair_pattern {
            PairPattern::AllToAll => ordered_pairs(self.nodes@).len(),
            PairPattern::Permutation => if self.nodes@.len() < 2 {
                0
            } else {
                self.nodes@.len()
            },
            PairPattern::RandomPairs(count) => if self.nodes@.len() < 2 {
                0
            } else {
                count as nat
            },
            PairPattern::Custom(pairs) => pairs@.len(),
        }
    }

    /// Draws the pairs and the sizes of the flows. The generator is handed back, so that further
    /// draws can follow.
    pub fn draw(&self) -> (drawn: (Vec<(EntityId, EntityId)>, Vec<u64>, SeededRng))
        requires
            self.pair_pattern.fits(self.nodes@),
        ensures
            drawn.0@ == self.pairs(),
            drawn.0@.len() == self.flow_count(),
            drawn.1@ == self.sizes(),
            drawn.1@.len() == drawn.0@.len(),
            drawn.2@ == self.flow_size.after(
                self.pair_pattern.pairs(self.nodes@, RngView::fresh(self.seed)).1,
                self.pairs().len(),
            ),
    {
        let mut rng = SeededRng::new(self.seed);
        let pairs = self.pair_pattern.generate(&self.nodes, &mut rng);
        let n: usize = pairs.len();
        let sizes = self.flow_size.sample_many(&mut rng, n);
        (pairs, sizes, rng)
    }

    /// The flows. The gaps of a Poisson process, which are not integers, are drawn elsewhere.
    pub fn generate(&self) -> (flows: Vec<FlowDesc>)
        requires
            self.pair_pattern.fits(self.nodes@),
            !(self.arrival is Poisson),
            self.arrival.fits(self.flow_count(), Seq::empty()),
        ensures
            flows@ == assembled(
                self.pairs(),
                self.sizes(),
                Seq::new(self.pairs().len(), |i: int| self.arrival.start(Seq::empty(), i)),
            ),
            flows@.len() == self.flow_count(),
    {
        let (pairs, sizes, rng) = self.draw();
        let n: usize = pairs.len();
        let gaps: Vec<u64> = Vec::new();
        assert(gaps@ =~= Seq::empty());
        let times = self.arrival.sample(n, &gaps);
        assemble(&pairs, &sizes, &times)
    }
}

} // verus!
