//! What holds of generated traffic.
use super::all_reduce::RingAllReduce;
use super::all_to_all::AllToAll;
use super::incast::Incast;
use super::permute::{Permutation, PermuteKind};
use super::synthetic::{ArrivalProcess, FlowSizeDist, PairPattern, Synthetic};
use super::FlowDesc;
use crate::EntityId;
use vstd::prelude::*;

verus! {

use super::all_to_all::{grid, ordered_pairs};
use super::mix::{flows_among, joined, mixes, numbered, reversed_weights, ComponentView};
use super::permute::{
    bit_reverse, bit_reversed, bits_needed, drawn_permutation, drawn_picks, exchanged,
    has_fixed_point, identity, picks_fit, rotated, shifted, shuffle_draws, shuffled,
    shuffled_until_moved, unfixed,
};
use super::rng::{pcg64_draw, RngView};
use super::synthetic::{assembled, drawn_pairs};
use crate::util::{comes_before, is_stable_order};

/// An incast has one flow for each sender, from there to the receiver, numbered from one on; all have the
/// same bytes and start at the same time.
pub proof fn law_incast_flows(inc: Incast, i: int)
    requires
        0 <= i < inc.senders@.len() < u32::MAX,
    ensures
        inc.flows().len() == inc.senders@.len(),
        inc.flows()[i].flow_id == i + 1,
        inc.flows()[i].src == inc.senders@[i],
        inc.flows()[i].dst == inc.receiver,
        inc.flows()[i].bytes == inc.bytes_per_sender,
        inc.flows()[i].start_time_ns == inc.start_time_ns,
{
}

/// An all-reduce of `n` nodes has `2 * (n - 1)` steps, a microsecond apart. In each of them every node
/// sends an `n`-th of the message to the next, round the ring; the flows are numbered from zero on.
pub proof fn law_ring_flows(r: RingAllReduce, step: int, i: int)
    requires
        r.fits(),
        r.nodes@.len() >= 2,
        0 <= step < 2 * (r.nodes@.len() - 1),
        0 <= i < r.nodes@.len(),
    ensures
        ({
            let n = r.nodes@.len() as int;
            let f = r.flows()[step * n + i];
            &&& r.flows().len() == 2 * (n - 1) * n
            &&& f.flow_id == step * n + i
            &&& f.src == r.nodes@[i]
            &&& f.dst == r.nodes@[if i + 1 < n {
                i + 1
            } else {
                0
            }]
            &&& f.bytes * n <= r.message_bytes < (f.bytes + 1) * n
            &&& f.start_time_ns == r.start_time_ns + step * 1000
        }),
{
    let n = r.nodes@.len() as int;
    let k = step * n + i;
    assert(0 <= step * n && step * n + n <= r.steps() * n) by (nonlinear_arith)
        requires
            0 <= step,
            step + 1 <= r.steps(),
            n >= 0,
    ;
    vstd::arithmetic::div_mod::lemma_fundamental_div_mod_converse(k, n, step, i);
    if i + 1 < n {
        vstd::arithmetic::div_mod::lemma_small_mod((i + 1) as nat, n as nat);
    } else {
        vstd::arithmetic::div_mod::lemma_mod_self_0(n);
    }
    let m = r.message_bytes as int;
    vstd::arithmetic::div_mod::lemma_fundamental_div_mod(m, n);
    let q = m / n;
    assert(0 <= q && q * n <= m && m < (q + 1) * n && q <= m) by (nonlinear_arith)
        requires
            m == n * q + m % n,
            0 <= m % n < n,
            q == m / n,
            m >= 0,
            n >= 2,
    ;
}

proof fn lemma_row(nodes: Seq<EntityId>, i: int, j: int)
    requires
        0 <= i < nodes.len(),
        0 <= j < nodes.len(),
    ensures
        ({
            let n = nodes.len() as int;
            &&& 0 <= i * n + j < n * n
            &&& grid(nodes)[i * n + j] == (nodes[i], nodes[j])
            &&& grid(nodes).len() == n * n
        }),
{
    let n = nodes.len() as int;
    vstd::arithmetic::div_mod::lemma_fundamental_div_mod_converse(i * n + j, n, i, j);
    assert(0 <= i * n && i * n + n <= n * n) by (nonlinear_arith)
        requires
            0 <= i,
            i + 1 <= n,
    ;
}

/// All-to-all traffic: every flow has the same bytes and starts at the same time, and the flows are numbered
/// from zero on.
pub proof fn law_all_to_all_flows(a: AllToAll, k: int)
    requires
        a.fits(),
        0 <= k < a.flows().len(),
    ensures
        a.flows()[k].flow_id == k,
        a.flows()[k].bytes == a.bytes_per_pair,
        a.flows()[k].start_time_ns == a.start_time_ns,
        a.nodes@.contains(a.flows()[k].src),
        a.nodes@.contains(a.flows()[k].dst),
        a.flows()[k].src != a.flows()[k].dst,
{
    let differ = |p: (EntityId, EntityId)| p.0 != p.1;
    let pairs = ordered_pairs(a.nodes@);
    let all = grid(a.nodes@);
    all.lemma_filter_pred(differ, k);
    assert(pairs.contains(pairs[k]));
    all.lemma_filter_contains_rev(differ, pairs[k]);
    let at = choose|at: int| 0 <= at < all.len() && all[at] == pairs[k];
    let n = a.nodes@.len() as int;
    assert(0 <= at / n < n && 0 <= at % n < n) by (nonlinear_arith)
        requires
            0 <= at < n * n,
            n >= 0,
    ;
    assert(a.nodes@[at / n] == pairs[k].0);
    assert(a.nodes@[at % n] == pairs[k].1);
}

/// The pairs of different nodes come by source and then by destination, as these are listed: a pair of
/// positions that comes before another is listed before it, if no node is listed twice.
pub proof fn law_pairs_in_order(nodes: Seq<EntityId>, i: int, j: int, k: int, l: int)
    requires
        nodes.no_duplicates(),
        0 <= i < nodes.len(),
        0 <= j < nodes.len(),
        0 <= k < nodes.len(),
        0 <= l < nodes.len(),
        i != j,
        k != l,
        i < k || (i == k && j < l),
    ensures
        ordered_pairs(nodes).contains((nodes[i], nodes[j])),
        ordered_pairs(nodes).contains((nodes[k], nodes[l])),
        ordered_pairs(nodes).index_of((nodes[i], nodes[j])) < ordered_pairs(nodes).index_of(
            (nodes[k], nodes[l]),
        ),
{
    let n = nodes.len() as int;
    let all = grid(nodes);
    let differ = |p: (EntityId, EntityId)| p.0 != p.1;
    lemma_row(nodes, i, j);
    lemma_row(nodes, k, l);
    let (x, y) = (i * n + j, k * n + l);
    assert(x < y) by (nonlinear_arith)
        requires
            x == i * n + j,
            y == k * n + l,
            i < k || (i == k && j < l),
            0 <= j < n,
            0 <= l < n,
            n > 0,
    ;
    all.lemma_filter_contains(differ, x);
    all.lemma_filter_contains(differ, y);
    assert forall|a: int, b: int| 0 <= a < b < all.len() implies all[a] != all[b] by {
        vstd::arithmetic::div_mod::lemma_fundamental_div_mod(a, n);
        vstd::arithmetic::div_mod::lemma_fundamental_div_mod(b, n);
        assert(0 <= a / n < n && 0 <= a % n < n && 0 <= b / n < n && 0 <= b % n < n)
            by (nonlinear_arith)
            requires
                0 <= a < b < n * n,
                n >= 0,
        ;
        if nodes[a / n] == nodes[b / n] && nodes[a % n] == nodes[b % n] {
            assert(a / n == b / n && a % n == b % n);
        }
    }
    lemma_filter_keeps_order(all, differ, x, y);
}

/// A pair that comes before another still does when some are left out.
proof fn lemma_filter_keeps_order(
    s: Seq<(EntityId, EntityId)>,
    keep: spec_fn((EntityId, EntityId)) -> bool,
    x: int,
    y: int,
)
    requires
        0 <= x < y < s.len(),
        keep(s[x]),
        keep(s[y]),
        forall|a: int, b: int| 0 <= a < b < s.len() ==> s[a] != s[b],
    ensures
        s.filter(keep).contains(s[x]),
        s.filter(keep).contains(s[y]),
        s.filter(keep).index_of(s[x]) < s.filter(keep).index_of(s[y]),
        s.filter(keep).no_duplicates(),
    decreases s.len(),
{
    reveal(Seq::filter);
    s.lemma_filter_contains(keep, x);
    s.lemma_filter_contains(keep, y);
    let less = s.drop_last();
    let before = less.filter(keep);
    let all = s.filter(keep);
    lemma_filter_distinct(s, keep);
    lemma_filter_distinct(less, keep);
    let (i, j) = (all.index_of(s[x]), all.index_of(s[y]));
    if y < s.len() - 1 {
        assert(less[x] == s[x] && less[y] == s[y]);
        assert forall|a: int, b: int| 0 <= a < b < less.len() implies less[a] != less[b] by {
            assert(s[a] != s[b]);
        }
        lemma_filter_keeps_order(less, keep, x, y);
        let (p, q) = (before.index_of(s[x]), before.index_of(s[y]));
        assert(all[p] == s[x] && all[q] == s[y]);
        assert(p == i && q == j);
    } else {
        less.lemma_filter_contains(keep, x);
        assert(less[x] == s[x]);
        assert(before.contains(s[x]));
        let p = before.index_of(s[x]);
        assert(all == before.push(s.last()));
        assert(all[p] == s[x]);
        assert(all[before.len() as int] == s[y]);
        assert(p == i && j == before.len());
    }
}

proof fn lemma_filter_distinct(
    s: Seq<(EntityId, EntityId)>,
    keep: spec_fn((EntityId, EntityId)) -> bool,
)
    requires
        forall|a: int, b: int| 0 <= a < b < s.len() ==> s[a] != s[b],
    ensures
        s.filter(keep).no_duplicates(),
    decreases s.len(),
{
    reveal(Seq::filter);
    if s.len() > 0 {
        let less = s.drop_last();
        assert forall|a: int, b: int| 0 <= a < b < less.len() implies less[a] != less[b] by {
            assert(s[a] != s[b]);
        }
        lemma_filter_distinct(less, keep);
        let before = less.filter(keep);
        assert(!before.contains(s.last())) by {
            if before.contains(s.last()) {
                less.lemma_filter_contains_rev(keep, s.last());
                let k = choose|k: int| 0 <= k < less.len() && less[k] == s.last();
                assert(s[k] != s[s.len() - 1]);
            }
        }
    }
}

/// Permutation traffic has one flow from every node, numbered from zero on, to the node that it is mapped
/// to; all have the same bytes and start at the same time.
pub proof fn law_permutation_flows(p: Permutation, to: Seq<usize>, i: int)
    requires
        0 <= i < p.nodes@.len() <= u32::MAX,
    ensures
        p.flows(to).len() == p.nodes@.len(),
        p.flows(to)[i].flow_id == i,
        p.flows(to)[i].src == p.nodes@[i],
        p.flows(to)[i].dst == p.nodes@[to[i] as int],
        p.flows(to)[i].bytes == p.bytes_per_flow,
        p.flows(to)[i].start_time_ns == p.start_time_ns,
{
}

/// A shift maps every node to the one so many places further on, round the end. A random permutation is
/// drawn from the seed, with up to 101 shuffles.
pub proof fn law_permutation_is_as_asked(p: Permutation, to: Seq<usize>)
    requires
        p.is_mapping(to),
        0 < p.nodes@.len() <= usize::MAX,
    ensures
        to.len() == p.nodes@.len() || p.kind is Random || p.kind is BitReversal,
        p.kind matches PermuteKind::Shift(shift) ==> forall|i: int|
            0 <= i < p.nodes@.len() ==> #[trigger] to[i] == (i + shift) % p.nodes@.len() as int,
        p.kind is Random ==> to == drawn_permutation(
            p.nodes@.len(),
            RngView { seed: p.seed, draws: Seq::empty() },
            101,
        ),
{
    if let PermuteKind::Shift(shift) = p.kind {
        let n = p.nodes@.len() as int;
        assert forall|i: int| 0 <= i < n implies #[trigger] to[i] == (i + shift) % n by {
            assert(0 <= (i + shift) % n < n) by (nonlinear_arith)
                requires
                    0 <= i + shift,
                    n > 0,
            ;
        }
    }
}

proof fn lemma_exchanges_leave_end(perm: Seq<usize>, picks: Seq<u64>, t: nat, u: nat, at: int)
    requires
        picks_fit(perm.len() as int, picks),
        t <= u <= picks.len(),
        perm.len() - t <= at < perm.len(),
    ensures
        exchanged(perm, picks, u)[at] == exchanged(perm, picks, t)[at],
        exchanged(perm, picks, u).len() == perm.len(),
    decreases u,
{
    lemma_exchanged_len(perm, picks, u);
    if t < u {
        lemma_exchanges_leave_end(perm, picks, t, (u - 1) as nat, at);
        lemma_exchanged_len(perm, picks, (u - 1) as nat);
        assert(picks[u - 1] <= perm.len() - 1 - (u - 1));
    }
}

proof fn lemma_exchanged_len(perm: Seq<usize>, picks: Seq<u64>, t: nat)
    requires
        picks_fit(perm.len() as int, picks),
        t <= picks.len(),
    ensures
        exchanged(perm, picks, t).len() == perm.len(),
    decreases t,
{
    if t > 0 {
        lemma_exchanged_len(perm, picks, (t - 1) as nat);
        assert(picks[t - 1] <= perm.len() - 1 - (t - 1));
    }
}

/// A shuffle fills the positions from the last down: pick number `t` says which of the elements that are
/// left, as the exchanges before it have put them, ends up in position `n - 1 - t`. The picks are drawn
/// evenly from as many positions as are left.
pub proof fn law_shuffle_fills_from_end(perm: Seq<usize>, picks: Seq<u64>, rng: RngView, t: int)
    requires
        picks_fit(perm.len() as int, picks),
        0 <= t < picks.len(),
        perm.len() <= u64::MAX,
    ensures
        shuffled(perm, picks)[perm.len() - 1 - t] == exchanged(perm, picks, t as nat)[picks[t] as int],
        shuffle_draws(perm.len() as int).len() == perm.len() - 1,
        shuffle_draws(perm.len() as int)[t] == (false, 0u64, (perm.len() - 1 - t) as u64),
        drawn_picks(rng, perm.len() as int).len() == perm.len() - 1,
        drawn_picks(rng, perm.len() as int)[t] == pcg64_draw(
            rng.seed,
            rng.draws + Seq::new((t + 1) as nat, |k: int| (false, 0u64, (perm.len() - 1 - k) as u64)),
        ),
{
    let at = perm.len() - 1 - t;
    lemma_exchanged_len(perm, picks, t as nat);
    lemma_exchanges_leave_end(perm, picks, (t + 1) as nat, picks.len(), at);
    assert(picks[t] <= at);
    assert(shuffle_draws(perm.len() as int).take(t + 1) =~= Seq::new(
        (t + 1) as nat,
        |k: int| (false, 0u64, (perm.len() - 1 - k) as u64),
    ));
}

/// A drawn permutation is the first shuffle in which nothing stays in its place: the next shuffle goes on
/// from the one before. Where the shuffles run out, everything is moved by one place.
pub proof fn law_permutation_is_drawn(perm: Seq<usize>, rng: RngView, tries: nat)
    ensures
        ({
            let n = perm.len() as int;
            let next = shuffled(perm, drawn_picks(rng, n));
            let after = RngView { draws: rng.draws + shuffle_draws(n), ..rng };
            &&& tries > 0 && !has_fixed_point(next) ==> shuffled_until_moved(perm, rng, tries) == (
                next,
                after,
            )
            &&& tries > 0 && has_fixed_point(next) ==> shuffled_until_moved(perm, rng, tries)
                == shuffled_until_moved(next, after, (tries - 1) as nat)
            &&& tries == 0 ==> shuffled_until_moved(perm, rng, tries) == (perm, rng)
            &&& !has_fixed_point(perm) ==> unfixed(perm) == perm
            &&& drawn_permutation(perm.len(), rng, tries) == unfixed(
                shuffled_until_moved(Seq::new(perm.len(), |i: int| i as usize), rng, tries).0,
            )
        }),
        forall|i: int|
            0 <= i < perm.len() ==> #[trigger] rotated(perm)[i] == perm[if i + 1 < perm.len() {
                i + 1
            } else {
                0
            }],
{
}

/// A fixed size needs no draw; a size between two bounds takes one draw of 64 bits between them, and the
/// lower bound is the size where the bounds do not differ. Each size follows from the draws before it.
pub proof fn law_sizes_are_drawn(d: FlowSizeDist, rng: RngView, n: nat, i: int)
    requires
        0 <= i < n,
    ensures
        d.sizes(rng, n).len() == n,
        d matches FlowSizeDist::Fixed(bytes) ==> d.sizes(rng, n)[i] == bytes && d.after(rng, n) == rng,
        d matches FlowSizeDist::Uniform { min, max } ==> {
            &&& min >= max ==> d.sizes(rng, n)[i] == min && d.after(rng, n) == rng
            &&& min < max ==> {
                &&& d.sizes(rng, n)[i] == pcg64_draw(
                    rng.seed,
                    rng.draws + Seq::new((i + 1) as nat, |k: int| (false, min, max)),
                )
                &&& d.after(rng, n).seed == rng.seed
                &&& d.after(rng, n).draws == rng.draws + Seq::new(n, |k: int| (false, min, max))
            }
        },
{
    lemma_sizes_after(d, rng, i as nat);
    lemma_sizes_after(d, rng, n);
    if let FlowSizeDist::Uniform { min, max } = d {
        if min < max {
            assert((rng.draws + Seq::new(i as nat, |k: int| (false, min, max))).push(
                (false, min, max),
            ) =~= rng.draws + Seq::new((i + 1) as nat, |k: int| (false, min, max)));
        }
    }
}

proof fn lemma_sizes_after(d: FlowSizeDist, rng: RngView, n: nat)
    ensures
        match d {
            FlowSizeDist::Uniform { min, max } if min < max => d.after(rng, n) == (RngView {
                draws: rng.draws + Seq::new(n, |k: int| (false, min, max)),
                ..rng
            }),
            _ => d.after(rng, n) == rng,
        },
    decreases n,
{
    if n > 0 {
        lemma_sizes_after(d, rng, (n - 1) as nat);
        let before = d.after(rng, (n - 1) as nat);
        if let FlowSizeDist::Uniform { min, max } = d {
            if min < max {
                assert(before.draws + seq![(false, min, max)] =~= rng.draws + Seq::new(
                    n,
                    |k: int| (false, min, max),
                ));
            } else {
                assert(before.draws + Seq::<(bool, u64, u64)>::empty() =~= before.draws);
            }
        } else {
            assert(before.draws + Seq::<(bool, u64, u64)>::empty() =~= before.draws);
        }
    } else {
        if let FlowSizeDist::Uniform { min, max } = d {
            assert(rng.draws + Seq::new(0, |k: int| (false, min, max)) =~= rng.draws);
        }
    }
}

/// Flows start together, or a fixed interval apart, or each after the one before it by its gap, which
/// counts for at least a nanosecond.
pub proof fn law_arrival_times(a: ArrivalProcess, n: nat, gaps: Seq<u64>, i: int)
    requires
        a.fits(n, gaps),
        0 <= i < n,
    ensures
        a matches ArrivalProcess::Simultaneous(t) ==> a.start(gaps, i) == t,
        a matches ArrivalProcess::FixedInterval { start, interval_ns } ==> a.start(gaps, i) == start + i
            * interval_ns,
        a matches ArrivalProcess::Poisson { start, .. } ==> {
            &&& i == 0 ==> a.start(gaps, i) == start
            &&& i > 0 ==> {
                let gap = if gaps[i - 1] > 1 {
                    gaps[i - 1]
                } else {
                    1
                };
                a.start(gaps, i) == if a.start(gaps, i - 1) + gap > u64::MAX {
                    u64::MAX as int
                } else {
                    a.start(gaps, i - 1) + gap
                }
            }
        },
{
    if let ArrivalProcess::FixedInterval { start, interval_ns } = a {
        assert(0 <= i * interval_ns <= (n - 1) * interval_ns) by (nonlinear_arith)
            requires
                0 <= i <= n - 1,
                0 <= interval_ns,
        ;
    }
}

/// Random pairs are drawn one after the other: the source from all nodes, and then the destination, which is
/// drawn again for as long as it is the source.
pub proof fn law_random_pairs_are_drawn(rng: RngView, nodes: Seq<EntityId>, k: nat)
    ensures
        ({
            let n = (nodes.len() - 1) as u64;
            let (pairs, r) = drawn_pairs(rng, nodes, k);
            let (more, s) = drawn_pairs(rng, nodes, (k + 1) as nat);
            let one = r.draws.push((true, 0u64, n));
            let two = one.push((true, 0u64, n));
            let three = two.push((true, 0u64, n));
            let src = nodes[pcg64_draw(r.seed, one) as int];
            let dst = nodes[pcg64_draw(r.seed, two) as int];
            let next = nodes[pcg64_draw(r.seed, three) as int];
            &&& k == 0 ==> pairs.len() == 0 && r == rng
            &&& more.len() == pairs.len() + 1
            &&& more.drop_last() =~= pairs
            &&& more.last().0 == src
            &&& dst != src ==> more.last().1 == dst && s == (RngView { seed: r.seed, draws: two })
            &&& dst == src && next != src ==> more.last().1 == next && s == (RngView {
                seed: r.seed,
                draws: three,
            })
        }),
{
    reveal_with_fuel(super::synthetic::drawn_other, 3);
    reveal_with_fuel(drawn_pairs, 2);
}

/// The pairs are all pairs of different nodes, or those that are given, neither of which needs a draw; or
/// the nodes and what a permutation maps them to, with up to 100 shuffles; or random pairs. Fewer than two
/// nodes have no random pair and no permutation.
pub proof fn law_pair_patterns(p: PairPattern, nodes: Seq<EntityId>, rng: RngView)
    ensures
        p is AllToAll ==> p.pairs(nodes, rng) == (ordered_pairs(nodes), rng),
        p matches PairPattern::Custom(pairs) ==> p.pairs(nodes, rng) == (pairs@, rng),
        p matches PairPattern::RandomPairs(count) ==> p.pairs(nodes, rng) == if nodes.len() < 2 {
            (Seq::<(EntityId, EntityId)>::empty(), rng)
        } else {
            drawn_pairs(rng, nodes, count as nat)
        },
        p is Permutation && nodes.len() < 2 ==> p.pairs(nodes, rng) == (
            Seq::<(EntityId, EntityId)>::empty(),
            rng,
        ),
        p is Permutation && nodes.len() >= 2 ==> {
            let (pairs, after) = p.pairs(nodes, rng);
            let to = drawn_permutation(nodes.len(), rng, 100);
            &&& pairs.len() == nodes.len()
            &&& forall|i: int|
                0 <= i < nodes.len() ==> #[trigger] pairs[i] == (nodes[i], nodes[to[i] as int])
            &&& after == shuffled_until_moved(identity(nodes.len()), rng, 100).1
        },
{
}

/// A flow is put together from its pair, its size and its time, and has its position as its number.
pub proof fn law_flows_are_assembled(
    pairs: Seq<(EntityId, EntityId)>,
    sizes: Seq<u64>,
    times: Seq<u64>,
    i: int,
)
    requires
        0 <= i < pairs.len() <= u32::MAX,
    ensures
        assembled(pairs, sizes, times).len() == pairs.len(),
        assembled(pairs, sizes, times)[i] == (FlowDesc {
            flow_id: i as u32,
            src: pairs[i].0,
            dst: pairs[i].1,
            bytes: sizes[i],
            start_time_ns: times[i],
        }),
{
}

/// Synthetic traffic draws from its seed first the pairs and then, from there on, one size for each.
pub proof fn law_synthetic_draws(s: Synthetic)
    ensures
        ({
            let fresh = RngView { seed: s.seed, draws: Seq::empty() };
            let (pairs, after) = s.pair_pattern.pairs(s.nodes@, fresh);
            &&& s.pairs() == pairs
            &&& s.sizes() == s.flow_size.sizes(after, pairs.len())
        }),
{
}

proof fn lemma_joined_at(parts: Seq<ComponentView>, order: Seq<usize>, n: int, a: int, j: int)
    requires
        0 <= a < n <= order.len(),
        0 <= j < parts[order[a] as int].flows.len(),
    ensures
        ({
            let at = flows_among(parts, order, a) + j;
            &&& 0 <= at < joined(parts, order, n).len()
            &&& joined(parts, order, n)[at] == parts[order[a] as int].flows[j]
            &&& joined(parts, order, n).len() == flows_among(parts, order, n)
            &&& flows_among(parts, order, a) >= 0
        }),
    decreases n,
{
    super::mix::lemma_joined_len(parts, order, n);
    super::mix::lemma_joined_len(parts, order, n - 1);
    super::mix::lemma_among_grows(parts, order, a, n - 1);
    if a < n - 1 {
        lemma_joined_at(parts, order, n - 1, a, j);
    }
}

/// `flows` are the lists at the positions `order`, one after the other: those with more weight first and
/// those of equal weight in their given order. Every flow of every list is there, as it was but for its
/// number, which is its position.
pub open spec fn laid_out(
    parts: Seq<ComponentView>,
    flows: Seq<FlowDesc>,
    order: Seq<usize>,
) -> bool {
    &&& order.len() == parts.len()
    &&& forall|a: int| 0 <= a < order.len() ==> (#[trigger] order[a]) < parts.len()
    &&& forall|a: int, b: int|
        0 <= a < b < order.len() ==> parts[(#[trigger] order[a]) as int].weight > parts[(
        #[trigger] order[b]) as int].weight || (parts[order[a] as int].weight
            == parts[order[b] as int].weight && order[a] < order[b])
    &&& flows.len() == flows_among(parts, order, parts.len() as int)
    &&& forall|a: int, j: int|
        0 <= a < order.len() && 0 <= j < parts[order[a] as int].flows.len() ==> #[trigger] placed(
            parts,
            flows,
            order,
            a,
            j,
        )
}

/// Flow `j` of the list that comes at place `a` stands behind all flows of the lists before it.
pub open spec fn placed(
    parts: Seq<ComponentView>,
    flows: Seq<FlowDesc>,
    order: Seq<usize>,
    a: int,
    j: int,
) -> bool {
    let at = flows_among(parts, order, a) + j;
    &&& 0 <= at < flows.len()
    &&& flows[at] == (FlowDesc { flow_id: at as u32, ..parts[order[a] as int].flows[j] })
}

/// A mix holds the lists one after the other, by falling weight, with the flows numbered anew.
pub proof fn law_mix_is_in_order(parts: Seq<ComponentView>, flows: Seq<FlowDesc>)
    requires
        mixes(parts, flows),
        flows.len() <= u32::MAX,
    ensures
        exists|order: Seq<usize>| #[trigger] laid_out(parts, flows, order),
{
    let n = parts.len() as int;
    let order = choose|order: Seq<usize>|
        #[trigger] is_stable_order(reversed_weights(parts), order) && flows == numbered(
            joined(parts, order, n),
        );
    let keys = reversed_weights(parts);
    super::mix::lemma_joined_len(parts, order, n);
    assert forall|a: int, b: int|
        0 <= a < b < order.len() implies parts[(#[trigger] order[a]) as int].weight > parts[(
    #[trigger] order[b]) as int].weight || (parts[order[a] as int].weight
        == parts[order[b] as int].weight && order[a] < order[b]) by {
        assert(comes_before(keys, order[a] as int, order[b] as int));
    }
    assert forall|a: int, j: int|
        0 <= a < order.len() && 0 <= j < parts[order[a] as int].flows.len() implies #[trigger] placed(
        parts,
        flows,
        order,
        a,
        j,
    ) by {
        lemma_joined_at(parts, order, n, a, j);
    }
    assert(laid_out(parts, flows, order));
}

/// Where position `i` of `n` leads when its `bits` bits are reversed: to the next position if there is no
/// position with the bits in reverse.
pub open spec fn reversal(n: int, bits: nat, i: int) -> int {
    let r = bit_reverse(i as nat, bits) as int;
    if r < n {
        r
    } else {
        round_next(n, i)
    }
}

/// `to` comes from the reversal of `bits` bits, the fewest that tell the positions apart: since position zero
/// leads to itself, everything is moved by one place. If a position leads to itself even then, every
/// position leads to the next.
pub open spec fn reverses(to: Seq<usize>, n: int, bits: nat) -> bool {
    &&& n <= vstd::arithmetic::power2::pow2(bits)
    &&& bits > 0 ==> vstd::arithmetic::power2::pow2((bits - 1) as nat) < n
    &&& to.len() == n
    &&& (forall|i: int| 0 <= i < n ==> #[trigger] moved(n, bits, i) != i) ==> forall|i: int|
        0 <= i < n ==> #[trigger] to[i] == moved(n, bits, i)
    &&& (exists|i: int| 0 <= i < n && #[trigger] moved(n, bits, i) == i) ==> forall|i: int|
        0 <= i < n ==> #[trigger] to[i] == round_next(n, i)
}

/// The position behind `i`, which is the first behind the last.
pub open spec fn round_next(n: int, i: int) -> int {
    if i + 1 < n {
        i + 1
    } else {
        0
    }
}

/// Where the position behind `i` leads when its bits are reversed.
pub open spec fn moved(n: int, bits: nat, i: int) -> int {
    reversal(n, bits, round_next(n, i))
}

proof fn lemma_zero_reversed(bits: nat)
    ensures
        bit_reverse(0, bits) == 0,
    decreases bits,
{
    if bits > 0 {
        lemma_zero_reversed((bits - 1) as nat);
    }
}

/// A bit reversal maps the nodes as the reversal of the fewest bits that tell them apart does, moved by one
/// place.
pub proof fn law_bit_reversal_mapping(p: Permutation, to: Seq<usize>)
    requires
        p.is_mapping(to),
        p.kind is BitReversal,
        0 < p.nodes@.len() <= usize::MAX,
    ensures
        exists|bits: nat| #[trigger] reverses(to, p.nodes@.len() as int, bits),
{
    let n = p.nodes@.len();
    let m = n as int;
    let bits = choose|bits: nat|
        #[trigger] bits_needed(m, bits) && to == unfixed(bit_reversed(n, bits));
    let q = bit_reversed(n, bits);
    lemma_zero_reversed(bits);
    assert forall|i: int| 0 <= i < n implies #[trigger] q[i] == reversal(m, bits, i) by {
        if i + 1 < m {
            vstd::arithmetic::div_mod::lemma_small_mod((i + 1) as nat, n);
        } else {
            vstd::arithmetic::div_mod::lemma_mod_self_0(m);
        }
    }
    assert(q[0] == 0);
    assert(has_fixed_point(q));
    let r = rotated(q);
    assert forall|i: int| 0 <= i < n implies #[trigger] r[i] == moved(m, bits, i) by {
        assert(q[round_next(m, i)] == reversal(m, bits, round_next(m, i)));
    }
    assert forall|i: int| 0 <= i < n implies #[trigger] shifted(n, 1)[i] == round_next(m, i) by {
        if i + 1 < m {
            vstd::arithmetic::div_mod::lemma_small_mod((i + 1) as nat, n);
        } else {
            vstd::arithmetic::div_mod::lemma_mod_self_0(m);
        }
    }
    if exists|i: int| 0 <= i < m && #[trigger] moved(m, bits, i) == i {
        let i = choose|i: int| 0 <= i < m && #[trigger] moved(m, bits, i) == i;
        assert(r[i] == i);
        assert(has_fixed_point(r));
    } else {
        assert(!has_fixed_point(r)) by {
            if has_fixed_point(r) {
                let i = choose|i: int| 0 <= i < r.len() && #[trigger] r[i] == i;
                assert(moved(m, bits, i) == i);
            }
        }
    }
    assert(reverses(to, m, bits));
}

} // verus!
