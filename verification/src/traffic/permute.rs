//! Permutation traffic: every node sends to one other node, so that no node is a hot spot.
use super::rng::SeededRng;
use super::FlowDesc;
use crate::util::{low_u32, swap_elements};
use crate::EntityId;
use vstd::prelude::*;

verus! {

use super::rng::{pcg64_draw, RngView};
use crate::util::swapped;
use vstd::arithmetic::power2::{lemma_pow2_unfold, pow2};

/// How often a permutation is drawn before a node that sends to itself is dealt with otherwise.
pub const MAX_SHUFFLES: u32 = 101;

/// How the permutation is made.
#[derive(Debug, Clone, Copy)]
pub enum PermuteKind {
    /// A random permutation in which no node sends to itself.
    Random,
    /// Every node sends to the node a number of places further on.
    Shift(u32),
    /// Every node sends to the node whose position has the bits in reverse.
    BitReversal,
}

/// Traffic in which every node sends to one node.
#[derive(Debug, Clone)]
pub struct Permutation {
    pub nodes: Vec<EntityId>,
    pub bytes_per_flow: u64,
    pub start_time_ns: u64,
    pub kind: PermuteKind,
    /// The seed of a random permutation.
    pub seed: u64,
}

/// Every position of `p` occurs in it exactly once.
pub open spec fn is_permutation(p: Seq<usize>) -> bool {
    &&& forall|i: int| 0 <= i < p.len() ==> (#[trigger] p[i]) < p.len()
    &&& p.no_duplicates()
}

/// Some position is its own image.
pub open spec fn has_fixed_point(p: Seq<usize>) -> bool {
    exists|i: int| 0 <= i < p.len() && #[trigger] p[i] == i
}

/// Every position is its own image.
pub open spec fn identity(n: nat) -> Seq<usize> {
    Seq::new(n, |i: int| i as usize)
}

/// Every position leads to the one `shift` places further on, round the end.
pub open spec fn shifted(n: nat, shift: int) -> Seq<usize> {
    Seq::new(n, |i: int| ((i + shift) % (n as int)) as usize)
}

/// The elements moved one place towards the front, the first to the end.
pub open spec fn rotated(p: Seq<usize>) -> Seq<usize> {
    Seq::new(p.len(), |i: int| p[if i + 1 < p.len() { i + 1 } else { 0 }])
}

/// Each pick names a position not behind the one that it is exchanged with, the last position
/// for the first pick, and so on down.
pub open spec fn picks_fit(n: int, picks: Seq<u64>) -> bool {
    &&& picks.len() == n - 1
    &&& forall|t: int| 0 <= t < picks.len() ==> (#[trigger] picks[t]) <= n - 1 - t
}

/// The permutation after the first `t` exchanges: from the last position down, each position is
/// exchanged with the one picked for it.
pub open spec fn exchanged(perm: Seq<usize>, picks: Seq<u64>, t: nat) -> Seq<usize>
    decreases t,
{
    if t == 0 {
        perm
    } else {
        swapped(exchanged(perm, picks, (t - 1) as nat), perm.len() - t, picks[t - 1] as int)
    }
}

/// The permutation shuffled by the picks.
pub open spec fn shuffled(perm: Seq<usize>, picks: Seq<u64>) -> Seq<usize> {
    exchanged(perm, picks, picks.len())
}

/// The draws of a shuffle of `n` elements.
pub open spec fn shuffle_draws(n: int) -> Seq<(bool, u64, u64)> {
    Seq::new((n - 1) as nat, |t: int| (false, 0u64, (n - 1 - t) as u64))
}

/// The picks that a generator draws for a shuffle of `n` elements.
pub open spec fn drawn_picks(rng: RngView, n: int) -> Seq<u64> {
    Seq::new(
        (n - 1) as nat,
        |t: int| pcg64_draw(rng.seed, rng.draws + shuffle_draws(n).take(t + 1)),
    )
}

/// The permutation and the generator after up to `tries` shuffles, of which the last is the
/// first that leaves no fixed point.
pub open spec fn shuffled_until_moved(perm: Seq<usize>, rng: RngView, tries: nat) -> (
    Seq<usize>,
    RngView,
)
    decreases tries,
{
    if tries == 0 {
        (perm, rng)
    } else {
        let n = perm.len() as int;
        let next = shuffled(perm, drawn_picks(rng, n));
        let after = rng.after(shuffle_draws(n));
        if has_fixed_point(next) {
            shuffled_until_moved(next, after, (tries - 1) as nat)
        } else {
            (next, after)
        }
    }
}

/// The permutation of `n` positions that a generator draws: the first shuffle without a fixed
/// point, or, where `tries` shuffles had one each, the last of them moved by a place.
pub open spec fn drawn_permutation(n: nat, rng: RngView, tries: nat) -> Seq<usize> {
    unfixed(shuffled_until_moved(identity(n), rng, tries).0)
}

/// The bits of `x`, of which there are `bits`, in reverse order, behind those of `front`.
pub open spec fn reverse_onto(x: nat, bits: nat, front: nat) -> nat
    decreases bits,
{
    if bits == 0 {
        front
    } else {
        reverse_onto(x / 2, (bits - 1) as nat, 2 * front + x % 2)
    }
}

/// The number whose `bits` bits are those of `x` in reverse order.
pub open spec fn bit_reverse(x: nat, bits: nat) -> nat {
    reverse_onto(x, bits, 0)
}

/// `bits` is the smallest number with which `n` positions can be told apart.
pub open spec fn bits_needed(n: int, bits: nat) -> bool {
    &&& n <= pow2(bits)
    &&& bits > 0 ==> pow2((bits - 1) as nat) < n
}

/// Every position leads to the one with its bits in reverse, or to the next one where there is no
/// such position.
pub open spec fn bit_reversed(n: nat, bits: nat) -> Seq<usize> {
    Seq::new(
        n,
        |i: int|
            {
                let r = bit_reverse(i as nat, bits);
                if r >= n {
                    ((i + 1) % (n as int)) as usize
                } else {
                    r as usize
                }
            },
    )
}

/// The elements, moved by one place if one of them was in its own position; and a shift by one
/// place where one is in its own position even then.
pub open spec fn unfixed(p: Seq<usize>) -> Seq<usize> {
    if !has_fixed_point(p) {
        p
    } else if !has_fixed_point(rotated(p)) {
        rotated(p)
    } else {
        shifted(p.len(), 1)
    }
}

/// `n` is a power of two.
pub open spec fn is_power_of_two(n: int) -> bool {
    exists|k: nat| #[trigger] pow2(k) == n
}

impl Permutation {
    /// `to` is the permutation that is asked for.
    pub open spec fn is_mapping(self, to: Seq<usize>) -> bool {
        let n = self.nodes@.len();
        match self.kind {
            PermuteKind::Random => to == drawn_permutation(
                n,
                RngView::fresh(self.seed),
                MAX_SHUFFLES as nat,
            ),
            PermuteKind::Shift(shift) => to == shifted(n, shift as int),
            PermuteKind::BitReversal => exists|bits: nat|
                #[trigger] bits_needed(n as int, bits) && to == unfixed(bit_reversed(n, bits)),
        }
    }

    /// No node sends to itself and none receives twice: for a random permutation, a bit reversal
    /// of as many nodes as a power of two, and a shift that is not by whole rounds. A shift is a
    /// permutation in any case, and a bit reversal leaves no node to itself.
    pub open spec fn sends_elsewhere(self, to: Seq<usize>) -> bool {
        let n = self.nodes@.len() as int;
        match self.kind {
            PermuteKind::Random => is_permutation(to) && !has_fixed_point(to),
            PermuteKind::Shift(shift) => is_permutation(to) && (shift as int % n != 0
                ==> !has_fixed_point(to)),
            PermuteKind::BitReversal => !has_fixed_point(to) && (is_power_of_two(n)
                ==> is_permutation(to)),
        }
    }

    /// The flows of a permutation of the nodes.
    pub open spec fn flows(self, to: Seq<usize>) -> Seq<FlowDesc> {
        Seq::new(
            self.nodes@.len(),
            |i: int|
                FlowDesc {
                    flow_id: (i % 0x1_0000_0000) as u32,
                    src: self.nodes@[i],
                    dst: self.nodes@[to[i] as int],
                    bytes: self.bytes_per_flow,
                    start_time_ns: self.start_time_ns,
                },
        )
    }
}

/// Exchanging two elements of a permutation gives a permutation.
proof fn lemma_swap_permutes(p: Seq<usize>, i: int, j: int)
    requires
        is_permutation(p),
        0 <= i < p.len(),
        0 <= j < p.len(),
    ensures
        is_permutation(swapped(p, i, j)),
{
}

proof fn lemma_exchanges_permute(perm: Seq<usize>, picks: Seq<u64>, t: nat)
    requires
        is_permutation(perm),
        picks_fit(perm.len() as int, picks),
        t <= picks.len(),
    ensures
        is_permutation(exchanged(perm, picks, t)),
        exchanged(perm, picks, t).len() == perm.len(),
    decreases t,
{
    if t > 0 {
        lemma_exchanges_permute(perm, picks, (t - 1) as nat);
        assert(picks[t - 1] <= perm.len() - t);
        lemma_swap_permutes(
            exchanged(perm, picks, (t - 1) as nat),
            perm.len() - t,
            picks[t - 1] as int,
        );
    }
}

/// A shuffle of a permutation is a permutation.
pub proof fn law_shuffle_permutes(perm: Seq<usize>, picks: Seq<u64>)
    requires
        is_permutation(perm),
        picks_fit(perm.len() as int, picks),
    ensures
        is_permutation(shuffled(perm, picks)),
        shuffled(perm, picks).len() == perm.len(),
{
    lemma_exchanges_permute(perm, picks, picks.len());
}

/// A shift is a permutation; it has no fixed point unless it is a shift by whole rounds.
pub proof fn law_shift_permutes(n: nat, shift: int)
    requires
        0 < n <= usize::MAX,
        0 <= shift,
    ensures
        is_permutation(shifted(n, shift)),
        shift % (n as int) != 0 ==> !has_fixed_point(shifted(n, shift)),
{
    let p = shifted(n, shift);
    let m = n as int;
    let s = shift % m;
    assert forall|i: int| 0 <= i < n implies #[trigger] p[i] == (if i + s < m {
        i + s
    } else {
        i + s - m
    }) by {
        lemma_round(i, shift, m);
    }
    assert forall|i: int, j: int| 0 <= i < n && 0 <= j < n && i != j implies p[i] != p[j] by {
        assert(p[i] < n && p[j] < n);
    }
}

/// Where a shift leads.
proof fn lemma_round(i: int, shift: int, n: int)
    requires
        0 <= i < n,
        0 <= shift,
    ensures
        (i + shift) % n == (if i + shift % n < n {
            i + shift % n
        } else {
            i + shift % n - n
        }),
{
    let (q, s) = (shift / n, shift % n);
    vstd::arithmetic::div_mod::lemma_fundamental_div_mod(shift, n);
    assert(0 <= s < n) by (nonlinear_arith)
        requires
            s == shift % n,
            n > 0,
    ;
    if i + s < n {
        assert(i + shift == q * n + (i + s)) by (nonlinear_arith)
            requires
                shift == n * q + s,
        ;
        vstd::arithmetic::div_mod::lemma_fundamental_div_mod_converse(i + shift, n, q, i + s);
    } else {
        assert(i + shift == (q + 1) * n + (i + s - n)) by (nonlinear_arith)
            requires
                shift == n * q + s,
        ;
        vstd::arithmetic::div_mod::lemma_fundamental_div_mod_converse(
            i + shift,
            n,
            q + 1,
            i + s - n,
        );
    }
}

proof fn lemma_reverse_onto(x: nat, bits: nat, front: nat)
    requires
        x < pow2(bits),
    ensures
        reverse_onto(x, bits, front) == front * pow2(bits) + bit_reverse(x, bits),
        bit_reverse(x, bits) < pow2(bits),
    decreases bits,
{
    vstd::arithmetic::power2::lemma2_to64();
    if bits > 0 {
        lemma_pow2_unfold(bits);
        let half = pow2((bits - 1) as nat);
        lemma_reverse_onto(x / 2, (bits - 1) as nat, 2 * front + x % 2);
        lemma_reverse_onto(x / 2, (bits - 1) as nat, x % 2);
        assert((2 * front + x % 2) * half == front * (2 * half) + (x % 2) * half)
            by (nonlinear_arith);
        assert((x % 2) * half <= half) by (nonlinear_arith)
            requires
                0 <= x % 2 <= 1,
                0 <= half,
        ;
        assert(front * pow2(bits) == front * (2 * half));
    } else {
        assert(front * pow2(0) == front) by (nonlinear_arith)
            requires
                pow2(0) == 1,
        ;
    }
}

/// Bit `j` of a number.
pub open spec fn bit_at(x: nat, j: nat) -> nat {
    (x / pow2(j)) % 2
}

/// Reversal keeps a number within its bits and puts bit `j` where bit `bits - 1 - j` was.
pub proof fn law_bits_are_reversed(x: nat, bits: nat, j: nat)
    requires
        x < pow2(bits),
        j < bits,
    ensures
        bit_reverse(x, bits) < pow2(bits),
        bit_at(bit_reverse(x, bits), j) == bit_at(x, (bits - 1 - j) as nat),
    decreases bits,
{
    lemma_reverse_onto(x, bits, 0);
    lemma_pow2_unfold(bits);
    vstd::arithmetic::power2::lemma2_to64();
    let less = (bits - 1) as nat;
    let half = pow2(less);
    lemma_reverse_onto(x / 2, less, x % 2);
    let rest = bit_reverse(x / 2, less);
    let top = x % 2;
    assert(bit_reverse(x, bits) == top * half + rest);
    if j == less {
        vstd::arithmetic::div_mod::lemma_fundamental_div_mod_converse(
            (top * half + rest) as int,
            half as int,
            top as int,
            rest as int,
        );
    } else {
        law_bits_are_reversed(x / 2, less, j);
        let p = pow2(j);
        let up = (less - j) as nat;
        vstd::arithmetic::power2::lemma_pow2_adds(j, up);
        vstd::arithmetic::power2::lemma_pow2_pos(j);
        vstd::arithmetic::power2::lemma_pow2_unfold(up);
        let q = top * pow2((up - 1) as nat);
        assert(top * half == (2 * q) * p) by (nonlinear_arith)
            requires
                half == p * (2 * pow2((up - 1) as nat)),
                q == top * pow2((up - 1) as nat),
        ;
        vstd::arithmetic::div_mod::lemma_hoist_over_denominator(rest as int, (2 * q) as int, p);
    }
    let k = (bits - 1 - j) as nat;
    if k == 0 {
    } else {
        lemma_pow2_unfold(k);
        vstd::arithmetic::power2::lemma_pow2_pos((k - 1) as nat);
        vstd::arithmetic::div_mod::lemma_div_denominator(
            x as int,
            2,
            pow2((k - 1) as nat) as int,
        );
    }
}

/// Different numbers have different reversals.
proof fn lemma_reversals_differ(x: nat, y: nat, bits: nat)
    requires
        x < pow2(bits),
        y < pow2(bits),
        bit_reverse(x, bits) == bit_reverse(y, bits),
    ensures
        x == y,
    decreases bits,
{
    vstd::arithmetic::power2::lemma2_to64();
    if bits > 0 {
        lemma_pow2_unfold(bits);
        let less = (bits - 1) as nat;
        let half = pow2(less);
        lemma_reverse_onto(x / 2, less, x % 2);
        lemma_reverse_onto(y / 2, less, y % 2);
        assert(x % 2 == y % 2 && bit_reverse(x / 2, less) == bit_reverse(y / 2, less)) by {
            assert(0 * half == 0 && 1 * half == half);
        }
        lemma_reversals_differ(x / 2, y / 2, less);
    }
}

/// The bit reversal of as many positions as a power of two is a permutation.
pub proof fn law_bit_reversal_permutes(bits: nat)
    requires
        pow2(bits) <= usize::MAX,
    ensures
        is_permutation(bit_reversed(pow2(bits), bits)),
{
    let n = pow2(bits);
    let p = bit_reversed(n, bits);
    assert forall|i: int| 0 <= i < n implies #[trigger] p[i] == bit_reverse(i as nat, bits) && p[i]
        < n by {
        lemma_reverse_onto(i as nat, bits, 0);
    }
    assert forall|i: int, j: int| 0 <= i < n && 0 <= j < n && i != j implies p[i] != p[j] by {
        if p[i] == p[j] {
            lemma_reversals_differ(i as nat, j as nat, bits);
        }
    }
}

/// Moving the elements of a permutation by a place gives a permutation.
proof fn lemma_rotation_permutes(p: Seq<usize>)
    requires
        is_permutation(p),
    ensures
        is_permutation(rotated(p)),
{
}

/// What is made of a bit reversal has no fixed point, and is a permutation if the number of
/// positions is a power of two.
proof fn lemma_unfixed_reversal(n: nat, bits: nat)
    requires
        2 <= n <= usize::MAX,
        bits_needed(n as int, bits),
    ensures
        !has_fixed_point(unfixed(bit_reversed(n, bits))),
        is_power_of_two(n as int) ==> is_permutation(unfixed(bit_reversed(n, bits))),
{
    let p = bit_reversed(n, bits);
    law_shift_permutes(n, 1);
    vstd::arithmetic::div_mod::lemma_small_mod(1, n);
    if is_power_of_two(n as int) {
        let k = choose|k: nat| #[trigger] pow2(k) == n as int;
        if k < bits {
            if k < bits - 1 {
                vstd::arithmetic::power2::lemma_pow2_strictly_increases(k, (bits - 1) as nat);
            }
        } else if k > bits {
            vstd::arithmetic::power2::lemma_pow2_strictly_increases(bits, k);
        }
        law_bit_reversal_permutes(bits);
        lemma_rotation_permutes(p);
    }
}

/// Where the nodes differ, a permutation without a fixed point sends every flow to another node,
/// and no two flows to the same.
pub proof fn law_flows_go_elsewhere(p: Permutation, to: Seq<usize>, i: int, j: int)
    requires
        p.nodes@.no_duplicates(),
        to.len() == p.nodes@.len(),
        is_permutation(to),
        !has_fixed_point(to),
        0 <= i < to.len(),
        0 <= j < to.len(),
        i != j,
    ensures
        p.flows(to)[i].src != p.flows(to)[i].dst,
        p.flows(to)[i].dst != p.flows(to)[j].dst,
{
    assert(to[i] < to.len() && to[j] < to.len());
    assert(to[i] != to[j]);
    assert(to[i] != i);
}

/// Whether some position is its own image.
pub fn check_fixed_point(p: &Vec<usize>) -> (r: bool)
    ensures
        r == has_fixed_point(p@),
{
    let mut i: usize = 0;
    while i < p.len()
        invariant
            i <= p@.len(),
            forall|k: int| 0 <= k < i ==> (#[trigger] p@[k]) != k,
        decreases p@.len() - i,
    {
        if p[i] == i {
            return true;
        }
        i = i + 1;
    }
    false
}

/// Shuffles a permutation by the picks: from the last position down, each position is exchanged
/// with the one picked for it.
pub fn shuffle(perm: &mut Vec<usize>, picks: &Vec<u64>)
    requires
        picks_fit(old(perm)@.len() as int, picks@),
    ensures
        final(perm)@ == shuffled(old(perm)@, picks@),
        final(perm)@.len() == old(perm)@.len(),
{
    let n: usize = perm.len();
    let mut t: usize = 0;
    while t < picks.len()
        invariant
            t <= picks@.len(),
            n == old(perm)@.len(),
            perm@.len() == n,
            picks_fit(n as int, picks@),
            perm@ == exchanged(old(perm)@, picks@, t as nat),
        decreases picks@.len() - t,
    {
        let pick: u64 = picks[t];
        assert(picks@[t as int] <= n - 1 - t);
        swap_elements(perm, n - 1 - t, pick as usize);
        t = t + 1;
    }
}

/// Draws the picks of a shuffle of `n` elements.
pub fn draw_picks(rng: &mut SeededRng, n: usize) -> (picks: Vec<u64>)
    requires
        n >= 1,
    ensures
        picks@ == drawn_picks(old(rng)@, n as int),
        picks_fit(n as int, picks@),
        final(rng)@ == old(rng)@.after(shuffle_draws(n as int)),
{
    let ghost draws = shuffle_draws(n as int);
    let mut picks: Vec<u64> = Vec::new();
    let mut i: usize = n - 1;
    assert(rng@ =~= old(rng)@.after(draws.take(0)));
    while i > 0
        invariant
            i <= n - 1,
            draws == shuffle_draws(n as int),
            picks@.len() == n - 1 - i,
            rng@ == old(rng)@.after(draws.take(n - 1 - i)),
            picks@ =~= drawn_picks(old(rng)@, n as int).take(n - 1 - i),
            forall|t: int| 0 <= t < picks@.len() ==> (#[trigger] picks@[t]) <= n - 1 - t,
        decreases i,
    {
        let ghost t = n - 1 - i;
        proof {
            assert(draws.take(t + 1) =~= draws.take(t).push((false, 0u64, i as u64)));
            assert(old(rng)@.draws + draws.take(t + 1) =~= (old(rng)@.draws + draws.take(t)).push(
                (false, 0u64, i as u64),
            ));
        }
        let pick: u64 = rng.draw_u64(0, i as u64);
        picks.push(pick);
        i = i - 1;
    }
    assert(draws.take(n - 1) =~= draws);
    picks
}

fn make_shift(n: usize, shift: usize) -> (p: Vec<usize>)
    requires
        n > 0,
    ensures
        p@ == shifted(n as nat, shift as int),
{
    let s: usize = shift % n;
    let mut p: Vec<usize> = Vec::new();
    let mut i: usize = 0;
    while i < n
        invariant
            i <= n,
            n > 0,
            s == shift as int % n as int,
            s < n,
            p@ =~= shifted(n as nat, shift as int).take(i as int),
        decreases n - i,
    {
        proof {
            lemma_round(i as int, shift as int, n as int);
        }
        if i < n - s {
            p.push(i + s);
        } else {
            p.push(i - (n - s));
        }
        i = i + 1;
    }
    assert(p@ =~= shifted(n as nat, shift as int));
    p
}

/// Moves the elements by one place if one of them is in its own position; and takes a shift by one
/// place where one is in its own position even then.
pub fn without_fixed_point(p: Vec<usize>) -> (r: Vec<usize>)
    requires
        p@.len() >= 2,
        forall|i: int| 0 <= i < p@.len() ==> (#[trigger] p@[i]) < p@.len(),
    ensures
        r@ == unfixed(p@),
        r@.len() == p@.len(),
        forall|i: int| 0 <= i < r@.len() ==> (#[trigger] r@[i]) < r@.len(),
        !has_fixed_point(r@),
        is_permutation(p@) ==> is_permutation(r@),
{
    let n: usize = p.len();
    if !check_fixed_point(&p) {
        return p;
    }
    let first: usize = p[0];
    let mut turned: Vec<usize> = Vec::new();
    let mut k: usize = 1;
    while k < n
        invariant
            1 <= k <= n,
            n == p@.len(),
            turned@ =~= rotated(p@).take(k - 1),
            forall|j: int| 0 <= j < n ==> (#[trigger] p@[j]) < n,
            forall|j: int| 0 <= j < k - 1 ==> (#[trigger] turned@[j]) < n,
        decreases n - k,
    {
        turned.push(p[k]);
        k = k + 1;
    }
    turned.push(first);
    assert(turned@ =~= rotated(p@));
    proof {
        if is_permutation(p@) {
            lemma_rotation_permutes(p@);
        }
        law_shift_permutes(n as nat, 1);
        vstd::arithmetic::div_mod::lemma_small_mod(1, n as nat);
    }
    if check_fixed_point(&turned) {
        return make_shift(n, 1);
    }
    turned
}

/// Draws a permutation of `n` positions that has no fixed point, with up to `tries` shuffles.
pub fn draw_permutation(rng: &mut SeededRng, n: usize, tries: u32) -> (p: Vec<usize>)
    requires
        n >= 2,
    ensures
        p@ == drawn_permutation(n as nat, old(rng)@, tries as nat),
        p@.len() == n,
        is_permutation(p@),
        !has_fixed_point(p@),
        final(rng)@ == shuffled_until_moved(identity(n as nat), old(rng)@, tries as nat).1,
{
    let mut p: Vec<usize> = Vec::new();
    let mut i: usize = 0;
    while i < n
        invariant
            i <= n,
            p@ =~= identity(n as nat).take(i as int),
        decreases n - i,
    {
        p.push(i);
        i = i + 1;
    }
    assert(p@ =~= identity(n as nat));
    let mut left: u32 = tries;
    let mut moved: bool = false;
    while left > 0 && !moved
        invariant
            n >= 2,
            p@.len() == n,
            is_permutation(p@),
            moved ==> !has_fixed_point(p@),
            shuffled_until_moved(identity(n as nat), old(rng)@, tries as nat) == (if moved {
                (p@, rng@)
            } else {
                shuffled_until_moved(p@, rng@, left as nat)
            }),
        decreases left,
    {
        let ghost before = p@;
        let picks = draw_picks(rng, n);
        shuffle(&mut p, &picks);
        proof {
            law_shuffle_permutes(before, picks@);
        }
        moved = !check_fixed_point(&p);
        left = left - 1;
    }
    without_fixed_point(p)
}

fn reverse_bits(x: usize, bits: u32) -> (r: usize)
    requires
        x < pow2(bits as nat),
        bits < 32,
    ensures
        r == bit_reverse(x as nat, bits as nat),
{
    let mut left: usize = x;
    let mut r: usize = 0;
    let mut k: u32 = 0;
    proof {
        vstd::arithmetic::power2::lemma2_to64();
    }
    while k < bits
        invariant
            k <= bits,
            bits < 32,
            r < pow2(k as nat),
            bit_reverse(x as nat, bits as nat) == reverse_onto(
                left as nat,
                (bits - k) as nat,
                r as nat,
            ),
        decreases bits - k,
    {
        proof {
            lemma_pow2_unfold((k + 1) as nat);
            vstd::arithmetic::power2::lemma2_to64();
            if k + 1 < 31 {
                vstd::arithmetic::power2::lemma_pow2_strictly_increases((k + 1) as nat, 31);
            }
        }
        r = 2 * r + left % 2;
        left = left / 2;
        k = k + 1;
    }
    r
}

fn make_bit_reversal(n: usize) -> (p: Vec<usize>)
    requires
        2 <= n <= 0x8000_0000,
    ensures
        p@.len() == n,
        forall|i: int| 0 <= i < n ==> (#[trigger] p@[i]) < n,
        exists|bits: nat| #[trigger]
            bits_needed(n as int, bits) && p@ == unfixed(bit_reversed(n as nat, bits)),
        !has_fixed_point(p@),
        is_power_of_two(n as int) ==> is_permutation(p@),
{
    let mut bits: u32 = 0;
    let mut span: usize = 1;
    proof {
        vstd::arithmetic::power2::lemma2_to64();
    }
    while span < n
        invariant
            n <= 0x8000_0000,
            bits <= 31,
            span == pow2(bits as nat),
            bits > 0 ==> pow2((bits - 1) as nat) < n,
        decreases 32 - bits,
    {
        proof {
            lemma_pow2_unfold((bits + 1) as nat);
            vstd::arithmetic::power2::lemma2_to64();
            if bits == 31 {
                assert(pow2(31) == 0x8000_0000);
            }
        }
        bits = bits + 1;
        span = span * 2;
    }
    assert(bits_needed(n as int, bits as nat));
    let ghost want = bit_reversed(n as nat, bits as nat);
    let mut p: Vec<usize> = Vec::new();
    let mut i: usize = 0;
    while i < n
        invariant
            i <= n,
            2 <= n,
            n <= pow2(bits as nat),
            bits <= 31,
            want == bit_reversed(n as nat, bits as nat),
            p@ =~= want.take(i as int),
            forall|k: int| 0 <= k < i ==> (#[trigger] p@[k]) < n,
        decreases n - i,
    {
        let r: usize = reverse_bits(i, bits);
        if r >= n {
            p.push((i + 1) % n);
        } else {
            p.push(r);
        }
        i = i + 1;
    }
    assert(p@ =~= want);
    proof {
        lemma_unfixed_reversal(n as nat, bits as nat);
    }
    without_fixed_point(p)
}

impl Permutation {
    /// One flow from each node; none for fewer than two nodes.
    pub fn generate(&self) -> (v: Vec<FlowDesc>)
        requires
            self.kind is BitReversal ==> self.nodes@.len() <= 0x8000_0000,
        ensures
            self.nodes@.len() < 2 ==> v@.len() == 0,
            self.nodes@.len() >= 2 ==> exists|to: Seq<usize>| #[trigger]
                self.is_mapping(to) && v@ == self.flows(to) && to.len() == self.nodes@.len() && (
                forall|i: int| 0 <= i < to.len() ==> (#[trigger] to[i]) < to.len())
                && self.sends_elsewhere(to),
    {
        let n: usize = self.nodes.len();
        let mut v: Vec<FlowDesc> = Vec::new();
        if n < 2 {
            return v;
        }
        let to: Vec<usize> = match self.kind {
            PermuteKind::Random => {
                let mut rng = SeededRng::new(self.seed);
                draw_permutation(&mut rng, n, MAX_SHUFFLES)
            },
            PermuteKind::Shift(shift) => {
                let p = make_shift(n, shift as usize);
                proof {
                    law_shift_permutes(n as nat, shift as int);
                }
                p
            },
            PermuteKind::BitReversal => make_bit_reversal(n),
        };
        let mut i: usize = 0;
        while i < n
            invariant
                i <= n,
                n == self.nodes@.len(),
                to@.len() == n,
                forall|k: int| 0 <= k < n ==> (#[trigger] to@[k]) < n,
                v@ =~= self.flows(to@).take(i as int),
            decreases n - i,
        {
            let flow_id: u32 = low_u32(i);
            assert(to@[i as int] < n);
            v.push(
                FlowDesc {
                    flow_id,
                    src: self.nodes[i],
                    dst: self.nodes[to[i]],
                    bytes: self.bytes_per_flow,
                    start_time_ns: self.start_time_ns,
                },
            );
            i = i + 1;
        }
        assert(v@ =~= self.flows(to@));
        assert(self.is_mapping(to@));
        v
    }
}

} // verus!
