//! Random numbers that a seed determines.
use rand::{Rng, SeedableRng};
use rand_pcg::Pcg64;
use vstd::prelude::*;

verus! {

/// The generator of the crate `rand_pcg`.
#[verifier::external_type_specification]
#[verifier::external_body]
pub struct ExPcg64(Pcg64);

/// The value of the last of the `draws` that a generator `Pcg64` makes after it was seeded with
/// `seed`. A draw is made from the integers from its second to its third component; the first
/// says whether they are 32 bits wide rather than 64.
pub uninterp spec fn pcg64_draw(seed: u64, draws: Seq<(bool, u64, u64)>) -> u64;

/// A seeded generator.
///
/// What it will draw follows from its seed and from the draws that it has made.
pub struct SeededRng {
    rng: Pcg64,
    seed: Ghost<u64>,
    draws: Ghost<Seq<(bool, u64, u64)>>,
}

/// The seed of a generator, and the draws that it has made.
#[verifier::ext_equal]
pub struct RngView {
    pub seed: u64,
    pub draws: Seq<(bool, u64, u64)>,
}

impl RngView {
    /// A generator that has made no draw.
    pub open spec fn fresh(seed: u64) -> RngView {
        RngView { seed, draws: Seq::empty() }
    }

    /// The generator after further draws.
    pub open spec fn after(self, draws: Seq<(bool, u64, u64)>) -> RngView {
        RngView { draws: self.draws + draws, ..self }
    }

    /// The generator after one further draw.
    pub open spec fn then_draws(self, narrow: bool, low: u64, high: u64) -> RngView {
        RngView { draws: self.draws.push((narrow, low, high)), ..self }
    }

    /// The value of the last draw.
    pub open spec fn last_value(self) -> u64 {
        pcg64_draw(self.seed, self.draws)
    }
}

impl View for SeededRng {
    type V = RngView;

    closed spec fn view(&self) -> RngView {
        RngView { seed: self.seed@, draws: self.draws@ }
    }
}

impl SeededRng {
    /// The generator of the crate `rand_pcg` that the draws are made from.
    pub closed spec fn generator(self) -> Pcg64 {
        self.rng
    }

    /// A generator seeded with `seed`.
    pub fn new(seed: u64) -> (rng: Self)
        ensures
            rng@ == RngView::fresh(seed),
    {
        seeded(seed)
    }

    /// The generator of the crate `rand_pcg` in its present state, for draws of other kinds.
    pub fn into_inner(self) -> (rng: Pcg64)
        ensures
            rng == self.generator(),
    {
        self.rng
    }

    /// `Rng::gen_range` of the crate `rand` on the 64-bit integers from `low` to `high`.
    ///
    /// The value lies in the range, and it is the one that the seed, the draws made before and
    /// this range determine.
    #[verifier::external_body]
    pub(crate) fn draw_u64(&mut self, low: u64, high: u64) -> (value: u64)
        requires
            low <= high,
        ensures
            low <= value <= high,
            final(self)@ == old(self)@.then_draws(false, low, high),
            value == pcg64_draw(old(self)@.seed, old(self)@.draws.push((false, low, high))),
    {
        self.rng.gen_range(low..=high)
    }

    /// `Rng::gen_range` of the crate `rand` on the 32-bit integers from `low` to `high`.
    ///
    /// The value lies in the range, and it is the one that the seed, the draws made before and
    /// this range determine.
    #[verifier::external_body]
    pub(crate) fn draw_u32(&mut self, low: u32, high: u32) -> (value: u32)
        requires
            low <= high,
        ensures
            low <= value <= high,
            final(self)@ == old(self)@.then_draws(true, low as u64, high as u64),
            value == pcg64_draw(
                old(self)@.seed,
                old(self)@.draws.push((true, low as u64, high as u64)),
            ),
    {
        self.rng.gen_range(low..=high)
    }
}

/// `SeedableRng::seed_from_u64` of the crate `rand` for `Pcg64`: the generator's state follows
/// from the seed alone, and it has made no draw.
#[verifier::external_body]
fn seeded(seed: u64) -> (rng: SeededRng)
    ensures
        rng@ == RngView::fresh(seed),
{
    SeededRng {
        rng: Pcg64::seed_from_u64(seed),
        seed: Ghost(seed),
        draws: Ghost(Seq::empty()),
    }
}

} // verus!
