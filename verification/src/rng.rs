//! The source of randomness for generation: rltk's xorshift random number
//! generator behind a thin interface.
//!
//! A seeded xorshift generator is deterministic: each draw is a function of
//! the seed and of the draws made before it. A `RandomSource` carries a ghost
//! record of both, so the contracts of its draw methods can say exactly that,
//! and generation from a given seed has a single model.

use vstd::prelude::*;

verus! {

#[verifier::external_type_specification]
#[verifier::external_body]
pub struct ExRandomNumberGenerator(rltk::RandomNumberGenerator);

/// What `RandomNumberGenerator::range(low, high)` returns from a generator
/// seeded with `seed` after the draws in `prior`: xorshift is deterministic,
/// so the draw is a function of these arguments alone.
pub uninterp spec fn range_result(seed: u64, prior: Seq<(int, int, int)>, low: int, high: int) -> int;

/// What `RandomNumberGenerator::roll_dice(n, die)` returns from a generator
/// seeded with `seed` after the draws in `prior`.
pub uninterp spec fn roll_result(seed: u64, prior: Seq<(int, int, int)>, n: int, die: int) -> int;

/// A draw made through `range`, as an entry of the ghost history.
pub open spec fn range_draw(low: int, high: int) -> (int, int, int) {
    (0, low, high)
}

/// A draw made through `roll_dice`, as an entry of the ghost history.
pub open spec fn roll_draw(n: int, die: int) -> (int, int, int) {
    (1, n, die)
}

/// A random number generator together with the ghost record of its seed and
/// of every draw made from it.
pub struct RandomSource {
    pub rng: rltk::RandomNumberGenerator,
    pub seed: Ghost<u64>,
    pub draws: Ghost<Seq<(int, int, int)>>,
}

impl RandomSource {
    /// Relies on `RandomNumberGenerator::seeded`: a fresh xorshift generator
    /// built deterministically from `seed`, with no draws made yet.
    #[verifier::external_body]
    pub fn seeded(seed: u64) -> (src: RandomSource)
        ensures
            src.seed@ == seed,
            src.draws@ == Seq::<(int, int, int)>::empty(),
    {
        RandomSource {
            rng: rltk::RandomNumberGenerator::seeded(seed),
            seed: Ghost(seed),
            draws: Ghost(Seq::empty()),
        }
    }

    /// Relies on `RandomNumberGenerator::range`: a value in `[low, high)`,
    /// inclusive below and exclusive above, and for a seeded generator a
    /// function of the seed and of the prior draws. The underlying sampler
    /// panics on an empty range, so `low < high` is required.
    #[verifier::external_body]
    pub fn range(&mut self, low: i32, high: i32) -> (r: i32)
        requires
            low < high,
        ensures
            low <= r < high,
            r as int == range_result(old(self).seed@, old(self).draws@, low as int, high as int),
            final(self).seed@ == old(self).seed@,
            final(self).draws@ == old(self).draws@.push(range_draw(low as int, high as int)),
    {
        self.rng.range(low, high)
    }

    /// Relies on `RandomNumberGenerator::roll_dice`: the sum of `n` dice of
    /// `die` sides, hence a value in `[n, n * die]`, and for a seeded
    /// generator a function of the seed and of the prior draws. Each die
    /// draws `range(1, die + 1)`, which panics on a sideless die and
    /// overflows on `die == i32::MAX`, so `1 <= die < i32::MAX`; the bound on
    /// `n * die` keeps the sum from overflowing.
    #[verifier::external_body]
    pub fn roll_dice(&mut self, n: i32, die: i32) -> (r: i32)
        requires
            1 <= n,
            1 <= die < i32::MAX,
            n * die <= i32::MAX,
        ensures
            n <= r <= n * die,
            r as int == roll_result(old(self).seed@, old(self).draws@, n as int, die as int),
            final(self).seed@ == old(self).seed@,
            final(self).draws@ == old(self).draws@.push(roll_draw(n as int, die as int)),
    {
        self.rng.roll_dice(n, die)
    }
}

/// Relies on `RandomNumberGenerator::new`: a generator seeded from machine
/// entropy; nothing is promised of it.
#[verifier::external_body]
fn entropy_rng() -> rltk::RandomNumberGenerator {
    rltk::RandomNumberGenerator::new()
}

/// Relies on `RandomNumberGenerator::next_u64`: one raw draw of the
/// generator; nothing is promised of a machine-seeded generator's output.
pub assume_specification[ rltk::RandomNumberGenerator::next_u64 ](
    generator: &mut rltk::RandomNumberGenerator,
) -> u64;

/// One unpredictable seed, drawn from a machine-entropy generator.
pub(crate) fn entropy_seed() -> u64 {
    let mut generator = entropy_rng();
    generator.next_u64()
}

} // verus!
