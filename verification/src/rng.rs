//! A seeded, deterministic source of random draws, backing grid
//! initialization. The underlying generator is ChaCha8: its whole output
//! stream is a pure function of the 64-bit seed, so each draw is a pure
//! function of the seed together with the sequence of draws made before it.

use vstd::prelude::*;

verus! {

use rand::Rng;
use rand::SeedableRng;

#[verifier::external_type_specification]
#[verifier::external_body]
pub struct ExChaCha8Rng(rand_chacha::ChaCha8Rng);

/// One draw taken from the generator, with the arguments it was given:
/// either a biased boolean draw with probability `numerator / denominator`,
/// or a bounded integer draw from the half-open range `[lo, hi)`.
pub enum RngCall {
    Ratio(u32, u32),
    Range(u8, u8),
}

/// The boolean that a ChaCha8 generator seeded with `seed` yields for a
/// `gen_ratio(numerator, denominator)` call made after the draws in
/// `history`.
pub uninterp spec fn chacha_ratio(
    seed: u64,
    history: Seq<RngCall>,
    numerator: u32,
    denominator: u32,
) -> bool;

/// The byte that a ChaCha8 generator seeded with `seed` yields for a
/// `gen_range(lo..hi)` call made after the draws in `history`.
pub uninterp spec fn chacha_range_u8(seed: u64, history: Seq<RngCall>, lo: u8, hi: u8) -> u8;

/// A ChaCha8 generator together with the seed it was built from and the
/// draws already taken from it, which between them determine every draw
/// still to come.
pub struct Randomizer {
    rng: rand_chacha::ChaCha8Rng,
    seed: Ghost<u64>,
    draws: Ghost<Seq<RngCall>>,
}

impl Randomizer {
    /// The seed this generator was built from.
    pub closed spec fn spec_seed(&self) -> u64 {
        self.seed@
    }

    /// The draws taken from this generator so far, oldest first.
    pub closed spec fn spec_draws(&self) -> Seq<RngCall> {
        self.draws@
    }

    /// Relies on `rand_chacha::ChaCha8Rng::seed_from_u64` (through
    /// `rand::SeedableRng`): the generator state it returns is a pure
    /// function of the seed.
    #[verifier::external_body]
    pub(crate) fn from_seed(seed: u64) -> (r: Randomizer)
        ensures
            r.spec_seed() == seed,
            r.spec_draws() == Seq::<RngCall>::empty(),
    {
        Randomizer {
            rng: rand_chacha::ChaCha8Rng::seed_from_u64(seed),
            seed: Ghost(seed),
            draws: Ghost(Seq::empty()),
        }
    }

    /// Relies on `rand::Rng::gen_ratio`: it returns `true` with probability
    /// `numerator / denominator`, always `false` for a zero numerator and
    /// always `true` for `numerator == denominator`; it panics only when
    /// `denominator == 0` or `numerator > denominator`; on a ChaCha8
    /// generator the outcome is a pure function of the seed and of the draws
    /// made before it.
    #[verifier::external_body]
    pub(crate) fn draw_ratio(&mut self, numerator: u32, denominator: u32) -> (b: bool)
        requires
            1 <= denominator,
            numerator <= denominator,
        ensures
            b == chacha_ratio(old(self).spec_seed(), old(self).spec_draws(), numerator, denominator),
            numerator == 0 ==> !b,
            numerator == denominator ==> b,
            final(self).spec_seed() == old(self).spec_seed(),
            final(self).spec_draws() == old(self).spec_draws().push(
                RngCall::Ratio(numerator, denominator),
            ),
    {
        self.rng.gen_ratio(numerator, denominator)
    }

    /// Relies on `rand::Rng::gen_range`: it returns a value of the half-open
    /// range `lo..hi` and panics only when the range is empty; on a ChaCha8
    /// generator the outcome is a pure function of the seed and of the draws
    /// made before it.
    #[verifier::external_body]
    pub(crate) fn draw_range_u8(&mut self, lo: u8, hi: u8) -> (v: u8)
        requires
            lo < hi,
        ensures
            v == chacha_range_u8(old(self).spec_seed(), old(self).spec_draws(), lo, hi),
            lo <= v < hi,
            final(self).spec_seed() == old(self).spec_seed(),
            final(self).spec_draws() == old(self).spec_draws().push(RngCall::Range(lo, hi)),
    {
        self.rng.gen_range(lo..hi)
    }
}

} // verus!
