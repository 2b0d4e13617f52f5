//! A seeded, reproducible pseudo-random source.
//!
//! The generator threads a `rand::rngs::StdRng` through the terrain pass.
//! For the given crate version, `StdRng` is a deterministic algorithm
//! (ChaCha with 12 rounds): seeded from fixed bytes, the sequence of values
//! it yields is a pure function of the seed and of the ranges requested so
//! far, on every machine. `rng_draw` names that function, which lets the
//! generator's contract state that its output depends on the seed alone.

use vstd::prelude::*;

verus! {

#[verifier::external_type_specification]
#[verifier::external_body]
pub struct ExStdRng(rand::rngs::StdRng);

/// The value that a seeded `StdRng` yields for a uniform draw from
/// [lo, hi], after the draws recorded in `history` (each entry a requested
/// (lo, hi) pair, oldest first) have been made from the same seed.
pub uninterp spec fn rng_draw(seed: Seq<u8>, history: Seq<(u32, u32)>, lo: u32, hi: u32) -> u32;

/// Relies on `rand::rngs::StdRng::from_seed` (via `rand::SeedableRng`):
/// builds the generator deterministically from the 32-byte seed.
#[verifier::external_body]
fn std_rng_from_seed(seed_bytes: [u8; 32]) -> rand::rngs::StdRng {
    <rand::rngs::StdRng as rand::SeedableRng>::from_seed(seed_bytes)
}

/// A `StdRng` together with the ghost record of how it was seeded and which
/// draws were already made, so that contracts can speak of its next value.
pub struct SeededRng {
    inner: rand::rngs::StdRng,
    seed_bytes: Ghost<Seq<u8>>,
    draws: Ghost<Seq<(u32, u32)>>,
}

impl SeededRng {
    /// The seed this source was built from.
    pub closed spec fn seed(self) -> Seq<u8> {
        self.seed_bytes@
    }

    /// The (lo, hi) ranges of the draws made so far, oldest first.
    pub closed spec fn history(self) -> Seq<(u32, u32)> {
        self.draws@
    }

    /// A fresh source with no draws made yet.
    pub fn from_seed(seed_bytes: [u8; 32]) -> (r: SeededRng)
        ensures
            r.seed() == seed_bytes@,
            r.history() == Seq::<(u32, u32)>::empty(),
    {
        SeededRng {
            inner: std_rng_from_seed(seed_bytes),
            seed_bytes: Ghost(seed_bytes@),
            draws: Ghost(Seq::empty()),
        }
    }

    /// A uniform draw from the inclusive range [lo, hi].
    ///
    /// Relies on `rand::Rng::gen_range` on `StdRng`: the result lies in the
    /// requested range, and is a deterministic function of the seed and of
    /// the ranges drawn so far (named `rng_draw`).
    #[verifier::external_body]
    pub fn gen_range(&mut self, lo: u32, hi: u32) -> (r: u32)
        requires
            lo <= hi,
        ensures
            lo <= r <= hi,
            r == rng_draw(old(self).seed(), old(self).history(), lo, hi),
            final(self).seed() == old(self).seed(),
            final(self).history() == old(self).history().push((lo, hi)),
    {
        rand::Rng::gen_range(&mut self.inner, lo..=hi)
    }
}

} // verus!
