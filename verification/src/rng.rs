//! Deterministic random source, backed by a seeded ChaCha20 stream.

use vstd::prelude::*;

use rand_chacha::rand_core::RngCore;
use rand_chacha::rand_core::SeedableRng;
use rand_chacha::ChaCha20Rng;

verus! {

#[verifier::external_type_specification]
#[verifier::external_body]
pub struct ExChaCha20Rng(ChaCha20Rng);

/// The `n`th 32-bit word that a ChaCha20 generator seeded from `seed` yields.
///
/// `ChaCha20Rng::seed_from_u64` expands the seed by a fixed arithmetic
/// procedure and the cipher's output stream depends on nothing but that
/// state, so the word is a function of `seed` and `n` alone.
pub uninterp spec fn chacha_stream(seed: u64, n: nat) -> u32;

/// What a generator looks like in contracts: its seed and how many words
/// have been drawn from it so far.
pub ghost struct RngModel {
    pub seed: u64,
    pub drawn: nat,
}

/// A pseudo-random generator that always yields the same stream for the
/// same seed.
pub struct RandomDeterministic {
    random: ChaCha20Rng,
    seed: u64,
    drawn: Ghost<nat>,
}

impl View for RandomDeterministic {
    type V = RngModel;

    closed spec fn view(&self) -> RngModel {
        RngModel { seed: self.seed, drawn: self.drawn@ }
    }
}

/// Relies on `ChaCha20Rng::seed_from_u64`: the seed expansion is a pure
/// arithmetic procedure, so equal seeds give equal generators.
#[verifier::external_body]
fn chacha_from_seed(seed: u64) -> ChaCha20Rng {
    ChaCha20Rng::seed_from_u64(seed)
}

impl RandomDeterministic {
    /// A fresh generator seeded from `seed`; nothing has been drawn yet.
    pub fn new(seed: u64) -> (r: Self)
        ensures
            r@.seed == seed,
            r@.drawn == 0,
    {
        RandomDeterministic { random: chacha_from_seed(seed), seed, drawn: Ghost(0nat) }
    }

    /// The seed this generator was made with.
    pub fn seed(&self) -> (s: u64)
        ensures
            s == self@.seed,
    {
        self.seed
    }

    /// Relies on `ChaCha20Rng::next_u32`: the output stream is a
    /// deterministic function of the generator's state, which here is
    /// always the seed expansion advanced by the words drawn so far.
    #[verifier::external_body]
    pub(crate) fn next_u32(&mut self) -> (r: u32)
        ensures
            r == chacha_stream(old(self)@.seed, old(self)@.drawn),
            final(self)@.seed == old(self)@.seed,
            final(self)@.drawn == old(self)@.drawn + 1,
    {
        self.random.next_u32()
    }
}

impl Default for RandomDeterministic {
    /// The game's generator: seeded with 0, so every run draws the same
    /// item sequence.
    fn default() -> (r: Self)
        ensures
            r@.seed == 0,
            r@.drawn == 0,
    {
        RandomDeterministic::new(0)
    }
}

} // verus!
