use vstd::prelude::*;

use rand::Rng;
use rand::SeedableRng;
use rand_pcg::Pcg64;

verus! {

#[verifier::external_type_specification]
#[verifier::external_body]
pub struct ExLcg128Xsl64(rand_pcg::Lcg128Xsl64);

/// The value of a uniform draw from `[1, sides]` made by a PCG-64 generator
/// that was seeded with `seed` and has already served the draws recorded in
/// `history` (each entry the `sides` of one earlier draw). The generator
/// algorithm is fixed and integer-only, so the value is a function of these
/// arguments alone, the same in every process and on every machine.
pub uninterp spec fn roll_of(seed: u64, history: Seq<u64>, sides: u64) -> u64;

/// A deterministic pseudo-random source: a PCG-64 generator seeded from a
/// 64-bit value, serving uniform draws from closed ranges `[1, sides]`.
///
/// The `rolls` field records, in order, the `sides` argument of every draw
/// served so far. The generator state in `rng` is always exactly the state a
/// fresh generator seeded with `seed` reaches after serving those draws; the
/// contracts of `new` and `roll` rely on this and nothing else in the crate
/// touches `rng`.
pub struct Prng {
    seed: u64,
    rolls: Ghost<Seq<u64>>,
    rng: Pcg64,
}

impl Prng {
    /// The seed this source was built from.
    pub closed spec fn spec_seed(self) -> u64 {
        self.seed
    }

    /// The `sides` of every draw served so far, oldest first.
    pub closed spec fn spec_rolls(self) -> Seq<u64> {
        self.rolls@
    }

    /// Relies on `rand_pcg::Pcg64::seed_from_u64` (via `rand_core::SeedableRng`):
    /// it expands the 64-bit seed with a fixed, documented scheme and never
    /// panics.
    #[verifier::external_body]
    fn seeded_generator(seed: u64) -> Pcg64 {
        Pcg64::seed_from_u64(seed)
    }

    pub fn new(seed: u64) -> (r: Prng)
        ensures
            r.spec_seed() == seed,
            r.spec_rolls() == Seq::<u64>::empty(),
    {
        Prng { seed, rolls: Ghost(Seq::empty()), rng: Self::seeded_generator(seed) }
    }

    pub fn seed(&self) -> (r: u64)
        ensures
            r == self.spec_seed(),
    {
        self.seed
    }

    /// Relies on `rand::Rng::random_range` over an inclusive `u64` range: it
    /// returns a value inside the range, panics only when the range is empty,
    /// and for an integer range draws from the generator with fixed,
    /// platform-independent arithmetic — so the value it returns is the
    /// function `roll_of` of the seed and the draws served before this one.
    #[verifier::external_body]
    pub fn roll(&mut self, sides: u64) -> (r: u64)
        requires
            sides >= 1,
        ensures
            1 <= r <= sides,
            r == roll_of(old(self).spec_seed(), old(self).spec_rolls(), sides),
            final(self).spec_seed() == old(self).spec_seed(),
            final(self).spec_rolls() == old(self).spec_rolls().push(sides),
    {
        self.rng.random_range(1..=sides)
    }
}

/// Determinism of the random source: two sources built from the same seed
/// that have served the same draws agree on the value of the next draw, so
/// identical call sequences yield identical roll sequences.
pub proof fn lemma_roll_deterministic(a: Prng, b: Prng, sides: u64)
    requires
        a.spec_seed() == b.spec_seed(),
        a.spec_rolls() == b.spec_rolls(),
    ensures
        roll_of(a.spec_seed(), a.spec_rolls(), sides) == roll_of(
            b.spec_seed(),
            b.spec_rolls(),
            sides,
        ),
{
}

} // verus!
