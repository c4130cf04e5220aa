//! The seeded random number generator that the engine owns.
use rand::rngs::SmallRng;
use rand::SeedableRng;
use vstd::prelude::*;

verus! {

/// `rand::rngs::SmallRng`, carried through as it is.
#[verifier::external_type_specification]
#[verifier::external_body]
pub struct ExSmallRng(rand::rngs::SmallRng);

/// A generator, and the seed that it was made from.
pub struct SeededRng {
    rng: SmallRng,
    seed: Ghost<u64>,
}

impl SeededRng {
    /// The seed that the generator was made from.
    pub closed spec fn seed(&self) -> u64 {
        self.seed@
    }

    /// The generator as it is now.
    pub closed spec fn state(&self) -> SmallRng {
        self.rng
    }

    /// `SmallRng::seed_from_u64`: the generator is made from this seed.
    ///
    /// Nothing is claimed of what it draws: `SmallRng` is not portable, so that its
    /// sequence depends on the seed and on the machine.
    #[verifier::external_body]
    pub(crate) fn new(seed: u64) -> (r: Self)
        ensures
            r.seed() == seed,
    {
        SeededRng { rng: SmallRng::seed_from_u64(seed), seed: Ghost(seed) }
    }

    /// The generator, to draw from.
    pub(crate) fn generator(&mut self) -> (r: &mut SmallRng)
        ensures
            *r == old(self).state(),
            final(self).state() == *final(r),
            final(self).seed() == old(self).seed(),
    {
        &mut self.rng
    }

    /// The generator alone.
    pub(crate) fn into_generator(self) -> (r: SmallRng)
        ensures
            r == self.state(),
    {
        self.rng
    }
}

/// Create a reproducible RNG from a user-provided seed.
///
/// The engine owns the RNG; models consume randomness via a mutable reference that is
/// passed in.
pub fn make_small_rng(seed: u64) -> (r: SmallRng)
    ensures
        exists|made: SeededRng| #[trigger] made.seed() == seed && r == made.state(),
{
    let made: SeededRng = SeededRng::new(seed);
    assert(made.seed() == seed);
    made.into_generator()
}

} // verus!
