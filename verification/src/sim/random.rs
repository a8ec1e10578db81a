use rand::Rng;
use rand::SeedableRng;
use rand_chacha::ChaCha8Rng;
use vstd::prelude::*;

verus! {

/// The seeded random number generator that drives passenger arrival and
/// seating. Verus sees nothing inside it.
#[verifier::external_type_specification]
#[verifier::external_body]
pub struct ExChaCha8Rng(ChaCha8Rng);

/// The simulation's random generator, with a record of the seed it was
/// started from, of every range a number was drawn from and of every number
/// that came back, in order. The record is ghost: it costs nothing at run
/// time. Which numbers come back, the generator decides; the record says
/// what they were, so that what the simulation does with them can be
/// stated.
pub struct Generator {
    rng: ChaCha8Rng,
    seed: Ghost<u64>,
    asked: Ghost<Seq<(int, int)>>,
    drawn: Ghost<Seq<int>>,
}

impl Generator {
    /// The seed the generator was started from.
    pub closed spec fn seed_of(&self) -> u64 {
        self.seed@
    }

    /// The inclusive ranges drawn from since then, oldest first.
    pub closed spec fn asked_of(&self) -> Seq<(int, int)> {
        self.asked@
    }

    /// The numbers drawn since then, oldest first: the `i`-th came from the
    /// `i`-th range asked.
    pub closed spec fn drawn_of(&self) -> Seq<int> {
        self.drawn@
    }

    /// `ChaCha8Rng::seed_from_u64` (from `rand_core::SeedableRng`): a
    /// generator started from `seed`, from which nothing has been drawn.
    #[verifier::external_body]
    pub(crate) fn seeded(seed: u64) -> (g: Generator)
        ensures
            g.seed_of() == seed,
            g.asked_of() == Seq::<(int, int)>::empty(),
            g.drawn_of() == Seq::<int>::empty(),
    {
        let rng = ChaCha8Rng::seed_from_u64(seed);
        Generator { rng, seed: Ghost(seed), asked: Ghost(Seq::empty()), drawn: Ghost(Seq::empty()) }
    }

    /// `Rng::gen_range(low..=high)` on `i32` (rand 0.8): it panics on an
    /// empty range, which `requires` leaves out, and otherwise returns a
    /// value of the range; the range is recorded as asked and the value as
    /// drawn. Which value, the generator's state decides; that is not
    /// stated. (For `i32`, rand samples `low..high` exactly as
    /// `low..=high - 1`, from the same draws.)
    #[verifier::external_body]
    pub(crate) fn draw_i32(&mut self, low: i32, high: i32) -> (r: i32)
        requires
            low <= high,
        ensures
            low <= r <= high,
            final(self).seed_of() == old(self).seed_of(),
            final(self).asked_of() == old(self).asked_of().push((low as int, high as int)),
            final(self).drawn_of() == old(self).drawn_of().push(r as int),
    {
        self.rng.gen_range(low..=high)
    }

    /// `Rng::gen_range(0..len)` on `usize` (rand 0.8): it panics when `len`
    /// is zero, which `requires` leaves out, and otherwise returns an index
    /// below `len`; the range `0..=len - 1` is recorded as asked and the
    /// index as drawn. Which index, the generator's state decides; that is
    /// not stated.
    #[verifier::external_body]
    pub(crate) fn draw_index(&mut self, len: usize) -> (r: usize)
        requires
            len > 0,
        ensures
            r < len,
            final(self).seed_of() == old(self).seed_of(),
            final(self).asked_of() == old(self).asked_of().push((0int, len - 1)),
            final(self).drawn_of() == old(self).drawn_of().push(r as int),
    {
        self.rng.gen_range(0..len)
    }
}

} // verus!
