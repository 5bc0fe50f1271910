//! Where the randomness of a measurement comes from.

use rand::rngs::StdRng;
use rand::{RngCore, SeedableRng};
use vstd::prelude::*;

verus! {

/// A source of uniformly distributed 64-bit draws. A measurement takes one
/// draw; nothing is assumed of its value.
pub trait RandomSource {
    fn next_draw(&mut self) -> u64;
}

/// The standard generator of the `rand` crate. Its state is not modelled.
#[verifier::external_type_specification]
#[verifier::external_body]
pub struct ExStdRng(StdRng);

/// A generator that is started from a seed, so that a run can be repeated.
pub struct SeededSource {
    generator: StdRng,
}

/// The generator of the current thread, seeded by the operating system.
pub struct ThreadSource {}

/// A source that hands out a given list of draws in order, and starts again
/// at its end. An empty list stands for the single draw 0.
pub struct ReplaySource {
    draws: Vec<u64>,
    next: usize,
}

/// `StdRng::seed_from_u64`: a generator whose output is a function of the seed.
/// Nothing is claimed of the generator that is made.
#[verifier::external_body]
fn generator_from_seed(seed: u64) -> StdRng {
    StdRng::seed_from_u64(seed)
}

/// `RngCore::next_u64` of `StdRng`: the next 64 bits of the generator.
/// Nothing is claimed of the value.
#[verifier::external_body]
fn next_of_generator(generator: &mut StdRng) -> u64 {
    generator.next_u64()
}

/// `rand::random::<u64>()`: 64 bits from the generator of the current thread.
/// Nothing is claimed of the value.
#[verifier::external_body]
fn next_of_thread() -> u64 {
    rand::random::<u64>()
}

impl SeededSource {
    /// A source that draws from the generator that `rand` makes of `seed`. The
    /// generator is held as it comes: nothing of its state is known here.
    pub fn new(seed: u64) -> SeededSource {
        SeededSource { generator: generator_from_seed(seed) }
    }
}

impl RandomSource for SeededSource {
    fn next_draw(&mut self) -> u64 {
        next_of_generator(&mut self.generator)
    }
}

impl ReplaySource {
    #[verifier::type_invariant]
    closed spec fn well_formed(self) -> bool {
        self.next < self.draws.len() || (self.draws.len() == 0 && self.next == 0)
    }

    /// The draws that are handed out.
    pub closed spec fn draws(self) -> Seq<u64> {
        self.draws@
    }

    /// The index of the draw that is handed out next.
    pub closed spec fn position(self) -> nat {
        self.next as nat
    }

    pub fn new(draws: Vec<u64>) -> (source: ReplaySource)
        ensures
            source.draws() == draws@,
            source.position() == 0,
    {
        ReplaySource { draws, next: 0 }
    }

    /// The draw that is handed out next: the one at the position, or 0 where
    /// the list is empty.
    pub open spec fn upcoming(self) -> u64 {
        if self.draws().len() == 0 {
            0
        } else {
            self.draws()[self.position() as int]
        }
    }

    /// The position after the next draw: one further, or 0 again at the end of
    /// the list.
    pub open spec fn following(self) -> nat {
        if self.position() + 1 >= self.draws().len() {
            0
        } else {
            self.position() + 1
        }
    }

    /// The next draw of the list.
    pub fn replay(&mut self) -> (draw: u64)
        ensures
            draw == old(self).upcoming(),
            final(self).draws() == old(self).draws(),
            final(self).position() == old(self).following(),
            old(self).draws().len() > 0 ==> old(self).position() < old(self).draws().len(),
    {
        proof {
            use_type_invariant(&*self);
        }
        if self.draws.len() == 0 {
            return 0;
        }
        let draw = self.draws[self.next];
        if self.next + 1 == self.draws.len() {
            self.next = 0;
        } else {
            self.next = self.next + 1;
        }
        draw
    }
}

impl RandomSource for ReplaySource {
    /// The next draw of the list, as `replay` hands it out.
    fn next_draw(&mut self) -> (draw: u64)
        ensures
            draw == old(self).upcoming(),
            final(self).draws() == old(self).draws(),
            final(self).position() == old(self).following(),
            old(self).draws().len() > 0 ==> old(self).position() < old(self).draws().len(),
    {
        self.replay()
    }
}

impl RandomSource for ThreadSource {
    fn next_draw(&mut self) -> u64 {
        next_of_thread()
    }
}

} // verus!
