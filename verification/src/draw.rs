use rand::rngs::ThreadRng;
use rand::RngExt;
use vstd::prelude::*;

verus! {

/// A number drawn at random below a bound. Only this module makes draws, and it
/// makes them only by drawing from a generator, so a draw of bound `b` in a
/// contract is a value that really was drawn from `0..b`.
#[derive(Clone, Copy)]
pub struct Draw {
    bound: usize,
    value: usize,
}

impl Draw {
    /// The exclusive upper end of the range the value was drawn from.
    pub closed spec fn bound(&self) -> nat {
        self.bound as nat
    }

    /// The value that was drawn.
    pub closed spec fn value(&self) -> nat {
        self.value as nat
    }

    /// The value that was drawn.
    pub fn drawn(&self) -> (v: usize)
        ensures
            v == self.value(),
    {
        self.value
    }
}

/// A value drawn uniformly from `0..bound`, by `RngExt::random_range` on that
/// range, recorded together with the bound it was drawn below. The contract
/// claims only what holds of every outcome: the recorded bound is the one asked
/// for and the value lies below it. `random_range` panics on an empty range,
/// which `requires` leaves out.
#[verifier::external_body]
pub(crate) fn random_below(rng: &mut ThreadRng, bound: usize) -> (d: Draw)
    requires
        bound > 0,
    ensures
        d.bound() == bound,
        d.value() < bound,
{
    Draw { bound, value: rng.random_range(0..bound) }
}

} // verus!
