//! The injectable random source the engine draws pieces from, and its
//! standard implementation backed by the thread-local generator of `rand`.

use vstd::prelude::*;

verus! {

/// A uniform-integer random source. The engine is written against this
/// capability so that tests can inject deterministic sources.
pub trait RangeRng {
    /// Which results this source, in its current state, can yield for a
    /// draw from `[lower, upper)`. A true random source admits every value
    /// of the range; a deterministic test source pins the one value its
    /// next draw produces, which lets callers reason about seeded games.
    spec fn spec_may_yield(self, lower: usize, upper: usize, value: usize) -> bool;

    /// Returns a value drawn from `[lower, upper)`.
    fn gen_range(&mut self, lower: usize, upper: usize) -> (r: usize)
        requires
            lower < upper,
        ensures
            lower <= r < upper,
            old(self).spec_may_yield(lower, upper, r),
    ;
}

/// Declares rand's thread-local generator type so it can stand in a field;
/// its values are opaque here.
#[verifier::external_type_specification]
#[verifier::external_body]
pub struct ExThreadRng(rand::rngs::ThreadRng);

/// Relies on rand::thread_rng to hand out the calling thread's generator.
#[verifier::external_body]
fn new_thread_rng() -> rand::rngs::ThreadRng {
    rand::thread_rng()
}

/// Relies on rand::Rng::gen_range: it returns a value of the given range,
/// here `[lower, upper)`; the range must not be empty.
#[verifier::external_body]
fn thread_rng_gen_range(rng: &mut rand::rngs::ThreadRng, lower: usize, upper: usize) -> (r: usize)
    requires
        lower < upper,
    ensures
        lower <= r < upper,
{
    rand::Rng::gen_range(rng, lower..upper)
}

/// A random source backed by the thread-local generator of `rand`.
pub struct ThreadRangeRng {
    rng: rand::rngs::ThreadRng,
}

impl ThreadRangeRng {
    pub fn new() -> ThreadRangeRng {
        ThreadRangeRng { rng: new_thread_rng() }
    }
}

impl RangeRng for ThreadRangeRng {
    /// A thread-random draw can yield any value of the range: no more is
    /// claimed of it.
    open spec fn spec_may_yield(self, lower: usize, upper: usize, value: usize) -> bool {
        true
    }

    fn gen_range(&mut self, lower: usize, upper: usize) -> (r: usize) {
        thread_rng_gen_range(&mut self.rng, lower, upper)
    }
}

} // verus!
