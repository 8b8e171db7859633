//! The source of chance: the thread-local generator of the `rand` crate.

use vstd::prelude::*;
use rand::rngs::ThreadRng;
use rand::Rng;

verus! {

#[verifier::external_type_specification]
#[verifier::external_body]
pub struct ExThreadRng(rand::rngs::ThreadRng);

/// `rand::thread_rng`: a handle to the generator of the calling thread.
/// Nothing is claimed of it.
#[verifier::external_body]
pub(crate) fn thread_generator() -> (rng: ThreadRng) {
    rand::thread_rng()
}

/// `Rng::gen` at `u32`: some 32-bit number. Nothing is claimed of it.
#[verifier::external_body]
pub(crate) fn random_u32(rng: &mut ThreadRng) -> (value: u32) {
    rng.gen()
}

/// `Rng::gen_range` at `i32`: some number of the half-open range from `low`
/// to `high`. The outside function panics on an empty range, which the
/// precondition excludes.
#[verifier::external_body]
pub(crate) fn random_in_range(rng: &mut ThreadRng, low: i32, high: i32) -> (value: i32)
    requires
        low < high,
    ensures
        low <= value < high,
{
    rng.gen_range(low, high)
}

} // verus!
