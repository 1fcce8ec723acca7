//! Random numbers, drawn by the `rand` crate.

use rand::rngs::ThreadRng;
use rand::Rng;
use vstd::prelude::*;

verus! {

#[verifier::external_type_specification]
#[verifier::external_body]
pub struct ExThreadRng(ThreadRng);

/// The generator of the current thread, as `rand::thread_rng` hands it out.
/// Nothing is claimed of it. `thread_rng` panics where the system gives it
/// no seed.
#[verifier::external_body]
pub(crate) fn thread_rng() -> ThreadRng {
    rand::thread_rng()
}

/// Draws a number with `rand::Rng::gen_range` on the range from `low` up to,
/// but not including, `high`. Which number comes is up to the generator;
/// all that is claimed is that it lies in the range. `gen_range` panics on an
/// empty range, which `requires` leaves out. It draws again while the
/// generator hands it a number that it has to reject, so with a generator
/// that never hands out another it does not return.
#[verifier::external_body]
pub(crate) fn draw<T: Rng>(rng: &mut T, low: u32, high: u32) -> (r: u32)
    requires
        low < high,
    ensures
        low <= r < high,
{
    rng.gen_range(low..high)
}

} // verus!
