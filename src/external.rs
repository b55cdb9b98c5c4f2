//! What the library takes from outside: rand's shuffle and std's clock.
use vstd::prelude::*;
use rand::seq::SliceRandom;

verus! {

/// rand's handle on the generator of the current thread, carried through opaque.
#[verifier::external_type_specification]
#[verifier::external_body]
pub struct ExThreadRng(rand::rngs::ThreadRng);

/// std's monotonic clock reading, carried through opaque.
#[verifier::external_type_specification]
#[verifier::external_body]
pub struct ExInstant(std::time::Instant);

/// Relies on `rand::seq::SliceRandom::shuffle` for slices: a Fisher-Yates
/// shuffle made of swaps, so the cells keep their values, in a random order.
#[verifier::external_body]
pub(crate) fn shuffle_cells(cells: &mut [u16; 16], rng: &mut rand::rngs::ThreadRng)
    ensures
        final(cells)@.to_multiset() == old(cells)@.to_multiset(),
{
    cells.shuffle(rng);
}

/// Relies on `std::time::Instant::now`: a reading of the clock, of which nothing is promised.
pub assume_specification[ std::time::Instant::now ]() -> std::time::Instant;

/// Relies on `std::time::Instant::elapsed`: the time since a reading, of which nothing is promised.
pub assume_specification[ std::time::Instant::elapsed ](
    instant: &std::time::Instant,
) -> core::time::Duration;

/// Relies on `core::time::Duration::as_secs`: the whole seconds of a duration.
pub assume_specification[ core::time::Duration::as_secs ](duration: &core::time::Duration) -> u64;

} // verus!
