//! The random payload and the wall clock.
use vstd::prelude::*;
use std::time::Instant;

verus! {

/// Relies on `rand::random`: one byte drawn from the thread-local
/// generator; nothing is known of which.
#[verifier::external_body]
fn random_byte() -> u8 {
    rand::random::<u8>()
}

#[verifier::external_type_specification]
#[verifier::external_body]
pub struct ExInstant(Instant);

/// Relies on `Instant::now`: a reading of the monotonic clock.
pub assume_specification[ Instant::now ]() -> Instant;

/// Relies on `Instant::elapsed`: the time since the reading was taken.
pub assume_specification[ Instant::elapsed ](start: &Instant) -> core::time::Duration;

/// Relies on `Duration::as_nanos`: the whole number of nanoseconds.
pub assume_specification[ core::time::Duration::as_nanos ](d: &core::time::Duration) -> u128;

/// A buffer of `size` random bytes.
pub fn generate_random_data(size: usize) -> (data: Vec<u8>)
    ensures
        data@.len() == size,
{
    let mut data: Vec<u8> = Vec::with_capacity(size);
    let mut i: usize = 0;
    while i < size
        invariant
            i <= size,
            data@.len() == i,
        decreases size - i,
    {
        data.push(random_byte());
        i += 1;
    }
    data
}

} // verus!
