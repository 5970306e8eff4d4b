//! The wall clock and the random source, as the search uses them.
use vstd::prelude::*;
use std::time::{Duration, Instant};
use rand::rngs::ThreadRng;
use crate::movegen::Move;

verus! {

#[verifier::external_type_specification]
#[verifier::external_body]
pub struct ExInstant(std::time::Instant);

#[verifier::external_type_specification]
#[verifier::external_body]
pub struct ExThreadRng(rand::rngs::ThreadRng);

/// Relies on std::time::Instant::now: a reading of the monotonic clock.
#[verifier::external_body]
pub(crate) fn now() -> Instant {
    Instant::now()
}

/// Relies on std::time::Instant::elapsed: the time since `start`.
#[verifier::external_body]
pub(crate) fn elapsed(start: &Instant) -> Duration {
    start.elapsed()
}

/// Relies on std::time::Duration::as_millis: the whole milliseconds of `d`.
#[verifier::external_body]
pub(crate) fn millis(d: &Duration) -> u128 {
    d.as_millis()
}

/// Relies on rand::thread_rng: the thread's random generator.
#[verifier::external_body]
pub(crate) fn thread_rng() -> ThreadRng {
    rand::thread_rng()
}

/// Relies on rand's SliceRandom::shuffle: it only swaps elements, so the moves are
/// the same, in some order.
#[verifier::external_body]
pub(crate) fn shuffle(moves: &mut Vec<Move>, rng: &mut ThreadRng)
    ensures
        final(moves)@.to_multiset() == old(moves)@.to_multiset(),
{
    rand::seq::SliceRandom::shuffle(moves.as_mut_slice(), rng)
}

} // verus!
