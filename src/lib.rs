//! The core of a chess engine: positions as twelve 64-bit piece-sets, legal move
//! generation, a static evaluator, a transposition table and an alpha-beta search,
//! with the text forms the engine reads and writes.
use vstd::prelude::*;

pub mod bits;
pub mod board;
pub mod movegen;
pub mod rules;
pub mod laws;
pub mod zobrist;
pub mod evaluation;
pub mod transposition;
mod clock;
pub mod search;
pub mod notation;
pub mod fen;
pub mod uci;

verus! {

/// Sum of two unsigned integers; the sum must fit in 64 bits.
pub fn add(left: u64, right: u64) -> (r: u64)
    requires
        left + right <= u64::MAX,
    ensures
        r == left + right,
{
    left + right
}

} // verus!
