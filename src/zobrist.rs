//! Zobrist hashing: a fixed key for each feature of a position, XOR-ed together.
use vstd::prelude::*;
use crate::board::{Board, Color, Position};

verus! {

/// The key of feature `i`: the splitmix64 mix of `i + 1`.
pub open spec fn zobrist_key(i: u64) -> u64 {
    let z = i.wrapping_add(1).wrapping_mul(0x9E3779B97F4A7C15u64);
    let z = (z ^ (z >> 30u64)).wrapping_mul(0xBF58476D1CE4E5B9u64);
    let z = (z ^ (z >> 27u64)).wrapping_mul(0x94D049BB133111EBu64);
    z ^ (z >> 31u64)
}

pub fn key(i: u64) -> (r: u64)
    ensures
        r == zobrist_key(i),
{
    let z = i.wrapping_add(1).wrapping_mul(0x9E3779B97F4A7C15u64);
    let z = (z ^ (z >> 30u64)).wrapping_mul(0xBF58476D1CE4E5B9u64);
    let z = (z ^ (z >> 27u64)).wrapping_mul(0x94D049BB133111EBu64);
    z ^ (z >> 31u64)
}

pub open spec fn color_idx(c: Color) -> int {
    if c == Color::White { 0 } else { 1 }
}

/// Feature numbers: a piece of kind `k` and color `c` on square `s` is
/// `(color * 6 + kind) * 64 + s`; then black to move, the castling rights, the en-passant file.
pub const SIDE_FEATURE: u64 = 768;
pub const CASTLING_FEATURE: u64 = 769;
pub const EP_FEATURE: u64 = 1100;

pub open spec fn square_hash(p: Position, s: int) -> u64 {
    match p.piece_at(s) {
        Some((k, c)) => zobrist_key(((color_idx(c) * 6 + k.idx()) * 64 + s) as u64),
        None => 0,
    }
}

pub open spec fn squares_hash(p: Position, n: int) -> u64
    decreases n,
{
    if n <= 0 {
        0
    } else {
        squares_hash(p, n - 1) ^ square_hash(p, n - 1)
    }
}

/// The hash of a position: its pieces, side to move, castling rights and en-passant file.
/// The clocks take no part.
#[verifier::opaque]
pub open spec fn position_hash(p: Position) -> u64 {
    let side = if p.side == Color::Black { zobrist_key(SIDE_FEATURE) } else { 0 };
    let ep = match p.ep {
        Some(e) => zobrist_key((EP_FEATURE + e % 8) as u64),
        None => 0,
    };
    squares_hash(p, 64) ^ side ^ zobrist_key((CASTLING_FEATURE + p.castling) as u64) ^ ep
}

/// The Zobrist hash of `board`.
pub fn hash_board(board: &Board) -> (h: u64)
    ensures
        h == position_hash(board@),
{
    let mut h: u64 = 0;
    let mut s: u8 = 0;
    while s < 64
        invariant
            s <= 64,
            h == squares_hash(board@, s as int),
        decreases 64 - s,
    {
        match board.get_piece_at(s) {
            Some((k, c)) => {
                let ci: u64 = if c == Color::White { 0 } else { 1 };
                h = h ^ key((ci * 6 + k.index() as u64) * 64 + s as u64);
            },
            None => {
                h = h ^ 0;
            },
        }
        s = s + 1;
    }
    let side = if board.side_to_move == Color::Black { key(SIDE_FEATURE) } else { 0 };
    let ep = match board.en_passant_square {
        Some(e) => key(EP_FEATURE + (e % 8) as u64),
        None => 0,
    };
    proof {
        reveal(position_hash);
    }
    h ^ side ^ key(CASTLING_FEATURE + board.castling_rights as u64) ^ ep
}

proof fn lemma_squares_hash_same(p: Position, q: Position, n: int)
    requires
        p.white == q.white,
        p.black == q.black,
    ensures
        squares_hash(p, n) == squares_hash(q, n),
    decreases n,
{
    if n > 0 {
        lemma_squares_hash_same(p, q, n - 1);
    }
}

/// The hash depends only on the pieces, the side to move, the castling rights and the
/// en-passant target: identical positions hash alike whatever their clocks.
pub proof fn lemma_hash_stable(p: Position, q: Position)
    requires
        p.white == q.white,
        p.black == q.black,
        p.side == q.side,
        p.castling == q.castling,
        p.ep == q.ep,
    ensures
        position_hash(p) == position_hash(q),
{
    lemma_squares_hash_same(p, q, 64);
    reveal(position_hash);
}

} // verus!
