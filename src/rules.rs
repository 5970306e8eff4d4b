//! The rules of movement, stated over the board model.
use vstd::prelude::*;
use crate::bits::has_bit;
use crate::board::{Color, Piece, Position, rank_of, file_of};
use crate::movegen::Move;

verus! {

/// The square at rank `r` and file `f`.
pub open spec fn sq(r: int, f: int) -> int {
    r * 8 + f
}

pub open spec fn on_board(r: int, f: int) -> bool {
    0 <= r < 8 && 0 <= f < 8
}

pub open spec fn abs(x: int) -> int {
    if x < 0 { -x } else { x }
}

pub open spec fn sign(x: int) -> int {
    if x < 0 { -1 } else if x > 0 { 1 } else { 0 }
}

/// A piece of kind `k` and color `c` stands at rank `r`, file `f`.
pub open spec fn piece_on(p: Position, c: Color, k: Piece, r: int, f: int) -> bool {
    on_board(r, f) && has_bit(p.bb(c, k), sq(r, f))
}

/// The first occupied square met walking from (r, f) in steps of (dr, df), at most `fuel` steps.
pub open spec fn ray_hit(p: Position, r: int, f: int, dr: int, df: int, fuel: nat) -> Option<int>
    decreases fuel,
{
    if fuel == 0 {
        None
    } else if !on_board(r + dr, f + df) {
        None
    } else if p.occupied(sq(r + dr, f + df)) {
        Some(sq(r + dr, f + df))
    } else {
        ray_hit(p, r + dr, f + df, dr, df, (fuel - 1) as nat)
    }
}

/// Color `c` attacks square `t` along direction (dr, df) with a slider of kind `k` or a queen.
pub open spec fn ray_attack(p: Position, t: int, c: Color, dr: int, df: int, k: Piece) -> bool {
    match ray_hit(p, rank_of(t), file_of(t), dr, df, 8) {
        Some(s) => has_bit(p.bb(c, k), s) || has_bit(p.bb(c, Piece::Queen), s),
        None => false,
    }
}

pub open spec fn pawn_attack(p: Position, t: int, c: Color) -> bool {
    let (r, f) = (rank_of(t), file_of(t));
    let back = if c == Color::White { -1int } else { 1int };
    piece_on(p, c, Piece::Pawn, r + back, f - 1) || piece_on(p, c, Piece::Pawn, r + back, f + 1)
}

pub open spec fn knight_attack(p: Position, t: int, c: Color) -> bool {
    let (r, f) = (rank_of(t), file_of(t));
    let k = Piece::Knight;
    piece_on(p, c, k, r - 2, f - 1) || piece_on(p, c, k, r - 2, f + 1)
        || piece_on(p, c, k, r - 1, f - 2) || piece_on(p, c, k, r - 1, f + 2)
        || piece_on(p, c, k, r + 1, f - 2) || piece_on(p, c, k, r + 1, f + 2)
        || piece_on(p, c, k, r + 2, f - 1) || piece_on(p, c, k, r + 2, f + 1)
}

pub open spec fn king_attack(p: Position, t: int, c: Color) -> bool {
    let (r, f) = (rank_of(t), file_of(t));
    let k = Piece::King;
    piece_on(p, c, k, r - 1, f - 1) || piece_on(p, c, k, r - 1, f)
        || piece_on(p, c, k, r - 1, f + 1) || piece_on(p, c, k, r, f - 1)
        || piece_on(p, c, k, r, f + 1) || piece_on(p, c, k, r + 1, f - 1)
        || piece_on(p, c, k, r + 1, f) || piece_on(p, c, k, r + 1, f + 1)
}

pub open spec fn slider_attack(p: Position, t: int, c: Color) -> bool {
    ray_attack(p, t, c, 1, 1, Piece::Bishop) || ray_attack(p, t, c, 1, -1, Piece::Bishop)
        || ray_attack(p, t, c, -1, 1, Piece::Bishop) || ray_attack(p, t, c, -1, -1, Piece::Bishop)
        || ray_attack(p, t, c, 1, 0, Piece::Rook) || ray_attack(p, t, c, -1, 0, Piece::Rook)
        || ray_attack(p, t, c, 0, 1, Piece::Rook) || ray_attack(p, t, c, 0, -1, Piece::Rook)
}

/// Square `t` is attacked by a piece of color `c`.
pub open spec fn attacked(p: Position, t: int, c: Color) -> bool {
    pawn_attack(p, t, c) || knight_attack(p, t, c) || king_attack(p, t, c) || slider_attack(p, t, c)
}

/// Some king of color `c` stands on an attacked square.
pub open spec fn in_check(p: Position, c: Color) -> bool {
    exists|s: int| 0 <= s < 64 && #[trigger] has_bit(p.bb(c, Piece::King), s) && attacked(p, s, c.opp())
}

pub open spec fn pawn_dir(c: Color) -> int {
    if c == Color::White { 1 } else { -1 }
}

pub open spec fn pawn_start_rank(c: Color) -> int {
    if c == Color::White { 1 } else { 6 }
}

/// The rank from which a pawn of color `c` may capture en passant.
pub open spec fn ep_from_rank(c: Color) -> int {
    if c == Color::White { 4 } else { 3 }
}

pub open spec fn last_rank(c: Color) -> int {
    if c == Color::White { 7 } else { 0 }
}

/// A pawn of the side to move may go from `from` to `to`: a push, a double push
/// from its starting rank, a diagonal capture, or an en-passant capture.
pub open spec fn pawn_move(p: Position, from: int, to: int) -> bool {
    let c = p.side;
    let d = pawn_dir(c);
    let dr = rank_of(to) - rank_of(from);
    let df = file_of(to) - file_of(from);
    ||| df == 0 && dr == d && !p.occupied(to)
    ||| df == 0 && dr == 2 * d && rank_of(from) == pawn_start_rank(c)
            && !p.occupied(sq(rank_of(from) + d, file_of(from))) && !p.occupied(to)
    ||| abs(df) == 1 && dr == d && p.occupied_by(c.opp(), to)
    ||| abs(df) == 1 && dr == d && rank_of(from) == ep_from_rank(c) && p.ep == Some(to as u8)
            && !p.occupied(to) && has_bit(p.bb(c.opp(), Piece::Pawn), sq(rank_of(from), file_of(to)))
}

pub open spec fn knight_move(from: int, to: int) -> bool {
    let dr = abs(rank_of(to) - rank_of(from));
    let df = abs(file_of(to) - file_of(from));
    (dr == 1 && df == 2) || (dr == 2 && df == 1)
}

pub open spec fn king_step(from: int, to: int) -> bool {
    let dr = abs(rank_of(to) - rank_of(from));
    let df = abs(file_of(to) - file_of(from));
    dr <= 1 && df <= 1 && !(dr == 0 && df == 0)
}

/// The `n - 1` squares after (r, f) in steps of (dr, df) are all empty.
pub open spec fn clear_steps(p: Position, r: int, f: int, dr: int, df: int, n: int) -> bool
    decreases n,
{
    if n <= 1 {
        true
    } else {
        !p.occupied(sq(r + dr, f + df)) && clear_steps(p, r + dr, f + df, dr, df, n - 1)
    }
}

/// `to` lies on a diagonal (or, if not `diagonal`, on a rank or file) through `from`,
/// and every square strictly between them is empty.
pub open spec fn slide(p: Position, from: int, to: int, diagonal: bool) -> bool {
    let dr = rank_of(to) - rank_of(from);
    let df = file_of(to) - file_of(from);
    let aligned = if diagonal {
        abs(dr) == abs(df) && dr != 0
    } else {
        (dr == 0 || df == 0) && !(dr == 0 && df == 0)
    };
    let n = if abs(dr) > abs(df) { abs(dr) } else { abs(df) };
    aligned && clear_steps(p, rank_of(from), file_of(from), sign(dr), sign(df), n)
}

pub open spec fn has_right(p: Position, right: u8) -> bool {
    p.castling & right != 0
}

/// The king of the side to move castles from its home square to `to`: the right is held,
/// the rook is home, the squares between are empty, and the king's square, the square it
/// passes and its destination are not attacked.
pub open spec fn castle(p: Position, from: int, to: int) -> bool {
    let c = p.side;
    let o = c.opp();
    let home: int = if c == Color::White { 4 } else { 60 };
    let (king_right, queen_right) = if c == Color::White { (1u8, 2u8) } else { (4u8, 8u8) };
    from == home && (
        (to == home + 2 && has_right(p, king_right) && has_bit(p.bb(c, Piece::Rook), home + 3)
            && !p.occupied(home + 1) && !p.occupied(home + 2)
            && !attacked(p, home, o) && !attacked(p, home + 1, o) && !attacked(p, home + 2, o))
        || (to == home - 2 && has_right(p, queen_right) && has_bit(p.bb(c, Piece::Rook), home - 4)
            && !p.occupied(home - 1) && !p.occupied(home - 2) && !p.occupied(home - 3)
            && !attacked(p, home, o) && !attacked(p, home - 1, o) && !attacked(p, home - 2, o))
    )
}

/// The piece of the side to move on `from` may go to `to` by its movement rules
/// (the mover's own king may still be left attacked).
pub open spec fn reachable(p: Position, from: int, to: int) -> bool {
    &&& 0 <= from < 64
    &&& 0 <= to < 64
    &&& !p.occupied_by(p.side, to)
    &&& match p.kind_at(p.side, from) {
        Some(Piece::Pawn) => pawn_move(p, from, to),
        Some(Piece::Knight) => knight_move(from, to),
        Some(Piece::Bishop) => slide(p, from, to, true),
        Some(Piece::Rook) => slide(p, from, to, false),
        Some(Piece::Queen) => slide(p, from, to, true) || slide(p, from, to, false),
        Some(Piece::King) => king_step(from, to) || castle(p, from, to),
        None => false,
    }
}

/// A pawn move from `from` to `to` reaches the last rank.
pub open spec fn needs_promotion(p: Position, from: int, to: int) -> bool {
    p.kind_at(p.side, from) == Some(Piece::Pawn) && rank_of(to) == last_rank(p.side)
}

pub open spec fn promo_ok(p: Position, from: int, to: int, promo: Option<Piece>) -> bool {
    if needs_promotion(p, from, to) {
        promo == Some(Piece::Queen) || promo == Some(Piece::Rook) || promo == Some(Piece::Bishop)
            || promo == Some(Piece::Knight)
    } else {
        promo.is_none()
    }
}

/// A pawn moving diagonally onto an empty square.
pub open spec fn ep_shape(p: Position, from: int, to: int) -> bool {
    p.kind_at(p.side, from) == Some(Piece::Pawn) && file_of(from) != file_of(to) && !p.occupied(to)
}

/// A king moving two squares.
pub open spec fn castle_shape(p: Position, from: int, to: int) -> bool {
    p.kind_at(p.side, from) == Some(Piece::King) && (to == from + 2 || from == to + 2)
}

/// The move from `from` to `to` with promotion `promo`, its other fields as the board implies.
pub open spec fn canonical(p: Position, from: int, to: int, promo: Option<Piece>) -> Move {
    let c = p.side;
    let ep = ep_shape(p, from, to);
    let castling = castle_shape(p, from, to);
    let rook_from: int = if to > from {
        if c == Color::White { 7 } else { 63 }
    } else {
        if c == Color::White { 0 } else { 56 }
    };
    let rook_to: int = if to > from {
        if c == Color::White { 5 } else { 61 }
    } else {
        if c == Color::White { 3 } else { 59 }
    };
    Move {
        from: from as u8,
        to: to as u8,
        piece: match p.kind_at(c, from) {
            Some(k) => k,
            None => Piece::Pawn,
        },
        captured_piece: if ep { Some(Piece::Pawn) } else { p.kind_at(c.opp(), to) },
        promotion: promo,
        is_en_passant: ep,
        is_castling: castling,
        castling_rook_from: if castling { Some(rook_from as u8) } else { None },
        castling_rook_to: if castling { Some(rook_to as u8) } else { None },
    }
}

/// `m` is a legal move of the side to move: the mover may go there, the promotion
/// matches, every field is what the board implies, and the mover's king is not left attacked.
pub open spec fn legal(p: Position, m: Move) -> bool {
    &&& m.wf()
    &&& reachable(p, m.from as int, m.to as int)
    &&& promo_ok(p, m.from as int, m.to as int, m.promotion)
    &&& m == canonical(p, m.from as int, m.to as int, m.promotion)
    &&& !in_check(p.after(m), p.side)
}

pub open spec fn promotion_choices(p: Position, from: int, to: int) -> Seq<Option<Piece>> {
    if needs_promotion(p, from, to) {
        seq![Some(Piece::Queen), Some(Piece::Rook), Some(Piece::Bishop), Some(Piece::Knight)]
    } else {
        seq![None]
    }
}

pub open spec fn keep_if_safe(p: Position, m: Move) -> Seq<Move> {
    if !in_check(p.after(m), p.side) {
        seq![m]
    } else {
        seq![]
    }
}

pub open spec fn moves_with(p: Position, from: int, to: int, choices: Seq<Option<Piece>>) -> Seq<Move>
    decreases choices.len(),
{
    if choices.len() == 0 {
        seq![]
    } else {
        moves_with(p, from, to, choices.drop_last())
            + keep_if_safe(p, canonical(p, from, to, choices.last()))
    }
}

/// The legal moves from `from` to `to`, in the order queen, rook, bishop, knight for promotions.
pub open spec fn moves_at(p: Position, from: int, to: int) -> Seq<Move> {
    if reachable(p, from, to) {
        moves_with(p, from, to, promotion_choices(p, from, to))
    } else {
        seq![]
    }
}

/// The legal moves whose index `from * 64 + to` is below `n`, by increasing index.
pub open spec fn legal_prefix(p: Position, n: int) -> Seq<Move>
    decreases n,
{
    if n <= 0 {
        seq![]
    } else {
        legal_prefix(p, n - 1) + moves_at(p, (n - 1) / 64, (n - 1) % 64)
    }
}

/// All legal moves of the side to move.
pub open spec fn legal_moves(p: Position) -> Seq<Move> {
    legal_prefix(p, 4096)
}

/// How many of the squares below `n` hold a piece of color `c`.
pub open spec fn count_own(p: Position, c: Color, n: int) -> nat
    decreases n,
{
    if n <= 0 {
        0
    } else {
        count_own(p, c, n - 1) + if p.occupied_by(c, n - 1) { 1nat } else { 0nat }
    }
}

/// How many of the squares below `n` hold a piece of kind `k` and color `c`.
pub open spec fn count_kind(p: Position, c: Color, k: Piece, n: int) -> nat
    decreases n,
{
    if n <= 0 {
        0
    } else {
        count_kind(p, c, k, n - 1) + if p.kind_at(c, n - 1) == Some(k) { 1nat } else { 0nat }
    }
}

/// The first square from `s` on holding a piece of kind `k` and color `c`, or 64.
pub open spec fn first_of_kind(p: Position, c: Color, k: Piece, s: int) -> int
    decreases 64 - s,
{
    if s >= 64 {
        64
    } else if p.kind_at(c, s) == Some(k) {
        s
    } else {
        first_of_kind(p, c, k, s + 1)
    }
}

/// 0 for a dark square, 1 for a light one.
pub open spec fn shade(s: int) -> int {
    (rank_of(s) + file_of(s)) % 2
}

/// K vs K, K and a minor piece vs K, or K and B vs K and B with both bishops on one shade.
pub open spec fn insufficient_material(p: Position) -> bool {
    let w = count_own(p, Color::White, 64);
    let b = count_own(p, Color::Black, 64);
    let wb = count_kind(p, Color::White, Piece::Bishop, 64);
    let bb = count_kind(p, Color::Black, Piece::Bishop, 64);
    let wm = wb + count_kind(p, Color::White, Piece::Knight, 64);
    let bm = bb + count_kind(p, Color::Black, Piece::Knight, 64);
    ||| w == 1 && b == 1
    ||| w == 2 && wm == 1 && b == 1
    ||| b == 2 && bm == 1 && w == 1
    ||| w == 2 && b == 2 && wb == 1 && bb == 1
            && shade(first_of_kind(p, Color::White, Piece::Bishop, 0))
                == shade(first_of_kind(p, Color::Black, Piece::Bishop, 0))
}

} // verus!
