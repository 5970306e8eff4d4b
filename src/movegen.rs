//! Moves, attack queries, legality and the game-state classifier.
use vstd::prelude::*;
use crate::bits::{has_bit, test_bit};
use crate::board::{Board, Color, Piece, Position, file_of, rank_of};
use crate::rules::{
    attacked, canonical, castle, clear_steps, count_kind, count_own, first_of_kind, in_check,
    insufficient_material, keep_if_safe, king_step, knight_move, legal, legal_moves, legal_prefix,
    moves_at, moves_with, needs_promotion, on_board, pawn_move, piece_on, promotion_choices,
    ray_attack, ray_hit, reachable, slide, sq,
};
use crate::zobrist::{hash_board, position_hash};
use vstd::arithmetic::div_mod::lemma_fundamental_div_mod_converse;

verus! {

/// A move, complete enough to be played without looking at other squares: the moving
/// kind before promotion, the captured kind (en passant included), the promotion kind,
/// and the en-passant and castling flags with the castling rook's squares.
#[derive(Debug, Clone, Copy, PartialEq, Eq, Structural)]
pub struct Move {
    pub from: u8,
    pub to: u8,
    pub piece: Piece,
    pub captured_piece: Option<Piece>,
    pub promotion: Option<Piece>,
    pub is_en_passant: bool,
    pub is_castling: bool,
    pub castling_rook_from: Option<u8>,
    pub castling_rook_to: Option<u8>,
}

impl Move {
    /// A plain move: no capture, promotion, en passant or castling.
    pub fn new(from: u8, to: u8, piece: Piece) -> (r: Move)
        ensures
            r == (Move { from, to, piece, captured_piece: None, promotion: None, is_en_passant: false,
                is_castling: false, castling_rook_from: None, castling_rook_to: None }),
    {
        Move {
            from,
            to,
            piece,
            captured_piece: None,
            promotion: None,
            is_en_passant: false,
            is_castling: false,
            castling_rook_from: None,
            castling_rook_to: None,
        }
    }

    /// An en-passant capture, which takes a pawn.
    pub fn new_en_passant(from: u8, to: u8, piece: Piece) -> (r: Move)
        ensures
            r == (Move { from, to, piece, captured_piece: Some(Piece::Pawn), promotion: None,
                is_en_passant: true, is_castling: false, castling_rook_from: None, castling_rook_to: None }),
    {
        Move {
            from,
            to,
            piece,
            captured_piece: Some(Piece::Pawn),
            promotion: None,
            is_en_passant: true,
            is_castling: false,
            castling_rook_from: None,
            castling_rook_to: None,
        }
    }

    /// A castling move of the king, with the rook's squares.
    pub fn new_castling(from: u8, to: u8, rook_from: u8, rook_to: u8) -> (r: Move)
        ensures
            r == (Move { from, to, piece: Piece::King, captured_piece: None, promotion: None,
                is_en_passant: false, is_castling: true, castling_rook_from: Some(rook_from),
                castling_rook_to: Some(rook_to) }),
    {
        Move {
            from,
            to,
            piece: Piece::King,
            captured_piece: None,
            promotion: None,
            is_en_passant: false,
            is_castling: true,
            castling_rook_from: Some(rook_from),
            castling_rook_to: Some(rook_to),
        }
    }

    /// A pawn push that promotes.
    pub fn new_promotion(from: u8, to: u8, promotion: Piece) -> (r: Move)
        ensures
            r == (Move { from, to, piece: Piece::Pawn, captured_piece: None, promotion: Some(promotion),
                is_en_passant: false, is_castling: false, castling_rook_from: None, castling_rook_to: None }),
    {
        Move {
            from,
            to,
            piece: Piece::Pawn,
            captured_piece: None,
            promotion: Some(promotion),
            is_en_passant: false,
            is_castling: false,
            castling_rook_from: None,
            castling_rook_to: None,
        }
    }

    /// A pawn capture that promotes.
    pub fn new_promotion_capture(from: u8, to: u8, captured_piece: Piece, promotion: Piece) -> (r: Move)
        ensures
            r == (Move { from, to, piece: Piece::Pawn, captured_piece: Some(captured_piece),
                promotion: Some(promotion), is_en_passant: false, is_castling: false,
                castling_rook_from: None, castling_rook_to: None }),
    {
        Move {
            from,
            to,
            piece: Piece::Pawn,
            captured_piece: Some(captured_piece),
            promotion: Some(promotion),
            is_en_passant: false,
            is_castling: false,
            castling_rook_from: None,
            castling_rook_to: None,
        }
    }

    /// Squares on the board, and an en-passant capture square that is too.
    pub open spec fn wf(self) -> bool {
        &&& self.from < 64
        &&& self.to < 64
        &&& self.is_en_passant ==> 8 <= self.to < 56
    }
}

} // verus!

verus! {

/// The classification of a position after a ply.
#[derive(Debug, Clone, Copy, PartialEq, Eq, Structural)]
pub enum GameState {
    Ongoing,
    /// The color that won.
    Checkmate(Color),
    Stalemate,
    ThreefoldRepetition,
    FiftyMoveRule,
    InsufficientMaterial,
}

/// How many of the first `n` earlier positions hash like `p`.
pub open spec fn repeats(p: Position, history: Seq<(Board, Move)>, n: int) -> nat
    decreases n,
{
    if n <= 0 {
        0
    } else {
        repeats(p, history, n - 1) + if position_hash(history[n - 1].0@) == position_hash(p) {
            1nat
        } else {
            0nat
        }
    }
}

/// The current position has occurred three times, counting itself.
pub open spec fn threefold(p: Position, history: Seq<(Board, Move)>) -> bool {
    repeats(p, history, history.len() as int) + 1 >= 3
}

/// The classification of `p` after a ply, given the earlier positions.
pub open spec fn game_state(p: Position, history: Seq<(Board, Move)>) -> GameState {
    if insufficient_material(p) {
        GameState::InsufficientMaterial
    } else if p.halfmove >= 100 {
        GameState::FiftyMoveRule
    } else if threefold(p, history) {
        GameState::ThreefoldRepetition
    } else if legal_moves(p).len() == 0 {
        if in_check(p, p.side) {
            GameState::Checkmate(p.side.opp())
        } else {
            GameState::Stalemate
        }
    } else {
        GameState::Ongoing
    }
}

/// Move generation, attack queries and the game-state classifier.
pub struct MoveGenerator {
    pub bishop_magics: [u64; 64],
    pub rook_magics: [u64; 64],
}

/// The piece-set of kind `k` and color `c`.
pub fn set_of(b: &Board, c: Color, k: Piece) -> (r: u64)
    ensures
        r == b@.bb(c, k),
{
    if c == Color::White {
        b.white_pieces[k.index()]
    } else {
        b.black_pieces[k.index()]
    }
}

/// Whether any piece stands on `s`.
pub fn is_occupied(b: &Board, s: u8) -> (r: bool)
    requires
        s < 64,
    ensures
        r == b@.occupied(s as int),
{
    b.kind_at(Color::White, s).is_some() || b.kind_at(Color::Black, s).is_some()
}

fn piece_on_exec(b: &Board, c: Color, k: Piece, r: i8, f: i8) -> (res: bool)
    requires
        -16 <= r <= 16,
        -16 <= f <= 16,
    ensures
        res == piece_on(b@, c, k, r as int, f as int),
{
    if 0 <= r && r < 8 && 0 <= f && f < 8 {
        test_bit(set_of(b, c, k), (r * 8 + f) as u8)
    } else {
        false
    }
}

/// Walks from `t` along (dr, df) and tells whether the first piece met is
/// color `c`'s slider of kind `k` or queen.
fn ray_attack_exec(b: &Board, t: u8, c: Color, dr: i8, df: i8, k: Piece) -> (res: bool)
    requires
        t < 64,
        -1 <= dr <= 1,
        -1 <= df <= 1,
    ensures
        res == ray_attack(b@, t as int, c, dr as int, df as int, k),
{
    let mut r: i8 = (t / 8) as i8;
    let mut f: i8 = (t % 8) as i8;
    let mut fuel: u8 = 8;
    while fuel > 0
        invariant
            on_board(r as int, f as int),
            -1 <= dr <= 1,
            -1 <= df <= 1,
            ray_hit(b@, rank_of(t as int), file_of(t as int), dr as int, df as int, 8)
                == ray_hit(b@, r as int, f as int, dr as int, df as int, fuel as nat),
        decreases fuel,
    {
        let nr = r + dr;
        let nf = f + df;
        if !(0 <= nr && nr < 8 && 0 <= nf && nf < 8) {
            return false;
        }
        let s = (nr * 8 + nf) as u8;
        if is_occupied(b, s) {
            return test_bit(set_of(b, c, k), s) || test_bit(set_of(b, c, Piece::Queen), s);
        }
        r = nr;
        f = nf;
        fuel = fuel - 1;
    }
    false
}

impl MoveGenerator {
    pub fn new() -> (r: MoveGenerator) {
        MoveGenerator { bishop_magics: [0; 64], rook_magics: [0; 64] }
    }

    /// Whether a piece of `attacker_color` attacks `square`.
    pub fn is_square_under_attack(&self, board: &Board, square: u8, attacker_color: Color) -> (r: bool)
        requires
            square < 64,
        ensures
            r == attacked(board@, square as int, attacker_color),
    {
        let c = attacker_color;
        let rank = (square / 8) as i8;
        let file = (square % 8) as i8;
        let back: i8 = if c == Color::White { -1 } else { 1 };
        let pawn = piece_on_exec(board, c, Piece::Pawn, rank + back, file - 1)
            || piece_on_exec(board, c, Piece::Pawn, rank + back, file + 1);
        if pawn {
            return true;
        }
        let n = Piece::Knight;
        let knight = piece_on_exec(board, c, n, rank - 2, file - 1)
            || piece_on_exec(board, c, n, rank - 2, file + 1)
            || piece_on_exec(board, c, n, rank - 1, file - 2)
            || piece_on_exec(board, c, n, rank - 1, file + 2)
            || piece_on_exec(board, c, n, rank + 1, file - 2)
            || piece_on_exec(board, c, n, rank + 1, file + 2)
            || piece_on_exec(board, c, n, rank + 2, file - 1)
            || piece_on_exec(board, c, n, rank + 2, file + 1);
        if knight {
            return true;
        }
        let k = Piece::King;
        let king = piece_on_exec(board, c, k, rank - 1, file - 1)
            || piece_on_exec(board, c, k, rank - 1, file)
            || piece_on_exec(board, c, k, rank - 1, file + 1)
            || piece_on_exec(board, c, k, rank, file - 1)
            || piece_on_exec(board, c, k, rank, file + 1)
            || piece_on_exec(board, c, k, rank + 1, file - 1)
            || piece_on_exec(board, c, k, rank + 1, file)
            || piece_on_exec(board, c, k, rank + 1, file + 1);
        if king {
            return true;
        }
        ray_attack_exec(board, square, c, 1, 1, Piece::Bishop)
            || ray_attack_exec(board, square, c, 1, -1, Piece::Bishop)
            || ray_attack_exec(board, square, c, -1, 1, Piece::Bishop)
            || ray_attack_exec(board, square, c, -1, -1, Piece::Bishop)
            || ray_attack_exec(board, square, c, 1, 0, Piece::Rook)
            || ray_attack_exec(board, square, c, -1, 0, Piece::Rook)
            || ray_attack_exec(board, square, c, 0, 1, Piece::Rook)
            || ray_attack_exec(board, square, c, 0, -1, Piece::Rook)
    }

    /// Whether a king of `color` stands attacked.
    pub fn is_king_in_check(&self, board: &Board, color: Color) -> (r: bool)
        ensures
            r == in_check(board@, color),
    {
        let kings = set_of(board, color, Piece::King);
        let mut s: u8 = 0;
        while s < 64
            invariant
                s <= 64,
                kings == board@.bb(color, Piece::King),
                forall|t: int| 0 <= t < s ==> !(#[trigger] has_bit(kings, t) && attacked(board@, t, color.opp())),
            decreases 64 - s,
        {
            if test_bit(kings, s) && self.is_square_under_attack(board, s, color.opposite()) {
                return true;
            }
            s = s + 1;
        }
        false
    }
}

fn pawn_move_exec(b: &Board, from: u8, to: u8) -> (r: bool)
    requires
        from < 64,
        to < 64,
    ensures
        r == pawn_move(b@, from as int, to as int),
{
    let c = b.side_to_move;
    let white = c == Color::White;
    let d: i8 = if white { 1 } else { -1 };
    let fr = (from / 8) as i8;
    let ff = (from % 8) as i8;
    let tr = (to / 8) as i8;
    let tf = (to % 8) as i8;
    let dr = tr - fr;
    let df = tf - ff;
    if df == 0 && dr == d {
        return !is_occupied(b, to);
    }
    if df == 0 && dr == 2 * d {
        let start: i8 = if white { 1 } else { 6 };
        if fr != start {
            return false;
        }
        let mid = ((fr + d) * 8 + ff) as u8;
        return !is_occupied(b, mid) && !is_occupied(b, to);
    }
    if (df == 1 || df == -1) && dr == d {
        if b.kind_at(c.opposite(), to).is_some() {
            return true;
        }
        let ep_rank: i8 = if white { 4 } else { 3 };
        if fr != ep_rank {
            return false;
        }
        match b.en_passant_square {
            Some(e) => {
                if e != to {
                    return false;
                }
            },
            None => {
                return false;
            },
        }
        if is_occupied(b, to) {
            return false;
        }
        let behind = (fr * 8 + tf) as u8;
        return test_bit(set_of(b, c.opposite(), Piece::Pawn), behind);
    }
    false
}

fn knight_move_exec(from: u8, to: u8) -> (r: bool)
    requires
        from < 64,
        to < 64,
    ensures
        r == knight_move(from as int, to as int),
{
    let dr = (to / 8) as i8 - (from / 8) as i8;
    let df = (to % 8) as i8 - (from % 8) as i8;
    let adr = if dr < 0 { -dr } else { dr };
    let adf = if df < 0 { -df } else { df };
    (adr == 1 && adf == 2) || (adr == 2 && adf == 1)
}

fn king_step_exec(from: u8, to: u8) -> (r: bool)
    requires
        from < 64,
        to < 64,
    ensures
        r == king_step(from as int, to as int),
{
    let dr = (to / 8) as i8 - (from / 8) as i8;
    let df = (to % 8) as i8 - (from % 8) as i8;
    let adr = if dr < 0 { -dr } else { dr };
    let adf = if df < 0 { -df } else { df };
    adr <= 1 && adf <= 1 && !(adr == 0 && adf == 0)
}

fn slide_exec(b: &Board, from: u8, to: u8, diagonal: bool) -> (res: bool)
    requires
        from < 64,
        to < 64,
    ensures
        res == slide(b@, from as int, to as int, diagonal),
{
    let fr = (from / 8) as i8;
    let ff = (from % 8) as i8;
    let tr = (to / 8) as i8;
    let tf = (to % 8) as i8;
    let dr = tr - fr;
    let df = tf - ff;
    let adr = if dr < 0 { -dr } else { dr };
    let adf = if df < 0 { -df } else { df };
    let aligned = if diagonal {
        adr == adf && dr != 0
    } else {
        (dr == 0 || df == 0) && !(dr == 0 && df == 0)
    };
    if !aligned {
        return false;
    }
    let sdr: i8 = if dr < 0 { -1 } else if dr > 0 { 1 } else { 0 };
    let sdf: i8 = if df < 0 { -1 } else if df > 0 { 1 } else { 0 };
    let n: i8 = if adr > adf { adr } else { adf };
    assert(slide(b@, from as int, to as int, diagonal)
        == clear_steps(b@, fr as int, ff as int, sdr as int, sdf as int, n as int));
    let mut r = fr;
    let mut f = ff;
    let mut k = n;
    while k > 1
        invariant
            on_board(r as int, f as int),
            0 <= tr < 8,
            0 <= tf < 8,
            1 <= k <= 8,
            -1 <= sdr <= 1,
            -1 <= sdf <= 1,
            sdr == 1 ==> tr == r + k,
            sdr == -1 ==> tr == r - k,
            sdr == 0 ==> tr == r,
            sdf == 1 ==> tf == f + k,
            sdf == -1 ==> tf == f - k,
            sdf == 0 ==> tf == f,
            slide(b@, from as int, to as int, diagonal)
                == clear_steps(b@, fr as int, ff as int, sdr as int, sdf as int, n as int),
            clear_steps(b@, fr as int, ff as int, sdr as int, sdf as int, n as int)
                == clear_steps(b@, r as int, f as int, sdr as int, sdf as int, k as int),
        decreases k,
    {
        let nr = r + sdr;
        let nf = f + sdf;
        assert(on_board(nr as int, nf as int));
        assert(clear_steps(b@, r as int, f as int, sdr as int, sdf as int, k as int)
            == (!b@.occupied(sq(nr as int, nf as int))
            && clear_steps(b@, nr as int, nf as int, sdr as int, sdf as int, k - 1)));
        let s = (nr * 8 + nf) as u8;
        assert(s as int == sq(nr as int, nf as int));
        if is_occupied(b, s) {
            return false;
        }
        r = nr;
        f = nf;
        k = k - 1;
    }
    true
}

fn needs_promotion_exec(b: &Board, from: u8, to: u8) -> (r: bool)
    requires
        from < 64,
        to < 64,
    ensures
        r == needs_promotion(b@, from as int, to as int),
{
    let last: u8 = if b.side_to_move == Color::White { 7 } else { 0 };
    b.kind_at(b.side_to_move, from) == Some(Piece::Pawn) && to / 8 == last
}

fn canonical_move(b: &Board, from: u8, to: u8, promo: Option<Piece>) -> (m: Move)
    requires
        from < 64,
        to < 64,
    ensures
        m == canonical(b@, from as int, to as int, promo),
{
    let c = b.side_to_move;
    let white = c == Color::White;
    let kind = b.kind_at(c, from);
    let piece = match kind {
        Some(k) => k,
        None => Piece::Pawn,
    };
    let ep = kind == Some(Piece::Pawn) && from % 8 != to % 8 && !is_occupied(b, to);
    let castling = kind == Some(Piece::King) && (to == from + 2 || from == to + 2);
    let rook_from: u8 = if to > from {
        if white { 7 } else { 63 }
    } else {
        if white { 0 } else { 56 }
    };
    let rook_to: u8 = if to > from {
        if white { 5 } else { 61 }
    } else {
        if white { 3 } else { 59 }
    };
    Move {
        from,
        to,
        piece,
        captured_piece: if ep { Some(Piece::Pawn) } else { b.kind_at(c.opposite(), to) },
        promotion: promo,
        is_en_passant: ep,
        is_castling: castling,
        castling_rook_from: if castling { Some(rook_from) } else { None },
        castling_rook_to: if castling { Some(rook_to) } else { None },
    }
}

/// A move that the rules allow is well formed.
pub proof fn lemma_canonical_wf(p: Position, from: int, to: int, promo: Option<Piece>)
    requires
        reachable(p, from, to),
    ensures
        canonical(p, from, to, promo).wf(),
{
    let m = canonical(p, from, to, promo);
    if m.is_en_passant {
        assert(pawn_move(p, from, to));
        assert(rank_of(to) == 5 || rank_of(to) == 2);
    }
}

/// The index `from * 64 + to` splits back into `from` and `to`.
pub proof fn lemma_index(from: int, to: int)
    requires
        0 <= to < 64,
    ensures
        (from * 64 + to) / 64 == from,
        (from * 64 + to) % 64 == to,
{
    lemma_fundamental_div_mod_converse(from * 64 + to, 64, from, to);
}

/// No move starts on a square where the side to move has no piece.
proof fn lemma_empty_from(p: Position, from: int, j: int)
    requires
        0 <= from < 64,
        0 <= j <= 64,
        p.kind_at(p.side, from).is_none(),
    ensures
        legal_prefix(p, from * 64 + j) == legal_prefix(p, from * 64),
    decreases j,
{
    if j > 0 {
        lemma_empty_from(p, from, j - 1);
        lemma_index(from, j - 1);
        assert(!reachable(p, from, j - 1));
        assert(legal_prefix(p, from * 64 + j) == legal_prefix(p, from * 64 + j - 1)
            + moves_at(p, from, j - 1));
        assert(legal_prefix(p, from * 64 + j) =~= legal_prefix(p, from * 64 + j - 1));
    }
}

impl MoveGenerator {
    fn castle_exec(&self, b: &Board, from: u8, to: u8) -> (r: bool)
        requires
            from < 64,
            to < 64,
        ensures
            r == castle(b@, from as int, to as int),
    {
        let c = b.side_to_move;
        let o = c.opposite();
        let white = c == Color::White;
        let home: u8 = if white { 4 } else { 60 };
        if from != home {
            return false;
        }
        let (king_right, queen_right): (u8, u8) = if white { (1, 2) } else { (4, 8) };
        let rooks = set_of(b, c, Piece::Rook);
        if to == home + 2 {
            b.castling_rights & king_right != 0 && test_bit(rooks, home + 3)
                && !is_occupied(b, home + 1) && !is_occupied(b, home + 2)
                && !self.is_square_under_attack(b, home, o)
                && !self.is_square_under_attack(b, home + 1, o)
                && !self.is_square_under_attack(b, home + 2, o)
        } else if to + 2 == home {
            b.castling_rights & queen_right != 0 && test_bit(rooks, home - 4)
                && !is_occupied(b, home - 1) && !is_occupied(b, home - 2) && !is_occupied(b, home - 3)
                && !self.is_square_under_attack(b, home, o)
                && !self.is_square_under_attack(b, home - 1, o)
                && !self.is_square_under_attack(b, home - 2, o)
        } else {
            false
        }
    }

    /// Whether the piece of the side to move on `from` may go to `to` by its movement rules.
    pub fn is_reachable(&self, b: &Board, from: u8, to: u8) -> (r: bool)
        requires
            from < 64,
            to < 64,
        ensures
            r == reachable(b@, from as int, to as int),
    {
        let c = b.side_to_move;
        if b.kind_at(c, to).is_some() {
            return false;
        }
        match b.kind_at(c, from) {
            None => false,
            Some(Piece::Pawn) => pawn_move_exec(b, from, to),
            Some(Piece::Knight) => knight_move_exec(from, to),
            Some(Piece::Bishop) => slide_exec(b, from, to, true),
            Some(Piece::Rook) => slide_exec(b, from, to, false),
            Some(Piece::Queen) => slide_exec(b, from, to, true) || slide_exec(b, from, to, false),
            Some(Piece::King) => king_step_exec(from, to) || self.castle_exec(b, from, to),
        }
    }

    fn push_if_safe(&self, b: &Board, m: Move, moves: &mut Vec<Move>)
        requires
            m.wf(),
        ensures
            final(moves)@ == old(moves)@ + keep_if_safe(b@, m),
    {
        let mut copy = *b;
        copy.make_move(m);
        if !self.is_king_in_check(&copy, b.side_to_move) {
            moves.push(m);
        } else {
            assert(old(moves)@ + keep_if_safe(b@, m) =~= old(moves)@);
        }
    }

    /// Appends the legal moves from `from` to `to`.
    fn push_moves_at(&self, b: &Board, from: u8, to: u8, moves: &mut Vec<Move>)
        requires
            from < 64,
            to < 64,
        ensures
            final(moves)@ == old(moves)@ + moves_at(b@, from as int, to as int),
    {
        let ghost p = b@;
        if !self.is_reachable(b, from, to) {
            assert(old(moves)@ + moves_at(p, from as int, to as int) =~= old(moves)@);
            return;
        }
        let ghost choices = promotion_choices(p, from as int, to as int);
        if needs_promotion_exec(b, from, to) {
            let promos: [Piece; 4] = [Piece::Queen, Piece::Rook, Piece::Bishop, Piece::Knight];
            let ghost start = moves@;
            let mut i: usize = 0;
            while i < 4
                invariant
                    i <= 4,
                    from < 64,
                    to < 64,
                    p == b@,
                    reachable(p, from as int, to as int),
                    choices == promotion_choices(p, from as int, to as int),
                    choices.len() == 4,
                    forall|j: int| 0 <= j < 4 ==> choices[j] == Some(#[trigger] promos@[j]),
                    moves@ == start + moves_with(p, from as int, to as int, choices.take(i as int)),
                decreases 4 - i,
            {
                let m = canonical_move(b, from, to, Some(promos[i]));
                proof {
                    lemma_canonical_wf(p, from as int, to as int, Some(promos[i as int]));
                    assert(choices.take(i + 1).drop_last() =~= choices.take(i as int));
                    assert(choices.take(i + 1).last() == Some(promos@[i as int]));
                }
                self.push_if_safe(b, m, moves);
                proof {
                    assert(moves@ =~= start + moves_with(p, from as int, to as int, choices.take(i + 1)));
                }
                i = i + 1;
            }
            assert(choices.take(4) =~= choices);
        } else {
            let m = canonical_move(b, from, to, None);
            proof {
                lemma_canonical_wf(p, from as int, to as int, None);
                assert(choices.drop_last() =~= Seq::<Option<Piece>>::empty());
                assert(choices.last() == None::<Piece>);
                assert(moves_with(p, from as int, to as int, choices.drop_last()) == Seq::<Move>::empty());
                assert(moves_with(p, from as int, to as int, choices) =~= keep_if_safe(p, m));
            }
            self.push_if_safe(b, m, moves);
        }
    }

    /// All legal moves of the side to move.
    pub fn generate_moves(&self, board: &Board) -> (moves: Vec<Move>)
        ensures
            moves@ == legal_moves(board@),
    {
        let ghost p = board@;
        let mut moves: Vec<Move> = Vec::new();
        let mut from: u8 = 0;
        while from < 64
            invariant
                from <= 64,
                p == board@,
                moves@ == legal_prefix(p, from as int * 64),
            decreases 64 - from,
        {
            if board.kind_at(board.side_to_move, from).is_some() {
                let mut to: u8 = 0;
                while to < 64
                    invariant
                        to <= 64,
                        from < 64,
                        p == board@,
                        moves@ == legal_prefix(p, from as int * 64 + to),
                    decreases 64 - to,
                {
                    proof {
                        lemma_index(from as int, to as int);
                    }
                    self.push_moves_at(board, from, to, &mut moves);
                    to = to + 1;
                }
            } else {
                proof {
                    lemma_empty_from(p, from as int, 64);
                }
            }
            assert(from as int * 64 + 64 == (from as int + 1) * 64);
            from = from + 1;
        }
        moves
    }

    /// Whether `mv` is a legal move of the side to move, every field as the board implies.
    pub fn is_move_valid(&self, board: &Board, mv: &Move) -> (r: bool)
        ensures
            r == legal(board@, *mv),
    {
        if mv.from >= 64 || mv.to >= 64 {
            return false;
        }
        if mv.is_en_passant && !(8 <= mv.to && mv.to < 56) {
            return false;
        }
        if !self.is_reachable(board, mv.from, mv.to) {
            return false;
        }
        let promo_fits = if needs_promotion_exec(board, mv.from, mv.to) {
            mv.promotion == Some(Piece::Queen) || mv.promotion == Some(Piece::Rook)
                || mv.promotion == Some(Piece::Bishop) || mv.promotion == Some(Piece::Knight)
        } else {
            mv.promotion.is_none()
        };
        if !promo_fits {
            return false;
        }
        if *mv != canonical_move(board, mv.from, mv.to, mv.promotion) {
            return false;
        }
        let mut copy = *board;
        copy.make_move(*mv);
        !self.is_king_in_check(&copy, board.side_to_move)
    }
}

fn count_own_exec(b: &Board, c: Color) -> (r: u8)
    ensures
        r == count_own(b@, c, 64),
{
    let mut n: u8 = 0;
    let mut s: u8 = 0;
    while s < 64
        invariant
            s <= 64,
            n == count_own(b@, c, s as int),
            n <= s,
        decreases 64 - s,
    {
        if b.kind_at(c, s).is_some() {
            n = n + 1;
        }
        s = s + 1;
    }
    n
}

pub(crate) fn count_kind_exec(b: &Board, c: Color, k: Piece) -> (r: u8)
    ensures
        r == count_kind(b@, c, k, 64),
{
    let mut n: u8 = 0;
    let mut s: u8 = 0;
    while s < 64
        invariant
            s <= 64,
            n == count_kind(b@, c, k, s as int),
            n <= s,
        decreases 64 - s,
    {
        if b.kind_at(c, s) == Some(k) {
            n = n + 1;
        }
        s = s + 1;
    }
    n
}

impl MoveGenerator {
    /// The classification of `board` after a ply, given the earlier positions.
    pub fn get_game_state(&self, board: &Board, move_history: &[(Board, Move)]) -> (r: GameState)
        ensures
            r == game_state(board@, move_history@),
    {
        if self.is_insufficient_material(board) {
            return GameState::InsufficientMaterial;
        }
        if board.halfmove_clock >= 100 {
            return GameState::FiftyMoveRule;
        }
        if self.is_threefold_repetition(board, move_history) {
            return GameState::ThreefoldRepetition;
        }
        let moves = self.generate_moves(board);
        if moves.len() == 0 {
            if self.is_king_in_check(board, board.side_to_move) {
                GameState::Checkmate(board.side_to_move.opposite())
            } else {
                GameState::Stalemate
            }
        } else {
            GameState::Ongoing
        }
    }

    fn is_threefold_repetition(&self, board: &Board, move_history: &[(Board, Move)]) -> (r: bool)
        ensures
            r == threefold(board@, move_history@),
    {
        let current = self.get_position_hash(board);
        let mut count: usize = 1;
        let mut i: usize = 0;
        while i < move_history.len()
            invariant
                i <= move_history@.len(),
                current == position_hash(board@),
                count == if repeats(board@, move_history@, i as int) + 1 < 3 {
                    repeats(board@, move_history@, i as int) + 1
                } else {
                    3
                },
            decreases move_history@.len() - i,
        {
            let past = &move_history[i].0;
            let h = self.get_position_hash(past);
            proof {
                assert(*past == move_history@[i as int].0);
                assert(repeats(board@, move_history@, i + 1) == repeats(board@, move_history@, i as int)
                    + if position_hash(move_history@[i as int].0@) == position_hash(board@) { 1nat } else { 0nat });
            }
            if h == current && count < 3 {
                count = count + 1;
            }
            i = i + 1;
        }
        count >= 3
    }

    /// The Zobrist hash of `board`.
    pub fn get_position_hash(&self, board: &Board) -> (h: u64)
        ensures
            h == position_hash(board@),
    {
        hash_board(board)
    }

    fn is_insufficient_material(&self, board: &Board) -> (r: bool)
        ensures
            r == insufficient_material(board@),
    {
        let (white_pieces, black_pieces) = self.count_pieces(board);
        let (white_minors, black_minors) = self.count_minor_pieces(board);
        let (white_bishops, black_bishops) = self.count_bishops(board);
        if white_pieces == 1 && black_pieces == 1 {
            return true;
        }
        if (white_pieces == 2 && white_minors == 1 && black_pieces == 1)
            || (black_pieces == 2 && black_minors == 1 && white_pieces == 1) {
            return true;
        }
        if white_pieces == 2 && black_pieces == 2 && white_bishops == 1 && black_bishops == 1 {
            let w = self.find_bishop_square(board, Color::White);
            let b = self.find_bishop_square(board, Color::Black);
            return (w / 8 + w % 8) % 2 == (b / 8 + b % 8) % 2;
        }
        false
    }

    fn count_pieces(&self, board: &Board) -> (r: (u8, u8))
        ensures
            r.0 == count_own(board@, Color::White, 64),
            r.1 == count_own(board@, Color::Black, 64),
    {
        (count_own_exec(board, Color::White), count_own_exec(board, Color::Black))
    }

    fn count_minor_pieces(&self, board: &Board) -> (r: (u16, u16))
        ensures
            r.0 == count_kind(board@, Color::White, Piece::Bishop, 64)
                + count_kind(board@, Color::White, Piece::Knight, 64),
            r.1 == count_kind(board@, Color::Black, Piece::Bishop, 64)
                + count_kind(board@, Color::Black, Piece::Knight, 64),
    {
        let wb = count_kind_exec(board, Color::White, Piece::Bishop) as u16;
        let wn = count_kind_exec(board, Color::White, Piece::Knight) as u16;
        let bb = count_kind_exec(board, Color::Black, Piece::Bishop) as u16;
        let bn = count_kind_exec(board, Color::Black, Piece::Knight) as u16;
        (wb + wn, bb + bn)
    }

    fn count_bishops(&self, board: &Board) -> (r: (u8, u8))
        ensures
            r.0 == count_kind(board@, Color::White, Piece::Bishop, 64),
            r.1 == count_kind(board@, Color::Black, Piece::Bishop, 64),
    {
        (count_kind_exec(board, Color::White, Piece::Bishop), count_kind_exec(board, Color::Black, Piece::Bishop))
    }

    /// The first square holding a bishop of `color`, or 64 when there is none.
    fn find_bishop_square(&self, board: &Board, color: Color) -> (r: u8)
        ensures
            r == first_of_kind(board@, color, Piece::Bishop, 0),
    {
        let mut s: u8 = 0;
        while s < 64
            invariant
                s <= 64,
                first_of_kind(board@, color, Piece::Bishop, 0) == first_of_kind(board@, color, Piece::Bishop, s as int),
            decreases 64 - s,
        {
            if board.kind_at(color, s) == Some(Piece::Bishop) {
                return s;
            }
            s = s + 1;
        }
        64
    }
}

} // verus!
