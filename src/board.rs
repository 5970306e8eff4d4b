//! The game state: twelve piece-sets, side to move, castling rights,
//! en-passant target and clocks, and the move mutator.
use vstd::prelude::*;
use crate::bits::{has_bit, with, without, test_bit, clear_bit, set_bit};
use crate::movegen::Move;

verus! {

/// The six kinds of chessmen, in the order of a side's piece-sets.
#[derive(Debug, Clone, Copy, PartialEq, Eq, Structural)]
pub enum Piece {
    Pawn,
    Knight,
    Bishop,
    Rook,
    Queen,
    King,
}

#[derive(Debug, Clone, Copy, PartialEq, Eq, Structural)]
pub enum Color {
    White,
    Black,
}

impl Piece {
    /// Position of this kind in a side's array of piece-sets.
    pub open spec fn idx(self) -> int {
        match self {
            Piece::Pawn => 0,
            Piece::Knight => 1,
            Piece::Bishop => 2,
            Piece::Rook => 3,
            Piece::Queen => 4,
            Piece::King => 5,
        }
    }

    pub fn index(&self) -> (r: usize)
        ensures
            r == self.idx(),
    {
        match self {
            Piece::Pawn => 0,
            Piece::Knight => 1,
            Piece::Bishop => 2,
            Piece::Rook => 3,
            Piece::Queen => 4,
            Piece::King => 5,
        }
    }
}

/// The kind stored at position `i` of a side's array of piece-sets.
pub open spec fn kind_of_index(i: int) -> Piece {
    if i == 0 {
        Piece::Pawn
    } else if i == 1 {
        Piece::Knight
    } else if i == 2 {
        Piece::Bishop
    } else if i == 3 {
        Piece::Rook
    } else if i == 4 {
        Piece::Queen
    } else {
        Piece::King
    }
}

impl Color {
    pub open spec fn opp(self) -> Color {
        match self {
            Color::White => Color::Black,
            Color::Black => Color::White,
        }
    }

    pub fn opposite(&self) -> (r: Color)
        ensures
            r == self.opp(),
    {
        match self {
            Color::White => Color::Black,
            Color::Black => Color::White,
        }
    }
}

/// Castling right bits: white kingside, white queenside, black kingside, black queenside.
pub const WHITE_KINGSIDE: u8 = 1;
pub const WHITE_QUEENSIDE: u8 = 2;
pub const BLACK_KINGSIDE: u8 = 4;
pub const BLACK_QUEENSIDE: u8 = 8;

/// The mathematical model of a board.
pub struct Position {
    pub white: Seq<u64>,
    pub black: Seq<u64>,
    pub side: Color,
    pub castling: u8,
    pub ep: Option<u8>,
    pub halfmove: u8,
    pub fullmove: u16,
}

pub open spec fn rank_of(s: int) -> int {
    s / 8
}

pub open spec fn file_of(s: int) -> int {
    s % 8
}

/// The castling right tied to a rook's home corner of color `c` (0 for other squares).
pub open spec fn corner_right(c: Color, s: int) -> u8 {
    if c == Color::White && s == 7 {
        WHITE_KINGSIDE
    } else if c == Color::White && s == 0 {
        WHITE_QUEENSIDE
    } else if c == Color::Black && s == 63 {
        BLACK_KINGSIDE
    } else if c == Color::Black && s == 56 {
        BLACK_QUEENSIDE
    } else {
        0
    }
}

/// Both castling rights of color `c`.
pub open spec fn side_rights(c: Color) -> u8 {
    if c == Color::White {
        WHITE_KINGSIDE | WHITE_QUEENSIDE
    } else {
        BLACK_KINGSIDE | BLACK_QUEENSIDE
    }
}

/// The kind that stands on `to` after the move: the promotion kind, if any, else the mover.
pub open spec fn placed_kind(m: Move) -> Piece {
    match m.promotion {
        Some(p) => p,
        None => m.piece,
    }
}

/// The square whose piece a capture removes: `to`, or the square behind it for en passant.
pub open spec fn capture_square(side: Color, m: Move) -> int {
    if m.is_en_passant {
        if side == Color::White {
            m.to - 8
        } else {
            m.to + 8
        }
    } else {
        m.to as int
    }
}

/// Rook corner and landing square of a castling move.
pub open spec fn castle_rook_from(side: Color, m: Move) -> int {
    if m.to > m.from {
        if side == Color::White { 7 } else { 63 }
    } else {
        if side == Color::White { 0 } else { 56 }
    }
}

pub open spec fn castle_rook_to(side: Color, m: Move) -> int {
    if m.to > m.from {
        if side == Color::White { 5 } else { 61 }
    } else {
        if side == Color::White { 3 } else { 59 }
    }
}

/// A mover's piece-set of kind `k` after move `m`.
pub open spec fn mover_after(bb: u64, k: Piece, side: Color, m: Move) -> u64 {
    let lifted = without(bb, m.from as int);
    let placed = if k == placed_kind(m) { with(lifted, m.to as int) } else { lifted };
    if m.is_castling && k == Piece::Rook {
        with(without(placed, castle_rook_from(side, m)), castle_rook_to(side, m))
    } else {
        placed
    }
}

/// The opponent's piece-set of kind `k` after move `m` of `side`.
pub open spec fn other_after(bb: u64, k: Piece, side: Color, m: Move) -> u64 {
    if m.captured_piece == Some(k) {
        without(bb, capture_square(side, m))
    } else {
        bb
    }
}

/// The castling rights that move `m` of `side` takes away.
pub open spec fn rights_lost(side: Color, m: Move) -> u8 {
    let own: u8 = if m.piece == Piece::King {
        side_rights(side)
    } else if m.piece == Piece::Rook {
        corner_right(side, m.from as int)
    } else {
        0
    };
    let theirs: u8 = if m.captured_piece == Some(Piece::Rook) {
        corner_right(side.opp(), m.to as int)
    } else {
        0
    };
    own | theirs
}

/// Whether `m` is a pawn move of exactly two ranks.
pub open spec fn is_double_push(m: Move) -> bool {
    m.piece == Piece::Pawn && (m.to - m.from == 16 || m.from - m.to == 16)
}

impl Position {
    pub open spec fn pieces(self, c: Color) -> Seq<u64> {
        if c == Color::White {
            self.white
        } else {
            self.black
        }
    }

    /// The piece-set of kind `k` and color `c`.
    pub open spec fn bb(self, c: Color, k: Piece) -> u64 {
        self.pieces(c)[k.idx()]
    }

    /// The first kind (in the order pawn .. king) whose set of color `c` holds `s`.
    pub open spec fn kind_at(self, c: Color, s: int) -> Option<Piece> {
        if has_bit(self.bb(c, Piece::Pawn), s) {
            Some(Piece::Pawn)
        } else if has_bit(self.bb(c, Piece::Knight), s) {
            Some(Piece::Knight)
        } else if has_bit(self.bb(c, Piece::Bishop), s) {
            Some(Piece::Bishop)
        } else if has_bit(self.bb(c, Piece::Rook), s) {
            Some(Piece::Rook)
        } else if has_bit(self.bb(c, Piece::Queen), s) {
            Some(Piece::Queen)
        } else if has_bit(self.bb(c, Piece::King), s) {
            Some(Piece::King)
        } else {
            None
        }
    }

    pub open spec fn occupied_by(self, c: Color, s: int) -> bool {
        self.kind_at(c, s).is_some()
    }

    pub open spec fn occupied(self, s: int) -> bool {
        self.occupied_by(Color::White, s) || self.occupied_by(Color::Black, s)
    }

    /// What stands on square `s`: white's piece-sets are read first.
    pub open spec fn piece_at(self, s: int) -> Option<(Piece, Color)> {
        match self.kind_at(Color::White, s) {
            Some(k) => Some((k, Color::White)),
            None => match self.kind_at(Color::Black, s) {
                Some(k) => Some((k, Color::Black)),
                None => None,
            },
        }
    }

    /// The position after `m` is played by the side to move.
    pub open spec fn after(self, m: Move) -> Position {
        let side = self.side;
        let mine = Seq::new(6, |i: int| mover_after(self.bb(side, kind_of_index(i)), kind_of_index(i), side, m));
        let theirs = Seq::new(6, |i: int| other_after(self.bb(side.opp(), kind_of_index(i)), kind_of_index(i), side, m));
        Position {
            white: if side == Color::White { mine } else { theirs },
            black: if side == Color::White { theirs } else { mine },
            side: side.opp(),
            castling: self.castling & !rights_lost(side, m),
            ep: if is_double_push(m) {
                Some(((m.from + m.to) / 2) as u8)
            } else {
                None
            },
            halfmove: if m.piece == Piece::Pawn || m.captured_piece.is_some() {
                0
            } else if self.halfmove < 255 {
                (self.halfmove + 1) as u8
            } else {
                255
            },
            fullmove: if side == Color::Black && self.fullmove < 65535 {
                (self.fullmove + 1) as u16
            } else {
                self.fullmove
            },
        }
    }
}

/// The standard initial array.
pub open spec fn start_position() -> Position {
    Position {
        white: seq![0x000000000000FF00u64, 0x0000000000000042u64, 0x0000000000000024u64,
            0x0000000000000081u64, 0x0000000000000008u64, 0x0000000000000010u64],
        black: seq![0x00FF000000000000u64, 0x4200000000000000u64, 0x2400000000000000u64,
            0x8100000000000000u64, 0x0800000000000000u64, 0x1000000000000000u64],
        side: Color::White,
        castling: 15,
        ep: None,
        halfmove: 0,
        fullmove: 1,
    }
}

/// A position: a 64-bit set per color and kind (bit `s` is square `rank * 8 + file`,
/// a1 = 0), the side to move, castling rights (white kingside, white queenside, black
/// kingside, black queenside as bits 0 to 3), the en-passant target and the clocks.
#[derive(Debug, Clone, Copy)]
pub struct Board {
    pub white_pieces: [u64; 6],
    pub black_pieces: [u64; 6],
    pub side_to_move: Color,
    pub castling_rights: u8,
    pub en_passant_square: Option<u8>,
    pub halfmove_clock: u8,
    pub fullmove_number: u16,
}

impl View for Board {
    type V = Position;

    open spec fn view(&self) -> Position {
        Position {
            white: self.white_pieces@,
            black: self.black_pieces@,
            side: self.side_to_move,
            castling: self.castling_rights,
            ep: self.en_passant_square,
            halfmove: self.halfmove_clock,
            fullmove: self.fullmove_number,
        }
    }
}

fn mover_set(bb: u64, k: Piece, side: Color, m: Move) -> (r: u64)
    requires
        m.wf(),
    ensures
        r == mover_after(bb, k, side, m),
{
    let lifted = clear_bit(bb, m.from);
    let placed_kind = match m.promotion {
        Some(p) => p,
        None => m.piece,
    };
    let placed = if k == placed_kind { set_bit(lifted, m.to) } else { lifted };
    if m.is_castling && k == Piece::Rook {
        let (rook_from, rook_to): (u8, u8) = if m.to > m.from {
            if side == Color::White { (7, 5) } else { (63, 61) }
        } else {
            if side == Color::White { (0, 3) } else { (56, 59) }
        };
        set_bit(clear_bit(placed, rook_from), rook_to)
    } else {
        placed
    }
}

fn other_set(bb: u64, k: Piece, side: Color, m: Move) -> (r: u64)
    requires
        m.wf(),
    ensures
        r == other_after(bb, k, side, m),
{
    if m.captured_piece == Some(k) {
        let square: u8 = if m.is_en_passant {
            if side == Color::White { m.to - 8 } else { m.to + 8 }
        } else {
            m.to
        };
        clear_bit(bb, square)
    } else {
        bb
    }
}

fn corner_right_of(c: Color, s: u8) -> (r: u8)
    ensures
        r == corner_right(c, s as int),
{
    if c == Color::White && s == 7 {
        WHITE_KINGSIDE
    } else if c == Color::White && s == 0 {
        WHITE_QUEENSIDE
    } else if c == Color::Black && s == 63 {
        BLACK_KINGSIDE
    } else if c == Color::Black && s == 56 {
        BLACK_QUEENSIDE
    } else {
        0
    }
}

impl Board {
    pub fn new() -> (r: Board)
        ensures
            r@ == start_position(),
    {
        let r = Board {
            white_pieces: [
                0x000000000000FF00,
                0x0000000000000042,
                0x0000000000000024,
                0x0000000000000081,
                0x0000000000000008,
                0x0000000000000010,
            ],
            black_pieces: [
                0x00FF000000000000,
                0x4200000000000000,
                0x2400000000000000,
                0x8100000000000000,
                0x0800000000000000,
                0x1000000000000000,
            ],
            side_to_move: Color::White,
            castling_rights: 0b1111,
            en_passant_square: None,
            halfmove_clock: 0,
            fullmove_number: 1,
        };
        assert(r.white_pieces@ =~= start_position().white);
        assert(r.black_pieces@ =~= start_position().black);
        r
    }

    /// Plays `mv` for the side to move. No legality check is made.
    pub fn make_move(&mut self, mv: Move)
        requires
            mv.wf(),
        ensures
            final(self)@ == old(self)@.after(mv),
    {
        let side = self.side_to_move;
        let is_white = side == Color::White;
        let (mine, theirs) = if is_white {
            (self.white_pieces, self.black_pieces)
        } else {
            (self.black_pieces, self.white_pieces)
        };
        let new_mine: [u64; 6] = [
            mover_set(mine[0], Piece::Pawn, side, mv),
            mover_set(mine[1], Piece::Knight, side, mv),
            mover_set(mine[2], Piece::Bishop, side, mv),
            mover_set(mine[3], Piece::Rook, side, mv),
            mover_set(mine[4], Piece::Queen, side, mv),
            mover_set(mine[5], Piece::King, side, mv),
        ];
        let new_theirs: [u64; 6] = [
            other_set(theirs[0], Piece::Pawn, side, mv),
            other_set(theirs[1], Piece::Knight, side, mv),
            other_set(theirs[2], Piece::Bishop, side, mv),
            other_set(theirs[3], Piece::Rook, side, mv),
            other_set(theirs[4], Piece::Queen, side, mv),
            other_set(theirs[5], Piece::King, side, mv),
        ];
        let ghost pre = self@;
        assert(new_mine@ =~= Seq::new(6, |i: int| mover_after(pre.bb(side, kind_of_index(i)), kind_of_index(i), side, mv)));
        assert(new_theirs@ =~= Seq::new(6, |i: int| other_after(pre.bb(side.opp(), kind_of_index(i)), kind_of_index(i), side, mv)));
        if is_white {
            self.white_pieces = new_mine;
            self.black_pieces = new_theirs;
        } else {
            self.black_pieces = new_mine;
            self.white_pieces = new_theirs;
        }

        let own_lost: u8 = if mv.piece == Piece::King {
            if is_white { WHITE_KINGSIDE | WHITE_QUEENSIDE } else { BLACK_KINGSIDE | BLACK_QUEENSIDE }
        } else if mv.piece == Piece::Rook {
            corner_right_of(side, mv.from)
        } else {
            0
        };
        let their_lost: u8 = if mv.captured_piece == Some(Piece::Rook) {
            corner_right_of(side.opposite(), mv.to)
        } else {
            0
        };
        self.castling_rights = self.castling_rights & !(own_lost | their_lost);

        self.en_passant_square = if mv.piece == Piece::Pawn && (mv.to >= mv.from + 16 && mv.to - mv.from == 16
            || mv.from >= mv.to + 16 && mv.from - mv.to == 16) {
            Some((mv.from + mv.to) / 2)
        } else {
            None
        };

        if mv.piece == Piece::Pawn || mv.captured_piece.is_some() {
            self.halfmove_clock = 0;
        } else {
            self.halfmove_clock = self.halfmove_clock.saturating_add(1);
        }
        if !is_white {
            self.fullmove_number = self.fullmove_number.saturating_add(1);
        }
        self.side_to_move = side.opposite();
    }

    /// The piece on `square`, white's piece-sets read first.
    pub fn get_piece_at(&self, square: u8) -> (r: Option<(Piece, Color)>)
        requires
            square < 64,
        ensures
            r == self@.piece_at(square as int),
    {
        match kind_in(&self.white_pieces, square) {
            Some(k) => Some((k, Color::White)),
            None => match kind_in(&self.black_pieces, square) {
                Some(k) => Some((k, Color::Black)),
                None => None,
            },
        }
    }

    /// The kind of color `c` on `square`, if any.
    pub fn kind_at(&self, c: Color, square: u8) -> (r: Option<Piece>)
        requires
            square < 64,
        ensures
            r == self@.kind_at(c, square as int),
    {
        if c == Color::White {
            kind_in(&self.white_pieces, square)
        } else {
            kind_in(&self.black_pieces, square)
        }
    }
}

fn kind_in(sets: &[u64; 6], square: u8) -> (r: Option<Piece>)
    requires
        square < 64,
    ensures
        r == (Position { white: sets@, black: sets@, side: Color::White, castling: 0, ep: None,
            halfmove: 0, fullmove: 0 }).kind_at(Color::White, square as int),
{
    if test_bit(sets[0], square) {
        Some(Piece::Pawn)
    } else if test_bit(sets[1], square) {
        Some(Piece::Knight)
    } else if test_bit(sets[2], square) {
        Some(Piece::Bishop)
    } else if test_bit(sets[3], square) {
        Some(Piece::Rook)
    } else if test_bit(sets[4], square) {
        Some(Piece::Queen)
    } else if test_bit(sets[5], square) {
        Some(Piece::King)
    } else {
        None
    }
}

} // verus!
