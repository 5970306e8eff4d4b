//! Static evaluation: material and piece-square tables, mobility, pawn structure
//! and king safety, positive when good for white.
use vstd::prelude::*;
use crate::board::{Board, Color, Piece, Position, rank_of, file_of};
use crate::laws::lemma_move_list_len;
use crate::movegen::{Move, MoveGenerator};
use crate::rules::{abs, first_of_kind, legal_moves, on_board, sq};

verus! {

/// Piece values, piece-square tables (indexed by rank and file from white's side) and weights.
pub struct Evaluator {
    pub pawn_value: i32,
    pub knight_value: i32,
    pub bishop_value: i32,
    pub rook_value: i32,
    pub queen_value: i32,
    pub king_value: i32,
    pub pawn_position_bonus: [[i32; 8]; 8],
    pub knight_position_bonus: [[i32; 8]; 8],
    pub bishop_position_bonus: [[i32; 8]; 8],
    pub rook_position_bonus: [[i32; 8]; 8],
    pub queen_position_bonus: [[i32; 8]; 8],
    pub king_position_bonus: [[i32; 8]; 8],
    pub king_endgame_position_bonus: [[i32; 8]; 8],
    pub pawn_mobility_weight: i32,
    pub knight_mobility_weight: i32,
    pub bishop_mobility_weight: i32,
    pub rook_mobility_weight: i32,
    pub queen_mobility_weight: i32,
    pub king_mobility_weight: i32,
    pub doubled_pawn_penalty: i32,
    pub isolated_pawn_penalty: i32,
    pub passed_pawn_bonus: i32,
    pub connected_pawn_bonus: i32,
    pub pawn_shield_bonus: i32,
    pub open_file_penalty: i32,
    pub semi_open_file_penalty: i32,
    pub king_attack_bonus: i32,
}

pub open spec fn table_ok(t: [[i32; 8]; 8]) -> bool {
    forall|r: int, f: int| 0 <= r < 8 && 0 <= f < 8 ==> -100000 <= #[trigger] t@[r]@[f] <= 100000
}

pub open spec fn small(x: i32) -> bool {
    -1000 <= x <= 1000
}

pub open spec fn value_ok(x: i32) -> bool {
    -100000 <= x <= 100000
}

/// Squares below `n` holding a queen or a rook of either color.
pub open spec fn majors(p: Position, n: int) -> nat
    decreases n,
{
    if n <= 0 {
        0
    } else {
        majors(p, n - 1) + match p.piece_at(n - 1) {
            Some((k, _)) => if k == Piece::Queen || k == Piece::Rook { 1nat } else { 0nat },
            None => 0nat,
        }
    }
}

/// The endgame begins when at most two queens and rooks are left.
pub open spec fn endgame(p: Position) -> bool {
    majors(p, 64) <= 2
}

/// How many moves of `ms` are made by a piece of kind `k`.
pub open spec fn move_count(ms: Seq<Move>, k: Piece) -> nat
    decreases ms.len(),
{
    if ms.len() == 0 {
        0
    } else {
        move_count(ms.drop_last(), k) + if ms.last().piece == k { 1nat } else { 0nat }
    }
}

/// Pawns of color `c` on file `f` at ranks below `r`.
pub open spec fn file_pawns(p: Position, c: Color, f: int, r: int) -> nat
    decreases r,
{
    if r <= 0 {
        0
    } else {
        file_pawns(p, c, f, r - 1) + if p.piece_at(sq(r - 1, f)) == Some((Piece::Pawn, c)) {
            1nat
        } else {
            0nat
        }
    }
}

/// Pawns of color `c` on file `f` (none off the board).
pub open spec fn pawns_on_file(p: Position, c: Color, f: int) -> nat {
    if 0 <= f < 8 { file_pawns(p, c, f, 8) } else { 0 }
}

/// Square `t` lies ahead of square `s` for a pawn of color `c`.
pub open spec fn ahead(c: Color, s: int, t: int) -> bool {
    if c == Color::White { rank_of(t) > rank_of(s) } else { rank_of(t) < rank_of(s) }
}

/// Some enemy pawn stands on a square below `n` on the file of `s` or a neighbouring
/// file, ahead of `s` for color `c`.
pub open spec fn enemy_pawn_ahead(p: Position, c: Color, s: int, n: int) -> bool
    decreases n,
{
    if n <= 0 {
        false
    } else {
        enemy_pawn_ahead(p, c, s, n - 1) || (p.piece_at(n - 1) == Some((Piece::Pawn, c.opp()))
            && abs(file_of(n - 1) - file_of(s)) <= 1 && ahead(c, s, n - 1))
    }
}

impl Evaluator {
    /// Piece values and table entries within 100000, weights within 1000.
    pub open spec fn wf(&self) -> bool {
        &&& value_ok(self.pawn_value) && value_ok(self.knight_value) && value_ok(self.bishop_value)
        &&& value_ok(self.rook_value) && value_ok(self.queen_value) && value_ok(self.king_value)
        &&& table_ok(self.pawn_position_bonus) && table_ok(self.knight_position_bonus)
        &&& table_ok(self.bishop_position_bonus) && table_ok(self.rook_position_bonus)
        &&& table_ok(self.queen_position_bonus) && table_ok(self.king_position_bonus)
        &&& table_ok(self.king_endgame_position_bonus)
        &&& small(self.pawn_mobility_weight) && small(self.knight_mobility_weight)
        &&& small(self.bishop_mobility_weight) && small(self.rook_mobility_weight)
        &&& small(self.queen_mobility_weight) && small(self.king_mobility_weight)
        &&& small(self.doubled_pawn_penalty) && small(self.isolated_pawn_penalty)
        &&& small(self.passed_pawn_bonus) && small(self.connected_pawn_bonus)
        &&& small(self.pawn_shield_bonus) && small(self.open_file_penalty)
        &&& small(self.semi_open_file_penalty)
    }

    pub open spec fn base(&self, k: Piece) -> int {
        match k {
            Piece::Pawn => self.pawn_value as int,
            Piece::Knight => self.knight_value as int,
            Piece::Bishop => self.bishop_value as int,
            Piece::Rook => self.rook_value as int,
            Piece::Queen => self.queen_value as int,
            Piece::King => self.king_value as int,
        }
    }

    pub open spec fn bonus(&self, k: Piece, r: int, f: int, late: bool) -> int {
        let t = match k {
            Piece::Pawn => self.pawn_position_bonus,
            Piece::Knight => self.knight_position_bonus,
            Piece::Bishop => self.bishop_position_bonus,
            Piece::Rook => self.rook_position_bonus,
            Piece::Queen => self.queen_position_bonus,
            Piece::King => if late { self.king_endgame_position_bonus } else { self.king_position_bonus },
        };
        t@[r]@[f] as int
    }

    /// Value plus table bonus of the piece on `s`, from white's side; black reads
    /// the table at (7 - rank, file).
    pub open spec fn square_score(&self, p: Position, s: int, late: bool) -> int {
        match p.piece_at(s) {
            Some((k, c)) => {
                let r = if c == Color::White { rank_of(s) } else { 7 - rank_of(s) };
                let v = self.base(k) + self.bonus(k, r, file_of(s), late);
                if c == Color::White { v } else { -v }
            },
            None => 0,
        }
    }

    pub open spec fn material(&self, p: Position, late: bool, n: int) -> int
        decreases n,
    {
        if n <= 0 {
            0
        } else {
            self.material(p, late, n - 1) + self.square_score(p, n - 1, late)
        }
    }

    pub open spec fn weight(&self, k: Piece) -> int {
        match k {
            Piece::Pawn => self.pawn_mobility_weight as int,
            Piece::Knight => self.knight_mobility_weight as int,
            Piece::Bishop => self.bishop_mobility_weight as int,
            Piece::Rook => self.rook_mobility_weight as int,
            Piece::Queen => self.queen_mobility_weight as int,
            Piece::King => self.king_mobility_weight as int,
        }
    }

    /// Legal-move counts per kind, weighted, negated when black is to move.
    pub open spec fn mobility(&self, p: Position) -> int {
        let ms = legal_moves(p);
        let s = self.weight(Piece::Pawn) * move_count(ms, Piece::Pawn)
            + self.weight(Piece::Knight) * move_count(ms, Piece::Knight)
            + self.weight(Piece::Bishop) * move_count(ms, Piece::Bishop)
            + self.weight(Piece::Rook) * move_count(ms, Piece::Rook)
            + self.weight(Piece::Queen) * move_count(ms, Piece::Queen)
            + self.weight(Piece::King) * move_count(ms, Piece::King);
        if p.side == Color::Black { -s } else { s }
    }

    /// Doubled, isolated and connected pawns of color `c` on file `f`.
    pub open spec fn file_score(&self, p: Position, c: Color, f: int) -> int {
        let n = pawns_on_file(p, c, f);
        (if n > 1 { self.doubled_pawn_penalty * (n - 1) } else { 0 })
            + (if n > 0 && pawns_on_file(p, c, f - 1) == 0 && pawns_on_file(p, c, f + 1) == 0 {
                self.isolated_pawn_penalty as int
            } else {
                0
            })
            + (if f < 7 && n > 0 && pawns_on_file(p, c, f + 1) > 0 {
                self.connected_pawn_bonus as int
            } else {
                0
            })
    }

    pub open spec fn files_score(&self, p: Position, c: Color, n: int) -> int
        decreases n,
    {
        if n <= 0 {
            0
        } else {
            self.files_score(p, c, n - 1) + self.file_score(p, c, n - 1)
        }
    }

    /// Passed pawns of color `c` on squares below `n`.
    pub open spec fn passed_score(&self, p: Position, c: Color, n: int) -> int
        decreases n,
    {
        if n <= 0 {
            0
        } else {
            self.passed_score(p, c, n - 1) + if p.piece_at(n - 1) == Some((Piece::Pawn, c))
                && !enemy_pawn_ahead(p, c, n - 1, 64) {
                self.passed_pawn_bonus as int
            } else {
                0
            }
        }
    }

    pub open spec fn structure(&self, p: Position, c: Color) -> int {
        self.files_score(p, c, 8) + self.passed_score(p, c, 64)
    }

    /// Friendly pawns on the three squares in front of the king of color `c`.
    pub open spec fn shield(&self, p: Position, c: Color) -> int {
        let k = first_of_kind(p, c, Piece::King, 0);
        let r = rank_of(k) + if c == Color::White { 1int } else { -1int };
        let f = file_of(k);
        let one = |df: int| if on_board(r, f + df) && p.piece_at(sq(r, f + df)) == Some((Piece::Pawn, c)) {
            self.pawn_shield_bonus as int
        } else {
            0
        };
        if k < 64 { one(-1) + one(0) + one(1) } else { 0 }
    }

    /// Penalty for an open or half-open file under the king of color `c`.
    pub open spec fn open_file(&self, p: Position, c: Color) -> int {
        let k = first_of_kind(p, c, Piece::King, 0);
        let own = file_pawns(p, c, file_of(k), 8) > 0;
        let theirs = file_pawns(p, c.opp(), file_of(k), 8) > 0;
        if k >= 64 {
            0
        } else if !own && !theirs {
            self.open_file_penalty as int
        } else if !own {
            self.semi_open_file_penalty as int
        } else {
            0
        }
    }

    pub open spec fn king_safety(&self, p: Position, c: Color) -> int {
        self.shield(p, c) + self.open_file(p, c)
    }

    /// The static score of `p`, positive when good for white.
    pub open spec fn score(&self, p: Position) -> int {
        self.material(p, endgame(p), 64) + self.mobility(p)
            + (self.structure(p, Color::White) - self.structure(p, Color::Black))
            + (self.king_safety(p, Color::White) - self.king_safety(p, Color::Black))
    }
}

proof fn lemma_file_pawns_bound(p: Position, c: Color, f: int, r: int)
    requires
        0 <= r,
    ensures
        file_pawns(p, c, f, r) <= r,
    decreases r,
{
    if r > 0 {
        lemma_file_pawns_bound(p, c, f, r - 1);
    }
}

proof fn lemma_scaled(w: int, n: int, bound: int)
    requires
        -1000 <= w <= 1000,
        0 <= n <= bound,
    ensures
        -1000 * bound <= w * n <= 1000 * bound,
{
    assert(-1000 * bound <= w * n <= 1000 * bound) by (nonlinear_arith)
        requires
            -1000 <= w <= 1000,
            0 <= n <= bound,
    ;
}

fn count_moves_of(moves: &Vec<Move>, k: Piece) -> (r: u64)
    ensures
        r == move_count(moves@, k),
        r <= moves@.len(),
{
    let mut n: u64 = 0;
    let mut i: usize = 0;
    while i < moves.len()
        invariant
            i <= moves@.len(),
            n == move_count(moves@.take(i as int), k),
            n <= i,
        decreases moves@.len() - i,
    {
        proof {
            assert(moves@.take(i + 1).drop_last() =~= moves@.take(i as int));
        }
        if moves[i].piece == k {
            n = n + 1;
        }
        i = i + 1;
    }
    assert(moves@.take(moves@.len() as int) =~= moves@);
    n
}

/// Pawns of color `c` on file `f`.
fn file_pawn_count(b: &Board, c: Color, f: i8) -> (r: u8)
    requires
        -1 <= f <= 8,
    ensures
        r == pawns_on_file(b@, c, f as int),
        r <= 8,
{
    if f < 0 || f >= 8 {
        return 0;
    }
    let mut n: u8 = 0;
    let mut r: i8 = 0;
    while r < 8
        invariant
            0 <= r <= 8,
            0 <= f < 8,
            n == file_pawns(b@, c, f as int, r as int),
            n <= r,
        decreases 8 - r,
    {
        assert(((r * 8 + f) as u8) as int == sq(r as int, f as int));
        if pawn_of(b, (r * 8 + f) as u8, c) {
            n = n + 1;
        }
        r = r + 1;
    }
    n
}

fn enemy_ahead_exec(b: &Board, c: Color, s: u8) -> (r: bool)
    requires
        s < 64,
    ensures
        r == enemy_pawn_ahead(b@, c, s as int, 64),
{
    let mut t: u8 = 0;
    let mut found = false;
    while t < 64
        invariant
            t <= 64,
            s < 64,
            found == enemy_pawn_ahead(b@, c, s as int, t as int),
        decreases 64 - t,
    {
        let near = if t % 8 >= s % 8 { t % 8 - s % 8 <= 1 } else { s % 8 - t % 8 <= 1 };
        let before = if c == Color::White { t / 8 > s / 8 } else { t / 8 < s / 8 };
        assert(near == (abs(file_of(t as int) - file_of(s as int)) <= 1));
        assert(before == ahead(c, s as int, t as int));
        assert(enemy_pawn_ahead(b@, c, s as int, t + 1) == (enemy_pawn_ahead(b@, c, s as int, t as int)
            || (b@.piece_at(t as int) == Some((Piece::Pawn, c.opp())) && abs(file_of(t as int) - file_of(s as int)) <= 1
            && ahead(c, s as int, t as int))));
        if pawn_of(b, t, c.opposite()) && near && before {
            found = true;
        }
        t = t + 1;
    }
    found
}

impl Evaluator {
    /// The standard values, tables and weights.
    pub fn new() -> (r: Evaluator)
        ensures
            r.wf(),
            r.pawn_value == 100 && r.knight_value == 320 && r.bishop_value == 330,
            r.rook_value == 500 && r.queen_value == 900 && r.king_value == 20000,
            r.pawn_mobility_weight == 1 && r.knight_mobility_weight == 2,
            r.bishop_mobility_weight == 3 && r.rook_mobility_weight == 2,
            r.queen_mobility_weight == 1 && r.king_mobility_weight == 1,
            r.doubled_pawn_penalty == -10 && r.isolated_pawn_penalty == -20,
            r.passed_pawn_bonus == 20 && r.connected_pawn_bonus == 10,
            r.pawn_shield_bonus == 5 && r.open_file_penalty == -15,
            r.semi_open_file_penalty == -10 && r.king_attack_bonus == 5,
    {
        Evaluator {
            pawn_value: 100,
            knight_value: 320,
            bishop_value: 330,
            rook_value: 500,
            queen_value: 900,
            king_value: 20000,
            pawn_position_bonus: [
                [0, 0, 0, 0, 0, 0, 0, 0],
                [50, 50, 50, 50, 50, 50, 50, 50],
                [10, 10, 20, 30, 30, 20, 10, 10],
                [5, 5, 10, 25, 25, 10, 5, 5],
                [0, 0, 0, 20, 20, 0, 0, 0],
                [5, -5, -10, 0, 0, -10, -5, 5],
                [5, 10, 10, -20, -20, 10, 10, 5],
                [0, 0, 0, 0, 0, 0, 0, 0],
            ],
            knight_position_bonus: [
                [-50, -40, -30, -30, -30, -30, -40, -50],
                [-40, -20, 0, 0, 0, 0, -20, -40],
                [-30, 0, 10, 15, 15, 10, 0, -30],
                [-30, 5, 15, 20, 20, 15, 5, -30],
                [-30, 0, 15, 20, 20, 15, 0, -30],
                [-30, 5, 10, 15, 15, 10, 5, -30],
                [-40, -20, 0, 5, 5, 0, -20, -40],
                [-50, -40, -30, -30, -30, -30, -40, -50],
            ],
            bishop_position_bonus: [
                [-20, -10, -10, -10, -10, -10, -10, -20],
                [-10, 0, 0, 0, 0, 0, 0, -10],
                [-10, 0, 5, 10, 10, 5, 0, -10],
                [-10, 5, 5, 10, 10, 5, 5, -10],
                [-10, 0, 10, 10, 10, 10, 0, -10],
                [-10, 10, 10, 10, 10, 10, 10, -10],
                [-10, 5, 0, 0, 0, 0, 5, -10],
                [-20, -10, -10, -10, -10, -10, -10, -20],
            ],
            rook_position_bonus: [
                [0, 0, 0, 0, 0, 0, 0, 0],
                [5, 10, 10, 10, 10, 10, 10, 5],
                [-5, 0, 0, 0, 0, 0, 0, -5],
                [-5, 0, 0, 0, 0, 0, 0, -5],
                [-5, 0, 0, 0, 0, 0, 0, -5],
                [-5, 0, 0, 0, 0, 0, 0, -5],
                [-5, 0, 0, 0, 0, 0, 0, -5],
                [0, 0, 0, 5, 5, 0, 0, 0],
            ],
            queen_position_bonus: [
                [-20, -10, -10, -5, -5, -10, -10, -20],
                [-10, 0, 0, 0, 0, 0, 0, -10],
                [-10, 0, 5, 5, 5, 5, 0, -10],
                [-5, 0, 5, 5, 5, 5, 0, -5],
                [0, 0, 5, 5, 5, 5, 0, -5],
                [-10, 5, 5, 5, 5, 5, 0, -10],
                [-10, 0, 5, 0, 0, 0, 0, -10],
                [-20, -10, -10, -5, -5, -10, -10, -20],
            ],
            king_position_bonus: [
                [-30, -40, -40, -50, -50, -40, -40, -30],
                [-30, -40, -40, -50, -50, -40, -40, -30],
                [-30, -40, -40, -50, -50, -40, -40, -30],
                [-30, -40, -40, -50, -50, -40, -40, -30],
                [-20, -30, -30, -40, -40, -30, -30, -20],
                [-10, -20, -20, -20, -20, -20, -20, -10],
                [20, 20, 0, 0, 0, 0, 20, 20],
                [20, 30, 10, 0, 0, 10, 30, 20],
            ],
            king_endgame_position_bonus: [
                [-50, -40, -30, -20, -20, -30, -40, -50],
                [-30, -20, -10, 0, 0, -10, -20, -30],
                [-30, -10, 20, 30, 30, 20, -10, -30],
                [-30, -10, 30, 40, 40, 30, -10, -30],
                [-30, -10, 30, 40, 40, 30, -10, -30],
                [-30, -10, 20, 30, 30, 20, -10, -30],
                [-30, -30, 0, 0, 0, 0, -30, -30],
                [-50, -30, -30, -30, -30, -30, -30, -50],
            ],
            pawn_mobility_weight: 1,
            knight_mobility_weight: 2,
            bishop_mobility_weight: 3,
            rook_mobility_weight: 2,
            queen_mobility_weight: 1,
            king_mobility_weight: 1,
            doubled_pawn_penalty: -10,
            isolated_pawn_penalty: -20,
            passed_pawn_bonus: 20,
            connected_pawn_bonus: 10,
            pawn_shield_bonus: 5,
            open_file_penalty: -15,
            semi_open_file_penalty: -10,
            king_attack_bonus: 5,
        }
    }

    fn get_piece_value(&self, piece: Piece, rank: usize, file: usize, is_endgame: bool) -> (r: i32)
        requires
            self.wf(),
            rank < 8,
            file < 8,
        ensures
            r == self.base(piece) + self.bonus(piece, rank as int, file as int, is_endgame),
    {
        let base_value = match piece {
            Piece::Pawn => self.pawn_value,
            Piece::Knight => self.knight_value,
            Piece::Bishop => self.bishop_value,
            Piece::Rook => self.rook_value,
            Piece::Queen => self.queen_value,
            Piece::King => self.king_value,
        };
        let position_bonus = match piece {
            Piece::Pawn => self.pawn_position_bonus[rank][file],
            Piece::Knight => self.knight_position_bonus[rank][file],
            Piece::Bishop => self.bishop_position_bonus[rank][file],
            Piece::Rook => self.rook_position_bonus[rank][file],
            Piece::Queen => self.queen_position_bonus[rank][file],
            Piece::King => if is_endgame {
                self.king_endgame_position_bonus[rank][file]
            } else {
                self.king_position_bonus[rank][file]
            },
        };
        base_value + position_bonus
    }

    fn is_endgame(&self, board: &Board) -> (r: bool)
        ensures
            r == endgame(board@),
    {
        let mut major_pieces: u8 = 0;
        let mut s: u8 = 0;
        while s < 64
            invariant
                s <= 64,
                major_pieces == majors(board@, s as int),
                major_pieces <= s,
            decreases 64 - s,
        {
            if let Some((piece, _)) = board.get_piece_at(s) {
                if piece == Piece::Queen || piece == Piece::Rook {
                    major_pieces = major_pieces + 1;
                }
            }
            s = s + 1;
        }
        major_pieces <= 2
    }

    fn evaluate_material(&self, board: &Board, late: bool) -> (r: i64)
        requires
            self.wf(),
        ensures
            r == self.material(board@, late, 64),
            -200000 * 64 <= r <= 200000 * 64,
    {
        let mut score: i64 = 0;
        let mut s: u8 = 0;
        while s < 64
            invariant
                s <= 64,
                self.wf(),
                score == self.material(board@, late, s as int),
                -200000 * s <= score <= 200000 * s,
            decreases 64 - s,
        {
            if let Some((piece, color)) = board.get_piece_at(s) {
                let rank: usize = if color == Color::White { (s / 8) as usize } else { 7 - (s / 8) as usize };
                let value = self.get_piece_value(piece, rank, (s % 8) as usize, late) as i64;
                score = if color == Color::White { score + value } else { score - value };
            }
            s = s + 1;
        }
        score
    }

    /// The static score of `board`, positive when good for white.
    pub fn evaluate(&self, board: &Board) -> (r: i32)
        requires
            self.wf(),
        ensures
            r == self.score(board@),
            -200_000_000 <= r <= 200_000_000,
    {
        let late = self.is_endgame(board);
        let material = self.evaluate_material(board, late);
        let mobility = self.evaluate_mobility(board) as i64;
        let structure = self.evaluate_pawn_structure(board) as i64;
        let safety = self.evaluate_king_safety(board) as i64;
        (material + mobility + structure + safety) as i32
    }

    fn evaluate_mobility(&self, board: &Board) -> (r: i32)
        requires
            self.wf(),
        ensures
            r == self.mobility(board@),
            -100_000_000 <= r <= 100_000_000,
    {
        let move_generator = MoveGenerator::new();
        let moves = move_generator.generate_moves(board);
        proof {
            lemma_move_list_len(board@);
        }
        let ghost ms = moves@;
        let pawn = count_moves_of(&moves, Piece::Pawn);
        let knight = count_moves_of(&moves, Piece::Knight);
        let bishop = count_moves_of(&moves, Piece::Bishop);
        let rook = count_moves_of(&moves, Piece::Rook);
        let queen = count_moves_of(&moves, Piece::Queen);
        let king = count_moves_of(&moves, Piece::King);
        proof {
            lemma_scaled(self.pawn_mobility_weight as int, pawn as int, 16384);
            lemma_scaled(self.knight_mobility_weight as int, knight as int, 16384);
            lemma_scaled(self.bishop_mobility_weight as int, bishop as int, 16384);
            lemma_scaled(self.rook_mobility_weight as int, rook as int, 16384);
            lemma_scaled(self.queen_mobility_weight as int, queen as int, 16384);
            lemma_scaled(self.king_mobility_weight as int, king as int, 16384);
        }
        let score: i64 = self.pawn_mobility_weight as i64 * pawn as i64
            + self.knight_mobility_weight as i64 * knight as i64
            + self.bishop_mobility_weight as i64 * bishop as i64
            + self.rook_mobility_weight as i64 * rook as i64
            + self.queen_mobility_weight as i64 * queen as i64
            + self.king_mobility_weight as i64 * king as i64;
        let signed = if board.side_to_move == Color::Black { -score } else { score };
        signed as i32
    }

    fn file_score_exec(&self, b: &Board, c: Color, f: i8) -> (r: i64)
        requires
            self.wf(),
            0 <= f < 8,
        ensures
            r == self.file_score(b@, c, f as int),
            -9000 <= r <= 9000,
    {
        let n = file_pawn_count(b, c, f) as i64;
        let left = file_pawn_count(b, c, f - 1);
        let right = file_pawn_count(b, c, f + 1);
        proof {
            if n > 1 {
                lemma_scaled(self.doubled_pawn_penalty as int, n - 1, 7);
            }
        }
        let doubled: i64 = if n > 1 { self.doubled_pawn_penalty as i64 * (n - 1) } else { 0 };
        let isolated: i64 = if n > 0 && left == 0 && right == 0 { self.isolated_pawn_penalty as i64 } else { 0 };
        let connected: i64 = if f < 7 && n > 0 && right > 0 { self.connected_pawn_bonus as i64 } else { 0 };
        doubled + isolated + connected
    }

    fn evaluate_pawn_structure(&self, board: &Board) -> (r: i32)
        requires
            self.wf(),
        ensures
            r == self.structure(board@, Color::White) - self.structure(board@, Color::Black),
            -400000 <= r <= 400000,
    {
        let white = self.evaluate_pawn_structure_for_color(board, Color::White);
        let black = self.evaluate_pawn_structure_for_color(board, Color::Black);
        white - black
    }

    fn evaluate_pawn_structure_for_color(&self, board: &Board, color: Color) -> (r: i32)
        requires
            self.wf(),
        ensures
            r == self.structure(board@, color),
            -200000 <= r <= 200000,
    {
        let mut score: i64 = 0;
        let mut f: i8 = 0;
        while f < 8
            invariant
                0 <= f <= 8,
                self.wf(),
                score == self.files_score(board@, color, f as int),
                -9000 * f <= score <= 9000 * f,
            decreases 8 - f,
        {
            score = score + self.file_score_exec(board, color, f);
            f = f + 1;
        }
        let mut passed: i64 = 0;
        let mut s: u8 = 0;
        while s < 64
            invariant
                s <= 64,
                self.wf(),
                passed == self.passed_score(board@, color, s as int),
                -1000 * s <= passed <= 1000 * s,
            decreases 64 - s,
        {
            assert(self.passed_score(board@, color, s + 1) == self.passed_score(board@, color, s as int)
                + if board@.piece_at(s as int) == Some((Piece::Pawn, color)) && !enemy_pawn_ahead(board@, color, s as int, 64) {
                self.passed_pawn_bonus as int
            } else {
                0
            });
            if pawn_of(board, s, color) && !enemy_ahead_exec(board, color, s) {
                passed = passed + self.passed_pawn_bonus as i64;
            }
            s = s + 1;
        }
        (score + passed) as i32
    }

    fn evaluate_king_safety(&self, board: &Board) -> (r: i32)
        requires
            self.wf(),
        ensures
            r == self.king_safety(board@, Color::White) - self.king_safety(board@, Color::Black),
            -10000 <= r <= 10000,
    {
        let (white_king, black_king) = self.find_kings(board);
        let white = self.evaluate_pawn_shield(board, white_king, Color::White)
            + self.evaluate_open_files(board, white_king, Color::White);
        let black = self.evaluate_pawn_shield(board, black_king, Color::Black)
            + self.evaluate_open_files(board, black_king, Color::Black);
        white - black
    }

    /// The first square of each king, 64 when a king is missing.
    fn find_kings(&self, board: &Board) -> (r: (u8, u8))
        ensures
            r.0 == first_of_kind(board@, Color::White, Piece::King, 0),
            r.1 == first_of_kind(board@, Color::Black, Piece::King, 0),
    {
        (first_king(board, Color::White), first_king(board, Color::Black))
    }

    fn evaluate_pawn_shield(&self, board: &Board, king_square: u8, color: Color) -> (r: i32)
        requires
            self.wf(),
            king_square == first_of_kind(board@, color, Piece::King, 0),
        ensures
            r == self.shield(board@, color),
            -3000 <= r <= 3000,
    {
        if king_square >= 64 {
            return 0;
        }
        let rank = (king_square / 8) as i8 + if color == Color::White { 1 } else { -1 };
        let file = (king_square % 8) as i8;
        let mut score: i32 = 0;
        let mut df: i8 = -1;
        while df <= 1
            invariant
                -1 <= df <= 2,
                -1 <= rank <= 8,
                0 <= file < 8,
                self.wf(),
                king_square < 64,
                rank == rank_of(king_square as int) + if color == Color::White { 1int } else { -1int },
                file == file_of(king_square as int),
                score == self.shield_part(board@, color, rank as int, file as int, df as int),
                -1000 * (df + 1) <= score <= 1000 * (df + 1),
            decreases 2 - df,
        {
            let f = file + df;
            assert(((rank * 8 + f) as u8) as int == sq(rank as int, f as int) || !on_board(rank as int, f as int));
            if 0 <= rank && rank < 8 && 0 <= f && f < 8
                && pawn_of(board, (rank * 8 + f) as u8, color) {
                score = score + self.pawn_shield_bonus;
            }
            df = df + 1;
        }
        proof {
            let (p, r, f) = (board@, rank as int, file as int);
            let term = |d: int| if on_board(r, f + d) && p.piece_at(sq(r, f + d)) == Some((Piece::Pawn, color)) {
                self.pawn_shield_bonus as int
            } else {
                0
            };
            assert(self.shield_part(p, color, r, f, -1) == 0);
            assert(self.shield_part(p, color, r, f, 0) == term(-1));
            assert(self.shield_part(p, color, r, f, 1) == term(-1) + term(0));
            assert(self.shield_part(p, color, r, f, 2) == term(-1) + term(0) + term(1));
        }
        assert(self.shield(board@, color) == self.shield_part(board@, color, rank as int, file as int, 2));
        score
    }

    /// The shield bonus counted over file offsets below `upto`, starting at -1.
    pub open spec fn shield_part(&self, p: Position, c: Color, r: int, f: int, upto: int) -> int
        decreases upto + 1,
    {
        if upto <= -1 {
            0
        } else {
            self.shield_part(p, c, r, f, upto - 1)
                + if on_board(r, f + upto - 1) && p.piece_at(sq(r, f + upto - 1)) == Some((Piece::Pawn, c)) {
                self.pawn_shield_bonus as int
            } else {
                0
            }
        }
    }

    fn evaluate_open_files(&self, board: &Board, king_square: u8, color: Color) -> (r: i32)
        requires
            self.wf(),
            king_square == first_of_kind(board@, color, Piece::King, 0),
        ensures
            r == self.open_file(board@, color),
            -1000 <= r <= 1000,
    {
        if king_square >= 64 {
            return 0;
        }
        let file = (king_square % 8) as i8;
        let has_own_pawn = file_pawn_count(board, color, file) > 0;
        let has_opponent_pawn = file_pawn_count(board, color.opposite(), file) > 0;
        if !has_own_pawn && !has_opponent_pawn {
            self.open_file_penalty
        } else if !has_own_pawn {
            self.semi_open_file_penalty
        } else {
            0
        }
    }
}

/// Whether a pawn of color `c` is what stands on `s`.
fn pawn_of(b: &Board, s: u8, c: Color) -> (r: bool)
    requires
        s < 64,
    ensures
        r == (b@.piece_at(s as int) == Some((Piece::Pawn, c))),
{
    match b.get_piece_at(s) {
        Some((Piece::Pawn, owner)) => owner == c,
        _ => false,
    }
}

fn first_king(b: &Board, c: Color) -> (r: u8)
    ensures
        r == first_of_kind(b@, c, Piece::King, 0),
{
    let mut s: u8 = 0;
    while s < 64
        invariant
            s <= 64,
            first_of_kind(b@, c, Piece::King, 0) == first_of_kind(b@, c, Piece::King, s as int),
        decreases 64 - s,
    {
        if b.kind_at(c, s) == Some(Piece::King) {
            return s;
        }
        s = s + 1;
    }
    64
}

proof fn lemma_material_bound(e: Evaluator, p: Position, late: bool, n: int)
    requires
        e.wf(),
        0 <= n <= 64,
    ensures
        -200000 * n <= e.material(p, late, n) <= 200000 * n,
    decreases n,
{
    if n > 0 {
        lemma_material_bound(e, p, late, n - 1);
        let s = n - 1;
        match p.piece_at(s) {
            Some((k, c)) => {
                let r = if c == Color::White { rank_of(s) } else { 7 - rank_of(s) };
                let f = file_of(s);
                assert(0 <= r < 8 && 0 <= f < 8);
                let t = match k {
                    Piece::Pawn => e.pawn_position_bonus,
                    Piece::Knight => e.knight_position_bonus,
                    Piece::Bishop => e.bishop_position_bonus,
                    Piece::Rook => e.rook_position_bonus,
                    Piece::Queen => e.queen_position_bonus,
                    Piece::King => if late { e.king_endgame_position_bonus } else { e.king_position_bonus },
                };
                assert(table_ok(t));
                assert(-100000 <= t@[r]@[f] <= 100000);
            },
            None => {},
        }
    }
}

proof fn lemma_move_count_bound(ms: Seq<Move>, k: Piece)
    ensures
        move_count(ms, k) <= ms.len(),
    decreases ms.len(),
{
    if ms.len() > 0 {
        lemma_move_count_bound(ms.drop_last(), k);
    }
}

proof fn lemma_files_bound(e: Evaluator, p: Position, c: Color, n: int)
    requires
        e.wf(),
        0 <= n,
    ensures
        -9000 * n <= e.files_score(p, c, n) <= 9000 * n,
    decreases n,
{
    if n > 0 {
        lemma_files_bound(e, p, c, n - 1);
        let f = n - 1;
        let cnt = pawns_on_file(p, c, f);
        if 0 <= f < 8 {
            lemma_file_pawns_bound(p, c, f, 8);
        }
        if cnt > 1 {
            lemma_scaled(e.doubled_pawn_penalty as int, cnt - 1, 7);
        }
    }
}

proof fn lemma_passed_bound(e: Evaluator, p: Position, c: Color, n: int)
    requires
        e.wf(),
        0 <= n,
    ensures
        -1000 * n <= e.passed_score(p, c, n) <= 1000 * n,
    decreases n,
{
    if n > 0 {
        lemma_passed_bound(e, p, c, n - 1);
    }
}

/// With bounded values and weights, a static score stays within two hundred million.
pub proof fn lemma_score_bound(e: Evaluator, p: Position)
    requires
        e.wf(),
    ensures
        -200_000_000 <= e.score(p) <= 200_000_000,
{
    lemma_material_bound(e, p, endgame(p), 64);
    let ms = legal_moves(p);
    lemma_move_list_len(p);
    lemma_move_count_bound(ms, Piece::Pawn);
    lemma_move_count_bound(ms, Piece::Knight);
    lemma_move_count_bound(ms, Piece::Bishop);
    lemma_move_count_bound(ms, Piece::Rook);
    lemma_move_count_bound(ms, Piece::Queen);
    lemma_move_count_bound(ms, Piece::King);
    lemma_scaled(e.weight(Piece::Pawn), move_count(ms, Piece::Pawn) as int, 16384);
    lemma_scaled(e.weight(Piece::Knight), move_count(ms, Piece::Knight) as int, 16384);
    lemma_scaled(e.weight(Piece::Bishop), move_count(ms, Piece::Bishop) as int, 16384);
    lemma_scaled(e.weight(Piece::Rook), move_count(ms, Piece::Rook) as int, 16384);
    lemma_scaled(e.weight(Piece::Queen), move_count(ms, Piece::Queen) as int, 16384);
    lemma_scaled(e.weight(Piece::King), move_count(ms, Piece::King) as int, 16384);
    lemma_files_bound(e, p, Color::White, 8);
    lemma_files_bound(e, p, Color::Black, 8);
    lemma_passed_bound(e, p, Color::White, 64);
    lemma_passed_bound(e, p, Color::Black, 64);
}

} // verus!
