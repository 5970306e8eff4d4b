//! What holds of every position and move: the move list, castling rights,
//! the en-passant target.
use vstd::prelude::*;
use crate::bits::{has_bit, lemma_same_squares, lemma_with, lemma_without, with, without};
use crate::board::{
    Color, Piece, Position, capture_square, castle_rook_from, castle_rook_to, is_double_push,
    kind_of_index, mover_after, other_after, placed_kind, rank_of, file_of, start_position,
};
use crate::movegen::Move;
use crate::rules::{
    canonical, in_check, keep_if_safe, last_rank, legal, legal_moves, legal_prefix, moves_at,
    moves_with, needs_promotion, promotion_choices, reachable, pawn_move, castle, clear_steps, sq,
    on_board, ray_hit, slide, sign, abs, attacked,
};

verus! {

proof fn lemma_concat_contains<A>(a: Seq<A>, b: Seq<A>, x: A)
    ensures
        (a + b).contains(x) <==> a.contains(x) || b.contains(x),
{
    if (a + b).contains(x) {
        let i = choose|i: int| 0 <= i < (a + b).len() && (a + b)[i] == x;
        if i < a.len() {
            assert(a[i] == x);
        } else {
            assert(b[i - a.len()] == x);
        }
    }
    if a.contains(x) {
        let i = choose|i: int| 0 <= i < a.len() && a[i] == x;
        assert((a + b)[i] == x);
    }
    if b.contains(x) {
        let i = choose|i: int| 0 <= i < b.len() && b[i] == x;
        assert((a + b)[i + a.len()] == x);
    }
}

proof fn lemma_concat_no_dup<A>(a: Seq<A>, b: Seq<A>)
    requires
        a.no_duplicates(),
        b.no_duplicates(),
        forall|x: A| a.contains(x) ==> !b.contains(x),
    ensures
        (a + b).no_duplicates(),
{
    let s = a + b;
    assert forall|i: int, j: int| 0 <= i < s.len() && 0 <= j < s.len() && i != j implies s[i] != s[j] by {
        if i < a.len() && j >= a.len() {
            assert(a.contains(s[i]));
            assert(b[j - a.len()] == s[j]);
        } else if j < a.len() && i >= a.len() {
            assert(a.contains(s[j]));
            assert(b[i - a.len()] == s[i]);
        } else if i >= a.len() && j >= a.len() {
            assert(b[i - a.len()] == s[i] && b[j - a.len()] == s[j]);
        }
    }
}

proof fn lemma_moves_with_contains(p: Position, from: int, to: int, choices: Seq<Option<Piece>>, m: Move)
    ensures
        moves_with(p, from, to, choices).contains(m) <==> (choices.contains(m.promotion)
            && m == canonical(p, from, to, m.promotion) && !in_check(p.after(m), p.side)),
    decreases choices.len(),
{
    if choices.len() > 0 {
        let init = choices.drop_last();
        let last = choices.last();
        lemma_moves_with_contains(p, from, to, init, m);
        lemma_concat_contains(moves_with(p, from, to, init), keep_if_safe(p, canonical(p, from, to, last)), m);
        assert(choices =~= init + seq![last]);
        lemma_concat_contains(init, seq![last], m.promotion);
        if seq![last].contains(m.promotion) {
            assert(seq![last][0] == last);
        }
        if keep_if_safe(p, canonical(p, from, to, last)).contains(m) {
            assert(keep_if_safe(p, canonical(p, from, to, last))[0] == m);
            assert(seq![last][0] == m.promotion);
        }
        if m == canonical(p, from, to, last) && !in_check(p.after(m), p.side) {
            assert(keep_if_safe(p, canonical(p, from, to, last))[0] == m);
        }
    }
}

proof fn lemma_moves_with_no_dup(p: Position, from: int, to: int, choices: Seq<Option<Piece>>)
    requires
        choices.no_duplicates(),
    ensures
        moves_with(p, from, to, choices).no_duplicates(),
    decreases choices.len(),
{
    if choices.len() > 0 {
        let init = choices.drop_last();
        let last = choices.last();
        let m = canonical(p, from, to, last);
        assert(init.no_duplicates());
        lemma_moves_with_no_dup(p, from, to, init);
        assert forall|x: Move| moves_with(p, from, to, init).contains(x)
            implies !keep_if_safe(p, m).contains(x) by {
            lemma_moves_with_contains(p, from, to, init, x);
            if keep_if_safe(p, m).contains(x) {
                assert(keep_if_safe(p, m)[0] == x);
                let j = choose|j: int| 0 <= j < init.len() && init[j] == x.promotion;
                assert(choices[j] == choices[choices.len() - 1]);
            }
        }
        lemma_concat_no_dup(moves_with(p, from, to, init), keep_if_safe(p, m));
    }
}

proof fn lemma_moves_at_contains(p: Position, from: int, to: int, m: Move)
    requires
        0 <= from < 64,
        0 <= to < 64,
    ensures
        moves_at(p, from, to).contains(m) <==> (legal(p, m) && m.from == from && m.to == to),
{
    let choices = promotion_choices(p, from, to);
    if reachable(p, from, to) {
        lemma_moves_with_contains(p, from, to, choices, m);
        if moves_at(p, from, to).contains(m) {
            crate::movegen::lemma_canonical_wf(p, from, to, m.promotion);
            let j = choose|j: int| 0 <= j < choices.len() && choices[j] == m.promotion;
        }
        if legal(p, m) && m.from == from && m.to == to {
            if needs_promotion(p, from, to) {
                if m.promotion == Some(Piece::Queen) {
                    assert(choices[0] == m.promotion);
                } else if m.promotion == Some(Piece::Rook) {
                    assert(choices[1] == m.promotion);
                } else if m.promotion == Some(Piece::Bishop) {
                    assert(choices[2] == m.promotion);
                } else {
                    assert(choices[3] == m.promotion);
                }
            } else {
                assert(choices[0] == m.promotion);
            }
        }
    }
}

proof fn lemma_prefix_contains(p: Position, n: int, m: Move)
    requires
        0 <= n <= 4096,
    ensures
        legal_prefix(p, n).contains(m) <==> (legal(p, m) && m.from * 64 + m.to < n),
    decreases n,
{
    if n > 0 {
        let from = (n - 1) / 64;
        let to = (n - 1) % 64;
        lemma_prefix_contains(p, n - 1, m);
        lemma_moves_at_contains(p, from, to, m);
        lemma_concat_contains(legal_prefix(p, n - 1), moves_at(p, from, to), m);
        if legal(p, m) && m.from * 64 + m.to == n - 1 {
            crate::movegen::lemma_index(m.from as int, m.to as int);
        }
        if legal(p, m) && m.from == from && m.to == to {
            crate::movegen::lemma_index(from, to);
            assert(from * 64 + to == n - 1) by {
                vstd::arithmetic::div_mod::lemma_fundamental_div_mod(n - 1, 64);
            }
        }
    } else {
        assert(legal_prefix(p, n) =~= Seq::<Move>::empty());
    }
}

proof fn lemma_prefix_no_dup(p: Position, n: int)
    requires
        0 <= n <= 4096,
    ensures
        legal_prefix(p, n).no_duplicates(),
    decreases n,
{
    if n > 0 {
        let from = (n - 1) / 64;
        let to = (n - 1) % 64;
        lemma_prefix_no_dup(p, n - 1);
        let choices = promotion_choices(p, from, to);
        if reachable(p, from, to) {
            if needs_promotion(p, from, to) {
                assert(choices.no_duplicates());
            } else {
                assert(choices.no_duplicates());
            }
            lemma_moves_with_no_dup(p, from, to, choices);
        }
        assert forall|x: Move| legal_prefix(p, n - 1).contains(x)
            implies !moves_at(p, from, to).contains(x) by {
            lemma_prefix_contains(p, n - 1, x);
            lemma_moves_at_contains(p, from, to, x);
            if moves_at(p, from, to).contains(x) {
                vstd::arithmetic::div_mod::lemma_fundamental_div_mod(n - 1, 64);
            }
        }
        lemma_concat_no_dup(legal_prefix(p, n - 1), moves_at(p, from, to));
    } else {
        assert(legal_prefix(p, n) =~= Seq::<Move>::empty());
    }
}

/// The generated move list holds exactly the legal moves, each once: every move in it
/// passes the legality test, and the mover's king is not attacked after playing it.
pub proof fn lemma_move_list_exact(p: Position, m: Move)
    ensures
        legal_moves(p).contains(m) <==> legal(p, m),
        legal_moves(p).contains(m) ==> !in_check(p.after(m), p.side),
        legal_moves(p).no_duplicates(),
{
    lemma_prefix_contains(p, 4096, m);
    lemma_prefix_no_dup(p, 4096);
}

/// Every generated move describes the board: its piece is the mover's piece on `from`,
/// its captured kind is the opponent's piece on the capture square (`to`, or the pawn
/// behind `to` for en passant), and it promotes exactly when a pawn reaches the last rank.
pub proof fn lemma_moves_describe_board(p: Position, m: Move)
    requires
        legal_moves(p).contains(m),
    ensures
        p.kind_at(p.side, m.from as int) == Some(m.piece),
        m.captured_piece == p.kind_at(p.side.opp(), capture_square(p.side, m)),
        m.promotion.is_some() <==> (m.piece == Piece::Pawn && rank_of(m.to as int) == last_rank(p.side)),
{
    lemma_move_list_exact(p, m);
    let from = m.from as int;
    let to = m.to as int;
    if m.is_en_passant {
        assert(pawn_move(p, from, to));
    }
}

/// The position reached by playing `ms` in order from `p`.
pub open spec fn play(p: Position, ms: Seq<Move>) -> Position
    decreases ms.len(),
{
    if ms.len() == 0 {
        p
    } else {
        play(p, ms.drop_last()).after(ms.last())
    }
}

proof fn lemma_subset_narrow(x: u8, y: u8, z: u8)
    by (bit_vector)
    requires
        x & !y == 0,
    ensures
        (x & !z) & !y == 0,
{
}

proof fn lemma_subset_self(x: u8)
    by (bit_vector)
    ensures
        x & !x == 0,
{
}

/// Castling rights never come back: along any sequence of moves, every right held at
/// the end was held at the start.
pub proof fn lemma_castling_rights_monotone(p: Position, ms: Seq<Move>)
    ensures
        play(p, ms).castling & !p.castling == 0,
    decreases ms.len(),
{
    if ms.len() == 0 {
        lemma_subset_self(p.castling);
    } else {
        let q = play(p, ms.drop_last());
        lemma_castling_rights_monotone(p, ms.drop_last());
        lemma_subset_narrow(q.castling, p.castling, crate::board::rights_lost(q.side, ms.last()));
    }
}

/// An en-passant target is set only by a pawn's double push, and it is the square the
/// pawn passed over.
pub proof fn lemma_en_passant_from_double_push(p: Position, m: Move)
    ensures
        p.after(m).ep.is_some() <==> is_double_push(m),
        p.after(m).ep.is_some() ==> p.after(m).ep == Some(((m.from + m.to) / 2) as u8),
{
}

/// Playing a move is deterministic: equal positions give equal results.
pub proof fn lemma_make_move_deterministic(p: Position, q: Position, m: Move)
    requires
        p == q,
    ensures
        p.after(m) == q.after(m),
{
}

proof fn lemma_moves_with_len(p: Position, from: int, to: int, choices: Seq<Option<Piece>>)
    ensures
        moves_with(p, from, to, choices).len() <= choices.len(),
    decreases choices.len(),
{
    if choices.len() > 0 {
        lemma_moves_with_len(p, from, to, choices.drop_last());
    }
}

proof fn lemma_prefix_len(p: Position, n: int)
    requires
        0 <= n,
    ensures
        legal_prefix(p, n).len() <= 4 * n,
    decreases n,
{
    if n > 0 {
        lemma_prefix_len(p, n - 1);
        let from = (n - 1) / 64;
        let to = (n - 1) % 64;
        if reachable(p, from, to) {
            lemma_moves_with_len(p, from, to, promotion_choices(p, from, to));
        }
    }
}

/// A position has at most 16384 legal moves.
pub proof fn lemma_move_list_len(p: Position)
    ensures
        legal_moves(p).len() <= 16384,
{
    lemma_prefix_len(p, 4096);
}

/// The piece-sets of a position are pairwise disjoint.
pub open spec fn disjoint(p: Position) -> bool {
    forall|c1: Color, k1: Piece, c2: Color, k2: Piece, s: int|
        #![trigger has_bit(p.bb(c1, k1), s), has_bit(p.bb(c2, k2), s)]
        has_bit(p.bb(c1, k1), s) && has_bit(p.bb(c2, k2), s) ==> c1 == c2 && k1 == k2
}

/// `piece_at` agrees with the piece-sets: on a board whose piece-sets are disjoint,
/// square `s` is reported as holding kind `k` of color `c` exactly when that set holds
/// `s`, so no square is claimed twice.
pub proof fn lemma_piece_at_consistent(p: Position, s: int, k: Piece, c: Color)
    requires
        disjoint(p),
    ensures
        p.piece_at(s) == Some((k, c)) <==> has_bit(p.bb(c, k), s),
{
}

proof fn lemma_mover_bits(bb: u64, k: Piece, side: Color, m: Move, s: int)
    requires
        m.wf(),
    ensures
        has_bit(mover_after(bb, k, side, m), s) == {
            let placed = (has_bit(bb, s) && s != m.from) || (k == placed_kind(m) && s == m.to);
            if m.is_castling && k == Piece::Rook {
                (placed && s != castle_rook_from(side, m)) || s == castle_rook_to(side, m)
            } else {
                placed
            }
        },
{
    let lifted = without(bb, m.from as int);
    lemma_without(bb, m.from as int, s);
    let placed = if k == placed_kind(m) { with(lifted, m.to as int) } else { lifted };
    if k == placed_kind(m) {
        lemma_with(lifted, m.to as int, s);
    }
    if m.is_castling && k == Piece::Rook {
        let rf = castle_rook_from(side, m);
        let rt = castle_rook_to(side, m);
        lemma_without(placed, rf, s);
        lemma_with(without(placed, rf), rt, s);
    }
}

proof fn lemma_other_bits(bb: u64, k: Piece, side: Color, m: Move, s: int)
    requires
        m.wf(),
    ensures
        has_bit(other_after(bb, k, side, m), s) == (has_bit(bb, s)
            && !(m.captured_piece == Some(k) && s == capture_square(side, m))),
{
    if m.captured_piece == Some(k) {
        lemma_without(bb, capture_square(side, m), s);
    }
}

proof fn lemma_after_bits(p: Position, m: Move, c: Color, k: Piece, s: int)
    requires
        m.wf(),
        p.white.len() == 6,
        p.black.len() == 6,
    ensures
        p.after(m).bb(c, k) == if c == p.side {
            mover_after(p.bb(c, k), k, p.side, m)
        } else {
            other_after(p.bb(c, k), k, p.side, m)
        },
        has_bit(p.after(m).bb(c, k), s) == if c == p.side {
            has_bit(mover_after(p.bb(c, k), k, p.side, m), s)
        } else {
            has_bit(other_after(p.bb(c, k), k, p.side, m), s)
        },
{
    assert(kind_of_index(k.idx()) == k);
}

/// A legal move keeps the piece-sets pairwise disjoint: the mover leaves `from`, lands
/// alone on `to` (a piece there is the one it captures), and a castling rook lands on an
/// empty square.
pub proof fn lemma_legal_move_keeps_disjoint(p: Position, m: Move)
    requires
        p.white.len() == 6,
        p.black.len() == 6,
        disjoint(p),
        legal(p, m),
    ensures
        disjoint(p.after(m)),
{
    let q = p.after(m);
    let side = p.side;
    let from = m.from as int;
    let to = m.to as int;
    if m.is_castling {
        assert(castle(p, from, to));
    }
    if m.is_en_passant {
        assert(pawn_move(p, from, to));
    }
    assert forall|c1: Color, k1: Piece, c2: Color, k2: Piece, s: int|
        has_bit(q.bb(c1, k1), s) && has_bit(q.bb(c2, k2), s) implies c1 == c2 && k1 == k2 by {
        lemma_after_bits(p, m, c1, k1, s);
        lemma_after_bits(p, m, c2, k2, s);
        lemma_mover_bits(p.bb(c1, k1), k1, side, m, s);
        lemma_mover_bits(p.bb(c2, k2), k2, side, m, s);
        lemma_other_bits(p.bb(c1, k1), k1, side, m, s);
        lemma_other_bits(p.bb(c2, k2), k2, side, m, s);
        if c1 != side && has_bit(p.bb(c1, k1), to) {
            assert(p.kind_at(side.opp(), to) == Some(k1));
        }
        if c2 != side && has_bit(p.bb(c2, k2), to) {
            assert(p.kind_at(side.opp(), to) == Some(k2));
        }
    }
}

proof fn lemma_start_sets(s: u64)
    by (bit_vector)
    requires
        s < 64,
    ensures
        ((0x000000000000FF00u64 >> s) & 1 == 1) == (8 <= s && s < 16),
        ((0x0000000000000042u64 >> s) & 1 == 1) == (s == 1 || s == 6),
        ((0x0000000000000024u64 >> s) & 1 == 1) == (s == 2 || s == 5),
        ((0x0000000000000081u64 >> s) & 1 == 1) == (s == 0 || s == 7),
        ((0x0000000000000008u64 >> s) & 1 == 1) == (s == 3),
        ((0x0000000000000010u64 >> s) & 1 == 1) == (s == 4),
        ((0x00FF000000000000u64 >> s) & 1 == 1) == (48 <= s && s < 56),
        ((0x4200000000000000u64 >> s) & 1 == 1) == (s == 57 || s == 62),
        ((0x2400000000000000u64 >> s) & 1 == 1) == (s == 58 || s == 61),
        ((0x8100000000000000u64 >> s) & 1 == 1) == (s == 56 || s == 63),
        ((0x0800000000000000u64 >> s) & 1 == 1) == (s == 59),
        ((0x1000000000000000u64 >> s) & 1 == 1) == (s == 60),
{
}

/// The piece-sets of the initial position are pairwise disjoint.
pub proof fn lemma_start_disjoint()
    ensures
        disjoint(start_position()),
{
    let p = start_position();
    assert forall|c1: Color, k1: Piece, c2: Color, k2: Piece, s: int|
        has_bit(p.bb(c1, k1), s) && has_bit(p.bb(c2, k2), s) implies c1 == c2 && k1 == k2 by {
        lemma_start_sets(s as u64);
    }
}

/// `ms` is a game from `p`: each move is legal where it is played.
pub open spec fn legal_game(p: Position, ms: Seq<Move>) -> bool {
    forall|i: int| 0 <= i < ms.len() ==> legal(#[trigger] play(p, ms.take(i)), ms[i])
}

proof fn lemma_play_shape(p: Position, ms: Seq<Move>)
    requires
        p.white.len() == 6,
        p.black.len() == 6,
    ensures
        play(p, ms).white.len() == 6,
        play(p, ms).black.len() == 6,
    decreases ms.len(),
{
    if ms.len() > 0 {
        lemma_play_shape(p, ms.drop_last());
    }
}

/// Along any game from the initial position no square is claimed by two piece-sets,
/// so `piece_at` reports exactly the piece-set that holds each square.
pub proof fn lemma_game_keeps_disjoint(ms: Seq<Move>)
    requires
        legal_game(start_position(), ms),
    ensures
        disjoint(play(start_position(), ms)),
    decreases ms.len(),
{
    let p = start_position();
    if ms.len() == 0 {
        lemma_start_disjoint();
    } else {
        let init = ms.drop_last();
        assert forall|i: int| 0 <= i < init.len() implies legal(#[trigger] play(p, init.take(i)), init[i]) by {
            assert(init.take(i) =~= ms.take(i));
            assert(legal(play(p, ms.take(i)), ms[i]));
        }
        lemma_game_keeps_disjoint(init);
        assert(ms.take(ms.len() - 1) =~= init);
        assert(legal(play(p, ms.take(ms.len() - 1)), ms[ms.len() - 1]));
        lemma_play_shape(p, init);
        lemma_legal_move_keeps_disjoint(play(p, init), ms.last());
    }
}

/// After a legal move the en-passant target, when set, lies on the third rank (after a
/// white move) or the sixth (after a black move).
pub proof fn lemma_en_passant_rank(p: Position, m: Move)
    requires
        legal(p, m),
        p.after(m).ep.is_some(),
    ensures
        rank_of(p.after(m).ep.unwrap() as int) == if p.side == Color::White { 2int } else { 5int },
{
    let from = m.from as int;
    let to = m.to as int;
    assert(is_double_push(m));
    assert(pawn_move(p, from, to));
}

/// A mover's piece-set of kind `k` with move `m` taken back: a castling rook returns to
/// its corner, the landing square is cleared, and the mover returns to `from`.
pub open spec fn mover_undone(bb: u64, k: Piece, side: Color, m: Move) -> u64 {
    let rook_back = if m.is_castling && k == Piece::Rook {
        with(without(bb, castle_rook_to(side, m)), castle_rook_from(side, m))
    } else {
        bb
    };
    let lifted = if k == placed_kind(m) { without(rook_back, m.to as int) } else { rook_back };
    if k == m.piece { with(lifted, m.from as int) } else { lifted }
}

/// The opponent's piece-set of kind `k` with the captured piece put back.
pub open spec fn other_undone(bb: u64, k: Piece, side: Color, m: Move) -> u64 {
    if m.captured_piece == Some(k) { with(bb, capture_square(side, m)) } else { bb }
}

/// Takes move `m` back from `q`, restoring the side to move, castling rights, en-passant
/// target and clocks from `before`.
pub open spec fn undo(q: Position, m: Move, before: Position) -> Position {
    let side = before.side;
    let mine = Seq::new(6, |i: int| mover_undone(q.bb(side, kind_of_index(i)), kind_of_index(i), side, m));
    let theirs = Seq::new(6, |i: int| other_undone(q.bb(side.opp(), kind_of_index(i)), kind_of_index(i), side, m));
    Position {
        white: if side == Color::White { mine } else { theirs },
        black: if side == Color::White { theirs } else { mine },
        side,
        castling: before.castling,
        ep: before.ep,
        halfmove: before.halfmove,
        fullmove: before.fullmove,
    }
}

/// Playing a legal move and taking it back gives the position played from: make-move
/// loses nothing that the move does not say.
pub proof fn lemma_undo_restores(p: Position, m: Move)
    requires
        p.white.len() == 6,
        p.black.len() == 6,
        disjoint(p),
        legal(p, m),
    ensures
        undo(p.after(m), m, p) == p,
{
    let q = p.after(m);
    let u = undo(q, m, p);
    let side = p.side;
    let from = m.from as int;
    let to = m.to as int;
    if m.is_castling {
        assert(castle(p, from, to));
    }
    if m.is_en_passant {
        assert(pawn_move(p, from, to));
    }
    assert forall|c: Color, k: Piece| u.bb(c, k) == p.bb(c, k) by {
        assert(kind_of_index(k.idx()) == k);
        assert forall|s: int| 0 <= s < 64 implies #[trigger] has_bit(u.bb(c, k), s) == has_bit(p.bb(c, k), s) by {
            lemma_after_bits(p, m, c, k, s);
            let bb = q.bb(c, k);
            if c == side {
                lemma_mover_bits(p.bb(c, k), k, side, m, s);
                let rf = castle_rook_from(side, m);
                let rt = castle_rook_to(side, m);
                let rook_back = if m.is_castling && k == Piece::Rook { with(without(bb, rt), rf) } else { bb };
                if m.is_castling && k == Piece::Rook {
                    lemma_without(bb, rt, s);
                    lemma_with(without(bb, rt), rf, s);
                }
                let lifted = if k == placed_kind(m) { without(rook_back, to) } else { rook_back };
                if k == placed_kind(m) {
                    lemma_without(rook_back, to, s);
                }
                if k == m.piece {
                    lemma_with(lifted, from, s);
                }
                if has_bit(p.bb(side, k), from) {
                    assert(p.kind_at(side, from) == Some(k));
                }
            } else {
                lemma_other_bits(p.bb(c, k), k, side, m, s);
                if m.captured_piece == Some(k) {
                    lemma_with(bb, capture_square(side, m), s);
                }
                if has_bit(p.bb(c, k), to) {
                    assert(p.kind_at(side.opp(), to) == Some(k));
                }
            }
        }
        lemma_same_squares(u.bb(c, k), p.bb(c, k));
    }
    assert(u.white =~= p.white) by {
        assert forall|i: int| 0 <= i < 6 implies u.white[i] == p.white[i] by {
            assert(u.bb(Color::White, kind_of_index(i)) == p.bb(Color::White, kind_of_index(i)));
        }
    }
    assert(u.black =~= p.black) by {
        assert forall|i: int| 0 <= i < 6 implies u.black[i] == p.black[i] by {
            assert(u.bb(Color::Black, kind_of_index(i)) == p.bb(Color::Black, kind_of_index(i)));
        }
    }
}

pub open spec fn step(j: int, d: int) -> int {
    if d > 0 { j } else if d < 0 { -j } else { 0 }
}

proof fn lemma_clear_all(p: Position, r: int, f: int, dr: int, df: int, n: int)
    requires
        clear_steps(p, r, f, dr, df, n),
        -1 <= dr <= 1,
        -1 <= df <= 1,
    ensures
        forall|k: int| 1 <= k < n ==> !p.occupied(#[trigger] sq(r + step(k, dr), f + step(k, df))),
    decreases n,
{
    if n > 1 {
        lemma_clear_all(p, r + dr, f + df, dr, df, n - 1);
        assert forall|k: int| 1 <= k < n implies !p.occupied(#[trigger] sq(r + step(k, dr), f + step(k, df))) by {
            if k > 1 {
                assert(r + dr + step(k - 1, dr) == r + step(k, dr));
                assert(f + df + step(k - 1, df) == f + step(k, df));
                assert(!p.occupied(sq(r + dr + step(k - 1, dr), f + df + step(k - 1, df))));
            }
        }
    }
}

proof fn lemma_ray_back(p: Position, r0: int, f0: int, dr: int, df: int, j: int, fuel: nat)
    requires
        -1 <= dr <= 1,
        -1 <= df <= 1,
        1 <= j <= fuel,
        on_board(r0, f0),
        on_board(r0 + step(j, dr), f0 + step(j, df)),
        p.occupied(sq(r0, f0)),
        forall|k: int| 1 <= k < j ==> !p.occupied(#[trigger] sq(r0 + step(k, dr), f0 + step(k, df))),
    ensures
        ray_hit(p, r0 + step(j, dr), f0 + step(j, df), -dr, -df, fuel) == Some(sq(r0, f0)),
    decreases j,
{
    let r = r0 + step(j, dr);
    let f = f0 + step(j, df);
    assert(r - dr == r0 + step(j - 1, dr));
    assert(f - df == f0 + step(j - 1, df));
    if j > 1 {
        assert(!p.occupied(sq(r0 + step(j - 1, dr), f0 + step(j - 1, df))));
        lemma_ray_back(p, r0, f0, dr, df, j - 1, (fuel - 1) as nat);
    }
}

/// A slider that may move onto `to` attacks it.
proof fn lemma_slide_attacks(p: Position, from: int, to: int, diagonal: bool)
    requires
        0 <= from < 64,
        0 <= to < 64,
        slide(p, from, to, diagonal),
        p.occupied(from),
    ensures
        ({
            let sdr = sign(rank_of(to) - rank_of(from));
            let sdf = sign(file_of(to) - file_of(from));
            ray_hit(p, rank_of(to), file_of(to), -sdr, -sdf, 8) == Some(from)
        }),
{
    let (fr, ff, tr, tf) = (rank_of(from), file_of(from), rank_of(to), file_of(to));
    let dr = tr - fr;
    let df = tf - ff;
    let sdr = sign(dr);
    let sdf = sign(df);
    let n = if abs(dr) > abs(df) { abs(dr) } else { abs(df) };
    lemma_clear_all(p, fr, ff, sdr, sdf, n);
    assert(tr == fr + step(n, sdr));
    assert(tf == ff + step(n, sdf));
    assert(sq(fr, ff) == from);
    lemma_ray_back(p, fr, ff, sdr, sdf, n, 8);
}

/// A piece of the side to move that may capture on `to` attacks `to`.
proof fn lemma_capture_attacks(p: Position, from: int, to: int)
    requires
        reachable(p, from, to),
        p.occupied_by(p.side.opp(), to),
    ensures
        attacked(p, to, p.side),
{
    let c = p.side;
    let (fr, ff, tr, tf) = (rank_of(from), file_of(from), rank_of(to), file_of(to));
    assert(sq(fr, ff) == from);
    assert(on_board(fr, ff));
    let k = p.kind_at(c, from).unwrap();
    assert(has_bit(p.bb(c, k), from));
    if k == Piece::Bishop || k == Piece::Rook || k == Piece::Queen {
        let diagonal = if k == Piece::Bishop {
            true
        } else if k == Piece::Rook {
            false
        } else {
            slide(p, from, to, true)
        };
        assert(slide(p, from, to, diagonal));
        lemma_slide_attacks(p, from, to, diagonal);
    }
}

/// Exactly one king of color `c` stands on the board.
pub open spec fn one_king(p: Position, c: Color) -> bool {
    exists|s: int| 0 <= s < 64 && #[trigger] has_bit(p.bb(c, Piece::King), s)
        && forall|t: int| #[trigger] has_bit(p.bb(c, Piece::King), t) ==> t == s
}

/// From a position with one king a side, whose side not to move is not in check, a legal
/// move leaves one king a side: the mover's king goes along, and no move takes a king.
pub proof fn lemma_legal_move_keeps_kings(p: Position, m: Move)
    requires
        p.white.len() == 6,
        p.black.len() == 6,
        disjoint(p),
        legal(p, m),
        one_king(p, Color::White),
        one_king(p, Color::Black),
        !in_check(p, p.side.opp()),
    ensures
        one_king(p.after(m), Color::White),
        one_king(p.after(m), Color::Black),
{
    let q = p.after(m);
    let side = p.side;
    let opp = side.opp();
    let from = m.from as int;
    let to = m.to as int;
    if m.is_en_passant {
        assert(pawn_move(p, from, to));
    }
    if m.captured_piece == Some(Piece::King) {
        assert(!m.is_en_passant);
        assert(has_bit(p.bb(opp, Piece::King), to));
        assert(p.occupied_by(opp, to));
        lemma_capture_attacks(p, from, to);
        assert(opp.opp() == side);
        assert(0 <= to < 64 && has_bit(p.bb(opp, Piece::King), to) && attacked(p, to, opp.opp()));
    }
    let s0 = choose|s: int| 0 <= s < 64 && #[trigger] has_bit(p.bb(side, Piece::King), s)
        && forall|t: int| #[trigger] has_bit(p.bb(side, Piece::King), t) ==> t == s;
    let o0 = choose|s: int| 0 <= s < 64 && #[trigger] has_bit(p.bb(opp, Piece::King), s)
        && forall|t: int| #[trigger] has_bit(p.bb(opp, Piece::King), t) ==> t == s;
    let own = if m.piece == Piece::King { to } else { s0 };
    assert forall|t: int| #[trigger] has_bit(q.bb(side, Piece::King), t) <==> t == own by {
        lemma_after_bits(p, m, side, Piece::King, t);
        lemma_mover_bits(p.bb(side, Piece::King), Piece::King, side, m, t);
        if m.piece != Piece::King && has_bit(p.bb(side, Piece::King), from) {
            assert(p.kind_at(side, from) == Some(m.piece));
        }
    }
    assert forall|t: int| #[trigger] has_bit(q.bb(opp, Piece::King), t) <==> t == o0 by {
        lemma_after_bits(p, m, opp, Piece::King, t);
        lemma_other_bits(p.bb(opp, Piece::King), Piece::King, side, m, t);
    }
    assert(has_bit(q.bb(side, Piece::King), own));
    assert(has_bit(q.bb(opp, Piece::King), o0));
    if side == Color::White {
        assert(one_king(q, Color::White));
        assert(one_king(q, Color::Black));
    } else {
        assert(one_king(q, Color::Black));
        assert(one_king(q, Color::White));
    }
}

proof fn lemma_start_kings()
    ensures
        one_king(start_position(), Color::White),
        one_king(start_position(), Color::Black),
        !in_check(start_position(), Color::Black),
{
    let p = start_position();
    assert forall|t: int| #[trigger] has_bit(p.bb(Color::White, Piece::King), t) implies t == 4 by {
        lemma_start_sets(t as u64);
    }
    assert forall|t: int| #[trigger] has_bit(p.bb(Color::Black, Piece::King), t) implies t == 60 by {
        lemma_start_sets(t as u64);
    }
    lemma_start_sets(4);
    lemma_start_sets(60);
    assert(has_bit(p.bb(Color::White, Piece::King), 4));
    assert(has_bit(p.bb(Color::Black, Piece::King), 60));
    assert forall|s: u64| s < 64 implies ((0x000000000000FF00u64 >> s) & 1 == 1) == (8 <= s && s < 16)
        && ((0x0000000000000042u64 >> s) & 1 == 1) == (s == 1 || s == 6)
        && ((0x0000000000000024u64 >> s) & 1 == 1) == (s == 2 || s == 5)
        && ((0x0000000000000081u64 >> s) & 1 == 1) == (s == 0 || s == 7)
        && ((0x0000000000000008u64 >> s) & 1 == 1) == (s == 3)
        && ((0x0000000000000010u64 >> s) & 1 == 1) == (s == 4)
        && ((0x00FF000000000000u64 >> s) & 1 == 1) == (48 <= s && s < 56)
        && ((0x4200000000000000u64 >> s) & 1 == 1) == (s == 57 || s == 62)
        && ((0x2400000000000000u64 >> s) & 1 == 1) == (s == 58 || s == 61)
        && ((0x8100000000000000u64 >> s) & 1 == 1) == (s == 56 || s == 63)
        && ((0x0800000000000000u64 >> s) & 1 == 1) == (s == 59)
        && ((0x1000000000000000u64 >> s) & 1 == 1) == (s == 60) by {
        lemma_start_sets(s);
    }
    assert(!attacked(p, 60, Color::White));
}

/// Along any game from the initial position each side keeps exactly one king, and the
/// side that just moved is never left in check.
pub proof fn lemma_game_keeps_kings(ms: Seq<Move>)
    requires
        legal_game(start_position(), ms),
    ensures
        one_king(play(start_position(), ms), Color::White),
        one_king(play(start_position(), ms), Color::Black),
        !in_check(play(start_position(), ms), play(start_position(), ms).side.opp()),
    decreases ms.len(),
{
    let p = start_position();
    if ms.len() == 0 {
        lemma_start_kings();
    } else {
        let init = ms.drop_last();
        assert forall|i: int| 0 <= i < init.len() implies legal(#[trigger] play(p, init.take(i)), init[i]) by {
            assert(init.take(i) =~= ms.take(i));
            assert(legal(play(p, ms.take(i)), ms[i]));
        }
        lemma_game_keeps_kings(init);
        lemma_game_keeps_disjoint(init);
        assert(ms.take(ms.len() - 1) =~= init);
        assert(legal(play(p, ms.take(ms.len() - 1)), ms[ms.len() - 1]));
        lemma_play_shape(p, init);
        let q = play(p, init);
        lemma_legal_move_keeps_kings(q, ms.last());
        assert(q.after(ms.last()).side.opp() == q.side);
    }
}

} // verus!
