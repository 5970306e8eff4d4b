//! Text forms: words of a command line, decimal numbers, and moves in long algebraic form.
use vstd::prelude::*;
use vstd::string::{StringExecFns, StringSliceAdditionalSpecFns};
use crate::board::{Board, Piece, Position};
use crate::laws::lemma_move_list_exact;
use crate::movegen::{Move, MoveGenerator};
use crate::rules::{legal, legal_moves};

verus! {

/// ASCII whitespace: space, and tab through carriage return.
pub open spec fn is_space(c: u8) -> bool {
    c == 32 || (9 <= c && c <= 13)
}

/// The words of `b` from position `i` on, `cur` being the part of a word already read.
pub open spec fn words_from(b: Seq<u8>, i: int, cur: Seq<u8>) -> Seq<Seq<u8>>
    decreases b.len() - i,
{
    let done = if cur.len() > 0 { seq![cur] } else { Seq::<Seq<u8>>::empty() };
    if i >= b.len() || i < 0 {
        done
    } else if is_space(b[i]) {
        done + words_from(b, i + 1, Seq::empty())
    } else {
        words_from(b, i + 1, cur.push(b[i]))
    }
}

/// The maximal runs of non-whitespace bytes of `b`, in order.
pub open spec fn words(b: Seq<u8>) -> Seq<Seq<u8>> {
    words_from(b, 0, Seq::empty())
}

pub open spec fn all_digits(b: Seq<u8>) -> bool {
    forall|i: int| 0 <= i < b.len() ==> 48 <= #[trigger] b[i] <= 57
}

/// The value of a string of decimal digits.
pub open spec fn decimal(b: Seq<u8>) -> int
    decreases b.len(),
{
    if b.len() == 0 {
        0
    } else {
        decimal(b.drop_last()) * 10 + (b.last() - 48)
    }
}

/// A non-empty string of decimal digits whose value fits in 64 bits.
pub open spec fn number(b: Seq<u8>) -> Option<u64> {
    if b.len() > 0 && all_digits(b) && decimal(b) <= u64::MAX {
        Some(decimal(b) as u64)
    } else {
        None
    }
}

pub open spec fn file_byte(c: u8) -> bool {
    97 <= c <= 104
}

pub open spec fn rank_byte(c: u8) -> bool {
    49 <= c <= 56
}

/// The promotion kind written `q`, `r`, `b` or `n`.
pub open spec fn promo_of(c: u8) -> Option<Piece> {
    if c == 113 {
        Some(Piece::Queen)
    } else if c == 114 {
        Some(Piece::Rook)
    } else if c == 98 {
        Some(Piece::Bishop)
    } else if c == 110 {
        Some(Piece::Knight)
    } else {
        None
    }
}

/// Source square, destination square and promotion written in `t`: four characters
/// `<file><rank><file><rank>`, and possibly a fifth naming the promotion.
pub open spec fn lan_parts(t: Seq<u8>) -> Option<(int, int, Option<Piece>)> {
    if (t.len() == 4 || (t.len() == 5 && promo_of(t[4]).is_some())) && file_byte(t[0])
        && rank_byte(t[1]) && file_byte(t[2]) && rank_byte(t[3]) {
        Some((
            (t[1] - 49) * 8 + (t[0] - 97),
            (t[3] - 49) * 8 + (t[2] - 97),
            if t.len() == 5 { promo_of(t[4]) } else { None },
        ))
    } else {
        None
    }
}

pub open spec fn matches_parts(m: Move, parts: (int, int, Option<Piece>)) -> bool {
    m.from == parts.0 && m.to == parts.1 && m.promotion == parts.2
}

/// The legal move of `p` with the given squares and promotion, if there is one.
pub open spec fn move_matching(p: Position, parts: (int, int, Option<Piece>)) -> Option<Move> {
    if exists|m: Move| legal(p, m) && matches_parts(m, parts) {
        Some(choose|m: Move| legal(p, m) && matches_parts(m, parts))
    } else {
        None
    }
}

/// The legal move of `p` that `t` writes, if there is one.
pub open spec fn lan_move(p: Position, t: Seq<u8>) -> Option<Move> {
    match lan_parts(t) {
        Some(parts) => move_matching(p, parts),
        None => None,
    }
}

pub open spec fn file_char(f: int) -> char {
    seq!['a', 'b', 'c', 'd', 'e', 'f', 'g', 'h'][f]
}

pub open spec fn rank_char(r: int) -> char {
    seq!['1', '2', '3', '4', '5', '6', '7', '8'][r]
}

pub open spec fn promo_text(k: Option<Piece>) -> Seq<char> {
    match k {
        Some(Piece::Queen) => seq!['q'],
        Some(Piece::Rook) => seq!['r'],
        Some(Piece::Bishop) => seq!['b'],
        Some(Piece::Knight) => seq!['n'],
        _ => Seq::empty(),
    }
}

/// A move in long algebraic form.
pub open spec fn lan_text(m: Move) -> Seq<char> {
    seq![file_char(m.from as int % 8), rank_char(m.from as int / 8), file_char(m.to as int % 8),
        rank_char(m.to as int / 8)]
        + promo_text(m.promotion)
}

/// Two legal moves with the same squares and promotion are the same move.
pub proof fn lemma_lan_unique(p: Position, a: Move, b: Move)
    requires
        legal(p, a),
        legal(p, b),
        a.from == b.from,
        a.to == b.to,
        a.promotion == b.promotion,
    ensures
        a == b,
{
}

/// Splits `b` into its words.
pub fn split_words(b: &[u8]) -> (r: Vec<Vec<u8>>)
    ensures
        r@.map_values(|w: Vec<u8>| w@) == words(b@),
{
    let mut out: Vec<Vec<u8>> = Vec::new();
    let mut cur: Vec<u8> = Vec::new();
    let mut i: usize = 0;
    while i < b.len()
        invariant
            i <= b@.len(),
            out@.map_values(|w: Vec<u8>| w@) + words_from(b@, i as int, cur@) == words(b@),
        decreases b@.len() - i,
    {
        let ghost before = out@.map_values(|w: Vec<u8>| w@);
        let ghost old_cur = cur@;
        if b[i] == 32 || (9 <= b[i] && b[i] <= 13) {
            let ghost done = if old_cur.len() > 0 { seq![old_cur] } else { Seq::<Seq<u8>>::empty() };
            assert(words_from(b@, i as int, old_cur) == done + words_from(b@, i + 1, Seq::empty()));
            if cur.len() > 0 {
                out.push(cur);
                cur = Vec::new();
                assert(out@.map_values(|w: Vec<u8>| w@) =~= before + seq![out@.last()@]);
            }
            assert(out@.map_values(|w: Vec<u8>| w@) =~= before + done);
            assert(cur@ =~= Seq::<u8>::empty());
            assert(before + done + words_from(b@, i + 1, Seq::empty()) =~= words(b@));
        } else {
            assert(words_from(b@, i as int, old_cur) == words_from(b@, i + 1, old_cur.push(b@[i as int])));
            cur.push(b[i]);
        }
        i = i + 1;
    }
    if cur.len() > 0 {
        let ghost before = out@.map_values(|w: Vec<u8>| w@);
        out.push(cur);
        assert(out@.map_values(|w: Vec<u8>| w@) =~= before + seq![out@.last()@]);
    }
    assert(out@.map_values(|w: Vec<u8>| w@) =~= words(b@));
    out
}

proof fn lemma_decimal_grows(b: Seq<u8>)
    requires
        all_digits(b),
        b.len() > 0,
    ensures
        decimal(b) >= decimal(b.drop_last()) >= 0,
    decreases b.len(),
{
    if b.len() > 1 {
        lemma_decimal_grows(b.drop_last());
    }
    assert(b.last() == b[b.len() - 1]);
}

proof fn lemma_decimal_prefix(b: Seq<u8>, k: int)
    requires
        all_digits(b),
        0 <= k <= b.len(),
    ensures
        decimal(b.take(k)) <= decimal(b),
    decreases b.len() - k,
{
    if k < b.len() {
        lemma_decimal_prefix(b, k + 1);
        let t = b.take(k + 1);
        assert(t.drop_last() =~= b.take(k));
        assert(all_digits(t));
        lemma_decimal_grows(t);
    } else {
        assert(b.take(k) =~= b);
    }
}

/// Reads a decimal number.
pub fn parse_number(b: &[u8]) -> (r: Option<u64>)
    ensures
        r == number(b@),
{
    if b.len() == 0 {
        return None;
    }
    let mut v: u64 = 0;
    let mut i: usize = 0;
    while i < b.len()
        invariant
            i <= b@.len(),
            all_digits(b@.take(i as int)),
            v == decimal(b@.take(i as int)),
        decreases b@.len() - i,
    {
        let c = b[i];
        if c < 48 || c > 57 {
            assert(!all_digits(b@)) by {
                assert(b@[i as int] == c);
            }
            return None;
        }
        let d = (c - 48) as u64;
        assert(b@.take(i + 1).drop_last() =~= b@.take(i as int));
        if v > (u64::MAX - d) / 10 {
            proof {
                assert(v * 10 + d > u64::MAX) by (nonlinear_arith)
                    requires
                        v > (u64::MAX - d) / 10,
                        d <= 9,
                ;
                assert(all_digits(b@.take(i + 1)));
                if all_digits(b@) {
                    lemma_decimal_prefix(b@, i + 1);
                }
            }
            return None;
        }
        assert(v * 10 + d <= u64::MAX) by (nonlinear_arith)
            requires
                v <= (u64::MAX - d) / 10,
                d <= 9,
        ;
        v = v * 10 + d;
        i = i + 1;
    }
    assert(b@.take(b@.len() as int) =~= b@);
    Some(v)
}

fn promo_of_exec(c: u8) -> (r: Option<Piece>)
    ensures
        r == promo_of(c),
{
    if c == 113 {
        Some(Piece::Queen)
    } else if c == 114 {
        Some(Piece::Rook)
    } else if c == 98 {
        Some(Piece::Bishop)
    } else if c == 110 {
        Some(Piece::Knight)
    } else {
        None
    }
}

/// Resolves a move in long algebraic form against the legal moves of `board`.
pub fn parse_move_bytes(board: &Board, t: &[u8]) -> (r: Option<Move>)
    ensures
        r == lan_move(board@, t@),
{
    let n = t.len();
    if !(n == 4 || (n == 5 && promo_of_exec(t[4]).is_some())) {
        return None;
    }
    if !(97 <= t[0] && t[0] <= 104 && 49 <= t[1] && t[1] <= 56 && 97 <= t[2] && t[2] <= 104 && 49 <= t[3]
        && t[3] <= 56) {
        return None;
    }
    let from = (t[1] - 49) * 8 + (t[0] - 97);
    let to = (t[3] - 49) * 8 + (t[2] - 97);
    let promotion = if n == 5 { promo_of_exec(t[4]) } else { None };
    let ghost parts = lan_parts(t@).unwrap();
    assert(parts == (from as int, to as int, promotion));
    assert(lan_parts(t@) == Some(parts));
    let generator = MoveGenerator::new();
    let moves = generator.generate_moves(board);
    let mut i: usize = 0;
    while i < moves.len()
        invariant
            i <= moves@.len(),
            moves@ == legal_moves(board@),
            parts == (from as int, to as int, promotion),
            lan_parts(t@) == Some(parts),
            forall|j: int| 0 <= j < i ==> !matches_parts(#[trigger] moves@[j], parts),
        decreases moves@.len() - i,
    {
        let m = moves[i];
        if m.from == from && m.to == to && m.promotion == promotion {
            proof {
                lemma_move_list_exact(board@, m);
                assert(legal(board@, m) && matches_parts(m, parts));
                let c = choose|c: Move| legal(board@, c) && matches_parts(c, parts);
                lemma_lan_unique(board@, m, c);
                assert(move_matching(board@, parts) == Some(c));
            }
            return Some(m);
        }
        i = i + 1;
    }
    proof {
        if exists|m: Move| legal(board@, m) && matches_parts(m, parts) {
            let m = choose|m: Move| legal(board@, m) && matches_parts(m, parts);
            lemma_move_list_exact(board@, m);
            let j = choose|j: int| 0 <= j < moves@.len() && moves@[j] == m;
            assert(!matches_parts(moves@[j], parts));
        }
    }
    None
}

/// Resolves `input`, a move in long algebraic form, against the legal moves of `board`.
pub fn parse_move(board: &Board, input: &str) -> (r: Option<Move>)
    ensures
        r == lan_move(board@, input.spec_bytes()),
{
    parse_move_bytes(board, input.as_bytes())
}

pub(crate) fn file_str(f: u8) -> (r: &'static str)
    requires
        f < 8,
    ensures
        r@ == seq![file_char(f as int)],
{
    proof {
        reveal_strlit("a");
        reveal_strlit("b");
        reveal_strlit("c");
        reveal_strlit("d");
        reveal_strlit("e");
        reveal_strlit("f");
        reveal_strlit("g");
        reveal_strlit("h");
    }
    match f {
        0 => "a",
        1 => "b",
        2 => "c",
        3 => "d",
        4 => "e",
        5 => "f",
        6 => "g",
        _ => "h",
    }
}

pub(crate) fn rank_str(r: u8) -> (s: &'static str)
    requires
        r < 8,
    ensures
        s@ == seq![rank_char(r as int)],
{
    proof {
        reveal_strlit("1");
        reveal_strlit("2");
        reveal_strlit("3");
        reveal_strlit("4");
        reveal_strlit("5");
        reveal_strlit("6");
        reveal_strlit("7");
        reveal_strlit("8");
    }
    match r {
        0 => "1",
        1 => "2",
        2 => "3",
        3 => "4",
        4 => "5",
        5 => "6",
        6 => "7",
        _ => "8",
    }
}

fn promo_str(k: Option<Piece>) -> (s: &'static str)
    ensures
        s@ == promo_text(k),
{
    proof {
        reveal_strlit("q");
        reveal_strlit("r");
        reveal_strlit("b");
        reveal_strlit("n");
        reveal_strlit("");
    }
    match k {
        Some(Piece::Queen) => "q",
        Some(Piece::Rook) => "r",
        Some(Piece::Bishop) => "b",
        Some(Piece::Knight) => "n",
        _ => "",
    }
}

/// Writes `mv` in long algebraic form.
pub fn format_move(mv: &Move) -> (r: String)
    requires
        mv.wf(),
    ensures
        r@ == lan_text(*mv),
{
    let mut s = String::new();
    s.append(file_str(mv.from % 8));
    s.append(rank_str(mv.from / 8));
    s.append(file_str(mv.to % 8));
    s.append(rank_str(mv.to / 8));
    s.append(promo_str(mv.promotion));
    assert(s@ =~= lan_text(*mv));
    s
}

/// Whether `mv` is among the legal moves of `board`.
pub fn is_move_legal(board: &Board, mv: &Move) -> (r: bool)
    ensures
        r == legal(board@, *mv),
{
    let generator = MoveGenerator::new();
    let moves = generator.generate_moves(board);
    let mut i: usize = 0;
    while i < moves.len()
        invariant
            i <= moves@.len(),
            moves@ == legal_moves(board@),
            forall|j: int| 0 <= j < i ==> moves@[j] != *mv,
        decreases moves@.len() - i,
    {
        if moves[i] == *mv {
            proof {
                lemma_move_list_exact(board@, *mv);
            }
            return true;
        }
        i = i + 1;
    }
    proof {
        lemma_move_list_exact(board@, *mv);
    }
    false
}

/// Why a move given in long algebraic form was refused.
#[derive(Debug, Clone, Copy, PartialEq, Eq, Structural)]
pub enum MoveError {
    /// Not four characters `<file><rank><file><rank>` and an optional `q`, `r`, `b` or `n`.
    Malformed,
    /// Well formed, but no legal move of the side to move has those squares and promotion.
    Illegal,
}

/// Plays the move written `lan` in long algebraic form, or refuses it and leaves the
/// board as it was.
pub fn apply_move(board: &mut Board, lan: &str) -> (r: Result<Move, MoveError>)
    ensures
        match r {
            Ok(m) => lan_move(old(board)@, lan.spec_bytes()) == Some(m) && final(board)@ == old(board)@.after(m),
            Err(MoveError::Malformed) => lan_parts(lan.spec_bytes()).is_none() && final(board)@ == old(board)@,
            Err(MoveError::Illegal) => lan_parts(lan.spec_bytes()).is_some()
                && lan_move(old(board)@, lan.spec_bytes()).is_none() && final(board)@ == old(board)@,
        },
{
    let t = lan.as_bytes();
    let n = t.len();
    let well_formed = (n == 4 || (n == 5 && promo_of_exec(t[4]).is_some())) && 97 <= t[0] && t[0] <= 104
        && 49 <= t[1] && t[1] <= 56 && 97 <= t[2] && t[2] <= 104 && 49 <= t[3] && t[3] <= 56;
    if !well_formed {
        return Err(MoveError::Malformed);
    }
    match parse_move_bytes(board, t) {
        Some(m) => {
            board.make_move(m);
            Ok(m)
        },
        None => Err(MoveError::Illegal),
    }
}

} // verus!
