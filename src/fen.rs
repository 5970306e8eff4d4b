//! Forsyth-Edwards Notation: reading a position from its six fields, and writing it back.
use vstd::prelude::*;
use vstd::string::{StringExecFns, StringSliceAdditionalSpecFns};
use crate::bits::{set_bit, with};
use crate::board::{Board, Color, Piece, Position};
use crate::notation::{file_char, number, parse_number, rank_char, split_words, words};
use crate::rules::sq;

verus! {

/// The piece a FEN letter stands for: upper case white, lower case black.
pub open spec fn piece_letter(c: u8) -> Option<(Piece, Color)> {
    if c == 80 {
        Some((Piece::Pawn, Color::White))
    } else if c == 78 {
        Some((Piece::Knight, Color::White))
    } else if c == 66 {
        Some((Piece::Bishop, Color::White))
    } else if c == 82 {
        Some((Piece::Rook, Color::White))
    } else if c == 81 {
        Some((Piece::Queen, Color::White))
    } else if c == 75 {
        Some((Piece::King, Color::White))
    } else if c == 112 {
        Some((Piece::Pawn, Color::Black))
    } else if c == 110 {
        Some((Piece::Knight, Color::Black))
    } else if c == 98 {
        Some((Piece::Bishop, Color::Black))
    } else if c == 114 {
        Some((Piece::Rook, Color::Black))
    } else if c == 113 {
        Some((Piece::Queen, Color::Black))
    } else if c == 107 {
        Some((Piece::King, Color::Black))
    } else {
        None
    }
}

/// Reads the placement field from position `i` on, the next square being rank `r`,
/// file `f`: ranks from the eighth down separated by `/`, digits for runs of empty
/// squares, letters for pieces, each rank exactly eight squares.
pub open spec fn placement_from(t: Seq<u8>, i: int, r: int, f: int, w: Seq<u64>, b: Seq<u64>)
    -> Option<(Seq<u64>, Seq<u64>)>
    decreases t.len() - i,
{
    if i >= t.len() || i < 0 {
        if r == 0 && f == 8 { Some((w, b)) } else { None }
    } else if t[i] == 47 {
        if f == 8 && r > 0 { placement_from(t, i + 1, r - 1, 0, w, b) } else { None }
    } else if 49 <= t[i] <= 56 {
        if f + (t[i] - 48) <= 8 { placement_from(t, i + 1, r, f + (t[i] - 48), w, b) } else { None }
    } else {
        match piece_letter(t[i]) {
            Some((k, c)) => if f < 8 && 0 <= r {
                if c == Color::White {
                    placement_from(t, i + 1, r, f + 1, w.update(k.idx(), with(w[k.idx()], sq(r, f))), b)
                } else {
                    placement_from(t, i + 1, r, f + 1, w, b.update(k.idx(), with(b[k.idx()], sq(r, f))))
                }
            } else {
                None
            },
            None => None,
        }
    }
}

pub open spec fn no_pieces() -> Seq<u64> {
    seq![0u64, 0u64, 0u64, 0u64, 0u64, 0u64]
}

pub open spec fn castling_bit(c: u8) -> u8 {
    if c == 75 { 1 } else if c == 81 { 2 } else if c == 107 { 4 } else if c == 113 { 8 } else { 0 }
}

/// The rights written by the first `n` letters of `t`, each of `K`, `Q`, `k`, `q`.
pub open spec fn castling_from(t: Seq<u8>, n: int) -> Option<u8>
    decreases n,
{
    if n <= 0 {
        Some(0)
    } else {
        match castling_from(t, n - 1) {
            Some(v) => if castling_bit(t[n - 1]) != 0 { Some(v | castling_bit(t[n - 1])) } else { None },
            None => None,
        }
    }
}

/// The castling field: `-`, or letters among `KQkq`.
pub open spec fn castling_field(t: Seq<u8>) -> Option<u8> {
    if t == seq![45u8] { Some(0) } else { castling_from(t, t.len() as int) }
}

/// The en-passant field: `-`, or a square on the third or sixth rank.
pub open spec fn ep_field(t: Seq<u8>) -> Option<Option<u8>> {
    if t == seq![45u8] {
        Some(None)
    } else if t.len() == 2 && 97 <= t[0] <= 104 && (t[1] == 51 || t[1] == 54) {
        Some(Some(((t[1] - 49) * 8 + (t[0] - 97)) as u8))
    } else {
        None
    }
}

/// The position written by the six FEN fields `ws`.
pub open spec fn fen_position(ws: Seq<Seq<u8>>) -> Option<Position> {
    if ws.len() != 6 {
        None
    } else {
        match placement_from(ws[0], 0, 7, 0, no_pieces(), no_pieces()) {
            Some((w, b)) => {
                let side = if ws[1] == seq![119u8] {
                    Some(Color::White)
                } else if ws[1] == seq![98u8] {
                    Some(Color::Black)
                } else {
                    None
                };
                match (side, castling_field(ws[2]), ep_field(ws[3]), number(ws[4]), number(ws[5])) {
                    (Some(side), Some(castling), Some(ep), Some(half), Some(full)) => if half <= 255
                        && full <= 65535 {
                        Some(Position {
                            white: w,
                            black: b,
                            side,
                            castling,
                            ep,
                            halfmove: half as u8,
                            fullmove: full as u16,
                        })
                    } else {
                        None
                    },
                    _ => None,
                }
            },
            None => None,
        }
    }
}

fn piece_letter_exec(c: u8) -> (r: Option<(Piece, Color)>)
    ensures
        r == piece_letter(c),
{
    if c == 80 {
        Some((Piece::Pawn, Color::White))
    } else if c == 78 {
        Some((Piece::Knight, Color::White))
    } else if c == 66 {
        Some((Piece::Bishop, Color::White))
    } else if c == 82 {
        Some((Piece::Rook, Color::White))
    } else if c == 81 {
        Some((Piece::Queen, Color::White))
    } else if c == 75 {
        Some((Piece::King, Color::White))
    } else if c == 112 {
        Some((Piece::Pawn, Color::Black))
    } else if c == 110 {
        Some((Piece::Knight, Color::Black))
    } else if c == 98 {
        Some((Piece::Bishop, Color::Black))
    } else if c == 114 {
        Some((Piece::Rook, Color::Black))
    } else if c == 113 {
        Some((Piece::Queen, Color::Black))
    } else if c == 107 {
        Some((Piece::King, Color::Black))
    } else {
        None
    }
}

/// `sets` with square `s` added to the set at position `k`.
fn add_square(sets: [u64; 6], k: usize, s: u8) -> (r: [u64; 6])
    requires
        k < 6,
        s < 64,
    ensures
        r@ == sets@.update(k as int, with(sets@[k as int], s as int)),
{
    let r = [
        if k == 0 { set_bit(sets[0], s) } else { sets[0] },
        if k == 1 { set_bit(sets[1], s) } else { sets[1] },
        if k == 2 { set_bit(sets[2], s) } else { sets[2] },
        if k == 3 { set_bit(sets[3], s) } else { sets[3] },
        if k == 4 { set_bit(sets[4], s) } else { sets[4] },
        if k == 5 { set_bit(sets[5], s) } else { sets[5] },
    ];
    assert(r@ =~= sets@.update(k as int, with(sets@[k as int], s as int)));
    r
}

fn parse_placement(t: &Vec<u8>) -> (r: Option<([u64; 6], [u64; 6])>)
    ensures
        r.is_some() == placement_from(t@, 0, 7, 0, no_pieces(), no_pieces()).is_some(),
        r.is_some() ==> placement_from(t@, 0, 7, 0, no_pieces(), no_pieces()) == Some(
            (r.unwrap().0@, r.unwrap().1@),
        ),
{
    let mut white: [u64; 6] = [0, 0, 0, 0, 0, 0];
    let mut black: [u64; 6] = [0, 0, 0, 0, 0, 0];
    assert(white@ =~= no_pieces());
    assert(black@ =~= no_pieces());
    let mut r: i8 = 7;
    let mut f: i8 = 0;
    let mut i: usize = 0;
    while i < t.len()
        invariant
            i <= t@.len(),
            0 <= r <= 7,
            0 <= f <= 8,
            placement_from(t@, 0, 7, 0, no_pieces(), no_pieces())
                == placement_from(t@, i as int, r as int, f as int, white@, black@),
        decreases t@.len() - i,
    {
        let c = t[i];
        if c == 47 {
            if f == 8 && r > 0 {
                r = r - 1;
                f = 0;
            } else {
                return None;
            }
        } else if 49 <= c && c <= 56 {
            let n = (c - 48) as i8;
            if f + n <= 8 {
                f = f + n;
            } else {
                return None;
            }
        } else {
            match piece_letter_exec(c) {
                Some((k, col)) => {
                    if f < 8 {
                        let s = (r * 8 + f) as u8;
                        assert(s as int == sq(r as int, f as int));
                        if col == Color::White {
                            white = add_square(white, k.index(), s);
                        } else {
                            black = add_square(black, k.index(), s);
                        }
                        f = f + 1;
                    } else {
                        return None;
                    }
                },
                None => {
                    return None;
                },
            }
        }
        i = i + 1;
    }
    if r == 0 && f == 8 {
        Some((white, black))
    } else {
        None
    }
}

pub(crate) fn is_word(w: &Vec<u8>, lit: &[u8]) -> (r: bool)
    ensures
        r == (w@ == lit@),
{
    if w.len() != lit.len() {
        return false;
    }
    let mut i: usize = 0;
    while i < w.len()
        invariant
            i <= w@.len(),
            w@.len() == lit@.len(),
            forall|j: int| 0 <= j < i ==> w@[j] == lit@[j],
        decreases w@.len() - i,
    {
        if w[i] != lit[i] {
            return false;
        }
        i = i + 1;
    }
    assert(w@ =~= lit@);
    true
}

fn castling_bit_exec(c: u8) -> (r: u8)
    ensures
        r == castling_bit(c),
{
    if c == 75 { 1 } else if c == 81 { 2 } else if c == 107 { 4 } else if c == 113 { 8 } else { 0 }
}

fn parse_castling(t: &Vec<u8>) -> (r: Option<u8>)
    ensures
        r == castling_field(t@),
{
    let dash: [u8; 1] = [45];
    assert(dash@ =~= seq![45u8]);
    if is_word(t, &dash) {
        return Some(0);
    }
    let mut v: u8 = 0;
    let mut i: usize = 0;
    while i < t.len()
        invariant
            i <= t@.len(),
            castling_from(t@, i as int) == Some(v),
            t@ != seq![45u8],
        decreases t@.len() - i,
    {
        let bit = castling_bit_exec(t[i]);
        if bit == 0 {
            proof {
                lemma_castling_stays_none(t@, i + 1, t@.len() as int);
            }
            return None;
        }
        v = v | bit;
        i = i + 1;
    }
    Some(v)
}

proof fn lemma_castling_stays_none(t: Seq<u8>, n: int, m: int)
    requires
        0 < n <= m,
        castling_from(t, n).is_none(),
    ensures
        castling_from(t, m).is_none(),
    decreases m - n,
{
    if n < m {
        lemma_castling_stays_none(t, n, m - 1);
    }
}

fn parse_ep(t: &Vec<u8>) -> (r: Option<Option<u8>>)
    ensures
        r == ep_field(t@),
{
    let dash: [u8; 1] = [45];
    assert(dash@ =~= seq![45u8]);
    if is_word(t, &dash) {
        return Some(None);
    }
    if t.len() == 2 && 97 <= t[0] && t[0] <= 104 && (t[1] == 51 || t[1] == 54) {
        Some(Some((t[1] - 49) * 8 + (t[0] - 97)))
    } else {
        None
    }
}

/// Reads a position from the six FEN fields `ws[start..start + 6]`.
pub fn parse_fen_fields(ws: &Vec<Vec<u8>>, start: usize) -> (r: Option<Board>)
    requires
        start + 6 <= ws@.len(),
    ensures
        match r {
            Some(b) => fen_position(ws@.map_values(|w: Vec<u8>| w@).subrange(start as int, start + 6)) == Some(b@),
            None => fen_position(ws@.map_values(|w: Vec<u8>| w@).subrange(start as int, start + 6)).is_none(),
        },
{
    let count = ws.len();
    let ghost fs = ws@.map_values(|w: Vec<u8>| w@).subrange(start as int, start + 6);
    assert(fs[0] == ws@[start as int]@ && fs[1] == ws@[start + 1]@ && fs[2] == ws@[start + 2]@);
    assert(fs[3] == ws@[start + 3]@ && fs[4] == ws@[start + 4]@ && fs[5] == ws@[start + 5]@);
    let (white, black) = match parse_placement(&ws[start]) {
        Some(sets) => sets,
        None => {
            return None;
        },
    };
    let white_word: [u8; 1] = [119];
    let black_word: [u8; 1] = [98];
    assert(white_word@ =~= seq![119u8] && black_word@ =~= seq![98u8]);
    let side = if is_word(&ws[start + 1], &white_word) {
        Color::White
    } else if is_word(&ws[start + 1], &black_word) {
        Color::Black
    } else {
        return None;
    };
    let castling = match parse_castling(&ws[start + 2]) {
        Some(c) => c,
        None => {
            return None;
        },
    };
    let ep = match parse_ep(&ws[start + 3]) {
        Some(e) => e,
        None => {
            return None;
        },
    };
    let half = match parse_number(ws[start + 4].as_slice()) {
        Some(n) => n,
        None => {
            return None;
        },
    };
    let full = match parse_number(ws[start + 5].as_slice()) {
        Some(n) => n,
        None => {
            return None;
        },
    };
    if half > 255 || full > 65535 {
        return None;
    }
    Some(Board {
        white_pieces: white,
        black_pieces: black,
        side_to_move: side,
        castling_rights: castling,
        en_passant_square: ep,
        halfmove_clock: half as u8,
        fullmove_number: full as u16,
    })
}

pub open spec fn digit_char(d: int) -> char {
    seq!['0', '1', '2', '3', '4', '5', '6', '7', '8', '9'][d]
}

pub open spec fn letter(k: Piece, c: Color) -> char {
    let upper = seq!['P', 'N', 'B', 'R', 'Q', 'K'];
    let lower = seq!['p', 'n', 'b', 'r', 'q', 'k'];
    if c == Color::White { upper[k.idx()] } else { lower[k.idx()] }
}

/// Rank `r` from file `f` on, `empty` empty squares being still unwritten.
pub open spec fn rank_text(p: Position, r: int, f: int, empty: int) -> Seq<char>
    decreases 8 - f,
{
    let pending = if empty > 0 { seq![digit_char(empty)] } else { Seq::<char>::empty() };
    if f >= 8 {
        pending
    } else {
        match p.piece_at(sq(r, f)) {
            Some((k, c)) => pending + seq![letter(k, c)] + rank_text(p, r, f + 1, 0),
            None => rank_text(p, r, f + 1, empty + 1),
        }
    }
}

/// Ranks `r` down to the first, separated by `/`.
pub open spec fn placement_text(p: Position, r: int) -> Seq<char>
    decreases r,
{
    if r <= 0 {
        rank_text(p, 0, 0, 0)
    } else {
        rank_text(p, r, 0, 0) + seq!['/'] + placement_text(p, r - 1)
    }
}

pub open spec fn castling_text(x: u8) -> Seq<char> {
    if x & 15 == 0 {
        seq!['-']
    } else {
        (if x & 1 != 0 { seq!['K'] } else { Seq::empty() }) + (if x & 2 != 0 { seq!['Q'] } else { Seq::empty() })
            + (if x & 4 != 0 { seq!['k'] } else { Seq::empty() }) + (if x & 8 != 0 { seq!['q'] } else { Seq::empty() })
    }
}

pub open spec fn ep_text(ep: Option<u8>) -> Seq<char> {
    match ep {
        Some(s) => if s < 64 { seq![file_char(s as int % 8), rank_char(s as int / 8)] } else { seq!['-'] },
        None => seq!['-'],
    }
}

pub open spec fn decimal_text(n: nat) -> Seq<char>
    decreases n,
{
    if n < 10 {
        seq![digit_char(n as int)]
    } else {
        decimal_text(n / 10) + seq![digit_char((n % 10) as int)]
    }
}

/// The FEN of a position.
pub open spec fn fen_text(p: Position) -> Seq<char> {
    placement_text(p, 7) + seq![' '] + (if p.side == Color::White { seq!['w'] } else { seq!['b'] })
        + seq![' '] + castling_text(p.castling) + seq![' '] + ep_text(p.ep) + seq![' ']
        + decimal_text(p.halfmove as nat) + seq![' '] + decimal_text(p.fullmove as nat)
}

fn digit_str(d: u64) -> (s: &'static str)
    requires
        d < 10,
    ensures
        s@ == seq![digit_char(d as int)],
{
    proof {
        reveal_strlit("0");
        reveal_strlit("1");
        reveal_strlit("2");
        reveal_strlit("3");
        reveal_strlit("4");
        reveal_strlit("5");
        reveal_strlit("6");
        reveal_strlit("7");
        reveal_strlit("8");
        reveal_strlit("9");
    }
    match d {
        0 => "0",
        1 => "1",
        2 => "2",
        3 => "3",
        4 => "4",
        5 => "5",
        6 => "6",
        7 => "7",
        8 => "8",
        _ => "9",
    }
}

fn letter_str(k: Piece, c: Color) -> (s: &'static str)
    ensures
        s@ == seq![letter(k, c)],
{
    proof {
        reveal_strlit("P");
        reveal_strlit("N");
        reveal_strlit("B");
        reveal_strlit("R");
        reveal_strlit("Q");
        reveal_strlit("K");
        reveal_strlit("p");
        reveal_strlit("n");
        reveal_strlit("b");
        reveal_strlit("r");
        reveal_strlit("q");
        reveal_strlit("k");
    }
    match (k, c) {
        (Piece::Pawn, Color::White) => "P",
        (Piece::Knight, Color::White) => "N",
        (Piece::Bishop, Color::White) => "B",
        (Piece::Rook, Color::White) => "R",
        (Piece::Queen, Color::White) => "Q",
        (Piece::King, Color::White) => "K",
        (Piece::Pawn, Color::Black) => "p",
        (Piece::Knight, Color::Black) => "n",
        (Piece::Bishop, Color::Black) => "b",
        (Piece::Rook, Color::Black) => "r",
        (Piece::Queen, Color::Black) => "q",
        (Piece::King, Color::Black) => "k",
    }
}

fn push_decimal(s: &mut String, n: u64)
    ensures
        final(s)@ == old(s)@ + decimal_text(n as nat),
    decreases n,
{
    if n >= 10 {
        push_decimal(s, n / 10);
    }
    s.append(digit_str(n % 10));
    assert(final(s)@ =~= old(s)@ + decimal_text(n as nat)) by {
        if n >= 10 {
            assert(decimal_text(n as nat) == decimal_text((n / 10) as nat) + seq![digit_char((n % 10) as int)]);
        }
    }
}

fn push_rank(s: &mut String, b: &Board, r: u8)
    requires
        r < 8,
    ensures
        final(s)@ == old(s)@ + rank_text(b@, r as int, 0, 0),
{
    let ghost start = s@;
    let mut empty: u64 = 0;
    let mut f: u8 = 0;
    while f < 8
        invariant
            f <= 8,
            r < 8,
            empty <= f,
            s@ + rank_text(b@, r as int, f as int, empty as int) == start + rank_text(b@, r as int, 0, 0),
        decreases 8 - f,
    {
        let ghost before = s@;
        let ghost e0 = empty;
        assert(((r * 8 + f) as u8) as int == sq(r as int, f as int));
        match b.get_piece_at(r * 8 + f) {
            Some((k, c)) => {
                if empty > 0 {
                    s.append(digit_str(empty));
                }
                s.append(letter_str(k, c));
                empty = 0;
                assert(s@ + rank_text(b@, r as int, f + 1, 0) =~= before + rank_text(b@, r as int, f as int, e0 as int));
            },
            None => {
                empty = empty + 1;
            },
        }
        f = f + 1;
    }
    if empty > 0 {
        s.append(digit_str(empty));
    }
    assert(s@ =~= start + rank_text(b@, r as int, 0, 0));
}

impl Board {
    /// Reads a position in Forsyth-Edwards Notation: six fields separated by whitespace.
    pub fn from_fen(fen: &str) -> (r: Result<Board, String>)
        ensures
            match r {
                Ok(b) => fen_position(words(fen.spec_bytes())) == Some(b@),
                Err(_) => fen_position(words(fen.spec_bytes())).is_none(),
            },
    {
        let ws = split_words(fen.as_bytes());
        if ws.len() != 6 {
            return Err(String::from_str("a FEN has six fields"));
        }
        assert(ws@.map_values(|w: Vec<u8>| w@).subrange(0, 6) =~= ws@.map_values(|w: Vec<u8>| w@));
        match parse_fen_fields(&ws, 0) {
            Some(b) => Ok(b),
            None => Err(String::from_str("malformed FEN")),
        }
    }

    /// The position in Forsyth-Edwards Notation.
    pub fn to_fen(&self) -> (r: String)
        ensures
            r@ == fen_text(self@),
    {
        proof {
            reveal_strlit(" ");
            reveal_strlit("w");
            reveal_strlit("b");
        }
        let mut s = String::new();
        push_placement(&mut s, self);
        s.append(" ");
        s.append(if self.side_to_move == Color::White { "w" } else { "b" });
        s.append(" ");
        push_castling(&mut s, self.castling_rights);
        s.append(" ");
        push_ep(&mut s, self.en_passant_square);
        s.append(" ");
        push_decimal(&mut s, self.halfmove_clock as u64);
        s.append(" ");
        push_decimal(&mut s, self.fullmove_number as u64);
        assert(s@ =~= fen_text(self@));
        s
    }
}

/// What remains of the placement text once the ranks above `r` are written.
pub open spec fn placement_rest(p: Position, r: int) -> Seq<char> {
    if r >= 8 {
        placement_text(p, 7)
    } else if r <= 0 {
        Seq::empty()
    } else {
        seq!['/'] + placement_text(p, r - 1)
    }
}

fn push_placement(s: &mut String, b: &Board)
    ensures
        final(s)@ == old(s)@ + placement_text(b@, 7),
{
    proof {
        reveal_strlit("/");
    }
    let ghost start = s@;
    let mut r: u8 = 8;
    while r > 0
        invariant
            r <= 8,
            s@ + placement_rest(b@, r as int) == start + placement_text(b@, 7),
        decreases r,
    {
        let ghost before = s@;
        proof {
            reveal_strlit("/");
        }
        if r < 8 {
            s.append("/");
        }
        let ghost mid = s@;
        assert(r < 8 ==> mid == before + seq!['/']);
        assert(r == 8 ==> mid == before);
        push_rank(s, b, r - 1);
        proof {
            let q = r as int - 1;
            assert(s@ == mid + rank_text(b@, q, 0, 0));
            if q > 0 {
                assert(placement_text(b@, q) == rank_text(b@, q, 0, 0) + seq!['/'] + placement_text(b@, q - 1));
                assert(placement_text(b@, q) =~= rank_text(b@, q, 0, 0) + placement_rest(b@, q));
            } else {
                assert(placement_text(b@, q) == rank_text(b@, 0, 0, 0));
                assert(placement_text(b@, q) =~= rank_text(b@, q, 0, 0) + placement_rest(b@, q));
            }
            assert(s@ + placement_rest(b@, q) =~= before + placement_rest(b@, r as int));
        }
        r = r - 1;
    }
    assert(s@ =~= start + placement_text(b@, 7));
}

fn push_castling(s: &mut String, x: u8)
    ensures
        final(s)@ == old(s)@ + castling_text(x),
{
    proof {
        reveal_strlit("-");
        reveal_strlit("K");
        reveal_strlit("Q");
        reveal_strlit("k");
        reveal_strlit("q");
    }
    let ghost start = s@;
    if x & 15 == 0 {
        s.append("-");
    } else {
        if x & 1 != 0 {
            s.append("K");
        }
        let ghost s1 = s@;
        if x & 2 != 0 {
            s.append("Q");
        }
        let ghost s2 = s@;
        if x & 4 != 0 {
            s.append("k");
        }
        let ghost s3 = s@;
        if x & 8 != 0 {
            s.append("q");
        }
    }
    assert(s@ =~= start + castling_text(x));
}

fn push_ep(s: &mut String, ep: Option<u8>)
    ensures
        final(s)@ == old(s)@ + ep_text(ep),
{
    proof {
        reveal_strlit("-");
    }
    match ep {
        Some(e) => {
            if e < 64 {
                s.append(crate::notation::file_str(e % 8));
                s.append(crate::notation::rank_str(e / 8));
            } else {
                s.append("-");
            }
        },
        None => {
            s.append("-");
        },
    }
    assert(final(s)@ =~= old(s)@ + ep_text(ep));
}

pub open spec fn square_char(p: Position, s: int) -> char {
    match p.piece_at(s) {
        Some((k, c)) => letter(k, c),
        None => '.',
    }
}

/// Rank `r` from file `f` on: a character per square, spaces between, a newline after.
pub open spec fn row_text(p: Position, r: int, f: int) -> Seq<char>
    decreases 8 - f,
{
    if f >= 8 {
        seq!['\n']
    } else {
        seq![square_char(p, sq(r, f))] + (if f < 7 { seq![' '] } else { Seq::empty() }) + row_text(p, r, f + 1)
    }
}

/// Ranks `r` down to the first, one line each.
pub open spec fn board_text(p: Position, r: int) -> Seq<char>
    decreases r + 1,
{
    if r < 0 {
        Seq::empty()
    } else {
        row_text(p, r, 0) + board_text(p, r - 1)
    }
}

fn push_row(s: &mut String, b: &Board, r: u8)
    requires
        r < 8,
    ensures
        final(s)@ == old(s)@ + row_text(b@, r as int, 0),
{
    let ghost start = s@;
    let mut f: u8 = 0;
    while f < 8
        invariant
            f <= 8,
            r < 8,
            s@ + row_text(b@, r as int, f as int) == start + row_text(b@, r as int, 0),
        decreases 8 - f,
    {
        proof {
            reveal_strlit(".");
            reveal_strlit(" ");
        }
        let ghost before = s@;
        assert(((r * 8 + f) as u8) as int == sq(r as int, f as int));
        match b.get_piece_at(r * 8 + f) {
            Some((k, c)) => s.append(letter_str(k, c)),
            None => s.append("."),
        }
        if f < 7 {
            s.append(" ");
        }
        assert(s@ + row_text(b@, r as int, f + 1) =~= before + row_text(b@, r as int, f as int));
        f = f + 1;
    }
    proof {
        reveal_strlit("\n");
    }
    s.append("\n");
    assert(s@ =~= start + row_text(b@, r as int, 0));
}

impl Board {
    /// The board as text: the eighth rank first, a character per square (a piece letter,
    /// or `.` when empty), separated by spaces, a line per rank.
    pub fn to_text(&self) -> (r: String)
        ensures
            r@ == board_text(self@, 7),
    {
        let mut s = String::new();
        let mut r: u8 = 8;
        while r > 0
            invariant
                r <= 8,
                s@ + board_text(self@, r as int - 1) == board_text(self@, 7),
            decreases r,
        {
            let ghost before = s@;
            push_row(&mut s, self, r - 1);
            assert(s@ + board_text(self@, r as int - 2) =~= before + board_text(self@, r as int - 1));
            r = r - 1;
        }
        assert(board_text(self@, -1) == Seq::<char>::empty());
        assert(s@ =~= board_text(self@, 7));
        s
    }
}

} // verus!
