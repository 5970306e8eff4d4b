//! The engine's text protocol: a command per line, a reply per command.
use vstd::prelude::*;
use vstd::string::{StringExecFns, StringSliceAdditionalSpecFns};
use crate::board::{Board, Color, Position, start_position};
use crate::evaluation::Evaluator;
use crate::fen::{fen_position, is_word, parse_fen_fields};
use crate::movegen::{Move, MoveGenerator};
use crate::notation::{format_move, lan_move, lan_text, number, parse_move_bytes, parse_number, split_words, words};
use crate::rules::{legal, legal_moves};
use crate::search::Search;

verus! {

pub open spec fn word_uci() -> Seq<u8> {
    seq![117u8, 99u8, 105u8]
}

pub open spec fn word_isready() -> Seq<u8> {
    seq![105u8, 115u8, 114u8, 101u8, 97u8, 100u8, 121u8]
}

pub open spec fn word_ucinewgame() -> Seq<u8> {
    seq![117u8, 99u8, 105u8, 110u8, 101u8, 119u8, 103u8, 97u8, 109u8, 101u8]
}

pub open spec fn word_position() -> Seq<u8> {
    seq![112u8, 111u8, 115u8, 105u8, 116u8, 105u8, 111u8, 110u8]
}

pub open spec fn word_go() -> Seq<u8> {
    seq![103u8, 111u8]
}

pub open spec fn word_startpos() -> Seq<u8> {
    seq![115u8, 116u8, 97u8, 114u8, 116u8, 112u8, 111u8, 115u8]
}

pub open spec fn word_moves() -> Seq<u8> {
    seq![109u8, 111u8, 118u8, 101u8, 115u8]
}

pub open spec fn word_fen() -> Seq<u8> {
    seq![102u8, 101u8, 110u8]
}

pub open spec fn word_wtime() -> Seq<u8> {
    seq![119u8, 116u8, 105u8, 109u8, 101u8]
}

pub open spec fn word_btime() -> Seq<u8> {
    seq![98u8, 116u8, 105u8, 109u8, 101u8]
}

pub open spec fn word_movetime() -> Seq<u8> {
    seq![109u8, 111u8, 118u8, 101u8, 116u8, 105u8, 109u8, 101u8]
}

pub open spec fn word_depth() -> Seq<u8> {
    seq![100u8, 101u8, 112u8, 116u8, 104u8]
}

/// The position after playing the moves written in `ws[from..n]` from `p`; a word that
/// writes no legal move is passed over.
pub open spec fn play_words(p: Position, ws: Seq<Seq<u8>>, from: int, n: int) -> Position
    decreases n - from,
{
    if n <= from {
        p
    } else {
        let q = play_words(p, ws, from, n - 1);
        match lan_move(q, ws[n - 1]) {
            Some(m) => q.after(m),
            None => q,
        }
    }
}

/// The position set by `position startpos [moves ...]` or
/// `position fen <six fields> [moves ...]`; anything else leaves `p`.
pub open spec fn position_command(p: Position, ws: Seq<Seq<u8>>) -> Position {
    if ws.len() >= 2 && ws[1] == word_startpos() {
        if ws.len() > 2 && ws[2] == word_moves() {
            play_words(start_position(), ws, 3, ws.len() as int)
        } else {
            start_position()
        }
    } else if ws.len() >= 8 && ws[1] == word_fen() {
        match fen_position(ws.subrange(2, 8)) {
            Some(q) => if ws.len() > 8 && ws[8] == word_moves() {
                play_words(q, ws, 9, ws.len() as int)
            } else {
                q
            },
            None => p,
        }
    } else {
        p
    }
}

/// The time budget of a `go` command after its words before `i`: by default 5000 ms,
/// a twentieth of the mover's remaining time after `wtime`/`btime`, or `movetime`.
pub open spec fn go_time(ws: Seq<Seq<u8>>, white: bool, i: int) -> u64
    decreases i,
{
    if i <= 1 {
        5000
    } else {
        let k = i - 1;
        let prev = go_time(ws, white, k);
        if k + 1 < ws.len() && number(ws[k + 1]).is_some() {
            let v = number(ws[k + 1]).unwrap();
            if (ws[k] == word_wtime() && white) || (ws[k] == word_btime() && !white) {
                (v / 20) as u64
            } else if ws[k] == word_movetime() {
                v
            } else {
                prev
            }
        } else {
            prev
        }
    }
}

/// The depth cap of a `go` command after its words before `i`: by default 4.
pub open spec fn go_depth(ws: Seq<Seq<u8>>, i: int) -> u32
    decreases i,
{
    if i <= 1 {
        4
    } else {
        let k = i - 1;
        let prev = go_depth(ws, k);
        if k + 1 < ws.len() && ws[k] == word_depth() && number(ws[k + 1]).is_some()
            && number(ws[k + 1]).unwrap() <= u32::MAX {
            number(ws[k + 1]).unwrap() as u32
        } else {
            prev
        }
    }
}

/// The reply to `go` on `p`: a legal move, or `(none)` when there is none.
pub open spec fn go_reply(p: Position, out: Seq<char>) -> bool {
    ||| legal_moves(p).len() == 0 && out == "bestmove (none)\n"@
    ||| exists|m: Move| legal(p, m) && out == "bestmove "@ + lan_text(m) + "\n"@
}

/// What a command of words `ws` does: from position `p` to `q`, with reply `out`.
pub open spec fn command_effect(p: Position, ws: Seq<Seq<u8>>, q: Position, out: Seq<char>) -> bool {
    if ws.len() == 0 {
        q == p && out == Seq::<char>::empty()
    } else if ws[0] == word_uci() {
        q == p && out == "id name Three Salmons\nid author Magnus Torvund\nuciok\n"@
    } else if ws[0] == word_isready() {
        q == p && out == "readyok\n"@
    } else if ws[0] == word_ucinewgame() {
        q == start_position() && out == Seq::<char>::empty()
    } else if ws[0] == word_position() {
        q == position_command(p, ws) && out == Seq::<char>::empty()
    } else if ws[0] == word_go() {
        q == p && go_reply(p, out)
    } else {
        q == p && out == Seq::<char>::empty()
    }
}

fn is_uci(t: &Vec<u8>) -> (r: bool)
    ensures
        r == (t@ == word_uci()),
{
    let lit: [u8; 3] = [117, 99, 105];
    assert(lit@ =~= word_uci());
    is_word(t, &lit)
}

fn is_isready(t: &Vec<u8>) -> (r: bool)
    ensures
        r == (t@ == word_isready()),
{
    let lit: [u8; 7] = [105, 115, 114, 101, 97, 100, 121];
    assert(lit@ =~= word_isready());
    is_word(t, &lit)
}

fn is_ucinewgame(t: &Vec<u8>) -> (r: bool)
    ensures
        r == (t@ == word_ucinewgame()),
{
    let lit: [u8; 10] = [117, 99, 105, 110, 101, 119, 103, 97, 109, 101];
    assert(lit@ =~= word_ucinewgame());
    is_word(t, &lit)
}

fn is_position(t: &Vec<u8>) -> (r: bool)
    ensures
        r == (t@ == word_position()),
{
    let lit: [u8; 8] = [112, 111, 115, 105, 116, 105, 111, 110];
    assert(lit@ =~= word_position());
    is_word(t, &lit)
}

fn is_go(t: &Vec<u8>) -> (r: bool)
    ensures
        r == (t@ == word_go()),
{
    let lit: [u8; 2] = [103, 111];
    assert(lit@ =~= word_go());
    is_word(t, &lit)
}

fn is_startpos(t: &Vec<u8>) -> (r: bool)
    ensures
        r == (t@ == word_startpos()),
{
    let lit: [u8; 8] = [115, 116, 97, 114, 116, 112, 111, 115];
    assert(lit@ =~= word_startpos());
    is_word(t, &lit)
}

fn is_moves(t: &Vec<u8>) -> (r: bool)
    ensures
        r == (t@ == word_moves()),
{
    let lit: [u8; 5] = [109, 111, 118, 101, 115];
    assert(lit@ =~= word_moves());
    is_word(t, &lit)
}

fn is_fen(t: &Vec<u8>) -> (r: bool)
    ensures
        r == (t@ == word_fen()),
{
    let lit: [u8; 3] = [102, 101, 110];
    assert(lit@ =~= word_fen());
    is_word(t, &lit)
}

fn is_wtime(t: &Vec<u8>) -> (r: bool)
    ensures
        r == (t@ == word_wtime()),
{
    let lit: [u8; 5] = [119, 116, 105, 109, 101];
    assert(lit@ =~= word_wtime());
    is_word(t, &lit)
}

fn is_btime(t: &Vec<u8>) -> (r: bool)
    ensures
        r == (t@ == word_btime()),
{
    let lit: [u8; 5] = [98, 116, 105, 109, 101];
    assert(lit@ =~= word_btime());
    is_word(t, &lit)
}

fn is_movetime(t: &Vec<u8>) -> (r: bool)
    ensures
        r == (t@ == word_movetime()),
{
    let lit: [u8; 8] = [109, 111, 118, 101, 116, 105, 109, 101];
    assert(lit@ =~= word_movetime());
    is_word(t, &lit)
}

fn is_depth(t: &Vec<u8>) -> (r: bool)
    ensures
        r == (t@ == word_depth()),
{
    let lit: [u8; 5] = [100, 101, 112, 116, 104];
    assert(lit@ =~= word_depth());
    is_word(t, &lit)
}

/// The protocol handler: the current position and the search that answers `go`.
pub struct UciHandler {
    board: Board,
    move_generator: MoveGenerator,
    evaluator: Evaluator,
    search_time: u64,
    search: Search,
}

impl UciHandler {
    pub closed spec fn wf(&self) -> bool {
        self.search.wf()
    }

    /// The position the handler holds.
    pub closed spec fn position(&self) -> Position {
        self.board@
    }

    /// The depth cap and time budget (ms) of the next search.
    pub closed spec fn depth_cap(&self) -> u32 {
        self.search.depth_cap()
    }

    pub closed spec fn time_cap(&self) -> u64 {
        self.search.time_cap()
    }

    pub fn new() -> (r: UciHandler)
        ensures
            r.wf(),
            r.position() == start_position(),
    {
        UciHandler {
            board: Board::new(),
            move_generator: MoveGenerator::new(),
            evaluator: Evaluator::new(),
            search_time: 1000,
            search: Search::new(),
        }
    }

    /// A copy of the position the handler holds.
    pub fn board(&self) -> (r: Board)
        ensures
            r@ == self.position(),
    {
        self.board
    }

    /// The depth cap and the time budget (ms) that the next search runs under.
    pub fn search_limits(&self) -> (r: (u32, u64))
        requires
            self.wf(),
        ensures
            r.0 == self.depth_cap(),
            r.1 == self.time_cap(),
    {
        (self.search.get_max_depth(), self.search.get_max_time())
    }

    /// Carries out one command line and gives the reply to write back.
    pub fn handle_command(&mut self, command: &str) -> (r: String)
        requires
            old(self).wf(),
        ensures
            final(self).wf(),
            command_effect(old(self).position(), words(command.spec_bytes()), final(self).position(), r@),
    {
        let ws = split_words(command.as_bytes());
        if ws.len() == 0 {
            return String::new();
        }
        assert(ws@.map_values(|w: Vec<u8>| w@)[0] == ws@[0]@);
        if is_uci(&ws[0]) {
            return self.handle_uci();
        }
        if is_isready(&ws[0]) {
            return String::from_str("readyok\n");
        }
        if is_ucinewgame(&ws[0]) {
            return self.handle_ucinewgame();
        }
        if is_position(&ws[0]) {
            return self.handle_position(&ws);
        }
        if is_go(&ws[0]) {
            return self.handle_go(&ws);
        }
        String::new()
    }

    fn handle_uci(&self) -> (r: String)
        ensures
            r@ == "id name Three Salmons\nid author Magnus Torvund\nuciok\n"@,
    {
        String::from_str("id name Three Salmons\nid author Magnus Torvund\nuciok\n")
    }

    fn handle_ucinewgame(&mut self) -> (r: String)
        requires
            old(self).wf(),
        ensures
            final(self).wf(),
            final(self).position() == start_position(),
            r@ == Seq::<char>::empty(),
    {
        self.board = Board::new();
        String::new()
    }

    fn play_moves(&mut self, parts: &Vec<Vec<u8>>, from: usize)
        requires
            old(self).wf(),
            from <= parts@.len(),
        ensures
            final(self).wf(),
            final(self).position() == play_words(old(self).position(), parts@.map_values(|w: Vec<u8>| w@),
                from as int, parts@.len() as int),
    {
        let ghost ws = parts@.map_values(|w: Vec<u8>| w@);
        let ghost p0 = self.board@;
        let mut i = from;
        while i < parts.len()
            invariant
                self.wf(),
                from <= i <= parts@.len(),
                ws == parts@.map_values(|w: Vec<u8>| w@),
                self.board@ == play_words(p0, ws, from as int, i as int),
            decreases parts@.len() - i,
        {
            assert(ws[i as int] == parts@[i as int]@);
            match parse_move_bytes(&self.board, parts[i].as_slice()) {
                Some(mv) => {
                    self.board.make_move(mv);
                },
                None => {},
            }
            i = i + 1;
        }
    }

    fn handle_position(&mut self, parts: &Vec<Vec<u8>>) -> (r: String)
        requires
            old(self).wf(),
            parts@.len() >= 1,
        ensures
            final(self).wf(),
            final(self).position() == position_command(old(self).position(), parts@.map_values(|w: Vec<u8>| w@)),
            r@ == Seq::<char>::empty(),
    {
        let ghost ws = parts@.map_values(|w: Vec<u8>| w@);
        if parts.len() >= 2 && is_startpos(&parts[1]) {
            assert(ws[1] == parts@[1]@);
            self.board = Board::new();
            if parts.len() > 2 && is_moves(&parts[2]) {
                assert(ws[2] == parts@[2]@);
                self.play_moves(parts, 3);
            }
        } else if parts.len() >= 8 && is_fen(&parts[1]) {
            assert(ws[1] == parts@[1]@);
            assert(ws.subrange(2, 8) =~= parts@.map_values(|w: Vec<u8>| w@).subrange(2, 8));
            match parse_fen_fields(parts, 2) {
                Some(b) => {
                    self.board = b;
                    if parts.len() > 8 && is_moves(&parts[8]) {
                        assert(ws[8] == parts@[8]@);
                        self.play_moves(parts, 9);
                    }
                },
                None => {},
            }
        }
        String::new()
    }

    /// Resolves a move in long algebraic form against the held position.
    pub fn parse_move(&self, move_str: &str) -> (r: Option<Move>)
        ensures
            r == lan_move(self.position(), move_str.spec_bytes()),
    {
        crate::notation::parse_move(&self.board, move_str)
    }

    /// Searches the held position under the depth cap and time budget that `go`'s words set.
    fn handle_go(&mut self, parts: &Vec<Vec<u8>>) -> (r: String)
        requires
            old(self).wf(),
        ensures
            final(self).wf(),
            final(self).position() == old(self).position(),
            final(self).depth_cap() == go_depth(parts@.map_values(|w: Vec<u8>| w@), parts@.len() as int),
            final(self).time_cap() == go_time(parts@.map_values(|w: Vec<u8>| w@),
                old(self).position().side == Color::White, parts@.len() as int),
            go_reply(old(self).position(), r@),
    {
        let ghost ws = parts@.map_values(|w: Vec<u8>| w@);
        let white = self.board.side_to_move == Color::White;
        let mut max_time: u64 = 5000;
        let mut max_depth: u32 = 4;
        let mut i: usize = 1;
        while i < parts.len()
            invariant
                1 <= i,
                i <= parts@.len() || i == 1,
                ws == parts@.map_values(|w: Vec<u8>| w@),
                max_time == go_time(ws, white, i as int),
                max_depth == go_depth(ws, i as int),
            decreases parts@.len() - i,
        {
            if i + 1 < parts.len() {
                assert(ws[i as int] == parts@[i as int]@ && ws[i + 1] == parts@[i + 1]@);
                match parse_number(parts[i + 1].as_slice()) {
                    Some(v) => {
                        if (is_wtime(&parts[i]) && white) || (is_btime(&parts[i]) && !white) {
                            max_time = v / 20;
                        } else if is_movetime(&parts[i]) {
                            max_time = v;
                        }
                        if is_depth(&parts[i]) && v <= u32::MAX as u64 {
                            max_depth = v as u32;
                        }
                    },
                    None => {},
                }
            }
            i = i + 1;
        }
        assert(go_time(ws, white, 0) == go_time(ws, white, 1));
        assert(go_depth(ws, 0) == go_depth(ws, 1));
        self.search.set_max_depth(max_depth);
        self.search.set_max_time(max_time);
        match self.search.find_best_move(&self.board) {
            Some(best) => {
                let mut reply = String::from_str("bestmove ");
                let text = format_move(&best);
                reply.append(text.as_str());
                reply.append("\n");
                reply
            },
            None => String::from_str("bestmove (none)\n"),
        }
    }

    /// Writes `mv` in long algebraic form.
    pub fn format_move(&self, mv: &Move) -> (r: String)
        requires
            mv.wf(),
        ensures
            r@ == lan_text(*mv),
    {
        format_move(mv)
    }
}

} // verus!
