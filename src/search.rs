//! Iterative-deepening negamax with alpha-beta pruning, quiescence on captures and
//! promotions, a transposition table, and move ordering by hash move, MVV-LVA,
//! promotions, killer moves and history.
use vstd::prelude::*;
use std::time::Instant;
use crate::board::{Board, Color, Piece, Position};
use crate::zobrist::position_hash;
use crate::clock::{elapsed, millis, now, shuffle, thread_rng};
use crate::evaluation::{Evaluator, lemma_score_bound};
use crate::laws::lemma_move_list_exact;
use crate::movegen::{Move, MoveGenerator, count_kind_exec};
use crate::rules::{legal, legal_moves};
use crate::transposition::{NodeType, TranspositionEntry, TranspositionTable, usable};
use crate::zobrist::hash_board;

verus! {

broadcast use vstd::seq_lib::group_to_multiset_ensures;

/// Scores stay within this bound, so that negating one never overflows.
pub const INFINITY: i32 = 2_000_000_000;

/// Quiescence stops after this many plies; each of its plies captures or promotes,
/// which no legal line can do this often.
pub const QUIESCENCE_PLIES: u32 = 64;

/// Killer moves are kept for this many plies from the root, two per ply.
pub const KILLER_PLIES: u32 = 64;

/// A search with its transposition table, killer moves and history table, under a depth
/// cap and a time budget.
pub struct Search {
    evaluator: Evaluator,
    move_generator: MoveGenerator,
    transposition_table: TranspositionTable,
    max_depth: u32,
    max_time: u64,
    nodes_searched: u64,
    start_time: Instant,
    stopped: bool,
    killer_moves: Vec<Option<Move>>,
    history_table: Vec<i32>,
    /// The position each table entry was stored from.
    positions: Ghost<Map<u64, Position>>,
    /// Whether some search met a table entry stored from another position of equal hash.
    collided: Ghost<bool>,
}

/// Material value of a kind, as move ordering uses it.
pub open spec fn piece_value(k: Piece) -> int {
    match k {
        Piece::Pawn => 100,
        Piece::Knight => 320,
        Piece::Bishop => 330,
        Piece::Rook => 500,
        Piece::Queen => 900,
        Piece::King => 20000,
    }
}

pub open spec fn opt_value(k: Option<Piece>) -> int {
    match k {
        Some(p) => piece_value(p),
        None => 0,
    }
}

pub open spec fn opt_index(k: Option<Piece>) -> int {
    match k {
        Some(p) => p.idx(),
        None => 0,
    }
}

/// A move packed into an integer: from, to, kind, captured kind and promotion kind,
/// in fields of 6, 6, 3, 3 and 3 bits.
pub open spec fn packed(m: Move) -> u64 {
    (m.from + m.to * 64 + m.piece.idx() * 4096 + opt_index(m.captured_piece) * 32768
        + opt_index(m.promotion) * 262144) as u64
}

pub open spec fn same_squares(k: Option<Move>, m: Move) -> bool {
    match k {
        Some(k) => k.from == m.from && k.to == m.to,
        None => false,
    }
}

/// The ordering priority of a move: the hash move first; then captures by most valuable
/// victim and least valuable attacker; then promotions by promoted value; then the two
/// killer moves of the ply, the most recent first; then quiet moves by history.
pub open spec fn move_priority(m: Move, hash_move: Option<u64>, killer0: Option<Move>,
    killer1: Option<Move>, history: i32) -> int {
    if hash_move == Some(packed(m)) {
        4_000_000_000_000_000
    } else if m.captured_piece.is_some() {
        3_000_000_000_000_000 + opt_value(m.captured_piece) * 10_000_000_000
            - piece_value(m.piece) * 100_000 + opt_value(m.promotion)
    } else if m.promotion.is_some() {
        2_000_000_000_000_000 + opt_value(m.promotion)
    } else if same_squares(killer0, m) {
        1_000_000_000_000_002
    } else if same_squares(killer1, m) {
        1_000_000_000_000_001
    } else {
        history as int
    }
}

/// Moves in `s` are legal in `p`.
pub open spec fn all_legal(p: Position, s: Seq<Move>) -> bool {
    forall|i: int| 0 <= i < s.len() ==> legal(p, #[trigger] s[i])
}

/// The value of `p` for the side to move, searched `depth` plies by negamax with the
/// quiescence value at the horizon and where no move is left.
pub open spec fn search_value(e: Evaluator, p: Position, depth: nat) -> int
    decreases depth, 1nat, 0nat,
{
    if depth == 0 || legal_moves(p).len() == 0 {
        qvalue(e, p, QUIESCENCE_PLIES as nat)
    } else {
        best_reply(e, p, legal_moves(p), depth)
    }
}

/// The best of the moves in `s` for the side to move, each valued by the opponent's
/// search one ply shallower; `-INFINITY` when `s` is empty.
pub open spec fn best_reply(e: Evaluator, p: Position, s: Seq<Move>, depth: nat) -> int
    decreases depth, 0nat, s.len(),
{
    if s.len() == 0 || depth == 0 {
        -INFINITY
    } else {
        let v = -search_value(e, p.after(s.last()), (depth - 1) as nat);
        if s.len() == 1 {
            v
        } else {
            let rest = best_reply(e, p, s.drop_last(), depth);
            if v > rest { v } else { rest }
        }
    }
}

/// The value a move leads to, for the side that plays it.
pub open spec fn reply_value(e: Evaluator, p: Position, m: Move, depth: nat) -> int {
    -search_value(e, p.after(m), (depth - 1) as nat)
}

/// A history counter credited with `depth` squared, saturating at `i32::MAX`.
pub open spec fn history_credit(h: i32, depth: u32) -> int {
    let bonus: int = if depth > 46340 { i32::MAX as int } else { depth * depth };
    if h + bonus > i32::MAX { i32::MAX as int } else { h + bonus }
}

/// The bound tag of a result against the window it was searched with.
pub open spec fn tag_of(r: int, alpha: int, beta: int) -> NodeType {
    if r <= alpha {
        NodeType::UpperBound
    } else if r >= beta {
        NodeType::LowerBound
    } else {
        NodeType::Exact
    }
}

/// A stored entry is true of the position `q` it was stored from: its score is the
/// value at its depth, or a lower or an upper bound of it, as its tag says.
pub open spec fn entry_sound(e: Evaluator, q: Position, en: TranspositionEntry) -> bool {
    let v = search_value(e, q, en.depth as nat);
    match en.node_type {
        NodeType::Exact => en.score == v,
        NodeType::LowerBound => v >= en.score,
        NodeType::UpperBound => v <= en.score,
    }
}

proof fn lemma_best_reply_bounds(e: Evaluator, p: Position, s: Seq<Move>, depth: nat)
    requires
        depth > 0,
        s.len() > 0,
    ensures
        forall|m: Move| s.contains(m) ==> best_reply(e, p, s, depth) >= reply_value(e, p, m, depth),
        exists|m: Move| s.contains(m) && best_reply(e, p, s, depth) == reply_value(e, p, m, depth),
    decreases s.len(),
{
    let init = s.drop_last();
    let last = s.last();
    assert(s[s.len() - 1] == last);
    if s.len() > 1 {
        lemma_best_reply_bounds(e, p, init, depth);
        assert forall|m: Move| s.contains(m) implies best_reply(e, p, s, depth) >= reply_value(e, p, m, depth) by {
            let i = choose|i: int| 0 <= i < s.len() && s[i] == m;
            if i < s.len() - 1 {
                assert(init[i] == m);
                assert(init.contains(m));
            }
        }
        if best_reply(e, p, s, depth) == best_reply(e, p, init, depth) {
            let m = choose|m: Move| init.contains(m) && best_reply(e, p, init, depth) == reply_value(e, p, m, depth);
            let i = choose|i: int| 0 <= i < init.len() && init[i] == m;
            assert(s[i] == m);
            assert(s.contains(m) && best_reply(e, p, s, depth) == reply_value(e, p, m, depth));
        } else {
            assert(s.contains(last) && best_reply(e, p, s, depth) == reply_value(e, p, last, depth));
        }
    } else {
        assert forall|m: Move| s.contains(m) implies best_reply(e, p, s, depth) >= reply_value(e, p, m, depth) by {
            let i = choose|i: int| 0 <= i < s.len() && s[i] == m;
        }
        assert(s.contains(last) && best_reply(e, p, s, depth) == reply_value(e, p, last, depth));
    }
}

/// The best move's value does not depend on the order in which the moves are listed.
proof fn lemma_best_reply_order(e: Evaluator, p: Position, s: Seq<Move>, t: Seq<Move>, depth: nat)
    requires
        depth > 0,
        s.len() > 0,
        s.to_multiset() == t.to_multiset(),
    ensures
        best_reply(e, p, s, depth) == best_reply(e, p, t, depth),
{
    assert(s.to_multiset().len() == s.len() && t.to_multiset().len() == t.len());
    lemma_best_reply_bounds(e, p, s, depth);
    lemma_best_reply_bounds(e, p, t, depth);
    assert forall|m: Move| s.contains(m) <==> t.contains(m) by {
        assert(s.contains(m) <==> s.to_multiset().count(m) > 0);
        assert(t.contains(m) <==> t.to_multiset().count(m) > 0);
    }
}

/// The prefix step: one more move listed.
proof fn lemma_best_reply_push(e: Evaluator, p: Position, s: Seq<Move>, i: int, depth: nat)
    requires
        depth > 0,
        0 <= i < s.len(),
    ensures
        best_reply(e, p, s.take(i + 1), depth) == if i == 0 {
            reply_value(e, p, s[i], depth)
        } else if reply_value(e, p, s[i], depth) > best_reply(e, p, s.take(i), depth) {
            reply_value(e, p, s[i], depth)
        } else {
            best_reply(e, p, s.take(i), depth)
        },
{
    assert(s.take(i + 1).drop_last() =~= s.take(i));
    assert(s.take(i + 1).last() == s[i]);
}

proof fn lemma_qvalue_bound(e: Evaluator, p: Position, budget: nat)
    requires
        e.wf(),
    ensures
        -200_000_000 <= qvalue(e, p, budget) <= 200_000_000,
    decreases budget,
{
    lemma_score_bound(e, p);
    if budget > 0 {
        let s = tactical_moves(legal_moves(p));
        lemma_best_of_bounds(e, p, s, budget);
        if best_of(e, p, s, budget) != stand_pat(e, p) {
            let m = choose|m: Move| s.contains(m)
                && best_of(e, p, s, budget) == -qvalue(e, p.after(m), (budget - 1) as nat);
            lemma_qvalue_bound(e, p.after(m), (budget - 1) as nat);
        }
    }
}

/// Searched values stay within two hundred million, well inside the score bound.
proof fn lemma_search_value_bound(e: Evaluator, p: Position, depth: nat)
    requires
        e.wf(),
    ensures
        -200_000_000 <= search_value(e, p, depth) <= 200_000_000,
    decreases depth,
{
    if depth == 0 || legal_moves(p).len() == 0 {
        lemma_qvalue_bound(e, p, QUIESCENCE_PLIES as nat);
    } else {
        lemma_best_reply_bounds(e, p, legal_moves(p), depth);
        let m = choose|m: Move| legal_moves(p).contains(m)
            && best_reply(e, p, legal_moves(p), depth) == reply_value(e, p, m, depth);
        lemma_search_value_bound(e, p.after(m), (depth - 1) as nat);
    }
}

proof fn lemma_replies_in_range(e: Evaluator, p: Position, s: Seq<Move>, depth: nat)
    requires
        e.wf(),
        depth >= 1,
    ensures
        replies_in_range(e, p, s, depth),
{
    assert forall|m: Move| #[trigger] s.contains(m) implies -INFINITY < reply_value(e, p, m, depth) < INFINITY by {
        lemma_search_value_bound(e, p.after(m), (depth - 1) as nat);
    }
}

/// A capture or a promotion: the moves quiescence looks at.
pub open spec fn tactical(m: Move) -> bool {
    m.captured_piece.is_some() || m.promotion.is_some()
}

/// The captures and promotions of `s`, in order.
pub open spec fn tactical_moves(s: Seq<Move>) -> Seq<Move>
    decreases s.len(),
{
    if s.len() == 0 {
        s
    } else if tactical(s.last()) {
        tactical_moves(s.drop_last()).push(s.last())
    } else {
        tactical_moves(s.drop_last())
    }
}

/// The static score of `p` for the side to move.
pub open spec fn stand_pat(e: Evaluator, p: Position) -> int {
    if p.side == Color::White { e.score(p) } else { -e.score(p) }
}

/// The quiescence value of `p`: the better of standing pat and the best capture or
/// promotion, searched `budget` plies deep.
pub open spec fn qvalue(e: Evaluator, p: Position, budget: nat) -> int
    decreases budget, 1nat, 0nat,
{
    if budget == 0 {
        stand_pat(e, p)
    } else {
        best_of(e, p, tactical_moves(legal_moves(p)), budget)
    }
}

/// Standing pat, or the best of the replies in `s`.
pub open spec fn best_of(e: Evaluator, p: Position, s: Seq<Move>, budget: nat) -> int
    decreases budget, 0nat, s.len(),
{
    if s.len() == 0 || budget == 0 {
        stand_pat(e, p)
    } else {
        let rest = best_of(e, p, s.drop_last(), budget);
        let v = -qvalue(e, p.after(s.last()), (budget - 1) as nat);
        if v > rest { v } else { rest }
    }
}

/// `r` is what an alpha-beta search with window (`alpha`, `beta`) owes for a position
/// of value `v`: at most `alpha` when `v` is, at least `beta` when `v` is, else `v`.
pub open spec fn within_window(r: int, v: int, alpha: int, beta: int) -> bool {
    &&& v <= alpha ==> r <= alpha
    &&& v >= beta ==> r >= beta
    &&& alpha < v < beta ==> r == v
}

/// `r` bounds the value `v` as a fail-soft alpha-beta search owes it: a result at or
/// below `alpha` is an upper bound, one at or above `beta` a lower bound, and one
/// strictly inside the window is exact.
pub open spec fn bounds_value(r: int, v: int, alpha: int, beta: int) -> bool {
    &&& r <= alpha ==> v <= r
    &&& r >= beta ==> v >= r
    &&& alpha < r < beta ==> r == v
}

/// A bound in the sense above puts the result in the window the value owes.
pub proof fn lemma_bounds_in_window(r: int, v: int, alpha: int, beta: int)
    requires
        alpha < beta,
        bounds_value(r, v, alpha, beta),
    ensures
        within_window(r, v, alpha, beta),
{
}

proof fn lemma_best_of_bounds(e: Evaluator, p: Position, s: Seq<Move>, budget: nat)
    requires
        budget > 0,
    ensures
        best_of(e, p, s, budget) >= stand_pat(e, p),
        forall|m: Move| s.contains(m) ==> best_of(e, p, s, budget) >= -qvalue(e, p.after(m), (budget - 1) as nat),
        best_of(e, p, s, budget) == stand_pat(e, p) || exists|m: Move| s.contains(m)
            && best_of(e, p, s, budget) == -qvalue(e, p.after(m), (budget - 1) as nat),
    decreases s.len(),
{
    if s.len() > 0 {
        let init = s.drop_last();
        lemma_best_of_bounds(e, p, init, budget);
        assert forall|m: Move| s.contains(m) implies best_of(e, p, s, budget) >= -qvalue(e, p.after(m), (budget - 1) as nat) by {
            let i = choose|i: int| 0 <= i < s.len() && s[i] == m;
            if i < s.len() - 1 {
                assert(init[i] == m);
                assert(init.contains(m));
            }
        }
        if best_of(e, p, s, budget) != stand_pat(e, p) {
            if best_of(e, p, s, budget) == best_of(e, p, init, budget) {
                let m = choose|m: Move| init.contains(m)
                    && best_of(e, p, init, budget) == -qvalue(e, p.after(m), (budget - 1) as nat);
                let i = choose|i: int| 0 <= i < init.len() && init[i] == m;
                assert(s[i] == m);
                assert(s.contains(m) && best_of(e, p, s, budget) == -qvalue(e, p.after(m), (budget - 1) as nat));
            } else {
                let m = s.last();
                assert(s[s.len() - 1] == m);
                assert(s.contains(m) && best_of(e, p, s, budget) == -qvalue(e, p.after(m), (budget - 1) as nat));
            }
        }
    }
}

/// The best reply does not depend on the order in which the replies are listed.
proof fn lemma_best_of_order(e: Evaluator, p: Position, s: Seq<Move>, t: Seq<Move>, budget: nat)
    requires
        budget > 0,
        s.to_multiset() == t.to_multiset(),
    ensures
        best_of(e, p, s, budget) == best_of(e, p, t, budget),
{
    lemma_best_of_bounds(e, p, s, budget);
    lemma_best_of_bounds(e, p, t, budget);
    assert forall|m: Move| s.contains(m) <==> t.contains(m) by {
        assert(s.contains(m) <==> s.to_multiset().count(m) > 0);
        assert(t.contains(m) <==> t.to_multiset().count(m) > 0);
    }
}

proof fn lemma_same_multiset_legal(p: Position, a: Seq<Move>, b: Seq<Move>)
    requires
        all_legal(p, a),
        a.to_multiset() == b.to_multiset(),
    ensures
        all_legal(p, b),
        a.len() == b.len(),
{
    assert(a.to_multiset().len() == a.len());
    assert(b.to_multiset().len() == b.len());
    assert forall|i: int| 0 <= i < b.len() implies legal(p, #[trigger] b[i]) by {
        assert(b.contains(b[i]));
        assert(b.to_multiset().count(b[i]) > 0);
        assert(a.contains(b[i]));
    }
}

proof fn lemma_generated_legal(p: Position)
    ensures
        all_legal(p, legal_moves(p)),
{
    assert forall|i: int| 0 <= i < legal_moves(p).len() implies legal(p, #[trigger] legal_moves(p)[i]) by {
        lemma_move_list_exact(p, legal_moves(p)[i]);
    }
}

/// The value of a kind for move ordering.
fn get_piece_value(piece: Piece) -> (r: i64)
    ensures
        r == piece_value(piece),
{
    match piece {
        Piece::Pawn => 100,
        Piece::Knight => 320,
        Piece::Bishop => 330,
        Piece::Rook => 500,
        Piece::Queen => 900,
        Piece::King => 20000,
    }
}

fn opt_value_exec(k: Option<Piece>) -> (r: i64)
    ensures
        r == opt_value(k),
{
    match k {
        Some(p) => get_piece_value(p),
        None => 0,
    }
}

fn opt_index_exec(k: Option<Piece>) -> (r: u64)
    ensures
        r == opt_index(k),
{
    match k {
        Some(p) => p.index() as u64,
        None => 0,
    }
}

/// Packs a move into an integer, as the transposition table keeps its hint.
pub fn move_to_u64(mv: Move) -> (r: u64)
    requires
        mv.wf(),
    ensures
        r == packed(mv),
{
    mv.from as u64 + mv.to as u64 * 64 + mv.piece.index() as u64 * 4096
        + opt_index_exec(mv.captured_piece) * 32768 + opt_index_exec(mv.promotion) * 262144
}

fn killer_matches(k: Option<Move>, m: Move) -> (r: bool)
    ensures
        r == same_squares(k, m),
{
    match k {
        Some(k) => k.from == m.from && k.to == m.to,
        None => false,
    }
}

impl Search {
    pub closed spec fn wf(&self) -> bool {
        &&& self.evaluator.wf()
        &&& self.transposition_table.wf()
        &&& self.killer_moves@.len() == 2 * KILLER_PLIES
        &&& self.history_table@.len() == 4096
        &&& forall|h: u64| (#[trigger] self.transposition_table.lookup(h)).is_some()
            ==> -INFINITY <= self.transposition_table.lookup(h).unwrap().score <= INFINITY
        &&& !self.collided@ ==> forall|h: u64| (#[trigger] self.transposition_table.lookup(h)).is_some()
            ==> self.positions@.contains_key(h) && entry_sound(self.evaluator, self.positions@[h],
            self.transposition_table.lookup(h).unwrap())
    }

    /// No search so far has met a hash collision in the table.
    pub closed spec fn collision_free(&self) -> bool {
        !self.collided@
    }

    /// The greatest depth the search goes to.
    pub closed spec fn depth_cap(&self) -> u32 {
        self.max_depth
    }

    /// The time budget in milliseconds.
    pub closed spec fn time_cap(&self) -> u64 {
        self.max_time
    }

    pub closed spec fn nodes(&self) -> u64 {
        self.nodes_searched
    }

    /// Killer move `slot` (0 the most recent) at `ply`.
    pub closed spec fn killer(&self, ply: u32, slot: int) -> Option<Move> {
        if ply < KILLER_PLIES { self.killer_moves@[2 * ply + slot] } else { None }
    }

    /// The history credit of moves from `from` to `to`.
    pub closed spec fn history(&self, from: u8, to: u8) -> i32 {
        self.history_table@[from * 64 + to]
    }

    pub open spec fn priority(&self, m: Move, hash_move: Option<u64>, ply: u32) -> int {
        move_priority(m, hash_move, self.killer(ply, 0), self.killer(ply, 1), self.history(m.from, m.to))
    }

    pub fn new() -> (r: Search)
        ensures
            r.wf(),
            r.depth_cap() == 8,
            r.time_cap() == 10000,
            r.nodes() == 0,
    {
        let mut killer_moves: Vec<Option<Move>> = Vec::new();
        while killer_moves.len() < 2 * KILLER_PLIES as usize
            invariant
                killer_moves@.len() <= 2 * KILLER_PLIES,
            decreases 2 * KILLER_PLIES - killer_moves@.len(),
        {
            killer_moves.push(None);
        }
        let mut history_table: Vec<i32> = Vec::new();
        while history_table.len() < 4096
            invariant
                history_table@.len() <= 4096,
            decreases 4096 - history_table@.len(),
        {
            history_table.push(0);
        }
        Search {
            evaluator: Evaluator::new(),
            move_generator: MoveGenerator::new(),
            transposition_table: TranspositionTable::new(1_000_000),
            max_depth: 8,
            max_time: 10000,
            nodes_searched: 0,
            start_time: now(),
            stopped: false,
            killer_moves,
            history_table,
            positions: Ghost(Map::empty()),
            collided: Ghost(false),
        }
    }

    pub fn set_max_depth(&mut self, depth: u32)
        requires
            old(self).wf(),
        ensures
            final(self).wf(),
            final(self).depth_cap() == depth,
            final(self).time_cap() == old(self).time_cap(),
    {
        self.max_depth = depth;
    }

    /// Sets the time budget, in milliseconds.
    pub fn set_max_time(&mut self, milliseconds: u64)
        requires
            old(self).wf(),
        ensures
            final(self).wf(),
            final(self).time_cap() == milliseconds,
            final(self).depth_cap() == old(self).depth_cap(),
    {
        self.max_time = milliseconds;
    }

    /// The time budget, in milliseconds.
    pub fn get_max_time(&self) -> (r: u64)
        ensures
            r == self.time_cap(),
    {
        self.max_time
    }

    pub fn get_max_depth(&self) -> (r: u32)
        ensures
            r == self.depth_cap(),
    {
        self.max_depth
    }

    /// Nodes visited by the last search.
    pub fn get_nodes_searched(&self) -> (r: u64)
        ensures
            r == self.nodes(),
    {
        self.nodes_searched
    }

    /// Whether the time budget is spent; once it is, the search stays stopped.
    fn time_up(&mut self) -> (r: bool)
        requires
            old(self).wf(),
        ensures
            final(self).wf(),
            final(self).depth_cap() == old(self).depth_cap(),
            final(self).time_cap() == old(self).time_cap(),
            r == final(self).stopped,
            old(self).stopped ==> r,
            final(self).evaluator == old(self).evaluator,
            final(self).collided == old(self).collided,
    {
        if !self.stopped {
            let spent = elapsed(&self.start_time);
            if millis(&spent) > self.max_time as u128 {
                self.stopped = true;
            }
        }
        self.stopped
    }

    fn count_node(&mut self)
        requires
            old(self).wf(),
        ensures
            final(self).wf(),
            final(self).depth_cap() == old(self).depth_cap(),
            final(self).time_cap() == old(self).time_cap(),
            final(self).stopped == old(self).stopped,
            final(self).evaluator == old(self).evaluator,
            final(self).collided == old(self).collided,
    {
        self.nodes_searched = self.nodes_searched.saturating_add(1);
    }

    fn get_position_hash(&self, board: &Board) -> (h: u64)
        ensures
            h == crate::zobrist::position_hash(board@),
    {
        hash_board(board)
    }

    /// Whether the side to move has no legal move.
    fn is_game_over(&self, board: &Board) -> (r: bool)
        ensures
            r == (legal_moves(board@).len() == 0),
    {
        let moves = self.move_generator.generate_moves(board);
        moves.len() == 0
    }

    fn priority_exec(&self, m: Move, hash_move: Option<u64>, ply: u32) -> (r: i64)
        requires
            self.wf(),
            m.wf(),
        ensures
            r == self.priority(m, hash_move, ply),
    {
        let packed = move_to_u64(m);
        let (k0, k1) = if ply < KILLER_PLIES {
            (self.killer_moves[(2 * ply) as usize], self.killer_moves[(2 * ply + 1) as usize])
        } else {
            (None, None)
        };
        if hash_move == Some(packed) {
            4_000_000_000_000_000
        } else if m.captured_piece.is_some() {
            3_000_000_000_000_000 + opt_value_exec(m.captured_piece) * 10_000_000_000
                - get_piece_value(m.piece) * 100_000 + opt_value_exec(m.promotion)
        } else if m.promotion.is_some() {
            2_000_000_000_000_000 + opt_value_exec(m.promotion)
        } else if killer_matches(k0, m) {
            1_000_000_000_000_002
        } else if killer_matches(k1, m) {
            1_000_000_000_000_001
        } else {
            self.history_table[(m.from as usize) * 64 + m.to as usize] as i64
        }
    }
}

impl Search {
    /// Puts `moves` in order of decreasing priority. In the opening (fourteen pawns or
    /// more on the board) equal priorities come in random order.
    fn order_moves(&self, moves: &mut Vec<Move>, board: &Board, hash_move: Option<u64>, ply: u32)
        requires
            self.wf(),
            forall|i: int| 0 <= i < old(moves)@.len() ==> (#[trigger] old(moves)@[i]).wf(),
        ensures
            final(moves)@.to_multiset() == old(moves)@.to_multiset(),
            forall|i: int, j: int| 0 <= i < j < final(moves)@.len()
                ==> self.priority(final(moves)@[i], hash_move, ply) >= self.priority(final(moves)@[j], hash_move, ply),
    {
        let ghost given = moves@;
        let pawns = count_kind_exec(board, Color::White, Piece::Pawn) as u16
            + count_kind_exec(board, Color::Black, Piece::Pawn) as u16;
        if pawns >= 14 {
            let mut rng = thread_rng();
            shuffle(moves, &mut rng);
            proof {
                assert forall|i: int| 0 <= i < moves@.len() implies (#[trigger] moves@[i]).wf() by {
                    assert(moves@.contains(moves@[i]));
                    assert(moves@.to_multiset().count(moves@[i]) > 0);
                    assert(given.contains(moves@[i]));
                }
            }
        }
        let mut sorted: Vec<Move> = Vec::new();
        while moves.len() > 0
            invariant
                self.wf(),
                sorted@.to_multiset().add(moves@.to_multiset()) == given.to_multiset(),
                forall|i: int| 0 <= i < moves@.len() ==> (#[trigger] moves@[i]).wf(),
                forall|i: int, j: int| 0 <= i < j < sorted@.len()
                    ==> self.priority(sorted@[i], hash_move, ply) >= self.priority(sorted@[j], hash_move, ply),
                forall|i: int, j: int| 0 <= i < sorted@.len() && 0 <= j < moves@.len()
                    ==> self.priority(sorted@[i], hash_move, ply) >= self.priority(moves@[j], hash_move, ply),
            decreases moves@.len(),
        {
            let mut best: usize = 0;
            let mut best_key = self.priority_exec(moves[0], hash_move, ply);
            let mut i: usize = 1;
            while i < moves.len()
                invariant
                    self.wf(),
                    1 <= i <= moves@.len(),
                    best < moves@.len(),
                    forall|j: int| 0 <= j < moves@.len() ==> (#[trigger] moves@[j]).wf(),
                    best_key == self.priority(moves@[best as int], hash_move, ply),
                    forall|j: int| 0 <= j < i ==> self.priority(#[trigger] moves@[j], hash_move, ply) <= best_key,
                decreases moves@.len() - i,
            {
                let k = self.priority_exec(moves[i], hash_move, ply);
                if k > best_key {
                    best = i;
                    best_key = k;
                }
                i = i + 1;
            }
            let ghost before = moves@;
            let m = moves.remove(best);
            sorted.push(m);
            proof {
                assert(before.remove(best as int) == moves@);
                assert(before.to_multiset().count(m) > 0) by {
                    assert(before.contains(m));
                }
                assert(sorted@.to_multiset().add(moves@.to_multiset()) =~= given.to_multiset());
                assert forall|j: int| 0 <= j < moves@.len() implies (#[trigger] moves@[j]).wf() by {
                    if j < best {
                        assert(moves@[j] == before[j]);
                    } else {
                        assert(moves@[j] == before[j + 1]);
                    }
                }
                assert forall|a: int, b: int| 0 <= a < sorted@.len() && 0 <= b < moves@.len()
                    implies self.priority(sorted@[a], hash_move, ply) >= self.priority(moves@[b], hash_move, ply) by {
                    if b < best {
                        assert(moves@[b] == before[b]);
                    } else {
                        assert(moves@[b] == before[b + 1]);
                    }
                }
            }
        }
        assert(moves@.to_multiset() =~= vstd::multiset::Multiset::empty());
        *moves = sorted;
    }

    /// Makes `mv` the most recent killer at `ply`; the former one moves to the second slot.
    fn record_killer(&mut self, mv: Move, ply: u32)
        requires
            old(self).wf(),
        ensures
            final(self).wf(),
            final(self).depth_cap() == old(self).depth_cap(),
            final(self).time_cap() == old(self).time_cap(),
            final(self).stopped == old(self).stopped,
            final(self).evaluator == old(self).evaluator,
            final(self).collided == old(self).collided,
            ply < KILLER_PLIES ==> final(self).killer(ply, 0) == Some(mv)
                && final(self).killer(ply, 1) == old(self).killer(ply, 0),
            forall|q: u32, slot: int| q != ply && 0 <= slot < 2 ==> #[trigger] final(self).killer(q, slot)
                == old(self).killer(q, slot),
            forall|f: u8, t: u8| #[trigger] final(self).history(f, t) == old(self).history(f, t),
    {
        if ply < KILLER_PLIES {
            let at = (2 * ply) as usize;
            let previous = self.killer_moves[at];
            self.killer_moves.set(at + 1, previous);
            self.killer_moves.set(at, Some(mv));
        }
    }

    /// Credits the history of `mv`'s squares with `depth` squared, saturating.
    fn credit_history(&mut self, mv: Move, depth: u32)
        requires
            old(self).wf(),
            mv.wf(),
        ensures
            final(self).wf(),
            final(self).depth_cap() == old(self).depth_cap(),
            final(self).time_cap() == old(self).time_cap(),
            final(self).stopped == old(self).stopped,
            final(self).evaluator == old(self).evaluator,
            final(self).collided == old(self).collided,
            final(self).history(mv.from, mv.to) == history_credit(old(self).history(mv.from, mv.to), depth),
            forall|f: u8, t: u8| f < 64 && t < 64 && !(f == mv.from && t == mv.to)
                ==> #[trigger] final(self).history(f, t) == old(self).history(f, t),
            forall|q: u32, slot: int| #[trigger] final(self).killer(q, slot) == old(self).killer(q, slot),
    {
        let at = (mv.from as usize) * 64 + mv.to as usize;
        let bonus: i32 = if depth > 46340 {
            i32::MAX
        } else {
            assert(depth * depth <= 46340 * 46340) by (nonlinear_arith)
                requires
                    depth <= 46340,
            ;
            (depth * depth) as i32
        };
        let h = self.history_table[at];
        let credited = if h > i32::MAX - bonus { i32::MAX } else { h + bonus };
        self.history_table.set(at, credited);
    }

    /// Captures and promotions searched from `board` until the position is quiet,
    /// with the static evaluation as the score for standing pat. Unless the deadline
    /// stopped the search, the result is the quiescence value as the window owes it.
    #[verifier::rlimit(40)]
    fn quiescence_search(&mut self, board: &Board, alpha: i32, beta: i32, budget: u32) -> (r: i32)
        requires
            old(self).wf(),
            -INFINITY <= alpha < beta <= INFINITY,
        ensures
            final(self).wf(),
            final(self).depth_cap() == old(self).depth_cap(),
            final(self).time_cap() == old(self).time_cap(),
            final(self).evaluator == old(self).evaluator,
            final(self).collided == old(self).collided,
            old(self).stopped ==> final(self).stopped,
            !final(self).stopped ==> bounds_value(r as int, qvalue(old(self).evaluator, board@, budget as nat),
                alpha as int, beta as int),
            !final(self).stopped ==> within_window(r as int, qvalue(old(self).evaluator, board@, budget as nat),
                alpha as int, beta as int),
            r >= stand_pat(old(self).evaluator, board@) || r >= beta,
            -INFINITY <= r <= INFINITY,
        decreases budget,
    {
        let ghost e = self.evaluator;
        let ghost p = board@;
        self.count_node();
        let score = self.evaluator.evaluate(board);
        let stand = if board.side_to_move == Color::White { score } else { -score };
        proof {
            if budget > 0 {
                lemma_best_of_bounds(e, p, tactical_moves(legal_moves(p)), budget as nat);
            }
        }
        if stand >= beta {
            return beta;
        }
        let mut a = if alpha < stand { stand } else { alpha };
        if budget == 0 || self.time_up() {
            return a;
        }
        let all = self.move_generator.generate_moves(board);
        proof {
            lemma_generated_legal(board@);
        }
        let mut moves: Vec<Move> = Vec::new();
        let mut i: usize = 0;
        while i < all.len()
            invariant
                i <= all@.len(),
                all_legal(board@, all@),
                all_legal(board@, moves@),
                moves@ == tactical_moves(all@.take(i as int)),
            decreases all@.len() - i,
        {
            assert(all@.take(i + 1).drop_last() =~= all@.take(i as int));
            if all[i].captured_piece.is_some() || all[i].promotion.is_some() {
                moves.push(all[i]);
            }
            i = i + 1;
        }
        assert(all@.take(all@.len() as int) =~= all@);
        if moves.len() == 0 {
            return stand;
        }
        let ghost unordered = moves@;
        self.order_moves(&mut moves, board, None, KILLER_PLIES);
        proof {
            lemma_same_multiset_legal(board@, unordered, moves@);
            lemma_best_of_order(e, p, moves@, unordered, budget as nat);
            lemma_best_of_bounds(e, p, moves@, budget as nat);
        }
        let mut j: usize = 0;
        while j < moves.len()
            invariant
                self.wf(),
                self.depth_cap() == old(self).depth_cap(),
                self.time_cap() == old(self).time_cap(),
                self.evaluator == e,
                e == old(self).evaluator,
                self.collided == old(self).collided,
                p == board@,
                old(self).stopped ==> self.stopped,
                all_legal(board@, moves@),
                j <= moves@.len(),
                -INFINITY <= alpha < beta <= INFINITY,
                alpha <= a < beta,
                a >= stand_pat(e, p),
                budget > 0,
                best_of(e, p, moves@, budget as nat) == qvalue(e, p, budget as nat),
                forall|m: Move| moves@.contains(m) ==> qvalue(e, p, budget as nat)
                    >= -qvalue(e, p.after(m), (budget - 1) as nat),
                !self.stopped ==> {
                    let b = best_of(e, p, moves@.take(j as int), budget as nat);
                    &&& b <= alpha ==> a == alpha
                    &&& b > alpha ==> a == b
                },
            decreases moves@.len() - j,
        {
            let mv = moves[j];
            let mut child = *board;
            child.make_move(mv);
            assert(moves@.take(j + 1).drop_last() =~= moves@.take(j as int));
            assert(moves@.take(j + 1).last() == mv);
            assert(moves@.contains(mv));
            let score = -self.quiescence_search(&child, -beta, -a, budget - 1);
            proof {
                if !self.stopped {
                    lemma_bounds_in_window(-score as int, qvalue(e, p.after(mv), (budget - 1) as nat),
                        -beta as int, -a as int);
                }
            }
            if score >= beta {
                return beta;
            }
            if score > a {
                a = score;
            }
            j = j + 1;
        }
        assert(moves@.take(moves@.len() as int) =~= moves@);
        proof {
            if !self.stopped {
                lemma_bounds_in_window(a as int, qvalue(e, p, budget as nat), alpha as int, beta as int);
            }
        }
        a
    }
}

impl Search {
    /// The negamax score of `board` for the side to move, searched `depth` plies with
    /// window (`alpha`, `beta`); `ply` counts the plies from the root. Unless the
    /// deadline stopped it or a hash collision misled it, the result bounds the searched
    /// value as the window owes, and the table then holds it for `board` at `depth`,
    /// tagged against the window the node was searched with. A table entry answers only
    /// a search of its own depth, so that its score speaks of the value at that depth.
    fn negamax(&mut self, board: &Board, depth: u32, alpha: i32, beta: i32, ply: u32) -> (r: i32)
        requires
            old(self).wf(),
            -INFINITY <= alpha < beta <= INFINITY,
        ensures
            final(self).wf(),
            final(self).depth_cap() == old(self).depth_cap(),
            final(self).time_cap() == old(self).time_cap(),
            final(self).evaluator == old(self).evaluator,
            old(self).stopped ==> final(self).stopped,
            old(self).collided@ ==> final(self).collided@,
            !final(self).stopped && !final(self).collided@ ==> bounds_value(r as int,
                search_value(old(self).evaluator, board@, depth as nat), alpha as int, beta as int),
            !final(self).stopped && !final(self).collided@ ==> within_window(r as int,
                search_value(old(self).evaluator, board@, depth as nat), alpha as int, beta as int),
            !final(self).stopped ==> match final(self).transposition_table.lookup(position_hash(board@)) {
                Some(en) => en.depth == depth && en.score == r && en.node_type == tag_of(r as int, alpha as int,
                    beta as int),
                None => false,
            },
            -INFINITY <= r <= INFINITY,
        decreases depth,
    {
        let ghost e = self.evaluator;
        let ghost p = board@;
        self.count_node();
        if self.time_up() {
            return alpha;
        }
        let hash = self.get_position_hash(board);
        match self.transposition_table.get_entry(hash) {
            Some(entry) => {
                if entry.depth == depth {
                    match self.transposition_table.probe(hash, depth, alpha, beta) {
                        Some(score) => {
                            proof {
                                if !self.positions@.contains_key(hash) || self.positions@[hash] != p {
                                    self.collided = Ghost(true);
                                }
                            }
                            self.store_result(board, hash, depth, alpha, beta, score, entry.best_move);
                            return score;
                        },
                        None => {},
                    }
                }
            },
            None => {},
        }
        if depth == 0 {
            let score = self.quiescence_search(board, alpha, beta, QUIESCENCE_PLIES);
            if !self.stopped {
                self.store_result(board, hash, depth, alpha, beta, score, None);
            }
            return score;
        }
        let mut moves = self.move_generator.generate_moves(board);
        if moves.len() == 0 {
            let score = self.quiescence_search(board, alpha, beta, QUIESCENCE_PLIES);
            if !self.stopped {
                self.store_result(board, hash, depth, alpha, beta, score, None);
            }
            return score;
        }
        proof {
            lemma_generated_legal(p);
        }
        let hint = self.transposition_table.get_best_move(hash);
        let ghost unordered = moves@;
        self.order_moves(&mut moves, board, hint, ply);
        proof {
            lemma_same_multiset_legal(p, unordered, moves@);
            lemma_best_reply_order(e, p, moves@, unordered, depth as nat);
            lemma_best_reply_bounds(e, p, moves@, depth as nat);
        }
        let mut a = alpha;
        let mut best_score: i32 = -INFINITY;
        let mut best_move: Option<Move> = None;
        let mut i: usize = 0;
        while i < moves.len()
            invariant
                self.wf(),
                self.depth_cap() == old(self).depth_cap(),
                self.time_cap() == old(self).time_cap(),
                self.evaluator == e,
                e == old(self).evaluator,
                p == board@,
                hash == position_hash(p),
                !self.stopped,
                !old(self).stopped,
                old(self).collided@ ==> self.collided@,
                all_legal(p, moves@),
                i <= moves@.len(),
                -INFINITY <= alpha < beta <= INFINITY,
                a == if best_score > alpha { best_score } else { alpha },
                -INFINITY <= best_score < beta,
                depth > 0,
                legal_moves(p).len() > 0,
                best_reply(e, p, moves@, depth as nat) == search_value(e, p, depth as nat),
                forall|m: Move| moves@.contains(m) ==> search_value(e, p, depth as nat)
                    >= reply_value(e, p, m, depth as nat),
                match best_move {
                    Some(m) => m.wf(),
                    None => true,
                },
                !self.stopped && !self.collided@ ==> {
                    let b = best_reply(e, p, moves@.take(i as int), depth as nat);
                    &&& b <= best_score
                    &&& best_score > alpha ==> b == best_score
                },
            decreases moves@.len() - i,
        {
            let mv = moves[i];
            let mut child = *board;
            child.make_move(mv);
            let next_ply = if ply < KILLER_PLIES { ply + 1 } else { ply };
            let ghost a_before = a;
            let ghost best_before = best_score;
            proof {
                assert(moves@.contains(mv)) by {
                    assert(moves@[i as int] == mv);
                }
                lemma_best_reply_push(e, p, moves@, i as int, depth as nat);
                if i == 0 {
                    assert(moves@.take(0) =~= Seq::<Move>::empty());
                }
            }
            let score = -self.negamax(&child, depth - 1, -beta, -a, next_ply);
            if self.stopped {
                return best_score;
            }
            if score > best_score {
                best_score = score;
                best_move = Some(mv);
            }
            if score > a {
                a = score;
            }
            if a >= beta {
                if mv.captured_piece.is_none() && mv.promotion.is_none() {
                    self.record_killer(mv, ply);
                    self.credit_history(mv, depth);
                }
                let packed = move_to_u64(mv);
                self.store_result(board, hash, depth, alpha, beta, best_score, Some(packed));
                return best_score;
            }
            if self.time_up() {
                return best_score;
            }
            i = i + 1;
        }
        proof {
            assert(moves@.take(moves@.len() as int) =~= moves@);
        }
        let packed = match best_move {
            Some(m) => Some(move_to_u64(m)),
            None => None,
        };
        self.store_result(board, hash, depth, alpha, beta, best_score, packed);
        best_score
    }

    /// Records a searched node: its score, at `depth`, tagged against the window
    /// (`alpha`, `beta`) the node was searched with.
    fn store_result(&mut self, board: &Board, hash: u64, depth: u32, alpha: i32, beta: i32, score: i32,
        hint: Option<u64>)
        requires
            old(self).wf(),
            hash == position_hash(board@),
            -INFINITY <= score <= INFINITY,
            !old(self).collided@ ==> bounds_value(score as int, search_value(old(self).evaluator, board@,
                depth as nat), alpha as int, beta as int),
        ensures
            final(self).wf(),
            final(self).depth_cap() == old(self).depth_cap(),
            final(self).time_cap() == old(self).time_cap(),
            final(self).stopped == old(self).stopped,
            final(self).evaluator == old(self).evaluator,
            final(self).collided == old(self).collided,
            final(self).transposition_table.lookup(hash) == Some(TranspositionEntry {
                hash,
                depth,
                score,
                node_type: tag_of(score as int, alpha as int, beta as int),
                best_move: hint,
            }),
    {
        let node_type = if score <= alpha {
            NodeType::UpperBound
        } else if score >= beta {
            NodeType::LowerBound
        } else {
            NodeType::Exact
        };
        let entry = TranspositionEntry { hash, depth, score, node_type, best_move: hint };
        self.transposition_table.store(hash, entry);
        proof {
            self.positions = Ghost(self.positions@.insert(hash, board@));
        }
    }

    /// Searches every root move to `depth`; gives the best one and whether the
    /// iteration finished before the deadline. When it finished and met no hash
    /// collision, the move given has the highest value at `depth`.
    fn search_root(&mut self, board: &Board, moves: &Vec<Move>, depth: u32) -> (r: (Move, bool))
        requires
            old(self).wf(),
            !old(self).stopped,
            moves@.len() > 0,
            all_legal(board@, moves@),
            depth >= 1,
        ensures
            final(self).wf(),
            final(self).depth_cap() == old(self).depth_cap(),
            final(self).time_cap() == old(self).time_cap(),
            final(self).evaluator == old(self).evaluator,
            old(self).collided@ ==> final(self).collided@,
            legal(board@, r.0),
            r.1 == !final(self).stopped,
            !final(self).stopped && !final(self).collided@ ==> forall|m: Move| #[trigger] moves@.contains(m)
                ==> reply_value(old(self).evaluator, board@, r.0, depth as nat)
                >= reply_value(old(self).evaluator, board@, m, depth as nat),
    {
        let ghost e = self.evaluator;
        let ghost p = board@;
        proof {
            lemma_replies_in_range(e, p, moves@, depth as nat);
        }
        let mut best = moves[0];
        let mut best_score: i32 = -INFINITY;
        let mut alpha: i32 = -INFINITY;
        let beta: i32 = INFINITY;
        let mut i: usize = 0;
        while i < moves.len()
            invariant
                self.wf(),
                self.depth_cap() == old(self).depth_cap(),
                self.time_cap() == old(self).time_cap(),
                self.evaluator == e,
                e == old(self).evaluator,
                p == board@,
                !self.stopped,
                old(self).collided@ ==> self.collided@,
                all_legal(board@, moves@),
                legal(board@, best),
                i <= moves@.len(),
                alpha == best_score,
                -INFINITY <= best_score < INFINITY,
                i == 0 ==> best_score == -INFINITY,
                replies_in_range(e, p, moves@, depth as nat),
                beta == INFINITY,
                depth >= 1,
                !self.collided@ && replies_in_range(e, p, moves@, depth as nat) ==> {
                    &&& i > 0 ==> reply_value(e, p, best, depth as nat) == best_score
                    &&& forall|j: int| 0 <= j < i ==> reply_value(e, p, #[trigger] moves@[j], depth as nat)
                        <= best_score
                },
            decreases moves@.len() - i,
        {
            if self.time_up() {
                return (best, false);
            }
            let mv = moves[i];
            let mut child = *board;
            child.make_move(mv);
            proof {
                assert(moves@.contains(mv)) by {
                    assert(moves@[i as int] == mv);
                }
            }
            let score = -self.negamax(&child, depth - 1, -beta, -alpha, 1);
            let ghost cv = reply_value(e, p, mv, depth as nat);
            let ghost exact = !self.stopped && !self.collided@ && replies_in_range(e, p, moves@, depth as nat);
            proof {
                if exact {
                    assert(child@ == p.after(mv));
                    assert(-INFINITY < cv < INFINITY);
                }
            }
            assert(exact ==> (score <= alpha ==> cv <= score));
            assert(exact ==> (score > alpha ==> cv == score));
            assert(moves@[i as int] == mv);
            if self.stopped {
                return (best, false);
            }
            if score > best_score {
                best_score = score;
                best = mv;
            }
            if score > alpha {
                alpha = score;
            }
            if alpha >= beta {
                return (best, true);
            }
            i = i + 1;
        }
        proof {
            assert forall|m: Move| #[trigger] moves@.contains(m) && !self.collided@ implies reply_value(e, p, best,
                depth as nat) >= reply_value(e, p, m, depth as nat) by {
                let j = choose|j: int| 0 <= j < moves@.len() && moves@[j] == m;
            }
        }
        (best, true)
    }

    /// The last search ran to its end before the deadline.
    pub closed spec fn in_time(&self) -> bool {
        !self.stopped
    }

    /// The evaluator the search scores positions with.
    pub closed spec fn scorer(&self) -> Evaluator {
        self.evaluator
    }

    /// The move chosen for the side to move: the best of the deepest iteration that
    /// finished before the deadline, or the best seen so far when none did. `None` only
    /// when there is no legal move. When no deadline stopped the search and it met no
    /// hash collision, the move has the highest value at the depth cap among the legal
    /// moves.
    pub fn find_best_move(&mut self, board: &Board) -> (r: Option<Move>)
        requires
            old(self).wf(),
        ensures
            final(self).wf(),
            final(self).depth_cap() == old(self).depth_cap(),
            final(self).time_cap() == old(self).time_cap(),
            final(self).scorer() == old(self).scorer(),
            !old(self).collision_free() ==> !final(self).collision_free(),
            match r {
                Some(m) => legal(board@, m),
                None => legal_moves(board@).len() == 0,
            },
            final(self).in_time() && final(self).collision_free() ==> match r {
                Some(m) => best_at_depth(old(self).scorer(), board@, m, root_depth(old(self).depth_cap())),
                None => true,
            },
    {
        let ghost e = self.evaluator;
        let ghost p = board@;
        self.nodes_searched = 0;
        self.start_time = now();
        self.stopped = false;
        let mut moves = self.move_generator.generate_moves(board);
        if moves.len() == 0 {
            return None;
        }
        proof {
            lemma_generated_legal(board@);
        }
        let limit: u32 = if self.max_depth == 0 { 1 } else { self.max_depth };
        let mut best = moves[0];
        let mut completed = false;
        let mut depth: u32 = 1;
        let ghost mut done: nat = 0;
        loop
            invariant
                self.wf(),
                self.depth_cap() == old(self).depth_cap(),
                self.time_cap() == old(self).time_cap(),
                self.evaluator == e,
                e == old(self).evaluator,
                p == board@,
                limit == root_depth(old(self).depth_cap()),
                !self.stopped,
                old(self).collided@ ==> self.collided@,
                moves@.len() > 0,
                moves@.to_multiset() == legal_moves(p).to_multiset(),
                all_legal(board@, moves@),
                legal(board@, best),
                1 <= depth <= limit,
                completed ==> done == depth - 1,
                completed && !self.collided@ ==> best_at_depth(e, p, best, done),
            decreases limit - depth,
        {
            let hint = if completed { Some(move_to_u64(best)) } else { None };
            let ghost unordered = moves@;
            self.order_moves(&mut moves, board, hint, 0);
            proof {
                lemma_same_multiset_legal(board@, unordered, moves@);
            }
            let (found, finished) = self.search_root(board, &moves, depth);
            if finished {
                best = found;
                completed = true;
                proof {
                    done = depth as nat;
                    if !self.collided@ {
                        lemma_root_best(e, p, moves@, found, depth as nat);
                    }
                }
            } else {
                if !completed {
                    best = found;
                }
                return Some(best);
            }
            if depth >= limit {
                return Some(best);
            }
            depth = depth + 1;
        }
    }
}

/// The depth of the last root iteration for a depth cap: at least one ply.
pub open spec fn root_depth(cap: u32) -> nat {
    if cap == 0 { 1 } else { cap as nat }
}

/// Every move of `s` leads to a value strictly inside (`-INFINITY`, `INFINITY`).
pub open spec fn replies_in_range(e: Evaluator, p: Position, s: Seq<Move>, depth: nat) -> bool {
    forall|m: Move| #[trigger] s.contains(m) ==> -INFINITY < reply_value(e, p, m, depth) < INFINITY
}

/// `m` has the highest value at `depth` among the legal moves of `p`.
pub open spec fn best_at_depth(e: Evaluator, p: Position, m: Move, depth: nat) -> bool {
    forall|m2: Move| #[trigger] legal(p, m2) ==> reply_value(e, p, m, depth) >= reply_value(e, p, m2, depth)
}

proof fn lemma_root_best(e: Evaluator, p: Position, moves: Seq<Move>, m: Move, depth: nat)
    requires
        moves.to_multiset() == legal_moves(p).to_multiset(),
        forall|m2: Move| #[trigger] moves.contains(m2) ==> reply_value(e, p, m, depth) >= reply_value(e, p, m2,
            depth),
    ensures
        best_at_depth(e, p, m, depth),
{
    assert forall|x: Move| moves.contains(x) <==> legal_moves(p).contains(x) by {
        assert(moves.contains(x) <==> moves.to_multiset().count(x) > 0);
        assert(legal_moves(p).contains(x) <==> legal_moves(p).to_multiset().count(x) > 0);
    }
    assert forall|x: Move| legal(p, x) <==> legal_moves(p).contains(x) by {
        crate::laws::lemma_move_list_exact(p, x);
    }
    assert forall|m2: Move| #[trigger] legal(p, m2) implies reply_value(e, p, m, depth)
        >= reply_value(e, p, m2, depth) by {
        assert(moves.contains(m2));
    }
}

} // verus!
