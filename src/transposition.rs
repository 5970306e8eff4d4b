//! A fixed-capacity table from position hash to a bounded score and a move hint.
//! Each hash has one slot, `hash % size`; a new entry overwrites the slot's old one.
use vstd::prelude::*;
use std::collections::HashMap;
use vstd::set_lib::{lemma_int_range, lemma_len_subset, lemma_map_size_bound, set_int_range};

verus! {

broadcast use vstd::std_specs::hash::group_hash_axioms;

#[derive(Debug, Clone, Copy, PartialEq, Eq, Structural)]
pub enum NodeType {
    Exact,
    LowerBound,
    UpperBound,
}

/// A searched position: its hash, the depth searched, the score and what kind of bound it
/// is, and the best move found, packed.
#[derive(Debug, Clone, Copy)]
pub struct TranspositionEntry {
    pub hash: u64,
    pub depth: u32,
    pub score: i32,
    pub node_type: NodeType,
    pub best_move: Option<u64>,
}

pub struct TranspositionTable {
    table: HashMap<u64, TranspositionEntry>,
    size: usize,
}

/// The score that an entry lets a search at `depth` with window (`alpha`, `beta`) use:
/// only an entry searched at least as deep, and only when its bound decides the window.
pub open spec fn usable(e: TranspositionEntry, depth: u32, alpha: i32, beta: i32) -> Option<i32> {
    if e.depth >= depth && (e.node_type == NodeType::Exact
        || (e.node_type == NodeType::LowerBound && e.score >= beta)
        || (e.node_type == NodeType::UpperBound && e.score <= alpha)) {
        Some(e.score)
    } else {
        None
    }
}

impl TranspositionTable {
    pub closed spec fn capacity(&self) -> nat {
        self.size as nat
    }

    pub open spec fn slot(&self, hash: u64) -> u64 {
        (hash % (self.capacity() as u64)) as u64
    }

    /// Every key is a slot below the capacity, holding an entry of that slot.
    pub closed spec fn wf(&self) -> bool {
        &&& self.size > 0
        &&& forall|k: u64| #[trigger] self.table@.contains_key(k) ==> k < self.size
            && self.table@[k].hash % (self.size as u64) == k
    }

    /// How many entries the table holds.
    pub closed spec fn stored(&self) -> nat {
        self.table@.dom().len()
    }

    /// The table never holds more entries than its capacity.
    pub proof fn lemma_bounded(&self)
        requires
            self.wf(),
        ensures
            self.stored() <= self.capacity(),
    {
        let ints = set_int_range(0, self.size as int);
        let f = |i: int| i as u64;
        lemma_int_range(0, self.size as int);
        lemma_map_size_bound(ints, ints.map(f), f);
        assert forall|k: u64| self.table@.dom().contains(k) implies ints.map(f).contains(k) by {
            assert(ints.contains(k as int));
            assert(f(k as int) == k);
        }
        lemma_len_subset(self.table@.dom(), ints.map(f));
    }

    /// The number of entries held.
    pub fn len(&self) -> (r: usize)
        requires
            self.wf(),
        ensures
            r == self.stored(),
            r <= self.capacity(),
    {
        proof {
            self.lemma_bounded();
        }
        self.table.len()
    }

    /// The entry stored for `hash`, if its slot holds one for that very hash.
    pub closed spec fn lookup(&self, hash: u64) -> Option<TranspositionEntry> {
        let k = (hash % (self.size as u64)) as u64;
        if self.table@.contains_key(k) && self.table@[k].hash == hash {
            Some(self.table@[k])
        } else {
            None
        }
    }

    pub fn new(size: usize) -> (r: TranspositionTable)
        requires
            size > 0,
        ensures
            r.wf(),
            r.capacity() == size,
            forall|h: u64| r.lookup(h).is_none(),
    {
        TranspositionTable { table: HashMap::new(), size }
    }

    /// Stores `entry` for `hash`, replacing whatever the slot of `hash` held.
    pub fn store(&mut self, hash: u64, entry: TranspositionEntry)
        requires
            old(self).wf(),
        ensures
            final(self).wf(),
            final(self).capacity() == old(self).capacity(),
            forall|h: u64| #[trigger] final(self).lookup(h) == if h == hash {
                Some(TranspositionEntry { hash, ..entry })
            } else if old(self).slot(h) == old(self).slot(hash) {
                None
            } else {
                old(self).lookup(h)
            },
    {
        let k = hash % (self.size as u64);
        self.table.insert(k, TranspositionEntry { hash, ..entry });
        assert forall|h: u64| #[trigger] self.lookup(h) == if h == hash {
            Some(TranspositionEntry { hash, ..entry })
        } else if old(self).slot(h) == old(self).slot(hash) {
            None
        } else {
            old(self).lookup(h)
        } by {
            if h % (self.size as u64) == k {
                if h != hash {
                    assert(self.table@[k].hash == hash);
                }
            }
        }
    }

    /// The stored score for `hash` when it may stand in for a search at `depth` with
    /// window (`alpha`, `beta`).
    pub fn probe(&self, hash: u64, depth: u32, alpha: i32, beta: i32) -> (r: Option<i32>)
        requires
            self.wf(),
        ensures
            r == match self.lookup(hash) {
                Some(e) => usable(e, depth, alpha, beta),
                None => None,
            },
    {
        match self.table.get(&(hash % (self.size as u64))) {
            Some(entry) => {
                if entry.hash != hash || entry.depth < depth {
                    return None;
                }
                match entry.node_type {
                    NodeType::Exact => Some(entry.score),
                    NodeType::LowerBound => if entry.score >= beta { Some(entry.score) } else { None },
                    NodeType::UpperBound => if entry.score <= alpha { Some(entry.score) } else { None },
                }
            },
            None => None,
        }
    }

    /// The entry stored for `hash`, if its slot holds one for that very hash.
    pub fn get_entry(&self, hash: u64) -> (r: Option<TranspositionEntry>)
        requires
            self.wf(),
        ensures
            r == self.lookup(hash),
    {
        match self.table.get(&(hash % (self.size as u64))) {
            Some(entry) => if entry.hash == hash { Some(*entry) } else { None },
            None => None,
        }
    }

    /// The packed best-move hint stored for `hash`.
    pub fn get_best_move(&self, hash: u64) -> (r: Option<u64>)
        requires
            self.wf(),
        ensures
            r == match self.lookup(hash) {
                Some(e) => e.best_move,
                None => None,
            },
    {
        match self.table.get(&(hash % (self.size as u64))) {
            Some(entry) => if entry.hash == hash { entry.best_move } else { None },
            None => None,
        }
    }
}

/// A stored score stands in for a search only when the entry was searched at least as
/// deep, and only when its bound settles the window: an exact score, a lower bound at or
/// above `beta`, or an upper bound at or below `alpha`.
pub proof fn lemma_usable_only_when_deep_enough(e: TranspositionEntry, depth: u32, alpha: i32, beta: i32)
    ensures
        usable(e, depth, alpha, beta).is_some() ==> {
            &&& e.depth >= depth
            &&& usable(e, depth, alpha, beta) == Some(e.score)
            &&& e.node_type == NodeType::LowerBound ==> e.score >= beta
            &&& e.node_type == NodeType::UpperBound ==> e.score <= alpha
        },
{
}

} // verus!
