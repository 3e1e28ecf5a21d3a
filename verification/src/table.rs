//! The cache of the search: for a position's hash, the deepest result that
//! a search has found.

use std::collections::HashMap;
use vstd::prelude::*;
use crate::score::Score;

verus! {

/// What a table that holds `m` answers to a question for the position with
/// the given hash: the score on record, where it comes from a search at
/// least `min_depth` deep.
pub open spec fn table_query(m: Map<u64, (usize, Score)>, hash: u64, min_depth: usize) -> Option<
    Score,
> {
    if m.contains_key(hash) && m[hash].0 >= min_depth {
        Some(m[hash].1)
    } else {
        None
    }
}

/// What a table that holds `m` holds once a result has been offered to it:
/// the result goes on record unless one at least as deep stands there.
pub open spec fn table_insert(
    m: Map<u64, (usize, Score)>,
    hash: u64,
    depth: usize,
    score: Score,
) -> Map<u64, (usize, Score)> {
    if m.contains_key(hash) && m[hash].0 >= depth {
        m
    } else {
        m.insert(hash, (depth, score))
    }
}

/// Results of earlier searches by the hash of the position. Two positions
/// with one hash share an entry: nothing tells them apart.
pub struct TranspositionalTable(HashMap<u64, (usize, Score)>);

impl View for TranspositionalTable {
    type V = Map<u64, (usize, Score)>;

    closed spec fn view(&self) -> Map<u64, (usize, Score)> {
        self.0@
    }
}

impl TranspositionalTable {
    /// A table without entries.
    pub fn new() -> (r: Self)
        ensures
            r@ == Map::<u64, (usize, Score)>::empty(),
    {
        Self(HashMap::new())
    }

    /// The score on record for the hash, where it comes from a search at
    /// least `min_depth` deep.
    pub fn query(&self, hash: u64, min_depth: usize) -> (r: Option<Score>)
        ensures
            r == table_query(self@, hash, min_depth),
    {
        if let Some(entry) = self.0.get(&hash) {
            if entry.0 >= min_depth {
                Some(entry.1)
            } else {
                None
            }
        } else {
            None
        }
    }

    /// Offers a result to the table, which keeps the deeper of it and the
    /// one on record.
    pub fn insert(&mut self, hash: u64, depth: usize, score: Score)
        ensures
            final(self)@ == table_insert(old(self)@, hash, depth, score),
    {
        let replace = match self.0.get(&hash) {
            Some(occupant) => depth > occupant.0,
            None => true,
        };
        if replace {
            self.0.insert(hash, (depth, score));
        }
    }
}

} // verus!
