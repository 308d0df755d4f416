//! The analysis cache: for each file what the last successful compilation of
//! it produced.
//!
//! The cache is keyed by file identity and holds no policy. An entry stays
//! until another is set for the same file. A snapshot is a copy of the whole
//! cache: what is set later does not show in it.

use vstd::prelude::*;
use std::collections::HashMap;

verus! {

/// The analysis entries by file identity. `D` is what a compilation produces.
pub struct Analysis<D> {
    pub db: HashMap<u32, D>,
}

impl<D> View for Analysis<D> {
    type V = Map<u32, D>;

    open spec fn view(&self) -> Map<u32, D> {
        self.db@
    }
}

impl<D> Analysis<D> {
    /// A cache without entries.
    pub fn new() -> (analysis: Analysis<D>)
        ensures
            analysis@ == Map::<u32, D>::empty(),
    {
        Analysis { db: HashMap::new() }
    }

    /// The entry of `file_id`, or `None` where the file has none.
    pub fn get_db(&self, file_id: u32) -> (r: Option<&D>)
        ensures
            match r {
                Some(db) => self@.contains_key(file_id) && *db == self@[file_id],
                None => !self@.contains_key(file_id),
            },
    {
        broadcast use vstd::std_specs::hash::group_hash_axioms;

        self.db.get(&file_id)
    }

    /// Gives `file_id` the entry `db`, in place of the one that it had.
    pub fn set_db(&mut self, file_id: u32, db: D)
        ensures
            final(self)@ == old(self)@.insert(file_id, db),
    {
        broadcast use vstd::std_specs::hash::group_hash_axioms;

        self.db.insert(file_id, db);
    }

    /// Whether `file_id` has an entry.
    pub fn has_db(&self, file_id: u32) -> (b: bool)
        ensures
            b == self@.contains_key(file_id),
    {
        broadcast use vstd::std_specs::hash::group_hash_axioms;

        self.db.contains_key(&file_id)
    }
}

impl<D: Clone> Analysis<D> {
    /// A copy of the cache as it is now.
    pub fn snapshot(&self) -> (db: HashMap<u32, D>)
        ensures
            db@ == self@,
    {
        self.db.clone()
    }
}

} // verus!
