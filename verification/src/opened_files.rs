//! The set of files that are open in the editor.
//!
//! The set is an `indexmap::IndexSet` of file identities. It keeps the files in
//! the order in which they were opened, except that closing a file moves the
//! last one into its place. What is stated here of the set is taken from the
//! source of `indexmap`; nothing of it is proved.

use vstd::prelude::*;
use indexmap::IndexSet;
use std::collections::hash_map::RandomState;

verus! {

#[verifier::external_type_specification]
#[verifier::external_body]
#[verifier::reject_recursive_types(T)]
#[verifier::reject_recursive_types(S)]
pub struct ExIndexSet<T, S>(IndexSet<T, S>);

/// The members of the set, in the order in which it is walked.
pub uninterp spec fn members(set: IndexSet<u32, RandomState>) -> Seq<u32>;

/// The list `s` with the member at `i` replaced by the last and the last
/// place dropped.
pub open spec fn swap_removed(s: Seq<u32>, i: int) -> Seq<u32> {
    s.update(i, s.last()).drop_last()
}

/// Calls `IndexSet::new`: a set without members.
#[verifier::external_body]
pub(crate) fn new_set() -> (set: IndexSet<u32, RandomState>)
    ensures
        members(set) == Seq::<u32>::empty(),
{
    IndexSet::new()
}

/// Calls `IndexSet::insert`: a value that the set holds leaves it as it is and
/// gives `false`; another is put behind the last member and gives `true`.
#[verifier::external_body]
pub(crate) fn insert(set: &mut IndexSet<u32, RandomState>, id: u32) -> (added: bool)
    ensures
        added == !members(*old(set)).contains(id),
        members(*final(set)) == if added {
            members(*old(set)).push(id)
        } else {
            members(*old(set))
        },
{
    set.insert(id)
}

/// Calls `IndexSet::remove`, which is `swap_remove`: a value that the set
/// holds is taken out, the last member moves into its place, and the call
/// gives `true`; for another value the set stays as it is and the call gives
/// `false`.
#[verifier::external_body]
pub(crate) fn remove(set: &mut IndexSet<u32, RandomState>, id: u32) -> (removed: bool)
    ensures
        removed == members(*old(set)).contains(id),
        members(*final(set)) == if removed {
            swap_removed(members(*old(set)), members(*old(set)).index_of(id))
        } else {
            members(*old(set))
        },
{
    set.remove(&id)
}

/// Calls `IndexSet::clone`: a set with the same members in the same order.
#[verifier::external_body]
pub(crate) fn clone_set(set: &IndexSet<u32, RandomState>) -> (copy: IndexSet<u32, RandomState>)
    ensures
        members(copy) == members(*set),
{
    set.clone()
}

/// Walks the set with `IndexSet::iter` and hands out its members in that
/// order.
#[verifier::external_body]
pub(crate) fn to_vec(set: &IndexSet<u32, RandomState>) -> (list: Vec<u32>)
    ensures
        list@ == members(*set),
{
    set.iter().copied().collect()
}

} // verus!
