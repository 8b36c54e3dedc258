//! The forest: sibling lists that refer to each other by index.

use crate::entry::{Entry, EntryView};
use vstd::prelude::*;

verus! {

/// A forest is well formed when it has a root list and every folder refers to
/// a list that exists and stands behind the list that holds the folder, so
/// that no chain of folders leads back to where it began.
pub open spec fn forest_wf(forest: Seq<Seq<EntryView>>) -> bool {
    &&& forest.len() >= 1
    &&& forall|i: int, k: int|
        0 <= i < forest.len() && 0 <= k < forest[i].len() ==> match (#[trigger] forest[i][k]).next {
            Some(j) => i < j < forest.len(),
            None => true,
        }
}

/// The number of entries in the first `n` lists of `forest`.
pub open spec fn entries_in(forest: Seq<Seq<EntryView>>, n: nat) -> nat
    decreases n,
{
    if n == 0 {
        0
    } else {
        entries_in(forest, (n - 1) as nat) + forest[n - 1].len()
    }
}

/// The number of entries in all lists of `forest`.
pub open spec fn total_entries(forest: Seq<Seq<EntryView>>) -> nat {
    entries_in(forest, forest.len())
}

/// Whether every child reference in `list`, the list at index `at`, points
/// behind `at` and inside a forest of `len` lists.
fn list_is_ordered(list: &Vec<Entry>, at: usize, len: usize) -> (ok: bool)
    ensures
        ok == forall|k: int|
            0 <= k < list.len() ==> match (#[trigger] list.deep_view()[k]).next {
                Some(j) => at < j < len,
                None => true,
            },
{
    let mut k: usize = 0;
    while k < list.len()
        invariant
            k <= list.len(),
            forall|m: int|
                0 <= m < k ==> match (#[trigger] list.deep_view()[m]).next {
                    Some(j) => at < j < len,
                    None => true,
                },
        decreases list.len() - k,
    {
        match list[k].next {
            Some(j) => {
                if !(at < j && j < len) {
                    assert(list.deep_view()[k as int].next == Some(j as int));
                    return false;
                }
            },
            None => {},
        }
        k += 1;
    }
    true
}

/// Whether `forest` is well formed.
pub fn is_well_formed(forest: &Vec<Vec<Entry>>) -> (ok: bool)
    ensures
        ok == forest_wf(forest.deep_view()),
{
    if forest.len() == 0 {
        return false;
    }
    let mut i: usize = 0;
    while i < forest.len()
        invariant
            i <= forest.len(),
            forall|a: int, k: int|
                0 <= a < i && 0 <= k < forest.deep_view()[a].len() ==> match (
                #[trigger] forest.deep_view()[a][k]).next {
                    Some(j) => a < j < forest.len(),
                    None => true,
                },
        decreases forest.len() - i,
    {
        if !list_is_ordered(&forest[i], i, forest.len()) {
            assert(forest.deep_view()[i as int] == forest[i as int].deep_view());
            return false;
        }
        assert(forest.deep_view()[i as int] == forest[i as int].deep_view());
        i += 1;
    }
    true
}

} // verus!
