//! The ordering engine: sparse integer sort keys for siblings.
//!
//! Every orderable row (project, column, task, subtask) carries an advisory
//! integer sort key.  A newly appended sibling receives the current maximum
//! key plus 1000; the gap is left on purpose so that items can later be
//! inserted between neighbours without renumbering the whole scope.

use vstd::prelude::*;

verus! {

/// One entry of a bulk-reorder request for columns or tasks: the row to move
/// and the sort key it should receive.
#[derive(Clone, Copy, Debug, PartialEq, Eq, Structural)]
pub struct ReorderItem {
    pub id: i64,
    pub sort_order: i64,
}

/// One entry of a bulk-reorder request for projects.
#[derive(Clone, Copy, Debug, PartialEq, Eq, Structural)]
pub struct ReorderProjectItem {
    pub id: i64,
    pub sort_order: i64,
}

/// Whether a bulk-reorder request mentions the row with this id.
pub open spec fn mentions(items: Seq<ReorderItem>, id: i64) -> bool
    decreases items.len(),
{
    if items.len() == 0 {
        false
    } else {
        items.last().id == id || mentions(items.drop_last(), id)
    }
}

/// The key that a bulk-reorder request assigns to the row with this id
/// (the last entry wins when an id is listed twice).
pub open spec fn last_key_for(items: Seq<ReorderItem>, id: i64) -> i64
    decreases items.len(),
{
    if items.len() == 0 {
        0
    } else if items.last().id == id {
        items.last().sort_order
    } else {
        last_key_for(items.drop_last(), id)
    }
}

/// Whether a project bulk-reorder request mentions the project with this id.
pub open spec fn mentions_project(items: Seq<ReorderProjectItem>, id: i64) -> bool
    decreases items.len(),
{
    if items.len() == 0 {
        false
    } else {
        items.last().id == id || mentions_project(items.drop_last(), id)
    }
}

/// The key that a project bulk-reorder request assigns to the project with
/// this id (the last entry wins when an id is listed twice).
pub open spec fn last_key_for_project(items: Seq<ReorderProjectItem>, id: i64) -> i64
    decreases items.len(),
{
    if items.len() == 0 {
        0
    } else if items.last().id == id {
        items.last().sort_order
    } else {
        last_key_for_project(items.drop_last(), id)
    }
}

/// Largest key among `keys`, or 0 when the scope is empty.
pub open spec fn max_key(keys: Seq<i64>) -> int
    decreases keys.len(),
{
    if keys.len() == 0 {
        0
    } else if keys.len() == 1 {
        keys[0] as int
    } else if keys.last() as int > max_key(keys.drop_last()) {
        keys.last() as int
    } else {
        max_key(keys.drop_last())
    }
}

/// Key assigned to an item appended after the siblings whose keys are
/// `keys`: 1000 past the current maximum (1000 itself in an empty scope).
pub open spec fn append_key(keys: Seq<i64>) -> int {
    max_key(keys) + 1000
}

proof fn lemma_max_key_ge(keys: Seq<i64>, i: int)
    requires
        0 <= i < keys.len(),
    ensures
        max_key(keys) >= keys[i],
    decreases keys.len(),
{
    if keys.len() > 1 && i < keys.len() - 1 {
        lemma_max_key_ge(keys.drop_last(), i);
    }
}

proof fn lemma_max_key_is_some_key(keys: Seq<i64>)
    requires
        keys.len() > 0,
    ensures
        exists|i: int| 0 <= i < keys.len() && keys[i] as int == max_key(keys),
    decreases keys.len(),
{
    if keys.len() == 1 {
        assert(keys[0] as int == max_key(keys));
    } else if keys.last() as int > max_key(keys.drop_last()) {
        assert(keys[keys.len() - 1] as int == max_key(keys));
    } else {
        lemma_max_key_is_some_key(keys.drop_last());
        let i = choose|i: int|
            0 <= i < keys.drop_last().len() && keys.drop_last()[i] as int == max_key(
                keys.drop_last(),
            );
        assert(keys[i] as int == max_key(keys));
    }
}

/// Exec computation of the append key over the sibling keys of one scope.
pub fn compute_append_key(keys: &Vec<i64>) -> (r: i64)
    requires
        forall|i: int| 0 <= i < keys@.len() ==> keys@[i] <= i64::MAX - 1000,
    ensures
        r as int == append_key(keys@),
{
    if keys.len() == 0 {
        return 1000;
    }
    let mut m: i64 = keys[0];
    let mut i: usize = 1;
    while i < keys.len()
        invariant
            1 <= i <= keys@.len(),
            keys@.len() > 0,
            m as int == max_key(keys@.take(i as int)),
            forall|j: int| 0 <= j < keys@.len() ==> keys@[j] <= i64::MAX - 1000,
        decreases keys@.len() - i,
    {
        proof {
            assert(keys@.take(i as int + 1).drop_last() =~= keys@.take(i as int));
            assert(keys@.take(i as int + 1).last() == keys@[i as int]);
        }
        if keys[i] > m {
            m = keys[i];
        }
        i = i + 1;
    }
    proof {
        assert(keys@.take(keys@.len() as int) =~= keys@);
        lemma_max_key_is_some_key(keys@);
    }
    m + 1000
}

/// Law of the append-key scheme: a key assigned by appending is strictly
/// greater than every existing sibling key, and when the next sibling is
/// again appended (no manual reorder in between) the two keys differ by
/// exactly 1000.
pub proof fn lemma_append_key_gap(keys: Seq<i64>)
    requires
        forall|i: int| 0 <= i < keys.len() ==> keys[i] <= i64::MAX - 1000,
    ensures
        forall|i: int| 0 <= i < keys.len() ==> append_key(keys) > keys[i],
        append_key(keys.push(append_key(keys) as i64)) == append_key(keys) + 1000,
{
    assert forall|i: int| 0 <= i < keys.len() implies append_key(keys) > keys[i] by {
        lemma_max_key_ge(keys, i);
    }
    if keys.len() > 0 {
        lemma_max_key_is_some_key(keys);
    }
    let k = append_key(keys) as i64;
    let pushed = keys.push(k);
    assert(pushed.drop_last() =~= keys);
    assert(pushed.last() == k);
    if keys.len() == 0 {
        assert(max_key(pushed) == k as int);
    } else {
        assert(k as int > max_key(keys)) by {
            lemma_max_key_is_some_key(keys);
        }
        assert(max_key(pushed) == k as int);
    }
}

} // verus!
