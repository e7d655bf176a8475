//! A verified insertion sort over any row type with a total preorder, used
//! to hand rows back in display order (sort key, or a text column).

use vstd::prelude::*;

use crate::model::{Column, LinkedPath, Project, Tag, Task};
use crate::strutil::{lemma_lex_le_total, lemma_lex_le_trans, lex_le, str_lex_le};

verus! {

/// A row ordering: a total, transitive preorder `le`, decidable in exec
/// code.
pub trait SortKey: Sized {
    spec fn le(self, other: Self) -> bool;

    proof fn lemma_total(a: Self, b: Self)
        ensures
            a.le(b) || b.le(a),
    ;

    proof fn lemma_trans(a: Self, b: Self, c: Self)
        requires
            a.le(b),
            b.le(c),
        ensures
            a.le(c),
    ;

    fn le_exec(&self, other: &Self) -> (r: bool)
        ensures
            r == self.le(*other),
    ;
}

/// Every pair of rows in order.
pub open spec fn sorted_le<T: SortKey>(s: Seq<T>) -> bool {
    forall|i: int, j: int| 0 <= i < j < s.len() ==> (#[trigger] s[i]).le(#[trigger] s[j])
}

proof fn lemma_to_multiset_insert<T>(s: Seq<T>, pos: int, x: T)
    requires
        0 <= pos <= s.len(),
    ensures
        s.insert(pos, x).to_multiset() =~= s.to_multiset().insert(x),
{
    broadcast use vstd::seq_lib::group_to_multiset_ensures;

    let m1 = s.subrange(0, pos);
    let m2 = s.subrange(pos, s.len() as int);
    assert(s.insert(pos, x) =~= m1.push(x) + m2);
    vstd::seq_lib::lemma_multiset_commutative(m1.push(x), m2);
    vstd::seq_lib::lemma_multiset_commutative(m1, m2);
    assert(s =~= m1 + m2);
}

fn le_at<T: SortKey>(v: &Vec<T>, a: usize, x: &T) -> (r: bool)
    requires
        a < v@.len(),
    ensures
        r == v@[a as int].le(*x),
{
    v[a].le_exec(x)
}

/// Sorts the rows in place: afterwards the vector holds the same rows (as a
/// multiset) in `le` order.
pub fn sort_by_key<T: SortKey>(v: &mut Vec<T>)
    ensures
        final(v)@.len() == old(v)@.len(),
        final(v)@.to_multiset() == old(v)@.to_multiset(),
        sorted_le(final(v)@),
{
    if v.len() <= 1 {
        return ;
    }
    let mut i: usize = 1;
    while i < v.len()
        invariant
            1 <= i <= v@.len(),
            v@.len() == old(v)@.len(),
            v@.to_multiset() == old(v)@.to_multiset(),
            sorted_le(v@.take(i as int)),
        decreases v@.len() - i,
    {
        let ghost before = v@;
        let x = v.remove(i);
        let ghost mid = v@;
        proof {
            broadcast use vstd::seq_lib::group_to_multiset_ensures;

            assert(mid.take(i as int) =~= before.take(i as int));
        }
        let mut pos: usize = 0;
        while pos < i && le_at(v, pos, &x)
            invariant
                pos <= i,
                i < before.len(),
                v@ == mid,
                mid.len() == before.len() - 1,
                forall|q: int| 0 <= q < pos ==> mid[q].le(x),
            decreases i - pos,
        {
            pos = pos + 1;
        }
        v.insert(pos, x);
        proof {
            broadcast use vstd::seq_lib::group_to_multiset_ensures;

            lemma_to_multiset_insert(mid, pos as int, x);
            assert(mid.to_multiset() =~= before.to_multiset().remove(before[i as int]));
            assert(before.to_multiset().count(before[i as int]) > 0) by {
                assert(before.contains(before[i as int]));
            }
            assert(v@.to_multiset() =~= before.to_multiset());
            if pos < i {
                T::lemma_total(mid[pos as int], x);
            }
            assert forall|a: int, b: int| 0 <= a < b < i + 1 implies (#[trigger] v@[a]).le(
                #[trigger] v@[b],
            ) by {
                let va = v@[a];
                let vb = v@[b];
                if a < pos as int {
                    assert(va == mid[a]);
                } else if a == pos as int {
                    assert(va == x);
                } else {
                    assert(va == mid[a - 1]);
                }
                if b < pos as int {
                    assert(vb == mid[b]);
                } else if b == pos as int {
                    assert(vb == x);
                } else {
                    assert(vb == mid[b - 1]);
                }
                if b == pos as int {
                    // vb is x, a < pos: mid[a].le(x)
                } else if a == pos as int {
                    // va is x, b > pos: x.le(mid[pos]) and mid[pos].le(mid[b-1])
                    assert(x.le(mid[pos as int]));
                    if b - 1 > pos as int {
                        assert(mid[pos as int].le(mid[b - 1]));
                        T::lemma_trans(x, mid[pos as int], mid[b - 1]);
                    }
                } else if a < pos as int && b > pos as int {
                    assert(mid[a].le(mid[b - 1]));
                }
            }
            assert(sorted_le(v@.take(i as int + 1)));
        }
        i = i + 1;
    }
    proof {
        if v@.len() > 0 {
            assert(v@.take(v@.len() as int) =~= v@);
        } else {
            assert(sorted_le(v@));
        }
    }
}

impl SortKey for Project {
    open spec fn le(self, other: Self) -> bool {
        self.sort_order <= other.sort_order
    }

    proof fn lemma_total(a: Self, b: Self) {
    }

    proof fn lemma_trans(a: Self, b: Self, c: Self) {
    }

    fn le_exec(&self, other: &Self) -> (r: bool) {
        self.sort_order <= other.sort_order
    }
}

impl SortKey for Column {
    open spec fn le(self, other: Self) -> bool {
        self.sort_order <= other.sort_order
    }

    proof fn lemma_total(a: Self, b: Self) {
    }

    proof fn lemma_trans(a: Self, b: Self, c: Self) {
    }

    fn le_exec(&self, other: &Self) -> (r: bool) {
        self.sort_order <= other.sort_order
    }
}

impl SortKey for Task {
    open spec fn le(self, other: Self) -> bool {
        self.sort_order <= other.sort_order
    }

    proof fn lemma_total(a: Self, b: Self) {
    }

    proof fn lemma_trans(a: Self, b: Self, c: Self) {
    }

    fn le_exec(&self, other: &Self) -> (r: bool) {
        self.sort_order <= other.sort_order
    }
}

impl SortKey for Tag {
    open spec fn le(self, other: Self) -> bool {
        lex_le(self.name@, other.name@)
    }

    proof fn lemma_total(a: Self, b: Self) {
        lemma_lex_le_total(a.name@, b.name@);
    }

    proof fn lemma_trans(a: Self, b: Self, c: Self) {
        lemma_lex_le_trans(a.name@, b.name@, c.name@);
    }

    fn le_exec(&self, other: &Self) -> (r: bool) {
        str_lex_le(self.name.as_str(), other.name.as_str())
    }
}

impl SortKey for LinkedPath {
    open spec fn le(self, other: Self) -> bool {
        lex_le(self.path@, other.path@)
    }

    proof fn lemma_total(a: Self, b: Self) {
        lemma_lex_le_total(a.path@, b.path@);
    }

    proof fn lemma_trans(a: Self, b: Self, c: Self) {
        lemma_lex_le_trans(a.path@, b.path@, c.path@);
    }

    fn le_exec(&self, other: &Self) -> (r: bool) {
        str_lex_le(self.path.as_str(), other.path.as_str())
    }
}

} // verus!
