//! Ordering an edit script by target line number before rendering, and the
//! summary counts a renderer needs: how many lines were inserted and how
//! many deleted.

use vstd::prelude::*;
use vstd::seq_lib::group_to_multiset_ensures;
use vstd::multiset::Multiset;
use crate::history::{History, line_num, ops_of, all_ops};
use crate::script::{insert_count, delete_count, keep_count, inserts, removes, keeps};

verus! {

/// The script is ordered by line number.
pub open spec fn sorted_by_line(s: Seq<History>) -> bool {
    forall|i: int, j: int| 0 <= i < j < s.len() ==> line_num(s[i]) <= line_num(s[j])
}

/// Reorder an edit script by line number (a permutation of the input).
pub fn sort_by_line(v: &mut Vec<History>)
    ensures
        sorted_by_line(final(v)@),
        final(v)@.to_multiset() == old(v)@.to_multiset(),
        final(v)@.len() == old(v)@.len(),
{
    broadcast use group_to_multiset_ensures;

    let ghost orig = v@;
    let mut out: Vec<History> = Vec::new();
    while v.len() > 0
        invariant
            sorted_by_line(out@),
            out@.to_multiset().add(v@.to_multiset()) =~= orig.to_multiset(),
            out@.len() + v@.len() == orig.len(),
            forall|i: int, j: int|
                0 <= i < out@.len() && 0 <= j < v@.len() ==> line_num(out@[i]) <= line_num(v@[j]),
        decreases v@.len(),
    {
        let mut mi: usize = 0;
        let mut u: usize = 1;
        while u < v.len()
            invariant
                v@.len() > 0,
                0 <= mi < v@.len(),
                mi < u <= v@.len() + 1,
                u <= v@.len(),
                forall|w: int| 0 <= w < u ==> line_num(v@[mi as int]) <= line_num(v@[w]),
            decreases v@.len() - u,
        {
            if v[u].get_line() < v[mi].get_line() {
                mi = u;
            }
            u = u + 1;
        }
        let ghost pre = v@;
        let h = v.remove(mi);
        proof {
            pre.to_multiset_ensures();
            out@.to_multiset_ensures();
            assert(pre.remove(mi as int).to_multiset() =~= pre.to_multiset().remove(h));
            assert(pre.to_multiset().count(h) > 0) by {
                assert(pre[mi as int] == h);
                assert(pre.contains(h));
            }
            assert(out@.push(h).to_multiset() =~= out@.to_multiset().insert(h));
            assert forall|j: int| 0 <= j < v@.len() implies line_num(h) <= line_num(v@[j]) by {
                if j < mi {
                    assert(v@[j] == pre[j]);
                } else {
                    assert(v@[j] == pre[j + 1]);
                }
            }
        }
        out.push(h);
        proof {
            assert(out@.to_multiset().add(v@.to_multiset()) =~= orig.to_multiset());
        }
    }
    proof {
        v@.to_multiset_ensures();
        assert(v@.to_multiset() =~= Multiset::empty());
        assert(out@.to_multiset() =~= orig.to_multiset());
    }
    *v = out;
}

/// How many Insert operations a script holds.
pub fn count_inserts(v: &Vec<History>) -> (r: usize)
    ensures
        r as int == insert_count(ops_of(v@)),
{
    let mut r: usize = 0;
    let mut i: usize = 0;
    while i < v.len()
        invariant
            0 <= i <= v@.len(),
            r <= i,
            r as int == inserts(ops_of(v@), i as int),
        decreases v@.len() - i,
    {
        match &v[i] {
            History::Insert { .. } => {
                r = r + 1;
            },
            _ => {},
        }
        i = i + 1;
    }
    r
}

/// How many Remove operations a script holds.
pub fn count_deletes(v: &Vec<History>) -> (r: usize)
    ensures
        r as int == delete_count(ops_of(v@)),
{
    let mut r: usize = 0;
    let mut i: usize = 0;
    while i < v.len()
        invariant
            0 <= i <= v@.len(),
            r <= i,
            r as int == removes(ops_of(v@), i as int),
        decreases v@.len() - i,
    {
        match &v[i] {
            History::Remove { .. } => {
                r = r + 1;
            },
            _ => {},
        }
        i = i + 1;
    }
    r
}

/// How many Keep operations a script holds.
pub fn count_keeps(v: &Vec<History>) -> (r: usize)
    requires
        all_ops(v@),
    ensures
        r as int == keep_count(ops_of(v@)),
{
    let mut r: usize = 0;
    let mut i: usize = 0;
    while i < v.len()
        invariant
            all_ops(v@),
            0 <= i <= v@.len(),
            r <= i,
            r as int == keeps(ops_of(v@), i as int),
        decreases v@.len() - i,
    {
        match &v[i] {
            History::Keep { .. } => {
                r = r + 1;
            },
            _ => {},
        }
        i = i + 1;
    }
    r
}

} // verus!
