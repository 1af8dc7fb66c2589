//! The general laws of edit scripts, proved once and for all: what a script
//! between equal sequences looks like, how script size relates to the LCS
//! length, the symmetry of the change counts, and that any two minimal
//! scripts for the same inputs agree in all three counts.

use vstd::prelude::*;
use crate::history::Op;
use crate::lcs::{lcs, lemma_lcs_bounds, lemma_lcs_drop, lemma_lcs_self, lemma_lcs_symm};
use crate::script::{
    keeps, inserts, removes, a_used, b_used, keep_count, insert_count, delete_count, op_ok_at,
    ops_ok_from, script_valid, lemma_counts_agree, lemma_counts_total,
};

verus! {

/// The prefix counts never decrease as the prefix grows.
pub proof fn lemma_counts_mono(s: Seq<Op>, n1: int, n2: int)
    requires
        0 <= n1 <= n2 <= s.len(),
    ensures
        keeps(s, n1) <= keeps(s, n2),
        inserts(s, n1) <= inserts(s, n2),
        removes(s, n1) <= removes(s, n2),
    decreases n2 - n1,
{
    if n2 > n1 {
        lemma_counts_mono(s, n1, n2 - 1);
    }
}

/// A complete script with its last operation dropped is a complete script
/// between the inputs with the lines that operation touched dropped.
pub proof fn lemma_drop_last_valid(a: Seq<Seq<char>>, b: Seq<Seq<char>>, s: Seq<Op>)
    requires
        script_valid(a, b, s),
        s.len() > 0,
    ensures
        s.last() is Keep ==> a.len() > 0 && b.len() > 0 && a.last() == b.last() && script_valid(
            a.drop_last(),
            b.drop_last(),
            s.drop_last(),
        ) && keep_count(s.drop_last()) == keep_count(s) - 1,
        s.last() is Insert ==> b.len() > 0 && script_valid(a, b.drop_last(), s.drop_last())
            && keep_count(s.drop_last()) == keep_count(s),
        s.last() is Remove ==> a.len() > 0 && script_valid(a.drop_last(), b, s.drop_last())
            && keep_count(s.drop_last()) == keep_count(s),
{
    let n = s.len() as int - 1;
    let s1 = s.drop_last();
    lemma_counts_agree(s, s1, n);
    lemma_counts_mono(s, 0, n);
    assert(op_ok_at(a, b, s, n, 0, 0));
    assert(s[n] == s.last());
    if s.last() is Keep {
        let a1 = a.drop_last();
        let b1 = b.drop_last();
        assert(a_used(s, n) == a.len() - 1);
        assert(b_used(s, n) == b.len() - 1);
        assert(a.last() == a[a.len() - 1]);
        assert(b.last() == b[b.len() - 1]);
        assert(forall|i: int| 0 <= i < a1.len() ==> a1[i] == a[i]);
        assert(forall|i: int| 0 <= i < b1.len() ==> b1[i] == b[i]);
        assert forall|t: int| 0 <= t < s1.len() implies op_ok_at(a1, b1, s1, t, 0, 0) by {
            lemma_counts_agree(s, s1, t);
            lemma_counts_mono(s, t + 1, n);
            lemma_counts_mono(s, 0, t);
            assert(op_ok_at(a, b, s, t, 0, 0));
            assert(s1[t] == s[t]);
            if s[t] is Keep || s[t] is Remove {
                assert(a_used(s, t + 1) == a_used(s, t) + 1);
                assert(0 <= a_used(s, t) < a1.len());
                assert(a1[a_used(s, t)] == a[a_used(s, t)]);
            }
            if s[t] is Keep || s[t] is Insert {
                assert(b_used(s, t + 1) == b_used(s, t) + 1);
                assert(0 <= b_used(s, t) < b1.len());
                assert(b1[b_used(s, t)] == b[b_used(s, t)]);
            }
        }
    } else if s.last() is Insert {
        let b1 = b.drop_last();
        assert(b_used(s, n) == b.len() - 1);
        assert(a_used(s, n) == a.len());
        assert(forall|i: int| 0 <= i < b1.len() ==> b1[i] == b[i]);
        assert forall|t: int| 0 <= t < s1.len() implies op_ok_at(a, b1, s1, t, 0, 0) by {
            lemma_counts_agree(s, s1, t);
            lemma_counts_mono(s, t + 1, n);
            lemma_counts_mono(s, 0, t);
            assert(op_ok_at(a, b, s, t, 0, 0));
            assert(s1[t] == s[t]);
            if s[t] is Keep || s[t] is Insert {
                assert(b_used(s, t + 1) == b_used(s, t) + 1);
                assert(0 <= b_used(s, t) < b1.len());
                assert(b1[b_used(s, t)] == b[b_used(s, t)]);
            }
        }
    } else {
        let a1 = a.drop_last();
        assert(a_used(s, n) == a.len() - 1);
        assert(b_used(s, n) == b.len());
        assert(forall|i: int| 0 <= i < a1.len() ==> a1[i] == a[i]);
        assert forall|t: int| 0 <= t < s1.len() implies op_ok_at(a1, b, s1, t, 0, 0) by {
            lemma_counts_agree(s, s1, t);
            lemma_counts_mono(s, t + 1, n);
            lemma_counts_mono(s, 0, t);
            assert(op_ok_at(a, b, s, t, 0, 0));
            assert(s1[t] == s[t]);
            if s[t] is Keep || s[t] is Remove {
                assert(a_used(s, t + 1) == a_used(s, t) + 1);
                assert(0 <= a_used(s, t) < a1.len());
                assert(a1[a_used(s, t)] == a[a_used(s, t)]);
            }
        }
    }
}

/// No edit script keeps more lines than the LCS length, so every complete
/// script holds at least `|A| + |B| - 2 * LCS(A, B)` Insert and Remove
/// operations together. The engines attain this bound, so it is exact for
/// minimal scripts.
pub proof fn lemma_minimal_edits(a: Seq<Seq<char>>, b: Seq<Seq<char>>, s: Seq<Op>)
    requires
        script_valid(a, b, s),
    ensures
        keep_count(s) <= lcs(a, b),
        insert_count(s) + delete_count(s) >= a.len() + b.len() - 2 * lcs(a, b),
        insert_count(s) == b.len() - keep_count(s),
        delete_count(s) == a.len() - keep_count(s),
    decreases s.len(),
{
    lemma_lcs_bounds(a, b);
    if s.len() == 0 {
    } else {
        lemma_drop_last_valid(a, b, s);
        lemma_counts_agree(s, s.drop_last(), s.len() as int - 1);
        if s.last() is Keep {
            lemma_minimal_edits(a.drop_last(), b.drop_last(), s.drop_last());
        } else if s.last() is Insert {
            lemma_minimal_edits(a, b.drop_last(), s.drop_last());
            lemma_lcs_drop(a, b);
        } else {
            lemma_minimal_edits(a.drop_last(), b, s.drop_last());
            lemma_lcs_drop(a, b);
        }
    }
}

/// A minimal script between a sequence and itself: no Insert, no Remove,
/// exactly one Keep per line, mapping each line to itself.
pub proof fn lemma_identity_script(a: Seq<Seq<char>>, s: Seq<Op>)
    requires
        script_valid(a, a, s),
        keep_count(s) == lcs(a, a),
    ensures
        insert_count(s) == 0,
        delete_count(s) == 0,
        keep_count(s) == a.len(),
        s.len() == a.len(),
        forall|t: int| 0 <= t < s.len() ==> s[t] == (Op::Keep { line: a[t], num: t + 1 }),
{
    lemma_lcs_self(a);
    lemma_counts_total(s, s.len() as int);
    lemma_counts_mono(s, 0, s.len() as int);
    assert forall|t: int| 0 <= t < s.len() implies s[t] == (Op::Keep {
        line: a[t],
        num: t + 1,
    }) by {
        lemma_counts_mono(s, t + 1, s.len() as int);
        lemma_counts_mono(s, 0, t);
        lemma_counts_total(s, t);
        assert(s[t] is Keep);
        assert(keeps(s, t) == t);
        assert(op_ok_at(a, a, s, t, 0, 0));
    }
}

/// A script from the empty sequence: one Insert per line of `b`, in order.
pub proof fn lemma_inserts_only(a: Seq<Seq<char>>, b: Seq<Seq<char>>, s: Seq<Op>)
    requires
        script_valid(a, b, s),
        a.len() == 0,
    ensures
        s.len() == b.len(),
        insert_count(s) == b.len(),
        delete_count(s) == 0,
        keep_count(s) == 0,
        forall|t: int| 0 <= t < s.len() ==> s[t] == (Op::Insert { line: b[t], num: t + 1 }),
{
    lemma_counts_total(s, s.len() as int);
    lemma_counts_mono(s, 0, s.len() as int);
    assert forall|t: int| 0 <= t < s.len() implies s[t] == (Op::Insert {
        line: b[t],
        num: t + 1,
    }) by {
        lemma_counts_mono(s, t + 1, s.len() as int);
        lemma_counts_mono(s, 0, t);
        lemma_counts_total(s, t);
        assert(s[t] is Insert);
        assert(inserts(s, t) == t);
        assert(op_ok_at(a, b, s, t, 0, 0));
    }
}

/// A script to the empty sequence: one Remove per line of `a`, in order.
pub proof fn lemma_removes_only(a: Seq<Seq<char>>, b: Seq<Seq<char>>, s: Seq<Op>)
    requires
        script_valid(a, b, s),
        b.len() == 0,
    ensures
        s.len() == a.len(),
        delete_count(s) == a.len(),
        insert_count(s) == 0,
        keep_count(s) == 0,
        forall|t: int| 0 <= t < s.len() ==> s[t] == (Op::Remove { line: a[t], num: t + 1 }),
{
    lemma_counts_total(s, s.len() as int);
    lemma_counts_mono(s, 0, s.len() as int);
    assert forall|t: int| 0 <= t < s.len() implies s[t] == (Op::Remove {
        line: a[t],
        num: t + 1,
    }) by {
        lemma_counts_mono(s, t + 1, s.len() as int);
        lemma_counts_mono(s, 0, t);
        lemma_counts_total(s, t);
        assert(s[t] is Remove);
        assert(removes(s, t) == t);
        assert(op_ok_at(a, b, s, t, 0, 0));
    }
}

/// Count symmetry: a minimal script from `a` to `b` inserts exactly as many
/// lines as a minimal script from `b` to `a` deletes, and the other way
/// round.
pub proof fn lemma_count_symmetry(
    a: Seq<Seq<char>>,
    b: Seq<Seq<char>>,
    s1: Seq<Op>,
    s2: Seq<Op>,
)
    requires
        script_valid(a, b, s1),
        keep_count(s1) == lcs(a, b),
        script_valid(b, a, s2),
        keep_count(s2) == lcs(b, a),
    ensures
        insert_count(s1) == delete_count(s2),
        delete_count(s1) == insert_count(s2),
{
    lemma_lcs_symm(a, b);
    lemma_minimal_edits(a, b, s1);
    lemma_minimal_edits(b, a, s2);
}

/// Engine agreement on the counts: any two complete scripts for the same
/// inputs that keep equally many lines (as both engines' minimal scripts do)
/// have the same number of Keeps, Inserts and Removes, and the same length.
pub proof fn lemma_counts_agree_between_engines(
    a: Seq<Seq<char>>,
    b: Seq<Seq<char>>,
    s1: Seq<Op>,
    s2: Seq<Op>,
)
    requires
        script_valid(a, b, s1),
        script_valid(a, b, s2),
        keep_count(s1) == keep_count(s2),
    ensures
        insert_count(s1) == insert_count(s2),
        delete_count(s1) == delete_count(s2),
        s1.len() == s2.len(),
{
    lemma_minimal_edits(a, b, s1);
    lemma_minimal_edits(a, b, s2);
    lemma_counts_total(s1, s1.len() as int);
    lemma_counts_total(s2, s2.len() as int);
}

} // verus!
