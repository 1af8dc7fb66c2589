//! The length of the longest common subsequence of two line sequences, and
//! the facts about it that the two engines and the public laws rest on.

use vstd::prelude::*;

verus! {

pub open spec fn max2(p: int, q: int) -> int {
    if p >= q {
        p
    } else {
        q
    }
}

pub open spec fn min2(p: int, q: int) -> int {
    if p <= q {
        p
    } else {
        q
    }
}

/// The length of the longest common subsequence of `a` and `b`, by the
/// standard recurrence on the last elements.
pub open spec fn lcs(a: Seq<Seq<char>>, b: Seq<Seq<char>>) -> int
    decreases a.len() + b.len(),
{
    if a.len() == 0 || b.len() == 0 {
        0
    } else if a.last() == b.last() {
        lcs(a.drop_last(), b.drop_last()) + 1
    } else {
        max2(lcs(a.drop_last(), b), lcs(a, b.drop_last()))
    }
}

/// The LCS length is at least zero and at most either input's length.
pub proof fn lemma_lcs_bounds(a: Seq<Seq<char>>, b: Seq<Seq<char>>)
    ensures
        0 <= lcs(a, b),
        lcs(a, b) <= a.len(),
        lcs(a, b) <= b.len(),
    decreases a.len() + b.len(),
{
    if a.len() == 0 || b.len() == 0 {
    } else if a.last() == b.last() {
        lemma_lcs_bounds(a.drop_last(), b.drop_last());
    } else {
        lemma_lcs_bounds(a.drop_last(), b);
        lemma_lcs_bounds(a, b.drop_last());
    }
}

/// Dropping the last element of either sequence lowers the LCS length by at
/// most one, and never raises it.
pub proof fn lemma_lcs_drop(a: Seq<Seq<char>>, b: Seq<Seq<char>>)
    ensures
        a.len() > 0 ==> lcs(a.drop_last(), b) <= lcs(a, b) <= lcs(a.drop_last(), b) + 1,
        b.len() > 0 ==> lcs(a, b.drop_last()) <= lcs(a, b) <= lcs(a, b.drop_last()) + 1,
    decreases a.len() + b.len(),
{
    lemma_lcs_bounds(a, b);
    if a.len() == 0 || b.len() == 0 {
        if a.len() > 0 {
            lemma_lcs_bounds(a.drop_last(), b);
        }
        if b.len() > 0 {
            lemma_lcs_bounds(a, b.drop_last());
        }
    } else {
        let a1 = a.drop_last();
        let b1 = b.drop_last();
        lemma_lcs_drop(a1, b);
        lemma_lcs_drop(a, b1);
        lemma_lcs_drop(a1, b1);
        if a.last() == b.last() {
            // lcs(a, b) == lcs(a1, b1) + 1
            if a1.len() > 0 {
                lemma_lcs_drop(a1.drop_last(), b);
            }
            if b1.len() > 0 {
                lemma_lcs_drop(a, b1.drop_last());
            }
            // Upper bounds: lcs(a1, b) and lcs(a, b1) are each within 1 of
            // lcs(a1, b1), which the mutual calls above provide.
        } else {
            // lcs(a, b) == max2(lcs(a1, b), lcs(a, b1))
        }
    }
}

/// A sequence's LCS with itself is its own length.
pub proof fn lemma_lcs_self(a: Seq<Seq<char>>)
    ensures
        lcs(a, a) == a.len(),
    decreases a.len(),
{
    if a.len() > 0 {
        lemma_lcs_self(a.drop_last());
    }
}

/// The LCS length is symmetric in its two arguments.
pub proof fn lemma_lcs_symm(a: Seq<Seq<char>>, b: Seq<Seq<char>>)
    ensures
        lcs(a, b) == lcs(b, a),
    decreases a.len() + b.len(),
{
    if a.len() == 0 || b.len() == 0 {
    } else if a.last() == b.last() {
        lemma_lcs_symm(a.drop_last(), b.drop_last());
    } else {
        lemma_lcs_symm(a.drop_last(), b);
        lemma_lcs_symm(a, b.drop_last());
    }
}

/// One step of the LCS recurrence, phrased on prefixes.
pub proof fn lemma_lcs_step(va: Seq<Seq<char>>, vb: Seq<Seq<char>>, i: int, j: int)
    requires
        1 <= i <= va.len(),
        1 <= j <= vb.len(),
    ensures
        va[i - 1] == vb[j - 1] ==> lcs(va.take(i), vb.take(j)) == lcs(
            va.take(i - 1),
            vb.take(j - 1),
        ) + 1,
        va[i - 1] != vb[j - 1] ==> lcs(va.take(i), vb.take(j)) == max2(
            lcs(va.take(i - 1), vb.take(j)),
            lcs(va.take(i), vb.take(j - 1)),
        ),
{
    let ta = va.take(i);
    let tb = vb.take(j);
    assert(ta.last() == va[i - 1]);
    assert(tb.last() == vb[j - 1]);
    assert(ta.drop_last() =~= va.take(i - 1));
    assert(tb.drop_last() =~= vb.take(j - 1));
}

/// An empty prefix has LCS length zero with anything.
pub proof fn lemma_lcs_empty(va: Seq<Seq<char>>, vb: Seq<Seq<char>>, i: int, j: int)
    requires
        0 <= i <= va.len(),
        0 <= j <= vb.len(),
    ensures
        lcs(va.take(0), vb.take(j)) == 0,
        lcs(va.take(i), vb.take(0)) == 0,
{
    assert(va.take(0).len() == 0);
    assert(vb.take(0).len() == 0);
}

/// The fewest Insert and Remove operations of any script between the first
/// `x` lines of `va` and the first `y` lines of `vb`.
#[verifier::opaque]
pub open spec fn edit_cost(va: Seq<Seq<char>>, vb: Seq<Seq<char>>, x: int, y: int) -> int {
    x + y - 2 * lcs(va.take(x), vb.take(y))
}

/// The edit cost is nonnegative and at least the distance to the diagonal.
pub proof fn lemma_cost_bounds(va: Seq<Seq<char>>, vb: Seq<Seq<char>>, x: int, y: int)
    requires
        0 <= x <= va.len(),
        0 <= y <= vb.len(),
    ensures
        edit_cost(va, vb, x, y) >= 0,
        edit_cost(va, vb, x, y) >= x - y,
        edit_cost(va, vb, x, y) >= y - x,
{
    reveal(edit_cost);
    lemma_lcs_bounds(va.take(x), vb.take(y));
    assert(va.take(x).len() == x);
    assert(vb.take(y).len() == y);
}

} // verus!
