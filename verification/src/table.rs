//! The table-based engine: build the full LCS-length table for every prefix
//! pair, then backtrack through it to extract a minimal edit script.

use vstd::prelude::*;
use crate::history::{History, Op, all_ops, ops_of, op_of};
use crate::lcs::{lcs, max2, lemma_lcs_bounds, lemma_lcs_self, lemma_lcs_step, lemma_lcs_empty};
use crate::script::{
    views, script_valid, ops_ok_from, a_used, b_used, keeps, inserts, removes, keep_count,
    insert_count, delete_count, lemma_counts_prepend, lemma_counts_total, lemma_ops_ok_prepend,
};

verus! {

/// `t` is the LCS table of `va` and `vb`: entry `(i, j)` is the LCS length
/// of the first `i` lines of `va` and the first `j` lines of `vb`.
pub open spec fn lcs_table_ok(va: Seq<Seq<char>>, vb: Seq<Seq<char>>, t: Seq<Vec<usize>>) -> bool {
    &&& t.len() == va.len() + 1
    &&& forall|i: int| 0 <= i < t.len() ==> (#[trigger] t[i])@.len() == vb.len() + 1
    &&& forall|i: int, j: int|
        0 <= i <= va.len() && 0 <= j <= vb.len() ==> (#[trigger] t[i]@[j]) as int == lcs(
            va.take(i),
            vb.take(j),
        )
}

/// Build the `(N+1) x (M+1)` table of LCS lengths of all prefix pairs.
pub fn build_lcs_table(a: &Vec<String>, b: &Vec<String>) -> (t: Vec<Vec<usize>>)
    requires
        a@.len() < usize::MAX,
        b@.len() < usize::MAX,
    ensures
        lcs_table_ok(views(a@), views(b@), t@),
{
    let ghost va = views(a@);
    let ghost vb = views(b@);
    let n = a.len();
    let m = b.len();
    let mut t: Vec<Vec<usize>> = Vec::new();
    let mut i: usize = 0;
    while i <= n
        invariant
            va == views(a@),
            vb == views(b@),
            n == a@.len(),
            m == b@.len(),
            n < usize::MAX,
            m < usize::MAX,
            0 <= i <= n + 1,
            t@.len() == i,
            forall|p: int| 0 <= p < i ==> (#[trigger] t@[p])@.len() == m + 1,
            forall|p: int, q: int|
                0 <= p < i && 0 <= q <= m ==> (#[trigger] t@[p]@[q]) as int == lcs(
                    va.take(p),
                    vb.take(q),
                ),
        decreases n + 1 - i,
    {
        let mut row: Vec<usize> = Vec::new();
        let mut j: usize = 0;
        while j <= m
            invariant
                va == views(a@),
                vb == views(b@),
                n == a@.len(),
                m == b@.len(),
                n < usize::MAX,
                m < usize::MAX,
                0 <= i <= n,
                0 <= j <= m + 1,
                row@.len() == j,
                t@.len() == i,
                forall|p: int| 0 <= p < i ==> (#[trigger] t@[p])@.len() == m + 1,
                forall|p: int, q: int|
                    0 <= p < i && 0 <= q <= m ==> (#[trigger] t@[p]@[q]) as int == lcs(
                        va.take(p),
                        vb.take(q),
                    ),
                forall|q: int|
                    0 <= q < j ==> (#[trigger] row@[q]) as int == lcs(va.take(i as int), vb.take(q)),
            decreases m + 1 - j,
        {
            proof {
                lemma_lcs_bounds(va.take(i as int), vb.take(j as int));
                assert(va.take(i as int).len() == i);
            }
            let v: usize;
            if i == 0 || j == 0 {
                proof {
                    lemma_lcs_empty(va, vb, i as int, j as int);
                }
                v = 0;
            } else {
                proof {
                    lemma_lcs_step(va, vb, i as int, j as int);
                    assert(va[i - 1] == a@[i - 1]@);
                    assert(vb[j - 1] == b@[j - 1]@);
                }
                if a[i - 1] == b[j - 1] {
                    v = t[i - 1][j - 1] + 1;
                } else {
                    let up = t[i - 1][j];
                    let left = row[j - 1];
                    v = if up >= left {
                        up
                    } else {
                        left
                    };
                }
            }
            row.push(v);
            j = j + 1;
        }
        t.push(row);
        i = i + 1;
    }
    t
}

/// The exact script the backward walk produces for the prefix pair
/// `(i, j)`, stated as a function: consume the tails of both prefixes, emit
/// a Keep on equal lines, and on a mismatch let the Insert direction win
/// ties. This pins the engine's output, operation by operation.
pub open spec fn backtrack(va: Seq<Seq<char>>, vb: Seq<Seq<char>>, i: int, j: int) -> Seq<Op>
    decreases max2(i, 0) + max2(j, 0),
{
    if i <= 0 && j <= 0 {
        Seq::empty()
    } else if i <= 0 {
        backtrack(va, vb, i, j - 1).push(Op::Insert { line: vb[j - 1], num: j })
    } else if j <= 0 {
        backtrack(va, vb, i - 1, j).push(Op::Remove { line: va[i - 1], num: i })
    } else if va[i - 1] == vb[j - 1] {
        backtrack(va, vb, i - 1, j - 1).push(Op::Keep { line: va[i - 1], num: i })
    } else if lcs(va.take(i), vb.take(j - 1)) >= lcs(va.take(i - 1), vb.take(j)) {
        backtrack(va, vb, i, j - 1).push(Op::Insert { line: vb[j - 1], num: j })
    } else {
        backtrack(va, vb, i - 1, j).push(Op::Remove { line: va[i - 1], num: i })
    }
}

/// The model of a script with one operation put in front.
proof fn lemma_ops_of_insert0(v: Seq<History>, h: History)
    ensures
        ops_of(v.insert(0, h)) =~= seq![op_of(h)] + ops_of(v),
{
    let l = v.insert(0, h);
    assert forall|t: int| 0 <= t < l.len() implies ops_of(l)[t] == (seq![op_of(h)] + ops_of(v))[t]
        by {
        if t == 0 {
            assert(l[0] == h);
        } else {
            assert(l[t] == v[t - 1]);
        }
    }
}

/// Backtrack through the LCS table from the end of both sequences, emitting
/// the minimal edit script front to back. On a mismatch the Insert direction
/// wins ties, so the output is deterministic.
pub fn extract_script(a: &Vec<String>, b: &Vec<String>, table: &Vec<Vec<usize>>) -> (r: Vec<
    History,
>)
    requires
        a@.len() <= u32::MAX,
        b@.len() <= u32::MAX,
        a@.len() < usize::MAX,
        b@.len() < usize::MAX,
        lcs_table_ok(views(a@), views(b@), table@),
    ensures
        all_ops(r@),
        script_valid(views(a@), views(b@), ops_of(r@)),
        keep_count(ops_of(r@)) == lcs(views(a@), views(b@)),
        insert_count(ops_of(r@)) == b@.len() - lcs(views(a@), views(b@)),
        delete_count(ops_of(r@)) == a@.len() - lcs(views(a@), views(b@)),
        r@.len() == a@.len() + b@.len() - lcs(views(a@), views(b@)),
        ops_of(r@) == backtrack(views(a@), views(b@), a@.len() as int, b@.len() as int),
{
    let ghost va = views(a@);
    let ghost vb = views(b@);
    let n = a.len();
    let m = b.len();
    let ghost total = lcs(va, vb);
    proof {
        assert(va.take(n as int) =~= va);
        assert(vb.take(m as int) =~= vb);
        lemma_lcs_bounds(va, vb);
        assert(backtrack(va, vb, n as int, m as int) + Seq::<Op>::empty() =~= backtrack(
            va,
            vb,
            n as int,
            m as int,
        ));
    }
    let mut acc: Vec<History> = Vec::new();
    let mut i: usize = n;
    let mut j: usize = m;
    while i > 0 || j > 0
        invariant
            va == views(a@),
            vb == views(b@),
            n == a@.len(),
            m == b@.len(),
            n <= u32::MAX,
            m <= u32::MAX,
            lcs_table_ok(va, vb, table@),
            total == lcs(va, vb),
            0 <= i <= n,
            0 <= j <= m,
            all_ops(acc@),
            ops_ok_from(va, vb, ops_of(acc@), i as int, j as int),
            a_used(ops_of(acc@), acc@.len() as int) == n - i,
            b_used(ops_of(acc@), acc@.len() as int) == m - j,
            keeps(ops_of(acc@), acc@.len() as int) == total - lcs(
                va.take(i as int),
                vb.take(j as int),
            ),
            backtrack(va, vb, n as int, m as int) == backtrack(va, vb, i as int, j as int)
                + ops_of(acc@),
        decreases i + j,
    {
        let ghost s0 = ops_of(acc@);
        let ghost oi: int = i as int;
        let ghost oj: int = j as int;
        let h: History;
        let ghost ni: int;
        let ghost nj: int;
        if i == 0 {
            proof {
                lemma_lcs_empty(va, vb, i as int, j as int);
                lemma_lcs_empty(va, vb, i as int, j as int - 1);
            }
            h = History::Insert { line: b[j - 1].clone(), num: j as u32 };
            proof {
                ni = i as int;
                nj = j as int - 1;
            }
            j = j - 1;
        } else if j == 0 {
            proof {
                lemma_lcs_empty(va, vb, i as int, j as int);
                lemma_lcs_empty(va, vb, i as int - 1, j as int);
            }
            h = History::Remove { line: a[i - 1].clone(), num: i as u32 };
            proof {
                ni = i as int - 1;
                nj = j as int;
            }
            i = i - 1;
        } else {
            proof {
                lemma_lcs_step(va, vb, i as int, j as int);
                assert(va[i as int - 1] == a@[i as int - 1]@);
                assert(vb[j as int - 1] == b@[j as int - 1]@);
            }
            if a[i - 1] == b[j - 1] {
                h = History::Keep { line: a[i - 1].clone(), num: i as u32 };
                proof {
                    ni = i as int - 1;
                    nj = j as int - 1;
                }
                i = i - 1;
                j = j - 1;
            } else {
                let ins_v = table[i][j - 1];
                let del_v = table[i - 1][j];
                if ins_v >= del_v {
                    h = History::Insert { line: b[j - 1].clone(), num: j as u32 };
                    proof {
                        ni = i as int;
                        nj = j as int - 1;
                    }
                    j = j - 1;
                } else {
                    h = History::Remove { line: a[i - 1].clone(), num: i as u32 };
                    proof {
                        ni = i as int - 1;
                        nj = j as int;
                    }
                    i = i - 1;
                }
            }
        }
        acc.insert(0, h);
        proof {
            let op = op_of(h);
            let c = seq![op] + s0;
            lemma_ops_of_insert0(acc@.remove(0), h);
            assert(acc@.remove(0).insert(0, h) =~= acc@);
            assert(ops_of(acc@) =~= c);
            assert(c[0] == op);
            assert(keeps(c, 0) == 0 && inserts(c, 0) == 0 && removes(c, 0) == 0);
            lemma_counts_prepend(s0, op, s0.len() as int);
            lemma_ops_ok_prepend(va, vb, s0, op, ni, nj);
            assert(backtrack(va, vb, oi, oj) == backtrack(va, vb, ni, nj).push(op));
            assert(backtrack(va, vb, ni, nj).push(op) + s0 =~= backtrack(va, vb, ni, nj) + (seq![
                op,
            ] + s0));
        }
    }
    proof {
        assert(va.take(0) =~= Seq::<Seq<char>>::empty());
        assert(vb.take(0) =~= Seq::<Seq<char>>::empty());
        lemma_counts_total(ops_of(acc@), acc@.len() as int);
        assert(Seq::<Op>::empty() + ops_of(acc@) =~= ops_of(acc@));
    }
    acc
}

/// Compute the minimal edit script from `a` to `b` with the table engine:
/// build the LCS table, then backtrack through it.
pub fn diff(a: &Vec<String>, b: &Vec<String>) -> (r: Vec<History>)
    requires
        a@.len() <= u32::MAX,
        b@.len() <= u32::MAX,
        a@.len() < usize::MAX,
        b@.len() < usize::MAX,
    ensures
        all_ops(r@),
        script_valid(views(a@), views(b@), ops_of(r@)),
        keep_count(ops_of(r@)) == lcs(views(a@), views(b@)),
        insert_count(ops_of(r@)) == b@.len() - lcs(views(a@), views(b@)),
        delete_count(ops_of(r@)) == a@.len() - lcs(views(a@), views(b@)),
        insert_count(ops_of(r@)) + delete_count(ops_of(r@)) == a@.len() + b@.len() - 2 * lcs(
            views(a@),
            views(b@),
        ),
        r@.len() == a@.len() + b@.len() - lcs(views(a@), views(b@)),
        views(a@) == views(b@) ==> insert_count(ops_of(r@)) == 0 && delete_count(ops_of(r@)) == 0
            && keep_count(ops_of(r@)) == a@.len(),
        ops_of(r@) == backtrack(views(a@), views(b@), a@.len() as int, b@.len() as int),
{
    let table = build_lcs_table(a, b);
    proof {
        if views(a@) == views(b@) {
            lemma_lcs_self(views(a@));
        }
    }
    extract_script(a, b, &table)
}

} // verus!
