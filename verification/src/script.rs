//! What it means for a sequence of edit operations to be a correct edit
//! script from one line sequence to another: every Keep and Remove consumes
//! the next line of the first sequence, every Keep and Insert produces the
//! next line of the second, and each operation carries the 1-based position
//! in the sequence it belongs to.

use vstd::prelude::*;
use crate::history::Op;

verus! {

/// The views of a sequence of lines: each `String` as its `Seq<char>`.
pub open spec fn views(v: Seq<String>) -> Seq<Seq<char>> {
    v.map_values(|s: String| s@)
}

/// How many of the first `n` operations are `Keep`s.
pub open spec fn keeps(s: Seq<Op>, n: int) -> int
    decreases n,
{
    if n <= 0 {
        0
    } else {
        let d: int = if s[n - 1] is Keep {
            1
        } else {
            0
        };
        keeps(s, n - 1) + d
    }
}

/// How many of the first `n` operations are `Insert`s.
pub open spec fn inserts(s: Seq<Op>, n: int) -> int
    decreases n,
{
    if n <= 0 {
        0
    } else {
        let d: int = if s[n - 1] is Insert {
            1
        } else {
            0
        };
        inserts(s, n - 1) + d
    }
}

/// How many of the first `n` operations are `Remove`s.
pub open spec fn removes(s: Seq<Op>, n: int) -> int
    decreases n,
{
    if n <= 0 {
        0
    } else {
        let d: int = if s[n - 1] is Remove {
            1
        } else {
            0
        };
        removes(s, n - 1) + d
    }
}

/// How many lines of the first sequence the first `n` operations consume.
pub open spec fn a_used(s: Seq<Op>, n: int) -> int {
    keeps(s, n) + removes(s, n)
}

/// How many lines of the second sequence the first `n` operations produce.
pub open spec fn b_used(s: Seq<Op>, n: int) -> int {
    keeps(s, n) + inserts(s, n)
}

pub open spec fn keep_count(s: Seq<Op>) -> int {
    keeps(s, s.len() as int)
}

pub open spec fn insert_count(s: Seq<Op>) -> int {
    inserts(s, s.len() as int)
}

pub open spec fn delete_count(s: Seq<Op>) -> int {
    removes(s, s.len() as int)
}

/// How many lines of the first sequence one operation consumes.
pub open spec fn da(o: Op) -> int {
    if o is Insert {
        0
    } else {
        1
    }
}

/// How many lines of the second sequence one operation produces.
pub open spec fn db(o: Op) -> int {
    if o is Remove {
        0
    } else {
        1
    }
}

/// Operation `t` of script `s` is correct when the script starts at position
/// `i0` of `a` and `j0` of `b`: it works on the next unconsumed line and
/// carries that line's content and 1-based position.
pub open spec fn op_ok_at(
    a: Seq<Seq<char>>,
    b: Seq<Seq<char>>,
    s: Seq<Op>,
    t: int,
    i0: int,
    j0: int,
) -> bool {
    match s[t] {
        Op::Keep { line, num } => {
            &&& i0 + a_used(s, t) < a.len()
            &&& j0 + b_used(s, t) < b.len()
            &&& line == a[i0 + a_used(s, t)]
            &&& line == b[j0 + b_used(s, t)]
            &&& num == i0 + a_used(s, t) + 1
        },
        Op::Insert { line, num } => {
            &&& j0 + b_used(s, t) < b.len()
            &&& line == b[j0 + b_used(s, t)]
            &&& num == j0 + b_used(s, t) + 1
        },
        Op::Remove { line, num } => {
            &&& i0 + a_used(s, t) < a.len()
            &&& line == a[i0 + a_used(s, t)]
            &&& num == i0 + a_used(s, t) + 1
        },
    }
}

/// Every operation of `s` is correct, for a script starting at `(i0, j0)`.
pub open spec fn ops_ok_from(
    a: Seq<Seq<char>>,
    b: Seq<Seq<char>>,
    s: Seq<Op>,
    i0: int,
    j0: int,
) -> bool {
    forall|t: int| 0 <= t < s.len() ==> op_ok_at(a, b, s, t, i0, j0)
}

/// `s` is a correct script from the start of `a` and `b` that has consumed
/// exactly the first `x` lines of `a` and produced the first `y` of `b`.
pub open spec fn partial_valid(
    a: Seq<Seq<char>>,
    b: Seq<Seq<char>>,
    s: Seq<Op>,
    x: int,
    y: int,
) -> bool {
    &&& ops_ok_from(a, b, s, 0, 0)
    &&& a_used(s, s.len() as int) == x
    &&& b_used(s, s.len() as int) == y
    &&& 0 <= x <= a.len()
    &&& 0 <= y <= b.len()
}

/// `s` is a complete edit script turning `a` into `b`.
pub open spec fn script_valid(a: Seq<Seq<char>>, b: Seq<Seq<char>>, s: Seq<Op>) -> bool {
    partial_valid(a, b, s, a.len() as int, b.len() as int)
}

/// The prefix counts look only at the first `n` entries.
pub proof fn lemma_counts_agree(s1: Seq<Op>, s2: Seq<Op>, n: int)
    requires
        0 <= n <= s1.len(),
        n <= s2.len(),
        forall|t: int| 0 <= t < n ==> s1[t] == s2[t],
    ensures
        keeps(s1, n) == keeps(s2, n),
        inserts(s1, n) == inserts(s2, n),
        removes(s1, n) == removes(s2, n),
    decreases n,
{
    if n > 0 {
        lemma_counts_agree(s1, s2, n - 1);
    }
}

/// Prefix counts of a script with one operation put in front.
pub proof fn lemma_counts_prepend(s: Seq<Op>, x: Op, n: int)
    requires
        0 <= n <= s.len(),
    ensures
        a_used(seq![x] + s, n + 1) == da(x) + a_used(s, n),
        b_used(seq![x] + s, n + 1) == db(x) + b_used(s, n),
        keeps(seq![x] + s, n + 1) == keeps(s, n) + (if x is Keep { 1int } else { 0 }),
        inserts(seq![x] + s, n + 1) == inserts(s, n) + (if x is Insert { 1int } else { 0 }),
        removes(seq![x] + s, n + 1) == removes(s, n) + (if x is Remove { 1int } else { 0 }),
    decreases n,
{
    let c = seq![x] + s;
    assert(x is Keep || x is Insert || x is Remove);
    if n == 0 {
        assert(c[0] == x);
        assert(keeps(c, 0) == 0 && keeps(s, 0) == 0);
        assert(inserts(c, 0) == 0 && inserts(s, 0) == 0);
        assert(removes(c, 0) == 0 && removes(s, 0) == 0);
    } else {
        lemma_counts_prepend(s, x, n - 1);
        assert(c[n] == s[n - 1]);
    }
    assert(keeps(c, n + 1) == keeps(s, n) + (if x is Keep { 1int } else { 0 }));
    assert(removes(c, n + 1) == removes(s, n) + (if x is Remove { 1int } else { 0 }));
    assert(inserts(c, n + 1) == inserts(s, n) + (if x is Insert { 1int } else { 0 }));
    assert(a_used(c, n + 1) == keeps(c, n + 1) + removes(c, n + 1));
    assert(b_used(c, n + 1) == keeps(c, n + 1) + inserts(c, n + 1));
}

/// Every operation is exactly one of the three kinds, so the prefix counts
/// add up to the prefix length.
pub proof fn lemma_counts_total(s: Seq<Op>, n: int)
    requires
        0 <= n <= s.len(),
    ensures
        keeps(s, n) + inserts(s, n) + removes(s, n) == n,
    decreases n,
{
    if n > 0 {
        lemma_counts_total(s, n - 1);
        assert(s[n - 1] is Keep || s[n - 1] is Insert || s[n - 1] is Remove);
    }
}

/// Putting an operation in front keeps every later operation correct, with
/// the start moved back by what the new operation consumes and produces.
pub proof fn lemma_ops_ok_prepend(
    a: Seq<Seq<char>>,
    b: Seq<Seq<char>>,
    s: Seq<Op>,
    x: Op,
    i0: int,
    j0: int,
)
    requires
        ops_ok_from(a, b, s, i0 + da(x), j0 + db(x)),
        op_ok_at(a, b, seq![x] + s, 0, i0, j0),
    ensures
        ops_ok_from(a, b, seq![x] + s, i0, j0),
{
    let c = seq![x] + s;
    assert forall|t: int| 0 <= t < c.len() implies op_ok_at(a, b, c, t, i0, j0) by {
        if t > 0 {
            lemma_counts_prepend(s, x, t - 1);
            assert(c[t] == s[t - 1]);
            assert(op_ok_at(a, b, s, t - 1, i0 + da(x), j0 + db(x)));
        }
    }
}

/// Appending an operation keeps every earlier operation correct.
pub proof fn lemma_ops_ok_push(
    a: Seq<Seq<char>>,
    b: Seq<Seq<char>>,
    s: Seq<Op>,
    x: Op,
    i0: int,
    j0: int,
)
    requires
        ops_ok_from(a, b, s, i0, j0),
        op_ok_at(a, b, s.push(x), s.len() as int, i0, j0),
    ensures
        ops_ok_from(a, b, s.push(x), i0, j0),
        a_used(s.push(x), s.len() as int + 1) == a_used(s, s.len() as int) + da(x),
        b_used(s.push(x), s.len() as int + 1) == b_used(s, s.len() as int) + db(x),
        keep_count(s.push(x)) == keep_count(s) + (if x is Keep { 1int } else { 0 }),
        insert_count(s.push(x)) == insert_count(s) + (if x is Insert { 1int } else { 0 }),
        delete_count(s.push(x)) == delete_count(s) + (if x is Remove { 1int } else { 0 }),
{
    let p = s.push(x);
    lemma_counts_agree(s, p, s.len() as int);
    assert(p[p.len() - 1] == x);
    assert forall|t: int| 0 <= t < p.len() implies op_ok_at(a, b, p, t, i0, j0) by {
        if t < s.len() {
            lemma_counts_agree(s, p, t);
            assert(op_ok_at(a, b, s, t, i0, j0));
            assert(p[t] == s[t]);
        }
    }
}

/// Extending a partial script with the Insert of the next line of `b`.
pub proof fn lemma_push_insert(a: Seq<Seq<char>>, b: Seq<Seq<char>>, s: Seq<Op>, x: int, y: int)
    requires
        partial_valid(a, b, s, x, y),
        y < b.len(),
    ensures
        partial_valid(a, b, s.push(Op::Insert { line: b[y], num: y + 1 }), x, y + 1),
        keep_count(s.push(Op::Insert { line: b[y], num: y + 1 })) == keep_count(s),
        insert_count(s.push(Op::Insert { line: b[y], num: y + 1 })) == insert_count(s) + 1,
        delete_count(s.push(Op::Insert { line: b[y], num: y + 1 })) == delete_count(s),
    decreases 0int,
{
    let o = Op::Insert { line: b[y], num: y + 1 };
    assert(s.push(o)[s.len() as int] == o);
    lemma_counts_agree(s, s.push(o), s.len() as int);
    lemma_ops_ok_push(a, b, s, o, 0, 0);
}

/// Extending a partial script with the Remove of the next line of `a`.
pub proof fn lemma_push_remove(a: Seq<Seq<char>>, b: Seq<Seq<char>>, s: Seq<Op>, x: int, y: int)
    requires
        partial_valid(a, b, s, x, y),
        x < a.len(),
    ensures
        partial_valid(a, b, s.push(Op::Remove { line: a[x], num: x + 1 }), x + 1, y),
        keep_count(s.push(Op::Remove { line: a[x], num: x + 1 })) == keep_count(s),
        insert_count(s.push(Op::Remove { line: a[x], num: x + 1 })) == insert_count(s),
        delete_count(s.push(Op::Remove { line: a[x], num: x + 1 })) == delete_count(s) + 1,
{
    let o = Op::Remove { line: a[x], num: x + 1 };
    assert(s.push(o)[s.len() as int] == o);
    lemma_counts_agree(s, s.push(o), s.len() as int);
    lemma_ops_ok_push(a, b, s, o, 0, 0);
}

/// Extending a partial script with a Keep of the next, equal, lines.
pub proof fn lemma_push_keep(a: Seq<Seq<char>>, b: Seq<Seq<char>>, s: Seq<Op>, x: int, y: int)
    requires
        partial_valid(a, b, s, x, y),
        x < a.len(),
        y < b.len(),
        a[x] == b[y],
    ensures
        partial_valid(a, b, s.push(Op::Keep { line: a[x], num: x + 1 }), x + 1, y + 1),
        keep_count(s.push(Op::Keep { line: a[x], num: x + 1 })) == keep_count(s) + 1,
        insert_count(s.push(Op::Keep { line: a[x], num: x + 1 })) == insert_count(s),
        delete_count(s.push(Op::Keep { line: a[x], num: x + 1 })) == delete_count(s),
{
    let o = Op::Keep { line: a[x], num: x + 1 };
    assert(s.push(o)[s.len() as int] == o);
    lemma_counts_agree(s, s.push(o), s.len() as int);
    lemma_ops_ok_push(a, b, s, o, 0, 0);
}

} // verus!
