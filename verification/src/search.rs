//! The frontier-search engine: an expanding-radius shortest-edit-path search
//! over diagonals, producing a minimal edit script without materializing the
//! full LCS table. The per-diagonal frontiers live in an array indexed by
//! diagonal number shifted by a fixed offset.

use vstd::prelude::*;
use crate::history::{History, Op, all_ops, is_op, ops_of, op_of, clone_ops};
use crate::lcs::{
    max2, min2, lcs, edit_cost, lemma_cost_bounds, lemma_lcs_bounds, lemma_lcs_self,
    lemma_lcs_step, lemma_lcs_empty,
};
use crate::laws::lemma_minimal_edits;
use crate::script::{
    views, script_valid, partial_valid, keep_count, insert_count, delete_count, lemma_counts_total,
    lemma_push_insert, lemma_push_remove, lemma_push_keep,
};

verus! {

/// The model of a script with one operation appended.
proof fn lemma_ops_of_push(v: Seq<History>, h: History)
    ensures
        ops_of(v.push(h)) =~= ops_of(v).push(op_of(h)),
        all_ops(v) && is_op(h) ==> all_ops(v.push(h)),
{
    let l = v.push(h);
    assert forall|t: int| 0 <= t < l.len() implies ops_of(l)[t] == ops_of(v).push(op_of(h))[t] by {
        if t < v.len() {
            assert(l[t] == v[t]);
        } else {
            assert(l[t] == h);
        }
    }
    if all_ops(v) && is_op(h) {
        assert forall|t: int| 0 <= t < l.len() implies is_op(l[t]) by {
            if t < v.len() {
                assert(l[t] == v[t]);
            } else {
                assert(l[t] == h);
            }
        }
    }
}

/// Any position on diagonal `k` whose edit cost is within `d` sits at the end
/// of a run of equal lines that starts either at the origin or one edit move
/// after a position within cost `d - 1` on a neighbouring diagonal.
proof fn lemma_back(va: Seq<Seq<char>>, vb: Seq<Seq<char>>, k: int, x: int, d: int) -> (x0: int)
    requires
        0 <= x <= va.len(),
        0 <= x - k <= vb.len(),
        edit_cost(va, vb, x, x - k) <= d,
    ensures
        0 <= x0 <= x,
        0 <= x0 - k,
        forall|i: int| x0 <= i < x ==> va[i] == vb[i - k],
        (x0 == 0 && k == 0) || (x0 - k >= 1 && edit_cost(va, vb, x0, x0 - k - 1) <= d - 1) || (x0
            >= 1 && edit_cost(va, vb, x0 - 1, x0 - k) <= d - 1),
    decreases x + (x - k),
{
    reveal(edit_cost);
    let y = x - k;
    if x >= 1 && y >= 1 && va[x - 1] == vb[y - 1] {
        lemma_lcs_step(va, vb, x, y);
        assert(edit_cost(va, vb, x - 1, y - 1) <= d);
        let x0 = lemma_back(va, vb, k, x - 1, d);
        assert forall|i: int| x0 <= i < x implies va[i] == vb[i - k] by {
            if i < x - 1 {
                assert(va[i] == vb[i - k]);
            }
        }
        x0
    } else if x == 0 && y == 0 {
        x
    } else if x == 0 {
        lemma_lcs_empty(va, vb, 0, y);
        lemma_lcs_empty(va, vb, 0, y - 1);
        assert(edit_cost(va, vb, 0, y - 1) <= d - 1);
        x
    } else if y == 0 {
        lemma_lcs_empty(va, vb, x, 0);
        lemma_lcs_empty(va, vb, x - 1, 0);
        assert(edit_cost(va, vb, x - 1, 0) <= d - 1);
        x
    } else {
        lemma_lcs_step(va, vb, x, y);
        if lcs(va.take(x), vb.take(y - 1)) >= lcs(va.take(x - 1), vb.take(y)) {
            assert(edit_cost(va, vb, x, y - 1) <= d - 1);
        } else {
            assert(edit_cost(va, vb, x - 1, y) <= d - 1);
        }
        x
    }
}

/// After the greedy equal-line run, the frontier covers its whole diagonal up
/// to cost `d`: any position a `d`-edit script can reach decomposes (by
/// `lemma_back`) into an equal-line run after an edit move out of a position
/// that `xpre` already covers, and the greedy run cannot have stopped short
/// of it.
proof fn lemma_frontier_covers(
    va: Seq<Seq<char>>,
    vb: Seq<Seq<char>>,
    k: int,
    d: int,
    xpre: int,
    x: int,
)
    requires
        d >= 0,
        0 <= xpre <= x,
        x - k >= 0,
        forall|xx: int| #![trigger edit_cost(va, vb, xx, xx - (k + 1))]
            0 <= xx <= va.len() && 0 <= xx - (k + 1) <= vb.len() && edit_cost(
                va,
                vb,
                xx,
                xx - (k + 1),
            ) <= d - 1 ==> xx <= xpre,
        forall|xx: int| #![trigger edit_cost(va, vb, xx, xx - (k - 1))]
            0 <= xx <= va.len() && 0 <= xx - (k - 1) <= vb.len() && edit_cost(
                va,
                vb,
                xx,
                xx - (k - 1),
            ) <= d - 1 ==> xx <= xpre - 1,
        x < va.len() && x - k < vb.len() ==> va[x] != vb[x - k],
    ensures
        forall|xx: int| #![trigger edit_cost(va, vb, xx, xx - k)]
            0 <= xx <= va.len() && 0 <= xx - k <= vb.len() && edit_cost(va, vb, xx, xx - k) <= d
                ==> xx <= x,
{
    assert forall|xx: int| #![trigger edit_cost(va, vb, xx, xx - k)]
        0 <= xx <= va.len() && 0 <= xx - k <= vb.len() && edit_cost(va, vb, xx, xx - k)
            <= d implies xx <= x by {
        if xx > x {
            let x0 = lemma_back(va, vb, k, xx, d);
            if x0 == 0 && k == 0 {
                assert(x0 <= xpre);
            } else if x0 - k >= 1 && edit_cost(va, vb, x0, x0 - k - 1) <= d - 1 {
                assert(edit_cost(va, vb, x0, x0 - (k + 1)) <= d - 1);
                assert(x0 <= xpre);
            } else {
                assert(edit_cost(va, vb, x0 - 1, (x0 - 1) - (k - 1)) <= d - 1);
                assert(x0 <= xpre);
            }
            assert(x0 <= x < xx);
            assert(va[x] == vb[x - k]);
            assert(x < va.len());
            assert(x - k < vb.len());
            assert(false);
        }
    }
}

/// A diagonal farther from the origin than `db` is out of reach of any
/// script of at most `db` edits, so any bound covers it vacuously.
proof fn lemma_diag_out_of_reach(va: Seq<Seq<char>>, vb: Seq<Seq<char>>, kk: int, db: int, b: int)
    requires
        kk > db || kk < -db,
    ensures
        forall|xx: int| #![trigger edit_cost(va, vb, xx, xx - kk)]
            0 <= xx <= va.len() && 0 <= xx - kk <= vb.len() && edit_cost(va, vb, xx, xx - kk) <= db
                ==> xx <= b,
{
    assert forall|xx: int| #![trigger edit_cost(va, vb, xx, xx - kk)]
        0 <= xx <= va.len() && 0 <= xx - kk <= vb.len() && edit_cost(va, vb, xx, xx - kk)
            <= db implies xx <= b by {
        lemma_cost_bounds(va, vb, xx, xx - kk);
    }
}

/// A larger bound covers whatever a smaller one covers.
proof fn lemma_cover_weaken(va: Seq<Seq<char>>, vb: Seq<Seq<char>>, kk: int, db: int, b1: int, b2: int)
    requires
        b1 <= b2,
        forall|xx: int| #![trigger edit_cost(va, vb, xx, xx - kk)]
            0 <= xx <= va.len() && 0 <= xx - kk <= vb.len() && edit_cost(va, vb, xx, xx - kk) <= db
                ==> xx <= b1,
    ensures
        forall|xx: int| #![trigger edit_cost(va, vb, xx, xx - kk)]
            0 <= xx <= va.len() && 0 <= xx - kk <= vb.len() && edit_cost(va, vb, xx, xx - kk) <= db
                ==> xx <= b2,
{
}

/// A stored frontier for diagonal `k`, written during round `dprev`: its
/// history is a correct partial script of at most `dprev` Insert and Remove
/// operations whose position, clamped to the grid, is determined by `x` and
/// `k`; `x` is far enough along for round `dprev`, not absurdly large, and at
/// least every position on this diagonal that any script of at most `dprev`
/// edits can reach.
pub open spec fn slot_ok(
    va: Seq<Seq<char>>,
    vb: Seq<Seq<char>>,
    k: int,
    dprev: int,
    x: int,
    h: Seq<History>,
) -> bool {
    &&& x - k >= 0
    &&& 2 * x - k >= dprev
    &&& x <= va.len() + dprev + 1
    &&& all_ops(h)
    &&& partial_valid(
        va,
        vb,
        ops_of(h),
        min2(x, va.len() as int),
        min2(max2(x - k, 0), vb.len() as int),
    )
    &&& insert_count(ops_of(h)) + delete_count(ops_of(h)) <= dprev
    &&& forall|xx: int| #![trigger edit_cost(va, vb, xx, xx - k)]
        0 <= xx <= va.len() && 0 <= xx - k <= vb.len() && edit_cost(va, vb, xx, xx - k) <= dprev
            ==> xx <= x
}

/// What the search may read at the start of round `d`: for round zero only
/// the seed frontier above diagonal zero; afterwards every frontier written
/// in the previous round.
pub open spec fn readable_ok(
    va: Seq<Seq<char>>,
    vb: Seq<Seq<char>>,
    xs: Seq<usize>,
    hs: Seq<Vec<History>>,
    off: int,
    d: int,
) -> bool {
    if d == 0 {
        &&& xs[off + 1] == 0
        &&& hs[off + 1]@ =~= Seq::<History>::empty()
    } else {
        forall|ik: int|
            off - d + 1 <= ik <= off + d - 1 && (ik - (off - d + 1)) % 2 == 0 ==> slot_ok(
                va,
                vb,
                ik - off,
                d - 1,
                xs[ik] as int,
                (#[trigger] hs[ik])@,
            )
    }
}

/// The frontiers written so far in round `d`, up to (but not including) the
/// diagonal of step `t`.
pub open spec fn written_ok(
    va: Seq<Seq<char>>,
    vb: Seq<Seq<char>>,
    xs: Seq<usize>,
    hs: Seq<Vec<History>>,
    off: int,
    d: int,
    t: int,
) -> bool {
    forall|ik: int|
        off - d <= ik <= off - d + 2 * (t - 1) && (ik - (off - d)) % 2 == 0 ==> slot_ok(
            va,
            vb,
            ik - off,
            d,
            xs[ik] as int,
            (#[trigger] hs[ik])@,
        )
}

/// One step of the search: read the frontier above or left of diagonal
/// `-d + 2t`, extend it by one edit operation where the grid allows, slide
/// down the run of equal lines, and hand back the advanced frontier. The
/// result satisfies the full frontier invariant for its diagonal at round
/// `d`: a correct partial script of at most `d` edits that has come at least
/// as far as any `d`-edit script can on this diagonal.
#[verifier::rlimit(100)]
fn advance_diagonal(
    fr_lines: &Vec<String>,
    sc_lines: &Vec<String>,
    xs: &Vec<usize>,
    hs: &Vec<Vec<History>>,
    d: usize,
    t: usize,
    off: usize,
) -> (res: (usize, Vec<History>))
    requires
        fr_lines@.len() + sc_lines@.len() < usize::MAX / 4,
        fr_lines@.len() <= u32::MAX,
        sc_lines@.len() <= u32::MAX,
        off == fr_lines@.len() + sc_lines@.len() + 1,
        xs@.len() == 2 * off + 1,
        hs@.len() == 2 * off + 1,
        t <= d,
        d <= fr_lines@.len() + sc_lines@.len(),
        readable_ok(views(fr_lines@), views(sc_lines@), xs@, hs@, off as int, d as int),
    ensures
        slot_ok(
            views(fr_lines@),
            views(sc_lines@),
            2 * (t as int) - (d as int),
            d as int,
            res.0 as int,
            res.1@,
        ),
{
    let ghost va = views(fr_lines@);
    let ghost vb = views(sc_lines@);
    let n = fr_lines.len();
    let m = sc_lines.len();
    let ik = off - d + 2 * t;
    let ghost k: int = ik as int - off as int;
    let go_down: bool = if t == 0 {
        true
    } else if t < d {
        xs[ik - 1] < xs[ik + 1]
    } else {
        false
    };
    let mut x: usize;
    let mut hist: Vec<History>;
    if go_down {
        proof {
            if d > 0 {
                assert((ik as int + 1 - (off as int - d + 1)) % 2 == 0);
                assert(slot_ok(
                    va,
                    vb,
                    k + 1,
                    d as int - 1,
                    xs@[ik as int + 1] as int,
                    hs@[ik as int + 1]@,
                ));
            } else {
                assert(hs@[ik as int + 1]@ =~= Seq::<History>::empty());
            }
        }
        x = xs[ik + 1];
        hist = clone_ops(&hs[ik + 1]);
    } else {
        proof {
            assert(t >= 1);
            assert((ik as int - 1 - (off as int - d + 1)) % 2 == 0);
            assert(slot_ok(
                va,
                vb,
                k - 1,
                d as int - 1,
                xs@[ik as int - 1] as int,
                hs@[ik as int - 1]@,
            ));
        }
        x = xs[ik - 1] + 1;
        hist = clone_ops(&hs[ik - 1]);
    }
    let ghost xpre: int = x as int;
    proof {
        assert(x as int - k >= 0);
        assert(2 * (x as int) - k >= d);
        assert(x <= n + d + 1);
        if d > 0 && t < d {
            assert((ik as int + 1 - (off as int - d + 1)) % 2 == 0);
            assert(slot_ok(
                va,
                vb,
                k + 1,
                d as int - 1,
                xs@[ik as int + 1] as int,
                hs@[ik as int + 1]@,
            ));
            lemma_cover_weaken(va, vb, k + 1, d as int - 1, xs@[ik as int + 1] as int, xpre);
        } else {
            lemma_diag_out_of_reach(va, vb, k + 1, d as int - 1, xpre);
        }
        if d > 0 && t > 0 {
            assert((ik as int - 1 - (off as int - d + 1)) % 2 == 0);
            assert(slot_ok(
                va,
                vb,
                k - 1,
                d as int - 1,
                xs@[ik as int - 1] as int,
                hs@[ik as int - 1]@,
            ));
            lemma_cover_weaken(va, vb, k - 1, d as int - 1, xs@[ik as int - 1] as int, xpre - 1);
        } else {
            lemma_diag_out_of_reach(va, vb, k - 1, d as int - 1, xpre - 1);
        }
    }
    let mut y: usize = x + d - 2 * t;
    proof {
        assert(y as int == x as int - k);
        if go_down {
            assert(partial_valid(
                va,
                vb,
                ops_of(hist@),
                min2(x as int, n as int),
                min2(max2(y as int - 1, 0), m as int),
            ));
        } else {
            assert(partial_valid(
                va,
                vb,
                ops_of(hist@),
                min2(x as int - 1, n as int),
                min2(max2(y as int, 0), m as int),
            ));
        }
    }
    if go_down {
        if 1 <= y && y <= m {
            let ghost h0 = hist@;
            let ghost s0 = ops_of(h0);
            let ln = sc_lines[y - 1].clone();
            let h = History::Insert { line: ln, num: y as u32 };
            proof {
                assert(vb[y as int - 1] == sc_lines@[y as int - 1]@);
                assert(op_of(h) == (Op::Insert { line: vb[y as int - 1], num: y as int }));
            }
            hist.push(h);
            proof {
                assert(hist@ == h0.push(h));
                lemma_ops_of_push(h0, h);
                assert(ops_of(hist@) =~= s0.push(op_of(h)));
                lemma_push_insert(va, vb, s0, min2(x as int, n as int), y as int - 1);
            }
        }
    } else {
        if 1 <= x && x <= n {
            let ghost h0 = hist@;
            let ghost s0 = ops_of(h0);
            let ln = fr_lines[x - 1].clone();
            let h = History::Remove { line: ln, num: x as u32 };
            proof {
                assert(va[x as int - 1] == fr_lines@[x as int - 1]@);
                assert(op_of(h) == (Op::Remove { line: va[x as int - 1], num: x as int }));
            }
            hist.push(h);
            proof {
                assert(hist@ == h0.push(h));
                lemma_ops_of_push(h0, h);
                assert(ops_of(hist@) =~= s0.push(op_of(h)));
                lemma_push_remove(va, vb, s0, x as int - 1, min2(max2(y as int, 0), m as int));
            }
        }
    }
    proof {
        assert(partial_valid(
            va,
            vb,
            ops_of(hist@),
            min2(x as int, n as int),
            min2(y as int, m as int),
        ));
        assert(insert_count(ops_of(hist@)) + delete_count(ops_of(hist@)) <= d as int);
    }
    while x < n && y < m && fr_lines[x] == sc_lines[y]
        invariant
            va == views(fr_lines@),
            vb == views(sc_lines@),
            n == fr_lines@.len(),
            m == sc_lines@.len(),
            n <= u32::MAX,
            m <= u32::MAX,
            y as int == x as int - k,
            2 * (x as int) - k >= d,
            x <= n + d + 1,
            d <= n + m,
            0 <= xpre <= x as int,
            all_ops(hist@),
            partial_valid(
                va,
                vb,
                ops_of(hist@),
                min2(x as int, n as int),
                min2(y as int, m as int),
            ),
            insert_count(ops_of(hist@)) + delete_count(ops_of(hist@)) <= d as int,
        decreases n - x,
    {
        let ghost h0 = hist@;
        let ghost s0 = ops_of(h0);
        proof {
            assert(va[x as int] == fr_lines@[x as int]@);
            assert(vb[y as int] == sc_lines@[y as int]@);
        }
        let h = History::Keep { line: fr_lines[x].clone(), num: (x + 1) as u32 };
        proof {
            assert(op_of(h) == (Op::Keep { line: va[x as int], num: x as int + 1 }));
        }
        hist.push(h);
        proof {
            assert(hist@ == h0.push(h));
            lemma_ops_of_push(h0, h);
            assert(ops_of(hist@) =~= s0.push(op_of(h)));
            lemma_push_keep(va, vb, s0, x as int, y as int);
        }
        x = x + 1;
        y = y + 1;
    }
    proof {
        assert(x < n && y < m ==> va[x as int] != vb[y as int]);
        lemma_frontier_covers(va, vb, k, d as int, xpre, x as int);
        assert(slot_ok(va, vb, k, d as int, x as int, hist@));
    }
    (x, hist)
}

/// Compute a minimal edit script from `fr_lines` to `sc_lines` by
/// shortest-edit-path search: for growing radius `d`, extend the frontier on
/// each diagonal by one Insert or Remove, slide down runs of equal lines as
/// Keeps, and stop as soon as a frontier reaches the end of both sequences.
/// The search returns at radius `N + M - 2 * LCS`, the minimal number of
/// Insert and Remove operations, so its script keeps a longest common
/// subsequence.
#[verifier::rlimit(100)]
pub fn find_diffs(fr_lines: &Vec<String>, sc_lines: &Vec<String>) -> (r: Vec<History>)
    requires
        fr_lines@.len() + sc_lines@.len() < usize::MAX / 4,
        fr_lines@.len() <= u32::MAX,
        sc_lines@.len() <= u32::MAX,
    ensures
        all_ops(r@),
        script_valid(views(fr_lines@), views(sc_lines@), ops_of(r@)),
        keep_count(ops_of(r@)) == lcs(views(fr_lines@), views(sc_lines@)),
        insert_count(ops_of(r@)) == sc_lines@.len() - lcs(views(fr_lines@), views(sc_lines@)),
        delete_count(ops_of(r@)) == fr_lines@.len() - lcs(views(fr_lines@), views(sc_lines@)),
        insert_count(ops_of(r@)) + delete_count(ops_of(r@)) == fr_lines@.len() + sc_lines@.len()
            - 2 * lcs(views(fr_lines@), views(sc_lines@)),
        r@.len() == fr_lines@.len() + sc_lines@.len() - lcs(views(fr_lines@), views(sc_lines@)),
        views(fr_lines@) == views(sc_lines@) ==> insert_count(ops_of(r@)) == 0 && delete_count(
            ops_of(r@),
        ) == 0 && keep_count(ops_of(r@)) == fr_lines@.len(),
{
    let ghost va = views(fr_lines@);
    let ghost vb = views(sc_lines@);
    let n = fr_lines.len();
    let m = sc_lines.len();
    let ghost total = lcs(va, vb);
    let ghost dd: int = n + m - 2 * total;
    let ghost tstar: int = n - total;
    proof {
        assert(va.len() == n && vb.len() == m);
        lemma_lcs_bounds(va, vb);
    }
    let off = n + m + 1;
    let size = 2 * off + 1;
    let mut xs: Vec<usize> = Vec::new();
    let mut hs: Vec<Vec<History>> = Vec::new();
    while xs.len() < size
        invariant
            xs@.len() == hs@.len(),
            xs@.len() <= size,
            forall|p: int| 0 <= p < xs@.len() ==> xs@[p] == 0,
            forall|p: int| 0 <= p < hs@.len() ==> (#[trigger] hs@[p])@.len() == 0,
        decreases size - xs@.len(),
    {
        xs.push(0);
        hs.push(Vec::new());
    }
    let mut d: usize = 0;
    while d <= n + m
        invariant
            va == views(fr_lines@),
            vb == views(sc_lines@),
            n == fr_lines@.len(),
            m == sc_lines@.len(),
            n + m < usize::MAX / 4,
            n <= u32::MAX,
            m <= u32::MAX,
            total == lcs(va, vb),
            0 <= total <= n,
            total <= m,
            dd == n + m - 2 * total,
            tstar == n - total,
            off == n + m + 1,
            size == 2 * off + 1,
            xs@.len() == size,
            hs@.len() == size,
            0 <= d,
            d <= dd,
            readable_ok(va, vb, xs@, hs@, off as int, d as int),
        decreases n + m + 1 - d,
    {
        let mut t: usize = 0;
        while t <= d
            invariant
                va == views(fr_lines@),
                vb == views(sc_lines@),
                n == fr_lines@.len(),
                m == sc_lines@.len(),
                n + m < usize::MAX / 4,
                n <= u32::MAX,
                m <= u32::MAX,
                total == lcs(va, vb),
                0 <= total <= n,
                total <= m,
                dd == n + m - 2 * total,
                tstar == n - total,
                off == n + m + 1,
                size == 2 * off + 1,
                xs@.len() == size,
                hs@.len() == size,
                0 <= d,
                d <= dd,
                0 <= t <= d + 1,
                d < dd || t <= tstar,
                readable_ok(va, vb, xs@, hs@, off as int, d as int),
                written_ok(va, vb, xs@, hs@, off as int, d as int, t as int),
            decreases d + 1 - t,
        {
            let res = advance_diagonal(fr_lines, sc_lines, &xs, &hs, d, t, off);
            let x = res.0;
            let hist = res.1;
            let ik = off - d + 2 * t;
            let ghost k: int = ik as int - off as int;
            proof {
                assert(k == 2 * (t as int) - (d as int));
                assert(slot_ok(va, vb, k, d as int, x as int, hist@));
            }
            let y: usize = x + d - 2 * t;
            proof {
                assert(y as int == x as int - k);
            }
            if x >= n && y >= m {
                proof {
                    assert(min2(x as int, n as int) == n);
                    assert(min2(max2(x as int - k, 0), m as int) == m);
                    lemma_minimal_edits(va, vb, ops_of(hist@));
                    lemma_counts_total(ops_of(hist@), ops_of(hist@).len() as int);
                    if views(fr_lines@) == views(sc_lines@) {
                        lemma_lcs_self(va);
                    }
                }
                return hist;
            }
            proof {
                assert(!(d as int == dd && t as int == tstar)) by {
                    if d as int == dd && t as int == tstar {
                        reveal(edit_cost);
                        assert(k == n as int - m as int);
                        assert(va.take(n as int) =~= va);
                        assert(vb.take(m as int) =~= vb);
                        assert(edit_cost(va, vb, n as int, n as int - k) <= d as int);
                        assert(n as int <= x as int);
                        assert(y as int >= m);
                    }
                }
            }
            xs[ik] = x;
            hs[ik] = hist;
            proof {
                assert(slot_ok(va, vb, k, d as int, x as int, hs@[ik as int]@));
                assert forall|p: int|
                    off as int - d + 1 <= p <= off + d - 1 && (p - (off as int - d + 1)) % 2 == 0
                        && d > 0 implies slot_ok(
                    va,
                    vb,
                    p - off,
                    d as int - 1,
                    xs@[p] as int,
                    (hs@[p])@,
                ) by {
                    assert((ik as int - (off as int - d + 1)) % 2 == 1);
                    assert(p != ik);
                }
            }
            t = t + 1;
        }
        d = d + 1;
    }
    proof {
        assert(false);
    }
    Vec::new()
}

} // verus!
