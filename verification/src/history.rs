//! The edit-script data model: the executable `History` type (one edit
//! operation, or a search frontier), and its mathematical counterpart `Op`.

use vstd::prelude::*;

verus! {

/// One entry of an edit script: a line that both sequences share (`Keep`), a
/// line present only in the second sequence (`Insert`), a line present only in
/// the first sequence (`Remove`) — each with its content and 1-based position —
/// or a transient search `Frontier` (the furthest `x` reached on a diagonal,
/// with the history that reached it).
pub enum History {
    Keep { line: String, num: u32 },
    Insert { line: String, num: u32 },
    Remove { line: String, num: u32 },
    Frontier { x: i32, history: Vec<History> },
}

/// The mathematical model of one edit operation: the line content as a
/// sequence of characters and its 1-based position.
pub enum Op {
    Keep { line: Seq<char>, num: int },
    Insert { line: Seq<char>, num: int },
    Remove { line: Seq<char>, num: int },
}

/// Whether a `History` value is a real edit operation (not a `Frontier`).
pub open spec fn is_op(h: History) -> bool {
    !(h is Frontier)
}

/// The model of a `History` edit operation. (`Frontier` values are not
/// operations; they are mapped to a placeholder and excluded by `all_ops`.)
pub open spec fn op_of(h: History) -> Op {
    match h {
        History::Keep { line, num } => Op::Keep { line: line@, num: num as int },
        History::Insert { line, num } => Op::Insert { line: line@, num: num as int },
        History::Remove { line, num } => Op::Remove { line: line@, num: num as int },
        History::Frontier { .. } => Op::Keep { line: Seq::empty(), num: 0 },
    }
}

/// The model of a whole script.
pub open spec fn ops_of(s: Seq<History>) -> Seq<Op> {
    s.map_values(|h: History| op_of(h))
}

/// Every entry is a real edit operation.
pub open spec fn all_ops(s: Seq<History>) -> bool {
    forall|i: int| 0 <= i < s.len() ==> is_op(s[i])
}

/// The `x` coordinate of a `Frontier`, `-1` for an edit operation.
pub open spec fn frontier_x(h: History) -> int {
    match h {
        History::Frontier { x, .. } => x as int,
        _ => -1,
    }
}

/// The stored history of a `Frontier`, empty for an edit operation.
pub open spec fn frontier_history(h: History) -> Seq<History> {
    match h {
        History::Frontier { history, .. } => history@,
        _ => Seq::empty(),
    }
}

/// The 1-based line number of an edit operation, `0` for a `Frontier`.
pub open spec fn line_num(h: History) -> int {
    match h {
        History::Keep { num, .. } => num as int,
        History::Insert { num, .. } => num as int,
        History::Remove { num, .. } => num as int,
        History::Frontier { .. } => 0,
    }
}

impl History {
    /// The furthest-reached `x` of a frontier; `-1` for an edit operation.
    pub fn get_x(&self) -> (r: i32)
        ensures
            r as int == frontier_x(*self),
    {
        match self {
            History::Frontier { x, .. } => *x,
            _ => -1,
        }
    }

    /// A copy of the history a frontier carries; empty for an edit operation.
    pub fn get_history(&self) -> (r: Vec<History>)
        requires
            all_ops(frontier_history(*self)),
        ensures
            r@ == frontier_history(*self),
    {
        match self {
            History::Frontier { history, .. } => clone_ops(history),
            _ => Vec::new(),
        }
    }

    /// The 1-based line number of an edit operation; `0` for a frontier.
    pub fn get_line(&self) -> (r: u32)
        ensures
            r as int == line_num(*self),
    {
        match self {
            History::Keep { num, .. } => *num,
            History::Insert { num, .. } => *num,
            History::Remove { num, .. } => *num,
            _ => 0,
        }
    }
}

/// An exact copy of one edit operation.
pub fn clone_op(h: &History) -> (r: History)
    requires
        is_op(*h),
    ensures
        r == *h,
{
    match h {
        History::Keep { line, num } => History::Keep { line: line.clone(), num: *num },
        History::Insert { line, num } => History::Insert { line: line.clone(), num: *num },
        History::Remove { line, num } => History::Remove { line: line.clone(), num: *num },
        History::Frontier { .. } => History::Keep { line: String::new(), num: 0 },
    }
}

/// An exact copy of a script of edit operations.
pub fn clone_ops(v: &Vec<History>) -> (r: Vec<History>)
    requires
        all_ops(v@),
    ensures
        r@ == v@,
{
    let mut r: Vec<History> = Vec::new();
    let mut i: usize = 0;
    while i < v.len()
        invariant
            0 <= i <= v@.len(),
            all_ops(v@),
            r@ =~= v@.subrange(0, i as int),
        decreases v@.len() - i,
    {
        r.push(clone_op(&v[i]));
        i = i + 1;
    }
    assert(r@ =~= v@);
    r
}

} // verus!
