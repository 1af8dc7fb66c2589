//! Blank-line handling: a line consisting only of whitespace is normalized
//! to the empty string before any comparison, so two blank lines always
//! compare equal.

use vstd::prelude::*;
use vstd::string::StrSliceExecFns;

verus! {

/// A whitespace character, by the Unicode white-space list.
pub open spec fn is_space_char(c: char) -> bool {
    let u = c as u32;
    ||| u == 0x20
    ||| (0x09 <= u && u <= 0x0D)
    ||| u == 0x85
    ||| u == 0xA0
    ||| u == 0x1680
    ||| (0x2000 <= u && u <= 0x200A)
    ||| u == 0x2028
    ||| u == 0x2029
    ||| u == 0x202F
    ||| u == 0x205F
    ||| u == 0x3000
}

/// A line is blank when every character is whitespace (the empty line too).
pub open spec fn is_blank(s: Seq<char>) -> bool {
    forall|i: int| 0 <= i < s.len() ==> is_space_char(s[i])
}

/// What a line becomes before comparison: blank lines turn into the empty
/// string, all others stay as they are.
pub open spec fn normalized(s: Seq<char>) -> Seq<char> {
    if is_blank(s) {
        Seq::empty()
    } else {
        s
    }
}

fn space_char(c: char) -> (r: bool)
    ensures
        r == is_space_char(c),
{
    let u = c as u32;
    u == 0x20 || (0x09 <= u && u <= 0x0D) || u == 0x85 || u == 0xA0 || u == 0x1680 || (0x2000 <= u
        && u <= 0x200A) || u == 0x2028 || u == 0x2029 || u == 0x202F || u == 0x205F || u == 0x3000
}

/// Whether a line consists only of whitespace.
pub fn is_blank_line(s: &str) -> (r: bool)
    ensures
        r == is_blank(s@),
{
    let len = s.unicode_len();
    let mut i: usize = 0;
    while i < len
        invariant
            len == s@.len(),
            0 <= i <= len,
            forall|j: int| 0 <= j < i ==> is_space_char(s@[j]),
        decreases len - i,
    {
        let c = s.get_char(i);
        if !space_char(c) {
            assert(!is_blank(s@)) by {
                assert(!is_space_char(s@[i as int]));
            }
            return false;
        }
        i = i + 1;
    }
    true
}

/// One line, normalized: the empty string if it is blank, itself otherwise.
pub fn normalize_line(s: &str) -> (r: String)
    ensures
        r@ == normalized(s@),
{
    if is_blank_line(s) {
        String::new()
    } else {
        s.to_owned()
    }
}

/// A whole sequence of lines, each normalized.
pub fn normalize_lines(v: &Vec<String>) -> (r: Vec<String>)
    ensures
        r@.len() == v@.len(),
        forall|i: int| 0 <= i < v@.len() ==> (#[trigger] r@[i])@ == normalized(v@[i]@),
{
    let mut r: Vec<String> = Vec::new();
    let mut i: usize = 0;
    while i < v.len()
        invariant
            0 <= i <= v@.len(),
            r@.len() == i,
            forall|j: int| 0 <= j < i ==> (#[trigger] r@[j])@ == normalized(v@[j]@),
        decreases v@.len() - i,
    {
        r.push(normalize_line(v[i].as_str()));
        i = i + 1;
    }
    r
}

/// Any two blank lines normalize to the same (empty) line, so they compare
/// equal after normalization.
pub proof fn lemma_blank_lines_equal(s1: Seq<char>, s2: Seq<char>)
    requires
        is_blank(s1),
        is_blank(s2),
    ensures
        normalized(s1) == normalized(s2),
        normalized(s1).len() == 0,
{
}

} // verus!
