//! A verified line-diff core: a longest-common-subsequence table engine and a
//! shortest-edit-path frontier search, both producing a minimal edit script of
//! Keep / Insert / Remove operations over two sequences of text lines.

pub mod history;
pub mod laws;
pub mod lcs;
pub mod lines;
pub mod script;
pub mod search;
pub mod sorting;
pub mod table;
