use linediff::history::History;
use linediff::search::find_diffs;
use linediff::sorting::{count_deletes, count_inserts, count_keeps, sort_by_line};
use linediff::table::{build_lcs_table, diff, extract_script};

fn lines(xs: &[&str]) -> Vec<String> {
    xs.iter().map(|s| s.to_string()).collect()
}

/// (kind, content, line number) of an operation; kind 0 = Keep, 1 = Insert,
/// 2 = Remove.
fn summary(h: &History) -> (u8, String, u32) {
    match h {
        History::Keep { line, num } => (0, line.clone(), *num),
        History::Insert { line, num } => (1, line.clone(), *num),
        History::Remove { line, num } => (2, line.clone(), *num),
        History::Frontier { .. } => panic!("a script must hold operations only"),
    }
}

fn summaries(v: &Vec<History>) -> Vec<(u8, String, u32)> {
    v.iter().map(summary).collect()
}

/// The multiset of (kind, content) pairs, as a sorted list.
fn kind_content_multiset(v: &Vec<History>) -> Vec<(u8, String)> {
    let mut out: Vec<(u8, String)> = v.iter().map(|h| {
        let (k, c, _) = summary(h);
        (k, c)
    }).collect();
    out.sort();
    out
}

#[test]
fn identity_same_input_table_engine() {
    let a = lines(&["alpha", "beta", "gamma"]);
    let script = diff(&a, &a);
    assert_eq!(count_inserts(&script), 0);
    assert_eq!(count_deletes(&script), 0);
    assert_eq!(count_keeps(&script), 3);
    assert_eq!(
        summaries(&script),
        vec![
            (0, "alpha".to_string(), 1),
            (0, "beta".to_string(), 2),
            (0, "gamma".to_string(), 3),
        ]
    );
}

#[test]
fn identity_same_input_frontier_engine() {
    let a = lines(&["alpha", "beta", "gamma"]);
    let script = find_diffs(&a, &a);
    assert_eq!(count_inserts(&script), 0);
    assert_eq!(count_deletes(&script), 0);
    assert_eq!(count_keeps(&script), 3);
    assert_eq!(
        summaries(&script),
        vec![
            (0, "alpha".to_string(), 1),
            (0, "beta".to_string(), 2),
            (0, "gamma".to_string(), 3),
        ]
    );
}

#[test]
fn totality_formula_on_examples() {
    // |inserts| + |deletes| == |A| + |B| - 2 * LCS(A, B) on hand-checked pairs.
    let cases: Vec<(Vec<String>, Vec<String>, usize)> = vec![
        (lines(&["a", "b", "c"]), lines(&["a", "x", "c"]), 2),
        (lines(&["1", "2"]), lines(&["1", "2", "3"]), 2),
        (lines(&["a", "b"]), lines(&["b", "a"]), 1),
        (lines(&[]), lines(&["p", "q"]), 0),
        (lines(&["p", "q"]), lines(&[]), 0),
        (lines(&[]), lines(&[]), 0),
    ];
    for (a, b, lcs_len) in cases {
        for script in [diff(&a, &b), find_diffs(&a, &b)] {
            let expected = a.len() + b.len() - 2 * lcs_len;
            assert_eq!(count_inserts(&script) + count_deletes(&script), expected);
            assert_eq!(count_keeps(&script), lcs_len);
            assert_eq!(script.len(), a.len() + b.len() - lcs_len);
        }
    }
}

#[test]
fn count_symmetry_both_directions() {
    let pairs: Vec<(Vec<String>, Vec<String>)> = vec![
        (lines(&["a", "b", "c"]), lines(&["a", "x", "c"])),
        (lines(&["1", "2"]), lines(&["1", "2", "3"])),
        (lines(&[]), lines(&["only"])),
        (lines(&["u", "v", "w"]), lines(&["w"])),
    ];
    for (a, b) in pairs {
        let fwd = diff(&a, &b);
        let bwd = diff(&b, &a);
        assert_eq!(count_inserts(&fwd), count_deletes(&bwd));
        assert_eq!(count_deletes(&fwd), count_inserts(&bwd));
        let fwd2 = find_diffs(&a, &b);
        let bwd2 = find_diffs(&b, &a);
        assert_eq!(count_inserts(&fwd2), count_deletes(&bwd2));
        assert_eq!(count_deletes(&fwd2), count_inserts(&bwd2));
    }
}

#[test]
fn engine_equivalence_counts_and_multisets() {
    let pairs: Vec<(Vec<String>, Vec<String>)> = vec![
        (lines(&["a", "b", "c"]), lines(&["a", "x", "c"])),
        (lines(&["1", "2"]), lines(&["1", "2", "3"])),
        (lines(&["x"]), lines(&["y"])),
        (lines(&["same"]), lines(&["same"])),
        (lines(&["k", "l", "m", "n"]), lines(&["l", "n", "o"])),
        (lines(&["a", "b"]), lines(&["b", "a"])),
        (lines(&[]), lines(&["z"])),
    ];
    for (a, b) in pairs {
        let s1 = diff(&a, &b);
        let s2 = find_diffs(&a, &b);
        assert_eq!(count_inserts(&s1), count_inserts(&s2));
        assert_eq!(count_deletes(&s1), count_deletes(&s2));
        assert_eq!(count_keeps(&s1), count_keeps(&s2));
        assert_eq!(kind_content_multiset(&s1), kind_content_multiset(&s2));
    }
}

#[test]
fn empty_inputs_table_engine() {
    let none: Vec<String> = lines(&[]);
    let b = lines(&["one", "two"]);
    let empty = diff(&none, &none);
    assert!(empty.is_empty());
    let only_ins = diff(&none, &b);
    assert_eq!(
        summaries(&only_ins),
        vec![(1, "one".to_string(), 1), (1, "two".to_string(), 2)]
    );
    let only_del = diff(&b, &none);
    assert_eq!(
        summaries(&only_del),
        vec![(2, "one".to_string(), 1), (2, "two".to_string(), 2)]
    );
}

#[test]
fn empty_inputs_frontier_engine() {
    let none: Vec<String> = lines(&[]);
    let b = lines(&["one", "two"]);
    let empty = find_diffs(&none, &none);
    assert!(empty.is_empty());
    let mut only_ins = find_diffs(&none, &b);
    sort_by_line(&mut only_ins);
    assert_eq!(
        summaries(&only_ins),
        vec![(1, "one".to_string(), 1), (1, "two".to_string(), 2)]
    );
    let mut only_del = find_diffs(&b, &none);
    sort_by_line(&mut only_del);
    assert_eq!(
        summaries(&only_del),
        vec![(2, "one".to_string(), 1), (2, "two".to_string(), 2)]
    );
}

#[test]
fn scenario_one_change_tie_break() {
    let a = lines(&["a", "b", "c"]);
    let b = lines(&["a", "x", "c"]);
    let script = diff(&a, &b);
    assert_eq!(count_inserts(&script), 1);
    assert_eq!(count_deletes(&script), 1);
    // The backtrack favors Insert on ties, so the exact script is fixed.
    assert_eq!(
        summaries(&script),
        vec![
            (0, "a".to_string(), 1),
            (2, "b".to_string(), 2),
            (1, "x".to_string(), 2),
            (0, "c".to_string(), 3),
        ]
    );
    let script2 = find_diffs(&a, &b);
    assert_eq!(count_inserts(&script2), 1);
    assert_eq!(count_deletes(&script2), 1);
    assert_eq!(count_keeps(&script2), 2);
}

#[test]
fn scenario_appended_line() {
    let a = lines(&["1", "2"]);
    let b = lines(&["1", "2", "3"]);
    for script in [diff(&a, &b), find_diffs(&a, &b)] {
        assert_eq!(
            summaries(&script),
            vec![
                (0, "1".to_string(), 1),
                (0, "2".to_string(), 2),
                (1, "3".to_string(), 3),
            ]
        );
        assert_eq!(count_inserts(&script), 1);
        assert_eq!(count_deletes(&script), 0);
    }
}

#[test]
fn lcs_table_prefix_values() {
    let a = lines(&["a", "b", "c"]);
    let b = lines(&["a", "x", "c"]);
    let t = build_lcs_table(&a, &b);
    assert_eq!(t.len(), 4);
    for row in &t {
        assert_eq!(row.len(), 4);
    }
    assert_eq!(t[0], vec![0, 0, 0, 0]);
    assert_eq!(t[1], vec![0, 1, 1, 1]);
    assert_eq!(t[2], vec![0, 1, 1, 1]);
    assert_eq!(t[3], vec![0, 1, 1, 2]);
    let script = extract_script(&a, &b, &t);
    assert_eq!(script.len(), 4);
}

#[test]
fn sort_orders_by_line_number() {
    let mut v = vec![
        History::Insert { line: "late".to_string(), num: 3 },
        History::Keep { line: "first".to_string(), num: 1 },
        History::Remove { line: "middle".to_string(), num: 2 },
    ];
    sort_by_line(&mut v);
    assert_eq!(
        summaries(&v),
        vec![
            (0, "first".to_string(), 1),
            (2, "middle".to_string(), 2),
            (1, "late".to_string(), 3),
        ]
    );
}

#[test]
fn getters_on_operations_and_frontiers() {
    let keep = History::Keep { line: "k".to_string(), num: 7 };
    assert_eq!(keep.get_x(), -1);
    assert_eq!(keep.get_line(), 7);
    assert!(keep.get_history().is_empty());
    let ins = History::Insert { line: "i".to_string(), num: 2 };
    assert_eq!(ins.get_line(), 2);
    let rem = History::Remove { line: "r".to_string(), num: 9 };
    assert_eq!(rem.get_line(), 9);
    let frontier = History::Frontier {
        x: 5,
        history: vec![History::Keep { line: "k".to_string(), num: 1 }],
    };
    assert_eq!(frontier.get_x(), 5);
    assert_eq!(frontier.get_line(), 0);
    let copied = frontier.get_history();
    assert_eq!(copied.len(), 1);
    assert_eq!(summary(&copied[0]), (0, "k".to_string(), 1));
}
