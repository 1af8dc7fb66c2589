use linediff::lines::{is_blank_line, normalize_line, normalize_lines};
use linediff::search::find_diffs;
use linediff::sorting::{count_deletes, count_inserts};
use linediff::table::diff;

#[test]
fn blank_detection() {
    assert!(is_blank_line(""));
    assert!(is_blank_line(" "));
    assert!(is_blank_line("\t \t"));
    assert!(is_blank_line("\u{00A0}\u{2003}"));
    assert!(!is_blank_line("a"));
    assert!(!is_blank_line("  a  "));
}

#[test]
fn blank_lines_normalize_to_empty() {
    assert_eq!(normalize_line("   "), "");
    assert_eq!(normalize_line("\t"), "");
    assert_eq!(normalize_line(""), "");
    assert_eq!(normalize_line("  keep me  "), "  keep me  ");
    assert_eq!(normalize_line("text"), "text");
}

#[test]
fn normalized_blank_lines_compare_equal() {
    let a = normalize_lines(&vec!["   ".to_string(), "x".to_string()]);
    let b = normalize_lines(&vec!["\t\t".to_string(), "x".to_string()]);
    assert_eq!(a, b);
    for script in [diff(&a, &b), find_diffs(&a, &b)] {
        assert_eq!(count_inserts(&script), 0);
        assert_eq!(count_deletes(&script), 0);
    }
}

#[test]
fn normalize_then_diff_end_to_end() {
    // A blank line that changes its kind of whitespace is no difference;
    // a real edit among blank lines still is.
    let old_text = vec![
        "fn main() {".to_string(),
        "   ".to_string(),
        "    println!(\"hi\");".to_string(),
        "}".to_string(),
    ];
    let new_text = vec![
        "fn main() {".to_string(),
        "\t".to_string(),
        "    println!(\"hello\");".to_string(),
        "}".to_string(),
    ];
    let a = normalize_lines(&old_text);
    let b = normalize_lines(&new_text);
    for script in [diff(&a, &b), find_diffs(&a, &b)] {
        assert_eq!(count_inserts(&script), 1);
        assert_eq!(count_deletes(&script), 1);
    }
}

#[test]
fn normalize_keeps_order_and_length() {
    let input = vec![
        "first".to_string(),
        " ".to_string(),
        "".to_string(),
        "last".to_string(),
    ];
    let out = normalize_lines(&input);
    assert_eq!(out, vec!["first", "", "", "last"]);
}
