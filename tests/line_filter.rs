use prompt_builder::lines::{filter_lines, line_is_kept};

fn skips(v: &[&str]) -> Vec<String> {
    v.iter().map(|s| s.to_string()).collect()
}

#[test]
fn no_skips_returns_text_verbatim() {
    let t = "a\r\nb\n\nc\n";
    assert_eq!(filter_lines(t, &Vec::new()), t);
    assert_eq!(filter_lines("", &Vec::new()), "");
}

#[test]
fn drops_lines_with_any_substring() {
    let t = "keep\nDROP me\nkeep2\nalso x\n";
    assert_eq!(filter_lines(t, &skips(&["DROP", "x"])), "keep\nkeep2");
}

#[test]
fn kept_lines_contain_no_skip_and_keep_order() {
    let t = "one\ntwo\nthree\nfour";
    let out = filter_lines(t, &skips(&["t"]));
    assert_eq!(out, "one\nfour");
    for line in out.lines() {
        assert!(!line.contains('t'));
    }
}

#[test]
fn containment_is_case_sensitive_and_literal() {
    let t = "Drop\ndrop\na.b\naxb";
    assert_eq!(filter_lines(t, &skips(&["drop", "a.b"])), "Drop\naxb");
}

#[test]
fn normalises_crlf_and_final_newline() {
    assert_eq!(filter_lines("a\r\nb\r\n", &skips(&["zzz"])), "a\nb");
    assert_eq!(filter_lines("a\nb", &skips(&["zzz"])), "a\nb");
    assert_eq!(filter_lines("a\n\nb\n", &skips(&["zzz"])), "a\n\nb");
}

#[test]
fn bare_carriage_return_at_end_stays() {
    assert_eq!(filter_lines("a\nb\r", &skips(&["zzz"])), "a\nb\r");
}

#[test]
fn removing_every_line_gives_empty_text() {
    assert_eq!(filter_lines("x1\nx2\n", &skips(&["x"])), "");
    assert_eq!(filter_lines("", &skips(&["x"])), "");
}

#[test]
fn filtering_twice_changes_nothing() {
    let s = skips(&["DROP"]);
    let once = filter_lines("keep\nDROP me\nkeep2\n", &s);
    assert_eq!(filter_lines(&once, &s), once);
}

#[test]
fn empty_skip_substring_drops_every_line() {
    assert_eq!(filter_lines("a\nb\n", &skips(&[""])), "");
}

#[test]
fn single_line_check() {
    assert!(line_is_kept("hello", &skips(&["x", "y"])));
    assert!(!line_is_kept("hey", &skips(&["x", "y"])));
    assert!(line_is_kept("anything", &Vec::new()));
}
