use prompt_builder::names::{compile_patterns, is_excluded, ExclusionPattern};

fn pats(v: &[&str]) -> Vec<String> {
    v.iter().map(|s| s.to_string()).collect()
}

#[test]
fn no_patterns_exclude_nothing() {
    let compiled = compile_patterns(&Vec::new());
    assert!(!is_excluded("a.txt", &compiled));
    assert!(!is_excluded("", &compiled));
}

#[test]
fn star_pattern_excludes_by_suffix() {
    let compiled = compile_patterns(&pats(&["*.log"]));
    assert!(is_excluded("b.log", &compiled));
    assert!(!is_excluded("a.txt", &compiled));
}

#[test]
fn literal_pattern_matches_exactly() {
    let compiled = compile_patterns(&pats(&["notes.md"]));
    assert!(is_excluded("notes.md", &compiled));
    assert!(!is_excluded("notes.md.bak", &compiled));
    assert!(!is_excluded("Notes.md", &compiled));
}

#[test]
fn question_mark_and_class() {
    let compiled = compile_patterns(&pats(&["?.rs", "[ab]*.txt"]));
    assert!(is_excluded("x.rs", &compiled));
    assert!(!is_excluded("xy.rs", &compiled));
    assert!(is_excluded("b1.txt", &compiled));
    assert!(!is_excluded("c1.txt", &compiled));
}

#[test]
fn invalid_pattern_never_matches() {
    let p = ExclusionPattern::compile("abc[");
    assert!(!p.is_compiled());
    assert!(!p.matches("abc["));
    assert!(!p.matches("abc"));
    let compiled = compile_patterns(&pats(&["abc[", "*.log"]));
    assert!(!compiled[0].is_compiled());
    assert!(compiled[1].is_compiled());
    assert!(!is_excluded("abc[", &compiled));
    assert!(is_excluded("x.log", &compiled));
}

#[test]
fn valid_pattern_is_compiled() {
    let p = ExclusionPattern::compile("*.log");
    assert!(p.is_compiled());
    assert!(p.matches("b.log"));
}
