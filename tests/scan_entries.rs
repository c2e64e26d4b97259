use prompt_builder::messages::{not_a_directory, unreadable_warning};
use prompt_builder::scan::{unreadable_placeholder, Renderer, Scan};
use prompt_builder::tokens::Tokenizer;

fn strings(v: &[&str]) -> Vec<String> {
    v.iter().map(|s| s.to_string()).collect()
}

fn counting() -> Renderer {
    Renderer::TokenCount(Tokenizer::p50k_base().unwrap())
}

/// Runs a scan over in-memory entries in the given order, as a directory
/// listing would hand them over, and concatenates the records.
fn run(scan: &Scan, renderer: &Renderer, entries: &[(&str, Option<&str>)]) -> String {
    let mut out = String::new();
    for (name, contents) in entries {
        if scan.excludes(name) {
            continue;
        }
        out.push_str(&scan.render(name, *contents, renderer).ok().unwrap());
    }
    out
}

#[test]
fn scenario_excluded_log_never_appears() {
    let entries = [("a.txt", Some("hello\nworld\n")), ("b.log", Some("skip this\nkeep this\n"))];
    let scan = Scan::new(&strings(&["*.log"]), Vec::new());
    assert!(scan.excludes("b.log"));
    assert!(!scan.excludes("a.txt"));
    assert_eq!(run(&scan, &Renderer::Prompt, &entries), "a.txt\n\nhello\nworld\n\n");

    let counted = run(&scan, &counting(), &entries);
    assert!(counted.starts_with("a.txt   "));
    assert!(counted.ends_with(" tokens\n"));
    assert_eq!(counted.lines().count(), 1);
    assert!(!counted.contains("b.log"));
}

#[test]
fn scenario_drop_line_in_prompt() {
    let scan = Scan::new(&Vec::new(), strings(&["DROP"]));
    let out = run(&scan, &Renderer::Prompt, &[("a.txt", Some("keep\nDROP me\nkeep2\n"))]);
    assert_eq!(out, "a.txt\n\nkeep\nkeep2\n");
}

#[test]
fn scenario_unreadable_file_gets_placeholder() {
    let scan = Scan::new(&Vec::new(), Vec::new());
    let r = scan.render("locked.txt", None, &Renderer::Prompt).ok().unwrap();
    assert_eq!(r, "locked.txt\n\n[Could not read contents]\n");
    assert_eq!(unreadable_placeholder(), "[Could not read contents]");
    assert!(unreadable_warning("dir/locked.txt").contains("locked.txt"));

    let r = scan.render("locked.txt", None, &counting()).ok().unwrap();
    assert!(r.starts_with("locked.txt   "));
    assert!(r.ends_with(" tokens\n"));
    assert_ne!(r, "locked.txt   0 tokens\n");
}

#[test]
fn scenario_target_not_a_directory() {
    let msg = not_a_directory("notes.txt");
    assert!(msg.contains("notes.txt"));
    assert_eq!(msg, "notes.txt is not a directory.");
}

#[test]
fn empty_file_counts_zero_tokens() {
    let scan = Scan::new(&Vec::new(), Vec::new());
    assert_eq!(scan.render("empty.txt", Some(""), &counting()).ok().unwrap(), "empty.txt   0 tokens\n");
    let skipping = Scan::new(&Vec::new(), strings(&["x"]));
    assert_eq!(skipping.render("all.txt", Some("x\nxx\n"), &counting()).ok().unwrap(), "all.txt   0 tokens\n");
}

#[test]
fn invalid_pattern_excludes_nothing_in_scan() {
    let scan = Scan::new(&strings(&["abc["]), Vec::new());
    assert!(!scan.patterns[0].is_compiled());
    assert!(!scan.excludes("abc["));
    assert_eq!(run(&scan, &Renderer::Prompt, &[("abc[", Some("t"))]), "abc[\n\nt\n");
}

#[test]
fn count_line_matches_tokenizer() {
    let scan = Scan::new(&Vec::new(), Vec::new());
    assert_eq!(scan.render("w.txt", Some("hello world"), &counting()).ok().unwrap(), "w.txt   2 tokens\n");
}

#[test]
fn records_follow_entry_order() {
    let scan = Scan::new(&strings(&["*.tmp"]), Vec::new());
    let out = run(&scan, &Renderer::Prompt, &[("z", Some("1")), ("x.tmp", Some("2")), ("a", Some("3"))]);
    assert_eq!(out, "z\n\n1\na\n\n3\n");
}
