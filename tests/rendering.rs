use prompt_builder::messages::{
    invalid_pattern_warning, not_a_directory, output_create_error, skipping_notice, unreadable_warning,
};
use prompt_builder::render::{prompt_block, token_line};
use prompt_builder::tokens::Tokenizer;

#[test]
fn token_line_format() {
    assert_eq!(token_line("a.txt", 12), "a.txt   12 tokens\n");
    assert_eq!(token_line("b", 0), "b   0 tokens\n");
    assert_eq!(token_line("c", 1070), "c   1070 tokens\n");
    assert_eq!(token_line("d", usize::MAX), format!("d   {} tokens\n", usize::MAX));
}

#[test]
fn prompt_block_format() {
    assert_eq!(prompt_block("a.txt", "keep\nkeep2"), "a.txt\n\nkeep\nkeep2\n");
    assert_eq!(prompt_block("e", ""), "e\n\n\n");
    assert_eq!(prompt_block("f", "x\n\ny"), "f\n\nx\n\ny\n");
}

#[test]
fn tokenizer_counts_empty_as_zero() {
    let t = Tokenizer::p50k_base().unwrap();
    assert_eq!(t.count(""), Some(0));
}

#[test]
fn tokenizer_counts_words() {
    let t = Tokenizer::p50k_base().unwrap();
    assert_eq!(t.count("hello world"), Some(2));
    assert!(t.count("hello\nworld\n").unwrap() > 0);
}

#[test]
fn messages_name_their_subject() {
    assert_eq!(not_a_directory("f.txt"), "f.txt is not a directory.");
    assert_eq!(skipping_notice("b.log"), "Skipping ignored file: b.log");
    assert_eq!(invalid_pattern_warning("abc["), "Warning: Invalid ignore pattern 'abc['. Ignoring.");
    assert_eq!(unreadable_warning("dir/x"), "Warning: Could not read file dir/x");
    assert_eq!(output_create_error("/no/such", "denied"), "Failed to create output file '/no/such': denied");
}
