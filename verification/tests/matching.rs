use brainfuck::error::ErrorKind;
use brainfuck::matcher::bracket_match;

#[test]
fn plain_pair_matches() {
    assert_eq!(bracket_match(0, b"[++]"), Ok(3));
}

#[test]
fn adjacent_pair_is_not_taken() {
    assert_eq!(bracket_match(0, b"[][]"), Ok(1));
}

#[test]
fn nested_pairs_match_outermost() {
    assert_eq!(bracket_match(0, b"[[]]"), Ok(3));
}

#[test]
fn nested_pairs_match_innermost() {
    assert_eq!(bracket_match(1, b"[[]]"), Ok(2));
}

#[test]
fn comment_characters_are_passed_over() {
    assert_eq!(bracket_match(0, b"[a+b]c"), Ok(4));
}

#[test]
fn missing_close_is_unterminated() {
    assert_eq!(bracket_match(0, b"[["), Err(ErrorKind::UnterminatedLoop));
}

#[test]
fn close_before_open_counts_down() {
    assert_eq!(bracket_match(0, b"[[]"), Err(ErrorKind::UnterminatedLoop));
}
