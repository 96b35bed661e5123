use phoenix_script::lexer::Lexer;
use phoenix_script::token::TokenKind;

fn chars(s: &str) -> Vec<char> {
    s.chars().collect()
}

#[test]
fn lexes_digit_run_value() {
    let mut lx = Lexer::new(chars("12345"));
    lx.next();
    assert_eq!(lx.current.kind, TokenKind::Number(Some(12345)));
    assert_eq!(lx.current.text, chars("12345"));
    assert_eq!(lx.position, 5);
}

#[test]
fn lexes_whitespace_run_greedily() {
    let mut lx = Lexer::new(chars(" \t\n"));
    lx.next();
    assert_eq!(lx.current.kind, TokenKind::Whitespace);
    assert_eq!(lx.current.text, chars(" \t\n"));
    assert_eq!(lx.position, 3);
    lx.next();
    assert_eq!(lx.current.kind, TokenKind::EndOfFile);
}

#[test]
fn lexes_unicode_whitespace() {
    let mut lx = Lexer::new(chars("\u{3000}\u{00A0}\u{2028}"));
    lx.next();
    assert_eq!(lx.current.kind, TokenKind::Whitespace);
    assert_eq!(lx.current.text.len(), 3);
}

#[test]
fn lexes_single_bad_token() {
    let mut lx = Lexer::new(chars("#"));
    lx.next();
    assert_eq!(lx.current.kind, TokenKind::Bad);
    assert!(lx.current.text.is_empty());
    assert_eq!(lx.position, 1);
}

#[test]
fn resumes_after_bad_token() {
    let mut lx = Lexer::new(chars("#7"));
    lx.next();
    assert_eq!(lx.current.kind, TokenKind::Bad);
    assert_eq!(lx.position, 1);
    lx.next();
    assert_eq!(lx.current.kind, TokenKind::Number(Some(7)));
    assert_eq!(lx.current.text, chars("7"));
}

#[test]
fn lexes_operators_and_parens() {
    let mut lx = Lexer::new(chars("+-*/()"));
    let expected = [
        TokenKind::Plus,
        TokenKind::Minus,
        TokenKind::Star,
        TokenKind::Slash,
        TokenKind::OpenParen,
        TokenKind::CloseParen,
    ];
    for kind in expected {
        lx.next();
        assert_eq!(lx.current.kind, kind);
        assert_eq!(lx.current.text.len(), 1);
    }
    lx.next();
    assert_eq!(lx.current.kind, TokenKind::EndOfFile);
}

#[test]
fn number_overflow_is_carried_in_the_token() {
    let mut lx = Lexer::new(chars("99999999999999999999"));
    lx.next();
    assert_eq!(lx.current.kind, TokenKind::Number(None));
    assert_eq!(lx.current.text, chars("99999999999999999999"));
}

#[test]
fn number_overflow_boundary() {
    let mut lx = Lexer::new(chars("9223372036854775807"));
    lx.next();
    assert_eq!(lx.current.kind, TokenKind::Number(Some(i64::MAX)));

    let mut lx = Lexer::new(chars("9223372036854775808"));
    lx.next();
    assert_eq!(lx.current.kind, TokenKind::Number(None));
}

#[test]
fn end_of_file_is_idempotent() {
    let mut lx = Lexer::new(chars(""));
    lx.next();
    assert_eq!(lx.current.kind, TokenKind::EndOfFile);
    assert!(lx.current.text.is_empty());
    assert_eq!(lx.position, 1);
    lx.next();
    assert_eq!(lx.current.kind, TokenKind::EndOfFile);
    assert_eq!(lx.position, 1);
}

#[test]
fn number_value_round_trips_to_its_digits() {
    let mut lx = Lexer::new(chars("905"));
    lx.next();
    match lx.current.kind {
        TokenKind::Number(Some(v)) => {
            assert_eq!(v, 905);
            assert_eq!(v.to_string(), "905");
        }
        k => panic!("expected a number, got {k:?}"),
    }
}

#[test]
fn leading_zeros_are_kept_in_text() {
    let mut lx = Lexer::new(chars("007"));
    lx.next();
    assert_eq!(lx.current.kind, TokenKind::Number(Some(7)));
    assert_eq!(lx.current.text, chars("007"));
}
