use phoenix_script::parser::Parser;
use phoenix_script::token::TokenKind;

fn chars(s: &str) -> Vec<char> {
    s.chars().collect()
}

fn kinds(source: &str) -> Vec<TokenKind> {
    let mut p = Parser::new(chars(source));
    p.parse();
    p.tokens.iter().map(|t| t.kind).collect()
}

#[test]
fn whitespace_only_gives_empty_buffer() {
    let mut p = Parser::new(chars("   \t \n  "));
    p.parse();
    assert!(p.tokens.is_empty());
}

#[test]
fn unicode_whitespace_only_gives_empty_buffer() {
    let mut p = Parser::new(chars("\u{3000} \u{00A0}\u{2009}"));
    p.parse();
    assert!(p.tokens.is_empty());
}

#[test]
fn buffer_keeps_parens_and_filters_nothing_else_out() {
    assert_eq!(
        kinds("(1+2)"),
        vec![
            TokenKind::OpenParen,
            TokenKind::Number(Some(1)),
            TokenKind::Plus,
            TokenKind::Number(Some(2)),
            TokenKind::CloseParen,
        ]
    );
}

#[test]
fn buffer_drops_whitespace_and_bad_tokens() {
    assert_eq!(
        kinds("(9 % 3)"),
        vec![
            TokenKind::OpenParen,
            TokenKind::Number(Some(9)),
            TokenKind::Number(Some(3)),
            TokenKind::CloseParen,
        ]
    );
}

#[test]
fn peek_past_end_returns_synthetic_eof() {
    let mut p = Parser::new(chars("(1+2)"));
    p.parse();
    assert_eq!(p.peek(5).kind, TokenKind::EndOfFile);
    assert_eq!(p.peek(100).kind, TokenKind::EndOfFile);
    assert_eq!(p.peek(usize::MAX).kind, TokenKind::EndOfFile);
    assert!(p.peek(usize::MAX).text.is_empty());
}

#[test]
fn peek_reads_relative_to_the_cursor() {
    let mut p = Parser::new(chars("(1+2)"));
    p.parse();
    assert_eq!(p.peek(0).kind, TokenKind::OpenParen);
    assert_eq!(p.peek(1).kind, TokenKind::Number(Some(1)));
    assert_eq!(p.peek(4).kind, TokenKind::CloseParen);
}

#[test]
fn current_is_peek_zero() {
    let mut p = Parser::new(chars("7*8"));
    p.parse();
    assert_eq!(p.current().kind, TokenKind::Number(Some(7)));
    assert_eq!(p.current().kind, p.peek(0).kind);
}

#[test]
fn empty_source_gives_empty_buffer() {
    let mut p = Parser::new(chars(""));
    p.parse();
    assert!(p.tokens.is_empty());
    assert_eq!(p.current().kind, TokenKind::EndOfFile);
}

#[test]
fn token_text_is_the_exact_substring() {
    let mut p = Parser::new(chars("( 10 * 4 )"));
    p.parse();
    let texts: Vec<String> = p.tokens.iter().map(|t| t.text.iter().collect()).collect();
    assert_eq!(texts, vec!["(", "10", "*", "4", ")"]);
}
