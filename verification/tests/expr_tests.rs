use phoenix_script::compile_source;
use phoenix_script::expr::{build_expression, BuildError, Expression, Operand, Operator};
use phoenix_script::parser::Parser;

fn chars(s: &str) -> Vec<char> {
    s.chars().collect()
}

fn compile(s: &str) -> Result<Expression, BuildError> {
    compile_source(chars(s))
}

#[test]
fn builds_simple_sum() {
    let e = compile("(1+2)").unwrap();
    assert_eq!(e.left, Operand::Number(1));
    assert_eq!(e.operator, Operator::Plus);
    assert_eq!(e.right, Operand::Number(2));
}

#[test]
fn interior_whitespace_has_no_effect() {
    let e = compile("( 10 * 4 )").unwrap();
    assert_eq!(e.left, Operand::Number(10));
    assert_eq!(e.operator, Operator::Star);
    assert_eq!(e.right, Operand::Number(4));
}

#[test]
fn missing_open_paren_is_an_error_not_a_panic() {
    assert_eq!(compile("1+2"), Err(BuildError::MissingOpenParen));
}

#[test]
fn dropped_bad_token_shifts_lookups_to_invalid_operator() {
    assert_eq!(compile("(9 % 3)"), Err(BuildError::InvalidOperator));
}

#[test]
fn empty_parens_miss_the_left_operand() {
    assert_eq!(compile("()"), Err(BuildError::MissingLeftOperand));
}

#[test]
fn missing_right_operand() {
    assert_eq!(compile("(1+)"), Err(BuildError::MissingRightOperand));
}

#[test]
fn overflowing_left_operand_is_invalid() {
    assert_eq!(
        compile("(99999999999999999999+1)"),
        Err(BuildError::InvalidNumber)
    );
}

#[test]
fn overflowing_right_operand_is_invalid() {
    assert_eq!(
        compile("(1+99999999999999999999)"),
        Err(BuildError::InvalidNumber)
    );
}

#[test]
fn builds_difference_and_quotient() {
    let e = compile("(8-3)").unwrap();
    assert_eq!(e.operator, Operator::Minus);
    let e = compile("(8/2)").unwrap();
    assert_eq!(e.operator, Operator::Slash);
}

#[test]
fn empty_source_misses_the_open_paren() {
    assert_eq!(compile(""), Err(BuildError::MissingOpenParen));
}

#[test]
fn number_in_operator_position_is_invalid() {
    assert_eq!(compile("(1 2)"), Err(BuildError::InvalidOperator));
}

#[test]
fn builder_reads_a_parsed_buffer() {
    let mut p = Parser::new(chars("(6/3)"));
    p.parse();
    let e = build_expression(&p).unwrap();
    assert_eq!(e.left, Operand::Number(6));
    assert_eq!(e.operator, Operator::Slash);
    assert_eq!(e.right, Operand::Number(3));
}
