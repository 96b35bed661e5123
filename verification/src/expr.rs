use vstd::prelude::*;

use crate::parser::{tok_or_eof, Parser};
use crate::token::{view_tokens, SpecToken, Token, TokenKind};

verus! {

/// The four recognized binary operators.
#[derive(Clone, Copy, Debug, PartialEq, Eq)]
pub enum Operator {
    Plus,
    Minus,
    Star,
    Slash,
}

/// An operand of a binary expression. The current flat grammar only ever
/// builds `Number` leaves; the boxed variant is reserved for a future
/// recursive grammar.
#[derive(Debug, PartialEq)]
pub enum Operand {
    Number(i64),
    Expression(Box<Expression>),
}

/// A single flat binary operation: `left operator right`.
#[derive(Debug, PartialEq)]
pub struct Expression {
    pub left: Operand,
    pub operator: Operator,
    pub right: Operand,
}

/// The grammar-shape violations the expression builder detects. They are
/// returned to the caller, never raised as panics.
#[derive(Clone, Copy, Debug, PartialEq, Eq)]
pub enum BuildError {
    /// No token of the buffer has the text `(`.
    MissingOpenParen,
    /// Fewer `Number` tokens than the open parenthesis' ordinal demands.
    MissingLeftOperand,
    /// A selected digit run overflowed the `i64` range.
    InvalidNumber,
    /// The token in operator position is none of `+ - * /`.
    InvalidOperator,
    /// The token in right-operand position is not a `Number`.
    MissingRightOperand,
}

/// Index of the first token at or after `i` whose text is `(`, or the
/// buffer's length when there is none.
pub open spec fn find_open(toks: Seq<SpecToken>, i: int) -> int
    decreases toks.len() - i,
{
    if i < 0 || i >= toks.len() {
        toks.len() as int
    } else if toks[i].text == seq!['('] {
        i
    } else {
        find_open(toks, i + 1)
    }
}

/// Index of the `k`-th token (counting from zero, scanning from `i`) that is
/// classified `Number`, or the buffer's length when there are too few.
pub open spec fn nth_number(toks: Seq<SpecToken>, k: int, i: int) -> int
    decreases toks.len() - i,
{
    if i < 0 || i >= toks.len() {
        toks.len() as int
    } else if toks[i].kind is Number {
        if k <= 0 {
            i
        } else {
            nth_number(toks, k - 1, i + 1)
        }
    } else {
        nth_number(toks, k, i + 1)
    }
}

/// The operator a token text denotes, if any.
pub open spec fn op_of_text(t: Seq<char>) -> Option<Operator> {
    if t == seq!['+'] {
        Some(Operator::Plus)
    } else if t == seq!['-'] {
        Some(Operator::Minus)
    } else if t == seq!['*'] {
        Some(Operator::Star)
    } else if t == seq!['/'] {
        Some(Operator::Slash)
    } else {
        None
    }
}

/// What building an expression from a token buffer yields.
///
/// The fixed shape `( NUMBER OP NUMBER )` is located positionally: with the
/// first `(` at index `p`, the left operand is the `p`-th `Number` token of
/// the whole buffer, the operator stands at `p + 2` and the right operand at
/// `p + 3`. Out-of-range positions read as the synthetic end-of-file token.
pub open spec fn build_spec(toks: Seq<SpecToken>) -> Result<Expression, BuildError> {
    let p = find_open(toks, 0);
    if p == toks.len() {
        Err(BuildError::MissingOpenParen)
    } else {
        let li = nth_number(toks, p, 0);
        if li == toks.len() {
            Err(BuildError::MissingLeftOperand)
        } else {
            match toks[li].kind {
                TokenKind::Number(parsed) => match parsed {
                    None => Err(BuildError::InvalidNumber),
                    Some(lv) => match op_of_text(tok_or_eof(toks, p + 2).text) {
                        None => Err(BuildError::InvalidOperator),
                        Some(op) => match tok_or_eof(toks, p + 3).kind {
                            TokenKind::Number(rp) => match rp {
                                Some(rv) => Ok(
                                    Expression {
                                        left: Operand::Number(lv),
                                        operator: op,
                                        right: Operand::Number(rv),
                                    },
                                ),
                                None => Err(BuildError::InvalidNumber),
                            },
                            _ => Err(BuildError::MissingRightOperand),
                        },
                    },
                },
                _ => Err(BuildError::MissingLeftOperand),
            }
        }
    }
}

/// Locates the first token whose text is `(`.
fn find_open_paren(tokens: &Vec<Token>) -> (r: usize)
    ensures
        r == find_open(view_tokens(tokens@), 0),
        r <= tokens@.len(),
{
    let ghost v = view_tokens(tokens@);
    let n = tokens.len();
    let mut j: usize = 0;
    while j < n
        invariant
            j <= n,
            n == tokens@.len(),
            v == view_tokens(tokens@),
            find_open(v, 0) == find_open(v, j as int),
        decreases n - j,
    {
        let t = &tokens[j];
        if t.text.len() == 1 && t.text[0] == '(' {
            proof {
                assert(v[j as int].text =~= seq!['(']);
            }
            return j;
        }
        proof {
            assert(v[j as int].text != seq!['(']) by {
                if v[j as int].text == seq!['('] {
                    assert(v[j as int].text.len() == 1);
                    assert(v[j as int].text[0] == '(');
                }
            }
            assert(find_open(v, j as int) == find_open(v, j + 1 as int));
        }
        j = j + 1;
    }
    n
}

/// Locates the `k`-th `Number` token of the buffer.
fn nth_number_index(tokens: &Vec<Token>, k: usize) -> (r: usize)
    ensures
        r == nth_number(view_tokens(tokens@), k as int, 0),
        r <= tokens@.len(),
        r < tokens@.len() ==> view_tokens(tokens@)[r as int].kind is Number,
{
    let ghost v = view_tokens(tokens@);
    let n = tokens.len();
    let mut j: usize = 0;
    let mut remaining = k;
    while j < n
        invariant
            j <= n,
            remaining <= k,
            n == tokens@.len(),
            v == view_tokens(tokens@),
            nth_number(v, k as int, 0) == nth_number(v, remaining as int, j as int),
        decreases n - j,
    {
        let is_number = match tokens[j].kind {
            TokenKind::Number(_) => true,
            _ => false,
        };
        proof {
            assert(v[j as int] == tokens@[j as int]@);
            assert(is_number == (v[j as int].kind is Number));
        }
        if is_number {
            if remaining == 0 {
                return j;
            }
            remaining = remaining - 1;
            proof {
                assert(nth_number(v, remaining + 1, j as int) == nth_number(
                    v,
                    remaining as int,
                    j + 1,
                ));
            }
        } else {
            proof {
                assert(nth_number(v, remaining as int, j as int) == nth_number(
                    v,
                    remaining as int,
                    j + 1,
                ));
            }
        }
        j = j + 1;
    }
    n
}

/// Maps a token's text to the operator it denotes, if any.
fn operator_of(t: &Token) -> (r: Option<Operator>)
    ensures
        r == op_of_text(t@.text),
{
    if t.text.len() == 1 {
        let c = t.text[0];
        proof {
            if c == '+' {
                assert(t@.text =~= seq!['+']);
            }
            if c == '-' {
                assert(t@.text =~= seq!['-']);
            }
            if c == '*' {
                assert(t@.text =~= seq!['*']);
            }
            if c == '/' {
                assert(t@.text =~= seq!['/']);
            }
        }
        if c == '+' {
            Some(Operator::Plus)
        } else if c == '-' {
            Some(Operator::Minus)
        } else if c == '*' {
            Some(Operator::Star)
        } else if c == '/' {
            Some(Operator::Slash)
        } else {
            proof {
                lemma_single_char_text(t@.text, c);
            }
            None
        }
    } else {
        proof {
            assert(seq!['+'].len() == 1);
            assert(seq!['-'].len() == 1);
            assert(seq!['*'].len() == 1);
            assert(seq!['/'].len() == 1);
        }
        None
    }
}

proof fn lemma_single_char_text(t: Seq<char>, c: char)
    requires
        t.len() == 1,
        t[0] == c,
        c != '+',
        c != '-',
        c != '*',
        c != '/',
    ensures
        op_of_text(t) is None,
{
    assert(seq!['+'][0] == '+');
    assert(seq!['-'][0] == '-');
    assert(seq!['*'][0] == '*');
    assert(seq!['/'][0] == '/');
}

/// Reads the token at `base + off`, or the synthetic end-of-file token when
/// that position lies outside the buffer.
fn token_at(tokens: &Vec<Token>, base: usize, off: usize) -> (t: Token)
    ensures
        t@ == tok_or_eof(view_tokens(tokens@), base + off),
{
    let n = tokens.len();
    if off <= usize::MAX - base {
        let idx = base + off;
        if idx < n {
            tokens[idx].duplicate()
        } else {
            crate::token::make_eof_token()
        }
    } else {
        crate::token::make_eof_token()
    }
}

/// Interprets a fully populated token buffer as the fixed grammar
/// `'(' number operator number ')'` and assembles the binary expression, or
/// reports the first grammar violation as a typed error.
pub fn build_expression(p: &Parser) -> (r: Result<Expression, BuildError>)
    ensures
        r == build_spec(p.buffer()),
{
    let n = p.tokens.len();
    let open_idx = find_open_paren(&p.tokens);
    if open_idx == n {
        return Err(BuildError::MissingOpenParen);
    }
    let li = nth_number_index(&p.tokens, open_idx);
    if li == n {
        return Err(BuildError::MissingLeftOperand);
    }
    match p.tokens[li].kind {
        TokenKind::Number(parsed) => match parsed {
            None => Err(BuildError::InvalidNumber),
            Some(lv) => {
                let op_tok = token_at(&p.tokens, open_idx, 2);
                match operator_of(&op_tok) {
                    None => Err(BuildError::InvalidOperator),
                    Some(op) => {
                        let right_tok = token_at(&p.tokens, open_idx, 3);
                        match right_tok.kind {
                            TokenKind::Number(rp) => match rp {
                                Some(rv) => Ok(
                                    Expression {
                                        left: Operand::Number(lv),
                                        operator: op,
                                        right: Operand::Number(rv),
                                    },
                                ),
                                None => Err(BuildError::InvalidNumber),
                            },
                            _ => Err(BuildError::MissingRightOperand),
                        }
                    },
                }
            },
        },
        _ => Err(BuildError::MissingLeftOperand),
    }
}

} // verus!
