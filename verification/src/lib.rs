//! Front end of a minimal scripting-language toolchain: a fault-tolerant
//! lexer that turns source text into classified tokens, a parser that drains
//! the lexer into a filtered token buffer with panic-free lookahead, and an
//! expression builder that reads the buffer as the fixed grammar
//! `'(' number operator number ')'` and returns a binary-expression value or
//! a typed grammar error.

use vstd::prelude::*;

pub mod expr;
pub mod lexer;
pub mod parser;
pub mod token;

verus! {

/// Runs the whole pipeline on one source text: lex, collect the filtered
/// token buffer, and build the expression, returning the first grammar
/// violation as a typed error instead of panicking.
pub fn compile_source(text: Vec<char>) -> (r: Result<expr::Expression, expr::BuildError>)
    requires
        text@.len() < usize::MAX,
    ensures
        r == expr::build_spec(parser::lex_tokens(text@, 0)),
{
    let mut p = parser::Parser::new(text);
    p.parse();
    expr::build_expression(&p)
}

} // verus!
