use vstd::prelude::*;

use crate::lexer::{
    digit_end, digits_value, is_digit_char, is_ws_char, lemma_token_end, lemma_ws_end,
    spec_token_at, token_end, ws_end, Lexer,
};
use crate::token::{
    eof_token, kept_kind, make_eof_token, view_tokens, SpecToken, Token, TokenKind,
};

verus! {

/// The filtered token sequence that lexing the source from position `i`
/// onward yields: whitespace and `Bad` tokens are dropped, and the stream
/// stops at the end of the input.
pub open spec fn lex_tokens(s: Seq<char>, i: int) -> Seq<SpecToken>
    decreases s.len() - i,
        when 0 <= i
        via lex_tokens_decreases
{
    if i >= s.len() {
        Seq::empty()
    } else {
        let t = spec_token_at(s, i);
        let rest = lex_tokens(s, token_end(s, i));
        if kept_kind(t.kind) {
            seq![t] + rest
        } else {
            rest
        }
    }
}

#[via_fn]
proof fn lex_tokens_decreases(s: Seq<char>, i: int) {
    if 0 <= i < s.len() {
        lemma_token_end(s, i);
    }
}

/// Collects the lexer's output into an ordered, filtered token buffer and
/// exposes panic-free lookahead over it.
pub struct Parser {
    /// The embedded lexer, drained exactly once by [`Parser::parse`].
    pub lexer: Lexer,
    /// The buffer: every kept token, in source order.
    pub tokens: Vec<Token>,
    /// Cursor into the buffer, the base of [`Parser::peek`].
    pub position: usize,
}

impl Parser {
    /// The buffer's mathematical image.
    pub open spec fn buffer(self) -> Seq<SpecToken> {
        view_tokens(self.tokens@)
    }

    /// The source text the embedded lexer is bound to.
    pub open spec fn source(self) -> Seq<char> {
        self.lexer.text@
    }

    /// A parser on which [`Parser::parse`] has not yet run.
    pub open spec fn fresh(self) -> bool {
        &&& self.lexer.wf()
        &&& self.lexer.position == 0
        &&& self.tokens@.len() == 0
    }

    /// A fresh parser over the given source text, with an empty buffer.
    pub fn new(text: Vec<char>) -> (p: Parser)
        requires
            text@.len() < usize::MAX,
        ensures
            p.fresh(),
            p.source() == text@,
            p.position == 0,
    {
        Parser { lexer: Lexer::new(text), tokens: Vec::new(), position: 0 }
    }

    /// Drains the lexer to completion exactly once: whitespace and `Bad`
    /// tokens are skipped, every other token is copied into the buffer, and
    /// the terminating `EndOfFile` itself is not stored.
    ///
    /// Not safe to re-invoke: a second pass would need the embedded lexer's
    /// cursor reset, so a parser runs `parse` once per instance.
    pub fn parse(&mut self)
        requires
            old(self).fresh(),
        ensures
            final(self).buffer() == lex_tokens(old(self).source(), 0),
            final(self).source() == old(self).source(),
            final(self).position == old(self).position,
            final(self).lexer.wf(),
    {
        let ghost src = self.lexer.text@;
        proof {
            assert(self.buffer() =~= Seq::<SpecToken>::empty());
        }
        loop
            invariant_except_break
                self.lexer.position <= src.len(),
            invariant
                self.lexer.wf(),
                self.lexer.text@ == src,
                self.position == old(self).position,
                self.buffer() + lex_tokens(src, self.lexer.position as int) == lex_tokens(src, 0),
            ensures
                self.lexer.text@ == src,
                self.position == old(self).position,
                self.lexer.wf(),
                self.buffer() == lex_tokens(src, 0),
            decreases src.len() - self.lexer.position,
        {
            let ghost i = self.lexer.position as int;
            let ghost buf0 = self.buffer();
            self.lexer.next();
            match self.lexer.current.kind {
                crate::token::TokenKind::EndOfFile => {
                    proof {
                        assert(lex_tokens(src, i) =~= Seq::<SpecToken>::empty());
                        assert(buf0 + lex_tokens(src, i) =~= buf0);
                    }
                    break;
                },
                crate::token::TokenKind::Whitespace | crate::token::TokenKind::Bad => {
                    proof {
                        lemma_token_end(src, i);
                        assert(lex_tokens(src, i) == lex_tokens(src, token_end(src, i)));
                    }
                },
                _ => {
                    let t = self.lexer.current.duplicate();
                    self.tokens.push(t);
                    proof {
                        lemma_token_end(src, i);
                        let tok = spec_token_at(src, i);
                        assert(kept_kind(tok.kind));
                        assert(lex_tokens(src, i) == seq![tok] + lex_tokens(
                            src,
                            token_end(src, i),
                        ));
                        assert(self.buffer() =~= buf0 + seq![tok]);
                        assert(self.buffer() + lex_tokens(src, token_end(src, i)) =~= buf0 + (
                        seq![tok] + lex_tokens(src, token_end(src, i))));
                    }
                },
            }
        }
    }

    /// Pure lookahead: the token `offset` places past the cursor, or the
    /// synthetic end-of-file token when that runs off the buffer. Total for
    /// every `offset`; it neither panics nor mutates the parser.
    pub fn peek(&self, offset: usize) -> (t: Token)
        ensures
            t@ == tok_or_eof(self.buffer(), self.position + offset),
    {
        let n = self.tokens.len();
        if offset <= usize::MAX - self.position {
            let idx = self.position + offset;
            if idx < n {
                self.tokens[idx].duplicate()
            } else {
                make_eof_token()
            }
        } else {
            make_eof_token()
        }
    }

    /// The token under the cursor: `peek(0)`.
    pub fn current(&self) -> (t: Token)
        ensures
            t@ == tok_or_eof(self.buffer(), self.position as int),
    {
        self.peek(0)
    }
}

/// The token at index `i`, or the synthetic end-of-file token when `i` lies
/// outside the buffer.
pub open spec fn tok_or_eof(toks: Seq<SpecToken>, i: int) -> SpecToken {
    if 0 <= i < toks.len() {
        toks[i]
    } else {
        eof_token()
    }
}

/// A source made of whitespace alone lexes to an empty token buffer.
pub proof fn lemma_whitespace_only(s: Seq<char>)
    requires
        forall|i: int| 0 <= i < s.len() ==> is_ws_char(s[i]),
    ensures
        lex_tokens(s, 0) == Seq::<SpecToken>::empty(),
{
    if s.len() > 0 {
        lemma_ws_end_total(s, 0);
        assert(lex_tokens(s, 0) == lex_tokens(s, token_end(s, 0)));
    }
}

/// A digit-only source whose value fits the `i64` range lexes to exactly one
/// token: a `Number` carrying the run's characters and its numeric value.
pub proof fn lemma_digit_run(s: Seq<char>)
    requires
        s.len() > 0,
        forall|i: int| 0 <= i < s.len() ==> is_digit_char(s[i]),
        digits_value(s) <= i64::MAX,
    ensures
        lex_tokens(s, 0) == seq![
            SpecToken { text: s, kind: TokenKind::Number(Some(digits_value(s) as i64)) },
        ],
{
    lemma_digit_end_total(s, 0);
    assert(!is_ws_char(s[0]));
    assert(s.subrange(0, s.len() as int) =~= s);
    let t = spec_token_at(s, 0);
    assert(t.kind == TokenKind::Number(Some(digits_value(s) as i64)));
    assert(token_end(s, 0) == s.len());
    assert(lex_tokens(s, s.len() as int) =~= Seq::<SpecToken>::empty());
    assert(lex_tokens(s, 0) =~= seq![t]);
}

proof fn lemma_digit_end_total(s: Seq<char>, i: int)
    requires
        0 <= i <= s.len(),
        forall|k: int| i <= k < s.len() ==> is_digit_char(s[k]),
    ensures
        digit_end(s, i) == s.len(),
    decreases s.len() - i,
{
    if i < s.len() {
        lemma_digit_end_total(s, i + 1);
    }
}

proof fn lemma_ws_end_total(s: Seq<char>, i: int)
    requires
        0 <= i <= s.len(),
        forall|k: int| i <= k < s.len() ==> is_ws_char(s[k]),
    ensures
        ws_end(s, i) == s.len(),
    decreases s.len() - i,
{
    if i < s.len() {
        lemma_ws_end_total(s, i + 1);
    }
}

} // verus!
