use vstd::prelude::*;

verus! {

/// The kind of a lexical token.
///
/// A `Number` carries the outcome of parsing its digit run as an `i64`:
/// `None` means the run did not fit (overflow). Carrying the outcome inside
/// the token keeps the lexer total; the failure surfaces only when the
/// expression builder tries to use the value.
#[derive(Clone, Copy, Debug, PartialEq, Eq)]
pub enum TokenKind {
    Whitespace,
    Number(Option<i64>),
    Plus,
    Minus,
    Star,
    Slash,
    OpenParen,
    CloseParen,
    Bad,
    EndOfFile,
}

/// One classified token: the exact characters matched, and its kind.
///
/// Every character of the input is consumed by exactly one token's `text`
/// span, except that a `Bad` token advances one character and carries empty
/// text.
#[derive(Debug)]
pub struct Token {
    pub text: Vec<char>,
    pub kind: TokenKind,
}

/// The mathematical image of a `Token`.
pub ghost struct SpecToken {
    pub text: Seq<char>,
    pub kind: TokenKind,
}

impl View for Token {
    type V = SpecToken;

    open spec fn view(&self) -> SpecToken {
        SpecToken { text: self.text@, kind: self.kind }
    }
}

/// The synthetic token handed out past the end of the input or of the buffer.
pub open spec fn eof_token() -> SpecToken {
    SpecToken { text: Seq::empty(), kind: TokenKind::EndOfFile }
}

/// Builds the synthetic end-of-file token.
pub fn make_eof_token() -> (t: Token)
    ensures
        t@ == eof_token(),
{
    let t = Token { text: Vec::new(), kind: TokenKind::EndOfFile };
    proof {
        assert(t@.text =~= eof_token().text);
    }
    t
}

/// The kinds of token that the parser keeps in its buffer: everything but
/// whitespace, malformed characters and the end-of-file marker.
pub open spec fn kept_kind(k: TokenKind) -> bool {
    !(k is Whitespace || k is Bad || k is EndOfFile)
}

/// The token sequence seen through its mathematical image.
pub open spec fn view_tokens(ts: Seq<Token>) -> Seq<SpecToken> {
    ts.map_values(|t: Token| t@)
}

impl Token {
    /// An owned copy. The lexer overwrites its current-token slot on each
    /// step, so callers retain a token by copying it first.
    pub fn duplicate(&self) -> (t: Token)
        ensures
            t@ == self@,
    {
        let mut text: Vec<char> = Vec::new();
        let n = self.text.len();
        let mut k: usize = 0;
        while k < n
            invariant
                k <= n,
                n == self.text@.len(),
                text@ == self.text@.subrange(0, k as int),
            decreases n - k,
        {
            text.push(self.text[k]);
            proof {
                assert(self.text@.subrange(0, k + 1 as int) =~= self.text@.subrange(0, k as int)
                    .push(self.text@[k as int]));
            }
            k = k + 1;
        }
        proof {
            assert(self.text@.subrange(0, n as int) =~= self.text@);
        }
        Token { text, kind: self.kind }
    }
}

} // verus!
