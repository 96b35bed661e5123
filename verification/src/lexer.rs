use vstd::prelude::*;

use crate::token::{eof_token, make_eof_token, SpecToken, Token, TokenKind};

verus! {

// --- character classification ---------------------------------------------

/// The characters with the Unicode `White_Space` property.
pub open spec fn is_ws_char(c: char) -> bool {
    ||| c == '\u{0009}'
    ||| c == '\u{000A}'
    ||| c == '\u{000B}'
    ||| c == '\u{000C}'
    ||| c == '\u{000D}'
    ||| c == '\u{0020}'
    ||| c == '\u{0085}'
    ||| c == '\u{00A0}'
    ||| c == '\u{1680}'
    ||| c == '\u{2000}'
    ||| c == '\u{2001}'
    ||| c == '\u{2002}'
    ||| c == '\u{2003}'
    ||| c == '\u{2004}'
    ||| c == '\u{2005}'
    ||| c == '\u{2006}'
    ||| c == '\u{2007}'
    ||| c == '\u{2008}'
    ||| c == '\u{2009}'
    ||| c == '\u{200A}'
    ||| c == '\u{2028}'
    ||| c == '\u{2029}'
    ||| c == '\u{202F}'
    ||| c == '\u{205F}'
    ||| c == '\u{3000}'
}

/// Decides membership in the Unicode `White_Space` set.
pub fn ws_char(c: char) -> (b: bool)
    ensures
        b == is_ws_char(c),
{
    c == '\u{0009}' || c == '\u{000A}' || c == '\u{000B}' || c == '\u{000C}' || c == '\u{000D}'
        || c == '\u{0020}' || c == '\u{0085}' || c == '\u{00A0}' || c == '\u{1680}'
        || c == '\u{2000}' || c == '\u{2001}' || c == '\u{2002}' || c == '\u{2003}'
        || c == '\u{2004}' || c == '\u{2005}' || c == '\u{2006}' || c == '\u{2007}'
        || c == '\u{2008}' || c == '\u{2009}' || c == '\u{200A}' || c == '\u{2028}'
        || c == '\u{2029}' || c == '\u{202F}' || c == '\u{205F}' || c == '\u{3000}'
}

/// The decimal digit characters.
pub open spec fn is_digit_char(c: char) -> bool {
    ||| c == '0'
    ||| c == '1'
    ||| c == '2'
    ||| c == '3'
    ||| c == '4'
    ||| c == '5'
    ||| c == '6'
    ||| c == '7'
    ||| c == '8'
    ||| c == '9'
}

/// Decides whether `c` is a decimal digit.
pub fn digit_char(c: char) -> (b: bool)
    ensures
        b == is_digit_char(c),
{
    c == '0' || c == '1' || c == '2' || c == '3' || c == '4' || c == '5' || c == '6' || c == '7'
        || c == '8' || c == '9'
}

/// Numeric value of a decimal digit character.
pub open spec fn digit_val(c: char) -> nat
    recommends
        is_digit_char(c),
{
    if c == '0' {
        0
    } else if c == '1' {
        1
    } else if c == '2' {
        2
    } else if c == '3' {
        3
    } else if c == '4' {
        4
    } else if c == '5' {
        5
    } else if c == '6' {
        6
    } else if c == '7' {
        7
    } else if c == '8' {
        8
    } else {
        9
    }
}

/// Computes the numeric value of a decimal digit character.
pub fn digit_value(c: char) -> (n: u64)
    requires
        is_digit_char(c),
    ensures
        n == digit_val(c),
        n <= 9,
{
    if c == '0' {
        0
    } else if c == '1' {
        1
    } else if c == '2' {
        2
    } else if c == '3' {
        3
    } else if c == '4' {
        4
    } else if c == '5' {
        5
    } else if c == '6' {
        6
    } else if c == '7' {
        7
    } else if c == '8' {
        8
    } else {
        9
    }
}

// --- greedy runs ----------------------------------------------------------

/// End of the whitespace run that starts at `i`: the first position at or
/// after `i` holding a non-whitespace character, or the end of the input.
pub open spec fn ws_end(s: Seq<char>, i: int) -> int
    decreases s.len() - i,
{
    if i < 0 || i >= s.len() {
        i
    } else if is_ws_char(s[i]) {
        ws_end(s, i + 1)
    } else {
        i
    }
}

/// End of the digit run that starts at `i`.
pub open spec fn digit_end(s: Seq<char>, i: int) -> int
    decreases s.len() - i,
{
    if i < 0 || i >= s.len() {
        i
    } else if is_digit_char(s[i]) {
        digit_end(s, i + 1)
    } else {
        i
    }
}

pub proof fn lemma_ws_end(s: Seq<char>, i: int)
    requires
        0 <= i <= s.len(),
    ensures
        i <= ws_end(s, i) <= s.len(),
        forall|k: int| i <= k < ws_end(s, i) ==> is_ws_char(s[k]),
        ws_end(s, i) < s.len() ==> !is_ws_char(s[ws_end(s, i)]),
    decreases s.len() - i,
{
    if i < s.len() && is_ws_char(s[i]) {
        lemma_ws_end(s, i + 1);
    }
}

pub proof fn lemma_digit_end(s: Seq<char>, i: int)
    requires
        0 <= i <= s.len(),
    ensures
        i <= digit_end(s, i) <= s.len(),
        forall|k: int| i <= k < digit_end(s, i) ==> is_digit_char(s[k]),
        digit_end(s, i) < s.len() ==> !is_digit_char(s[digit_end(s, i)]),
    decreases s.len() - i,
{
    if i < s.len() && is_digit_char(s[i]) {
        lemma_digit_end(s, i + 1);
    }
}

// --- numeric value of a digit run -----------------------------------------

/// The number denoted by a run of decimal digits, most significant first.
pub open spec fn digits_value(s: Seq<char>) -> nat
    decreases s.len(),
{
    if s.len() == 0 {
        0
    } else {
        digits_value(s.drop_last()) * 10 + digit_val(s.last())
    }
}

/// Outcome of parsing a digit run as an `i64`: the run's value when it fits,
/// `None` on overflow. Digit runs have no sign, so the negative range is
/// never reached.
pub open spec fn parse_digits(d: Seq<char>) -> Option<i64> {
    if digits_value(d) <= i64::MAX {
        Some(digits_value(d) as i64)
    } else {
        None
    }
}

// --- decimal formatting ------------------------------------------------------

/// The decimal digit character of a value below ten.
pub open spec fn dec_digit_char(n: nat) -> char
    recommends
        n < 10,
{
    if n == 0 {
        '0'
    } else if n == 1 {
        '1'
    } else if n == 2 {
        '2'
    } else if n == 3 {
        '3'
    } else if n == 4 {
        '4'
    } else if n == 5 {
        '5'
    } else if n == 6 {
        '6'
    } else if n == 7 {
        '7'
    } else if n == 8 {
        '8'
    } else {
        '9'
    }
}

/// The canonical decimal digits of `n`, most significant first, with no
/// leading zero.
pub open spec fn dec_digits(n: nat) -> Seq<char>
    decreases n,
{
    if n < 10 {
        seq![dec_digit_char(n)]
    } else {
        dec_digits(n / 10).push(dec_digit_char(n % 10))
    }
}

/// A nonempty digit run that does not start with `0` denotes a positive
/// number.
proof fn lemma_digits_value_positive(s: Seq<char>)
    requires
        s.len() > 0,
        forall|i: int| 0 <= i < s.len() ==> is_digit_char(s[i]),
        s[0] != '0',
    ensures
        digits_value(s) >= 1,
    decreases s.len(),
{
    assert(digits_value(Seq::<char>::empty()) == 0);
    if s.len() == 1 {
        assert(s.drop_last() =~= Seq::<char>::empty());
        assert(s.last() == s[0]);
    } else {
        assert(s.drop_last()[0] == s[0]);
        lemma_digits_value_positive(s.drop_last());
    }
}

/// The round trip of lexing and formatting: the canonical decimal form of a
/// digit run's value is the run itself, provided the run has no leading zero
/// (a lone `0` included).
pub proof fn lemma_decimal_round_trip(s: Seq<char>)
    requires
        s.len() > 0,
        forall|i: int| 0 <= i < s.len() ==> is_digit_char(s[i]),
        s.len() > 1 ==> s[0] != '0',
    ensures
        dec_digits(digits_value(s)) == s,
    decreases s.len(),
{
    assert(is_digit_char(s[s.len() - 1]));
    assert(s.last() == s[s.len() - 1]);
    if s.len() == 1 {
        assert(s.drop_last() =~= Seq::<char>::empty());
        assert(digits_value(Seq::<char>::empty()) == 0);
        assert(digits_value(s) == digit_val(s[0]));
        assert(dec_digit_char(digit_val(s[0])) == s[0]);
        assert(dec_digits(digits_value(s)) =~= s);
    } else {
        let s0 = s.drop_last();
        let d = digit_val(s.last());
        let v0 = digits_value(s0);
        let v = digits_value(s);
        assert(s0[0] == s[0]);
        lemma_digits_value_positive(s0);
        assert(v == v0 * 10 + d);
        assert(d < 10);
        assert(v >= 10);
        vstd::arithmetic::div_mod::lemma_fundamental_div_mod_converse(
            v as int,
            10,
            v0 as int,
            d as int,
        );
        assert(v / 10 == v0);
        assert(v % 10 == d);
        lemma_decimal_round_trip(s0);
        assert(dec_digits(v) == dec_digits(v0).push(dec_digit_char(d)));
        assert(dec_digit_char(digit_val(s.last())) == s.last());
        assert(s0.push(s.last()) =~= s);
    }
}

// --- the token that starts at a given position -----------------------------

/// Where scanning resumes after the token that starts at `i`.
pub open spec fn token_end(s: Seq<char>, i: int) -> int
    recommends
        0 <= i < s.len(),
{
    if is_ws_char(s[i]) {
        ws_end(s, i)
    } else if is_digit_char(s[i]) {
        digit_end(s, i)
    } else {
        i + 1
    }
}

/// The token that the lexer produces at position `i`: a greedy whitespace or
/// digit run, a single-character operator or parenthesis, or a `Bad` token
/// that consumes one character and carries empty text.
pub open spec fn spec_token_at(s: Seq<char>, i: int) -> SpecToken
    recommends
        0 <= i < s.len(),
{
    let c = s[i];
    if is_ws_char(c) {
        SpecToken { text: s.subrange(i, ws_end(s, i)), kind: TokenKind::Whitespace }
    } else if is_digit_char(c) {
        SpecToken {
            text: s.subrange(i, digit_end(s, i)),
            kind: TokenKind::Number(parse_digits(s.subrange(i, digit_end(s, i)))),
        }
    } else if c == '+' {
        SpecToken { text: s.subrange(i, i + 1), kind: TokenKind::Plus }
    } else if c == '-' {
        SpecToken { text: s.subrange(i, i + 1), kind: TokenKind::Minus }
    } else if c == '*' {
        SpecToken { text: s.subrange(i, i + 1), kind: TokenKind::Star }
    } else if c == '/' {
        SpecToken { text: s.subrange(i, i + 1), kind: TokenKind::Slash }
    } else if c == '(' {
        SpecToken { text: s.subrange(i, i + 1), kind: TokenKind::OpenParen }
    } else if c == ')' {
        SpecToken { text: s.subrange(i, i + 1), kind: TokenKind::CloseParen }
    } else {
        SpecToken { text: Seq::empty(), kind: TokenKind::Bad }
    }
}

/// Every token consumes at least one character, so scanning advances.
pub proof fn lemma_token_end(s: Seq<char>, i: int)
    requires
        0 <= i < s.len(),
    ensures
        i < token_end(s, i) <= s.len(),
{
    if is_ws_char(s[i]) {
        lemma_ws_end(s, i + 1);
        assert(ws_end(s, i) == ws_end(s, i + 1));
    } else if is_digit_char(s[i]) {
        lemma_digit_end(s, i + 1);
        assert(digit_end(s, i) == digit_end(s, i + 1));
    }
}

/// A single unrecognized character lexes to exactly one `Bad` token: it
/// carries empty text, and scanning resumes at the very next character.
pub proof fn lemma_unrecognized_char(s: Seq<char>, i: int)
    requires
        0 <= i < s.len(),
        !is_ws_char(s[i]),
        !is_digit_char(s[i]),
        s[i] != '+',
        s[i] != '-',
        s[i] != '*',
        s[i] != '/',
        s[i] != '(',
        s[i] != ')',
    ensures
        spec_token_at(s, i).kind is Bad,
        spec_token_at(s, i).text.len() == 0,
        token_end(s, i) == i + 1,
{
}

// --- the lexer -------------------------------------------------------------

/// Scans the source text character by character, one token per step.
///
/// The lexer owns the single current-token slot and overwrites it on each
/// call of [`Lexer::next`]; it never fails — unrecognized input degrades to
/// `Bad` tokens and numeric overflow is carried inside the `Number` token.
pub struct Lexer {
    /// The full source text, fixed for the lexer's lifetime.
    pub text: Vec<char>,
    /// Cursor into `text`; runs one past the end once the input is exhausted.
    pub position: usize,
    /// The token produced by the most recent step.
    pub current: Token,
}

impl Lexer {
    pub open spec fn wf(self) -> bool {
        &&& self.text@.len() < usize::MAX
        &&& self.position <= self.text@.len() + 1
    }

    /// A fresh lexer bound to the full source text, with the current-token
    /// slot primed to end-of-file until the first step.
    pub fn new(text: Vec<char>) -> (lx: Lexer)
        requires
            text@.len() < usize::MAX,
        ensures
            lx.wf(),
            lx.text@ == text@,
            lx.position == 0,
            lx.current@ == eof_token(),
    {
        Lexer { text, position: 0, current: make_eof_token() }
    }

    /// Advances by one logical token and overwrites the current-token slot.
    ///
    /// Past the end of the input the slot keeps holding `EndOfFile`; the
    /// cursor advances once past the logical end and then stays put, so
    /// further calls are idempotent.
    pub fn next(&mut self)
        requires
            old(self).wf(),
        ensures
            final(self).wf(),
            final(self).text@ == old(self).text@,
            ({
                let s = old(self).text@;
                let i = old(self).position as int;
                if i < s.len() {
                    final(self).current@ == spec_token_at(s, i) && final(self).position
                        == token_end(s, i)
                } else {
                    final(self).current@ == eof_token() && final(self).position == (
                    if i == s.len() {
                        i + 1
                    } else {
                        i
                    })
                }
            }),
    {
        let n = self.text.len();
        let pos = self.position;
        if pos >= n {
            if pos == n {
                self.position = pos + 1;
            }
            self.current = make_eof_token();
            return;
        }
        let c = self.text[pos];
        if ws_char(c) {
            let j = scan_ws(&self.text, pos);
            let text = copy_range(&self.text, pos, j);
            self.current = Token { text, kind: TokenKind::Whitespace };
            self.position = j;
        } else if digit_char(c) {
            let (j, value) = scan_number(&self.text, pos);
            let text = copy_range(&self.text, pos, j);
            self.current = Token { text, kind: TokenKind::Number(value) };
            self.position = j;
        } else if c == '+' {
            let text = copy_range(&self.text, pos, pos + 1);
            self.current = Token { text, kind: TokenKind::Plus };
            self.position = pos + 1;
        } else if c == '-' {
            let text = copy_range(&self.text, pos, pos + 1);
            self.current = Token { text, kind: TokenKind::Minus };
            self.position = pos + 1;
        } else if c == '*' {
            let text = copy_range(&self.text, pos, pos + 1);
            self.current = Token { text, kind: TokenKind::Star };
            self.position = pos + 1;
        } else if c == '/' {
            let text = copy_range(&self.text, pos, pos + 1);
            self.current = Token { text, kind: TokenKind::Slash };
            self.position = pos + 1;
        } else if c == '(' {
            let text = copy_range(&self.text, pos, pos + 1);
            self.current = Token { text, kind: TokenKind::OpenParen };
            self.position = pos + 1;
        } else if c == ')' {
            let text = copy_range(&self.text, pos, pos + 1);
            self.current = Token { text, kind: TokenKind::CloseParen };
            self.position = pos + 1;
        } else {
            self.current = Token { text: Vec::new(), kind: TokenKind::Bad };
            self.position = pos + 1;
            proof {
                assert(self.current@.text =~= spec_token_at(old(self).text@, pos as int).text);
            }
        }
    }
}

/// Copies `v[i..j]` into a fresh vector.
fn copy_range(v: &Vec<char>, i: usize, j: usize) -> (r: Vec<char>)
    requires
        i <= j <= v@.len(),
    ensures
        r@ == v@.subrange(i as int, j as int),
{
    let mut r: Vec<char> = Vec::new();
    let mut k = i;
    while k < j
        invariant
            i <= k <= j <= v@.len(),
            r@ == v@.subrange(i as int, k as int),
        decreases j - k,
    {
        r.push(v[k]);
        proof {
            assert(v@.subrange(i as int, k + 1 as int) =~= v@.subrange(i as int, k as int).push(
                v@[k as int],
            ));
        }
        k = k + 1;
    }
    r
}

/// Greedily consumes the whitespace run that starts at `start`.
fn scan_ws(text: &Vec<char>, start: usize) -> (j: usize)
    requires
        start < text@.len(),
        is_ws_char(text@[start as int]),
    ensures
        j == ws_end(text@, start as int),
        start < j <= text@.len(),
{
    let n = text.len();
    let mut j = start + 1;
    proof {
        assert(ws_end(text@, start as int) == ws_end(text@, start + 1 as int));
    }
    loop
        invariant
            start < j <= n,
            n == text@.len(),
            ws_end(text@, start as int) == ws_end(text@, j as int),
        ensures
            start < j <= n,
            j == ws_end(text@, start as int),
        decreases n - j,
    {
        if j == n {
            break;
        }
        if !ws_char(text[j]) {
            break;
        }
        proof {
            assert(ws_end(text@, j as int) == ws_end(text@, j + 1 as int));
        }
        j = j + 1;
    }
    j
}

/// Greedily consumes the digit run that starts at `start` and parses it,
/// reporting overflow of the `i64` range as `None`.
fn scan_number(text: &Vec<char>, start: usize) -> (res: (usize, Option<i64>))
    requires
        start < text@.len(),
        is_digit_char(text@[start as int]),
    ensures
        res.0 == digit_end(text@, start as int),
        start < res.0 <= text@.len(),
        res.1 == parse_digits(text@.subrange(start as int, res.0 as int)),
{
    let n = text.len();
    let mut j = start + 1;
    let mut acc: u64 = digit_value(text[start]);
    let mut over: bool = false;
    proof {
        assert(digit_end(text@, start as int) == digit_end(text@, start + 1 as int));
        let p = text@.subrange(start as int, start + 1 as int);
        assert(p.drop_last() =~= Seq::<char>::empty());
        assert(p.last() == text@[start as int]);
        assert(digits_value(Seq::<char>::empty()) == 0);
        assert(digits_value(p) == digit_val(text@[start as int]));
    }
    loop
        invariant
            start < j <= n,
            n == text@.len(),
            digit_end(text@, start as int) == digit_end(text@, j as int),
            !over ==> acc == digits_value(text@.subrange(start as int, j as int)) && acc
                <= i64::MAX,
            over ==> digits_value(text@.subrange(start as int, j as int)) > i64::MAX,
        ensures
            start < j <= n,
            j == digit_end(text@, start as int),
            !over ==> acc == digits_value(text@.subrange(start as int, j as int)) && acc
                <= i64::MAX,
            over ==> digits_value(text@.subrange(start as int, j as int)) > i64::MAX,
        decreases n - j,
    {
        if j == n {
            break;
        }
        let c = text[j];
        if !digit_char(c) {
            break;
        }
        proof {
            assert(digit_end(text@, j as int) == digit_end(text@, j + 1 as int));
            let p = text@.subrange(start as int, j as int);
            let q = text@.subrange(start as int, j + 1 as int);
            assert(q.drop_last() =~= p);
            assert(q.last() == text@[j as int]);
            assert(digits_value(q) == digits_value(p) * 10 + digit_val(text@[j as int]));
        }
        let d = digit_value(c);
        if !over {
            if acc > 922337203685477580u64 || (acc == 922337203685477580u64 && d > 7) {
                over = true;
            } else {
                acc = acc * 10 + d;
            }
        }
        j = j + 1;
    }
    if over {
        (j, None)
    } else {
        (j, Some(acc as i64))
    }
}

} // verus!
