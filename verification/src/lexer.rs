//! The tokenizer: raw text to a flat token sequence.
//!
//! The surface syntax has parentheses, decimal number literals, identifiers,
//! and the reserved words `def`, `lambda`, `if`, `true` and `false`, which
//! lex to dedicated tokens rather than identifiers. Two adjacent atoms must
//! be separated by whitespace or a parenthesis; a missing separator, like an
//! illegal character, is a tokenize error. The function [`lex`] gives the
//! token stream of any text; [`tokenize`] is proved to return exactly that.

use crate::error::Error;
use crate::numeric::parse_bits;
use crate::numeric::single_of_decimal;
use crate::str_eq;
use vstd::prelude::*;
use vstd::string::StrSliceExecFns;

verus! {

/// One lexical token.
#[derive(Clone, Debug, PartialEq, Eq)]
pub enum Token {
    OpenParen,
    CloseParen,
    Def,
    Lambda,
    If,
    Ident(String),
    Dot,
    Number(u32),
    Bool(bool),
}

/// The ghost abstraction of a [`Token`].
pub ghost enum TokenV {
    OpenParen,
    CloseParen,
    Def,
    Lambda,
    If,
    Ident(Seq<char>),
    Dot,
    Number(u32),
    Bool(bool),
}

impl DeepView for Token {
    type V = TokenV;

    open spec fn deep_view(&self) -> TokenV {
        match self {
            Token::OpenParen => TokenV::OpenParen,
            Token::CloseParen => TokenV::CloseParen,
            Token::Def => TokenV::Def,
            Token::Lambda => TokenV::Lambda,
            Token::If => TokenV::If,
            Token::Ident(s) => TokenV::Ident(s@),
            Token::Dot => TokenV::Dot,
            Token::Number(b) => TokenV::Number(*b),
            Token::Bool(b) => TokenV::Bool(*b),
        }
    }
}

/// Whether a character may begin an identifier: an ASCII letter or one of
/// the operator characters.
pub open spec fn is_ident_initial_spec(c: char) -> bool {
    (97 <= c as int <= 122) || (65 <= c as int <= 90) || c == '+' || c == '-' || c == '*' || c
        == '/' || c == '<' || c == '=' || c == '>' || c == '!' || c == '?' || c == ':' || c == '$'
        || c == '%' || c == '_' || c == '&' || c == '~' || c == '^'
}

/// Whether a character is an ASCII decimal digit.
pub open spec fn is_digit_spec(c: char) -> bool {
    48 <= c as int <= 57
}

/// Whether a character may continue an identifier: an initial character, a
/// digit, or a dot.
pub open spec fn is_ident_subsequent_spec(c: char) -> bool {
    is_ident_initial_spec(c) || is_digit_spec(c) || c == '.'
}

/// Whether a character is whitespace, by the Unicode White_Space property.
pub open spec fn is_white_spec(c: char) -> bool {
    (9 <= c as int <= 13) || c as int == 32 || c as int == 0x85 || c as int == 0xa0 || c as int
        == 0x1680 || (0x2000 <= c as int <= 0x200a) || c as int == 0x2028 || c as int == 0x2029
        || c as int == 0x202f || c as int == 0x205f || c as int == 0x3000
}

/// Whether a character may begin an identifier.
pub fn is_ident_initial(c: char) -> (r: bool)
    ensures
        r == is_ident_initial_spec(c),
{
    let u = c as u32;
    (u >= 97 && u <= 122) || (u >= 65 && u <= 90) || c == '+' || c == '-' || c == '*' || c == '/'
        || c == '<' || c == '=' || c == '>' || c == '!' || c == '?' || c == ':' || c == '$' || c
        == '%' || c == '_' || c == '&' || c == '~' || c == '^'
}

fn is_digit(c: char) -> (r: bool)
    ensures
        r == is_digit_spec(c),
{
    let u = c as u32;
    u >= 48 && u <= 57
}

/// Whether a character may continue an identifier.
pub fn is_ident_subsequent(c: char) -> (r: bool)
    ensures
        r == is_ident_subsequent_spec(c),
{
    is_ident_initial(c) || is_digit(c) || c == '.'
}

fn is_white(c: char) -> (r: bool)
    ensures
        r == is_white_spec(c),
{
    let u = c as u32;
    (u >= 9 && u <= 13) || u == 32 || u == 0x85 || u == 0xa0 || u == 0x1680 || (u >= 0x2000 && u
        <= 0x200a) || u == 0x2028 || u == 0x2029 || u == 0x202f || u == 0x205f || u == 0x3000
}

/// The position right after the run of digits starting at `i`.
pub open spec fn digits_end(s: Seq<char>, i: int) -> int
    decreases s.len() - i
        when 0 <= i <= s.len()
{
    if i < s.len() && is_digit_spec(s[i]) {
        digits_end(s, i + 1)
    } else {
        i
    }
}

/// The position right after the run of identifier characters starting at `i`.
pub open spec fn ident_end(s: Seq<char>, i: int) -> int
    decreases s.len() - i
        when 0 <= i <= s.len()
{
    if i < s.len() && is_ident_subsequent_spec(s[i]) {
        ident_end(s, i + 1)
    } else {
        i
    }
}

/// The position right after the run of whitespace starting at `i`.
pub open spec fn ws_end(s: Seq<char>, i: int) -> int
    decreases s.len() - i
        when 0 <= i <= s.len()
{
    if i < s.len() && is_white_spec(s[i]) {
        ws_end(s, i + 1)
    } else {
        i
    }
}

pub proof fn lemma_digits_end(s: Seq<char>, i: int)
    requires
        0 <= i <= s.len(),
    ensures
        i <= digits_end(s, i) <= s.len(),
    decreases s.len() - i,
{
    if i < s.len() && is_digit_spec(s[i]) {
        lemma_digits_end(s, i + 1);
    }
}

pub proof fn lemma_ident_end(s: Seq<char>, i: int)
    requires
        0 <= i <= s.len(),
    ensures
        i <= ident_end(s, i) <= s.len(),
    decreases s.len() - i,
{
    if i < s.len() && is_ident_subsequent_spec(s[i]) {
        lemma_ident_end(s, i + 1);
    }
}

pub proof fn lemma_ws_end(s: Seq<char>, i: int)
    requires
        0 <= i <= s.len(),
    ensures
        i <= ws_end(s, i) <= s.len(),
    decreases s.len() - i,
{
    if i < s.len() && is_white_spec(s[i]) {
        lemma_ws_end(s, i + 1);
    }
}

/// The position right after the number literal that begins at `start` with a
/// digit or a dot: its leading digits, and, where the literal did not begin
/// with a dot, one dot followed by at least one more digit.
pub open spec fn number_end(s: Seq<char>, start: int) -> int
    recommends
        0 <= start < s.len(),
{
    let j = digits_end(s, start + 1);
    if s[start] != '.' && j < s.len() && s[j] == '.' && j + 1 < s.len() && is_digit_spec(s[j + 1]) {
        digits_end(s, j + 1)
    } else {
        j
    }
}

/// The token a word lexes to: a reserved word's dedicated token, a boolean
/// literal, or a plain identifier.
pub open spec fn keyword_or_ident(w: Seq<char>) -> TokenV {
    if w == "def"@ {
        TokenV::Def
    } else if w == "lambda"@ {
        TokenV::Lambda
    } else if w == "if"@ {
        TokenV::If
    } else if w == "true"@ {
        TokenV::Bool(true)
    } else if w == "false"@ {
        TokenV::Bool(false)
    } else {
        TokenV::Ident(w)
    }
}

/// Whether the separator rule holds after a non-parenthesis token ending at
/// `end`: what follows, if anything, must be a parenthesis or whitespace.
pub open spec fn sep_ok(s: Seq<char>, end: int) -> bool {
    !(end < s.len() && s[end] != '(' && s[end] != ')' && !is_white_spec(s[end]))
}

/// Where lexing resumes after a non-parenthesis token ending at `end`: any
/// whitespace separator is consumed along with the token.
pub open spec fn next_pos(s: Seq<char>, end: int) -> int {
    if end < s.len() && s[end] != '(' && s[end] != ')' {
        ws_end(s, end)
    } else {
        end
    }
}

/// Prepends a token to a lexing result.
pub open spec fn lex_cons(t: TokenV, rest: Result<Seq<TokenV>, Error>) -> Result<
    Seq<TokenV>,
    Error,
> {
    match rest {
        Ok(ts) => Ok(seq![t] + ts),
        Err(e) => Err(e),
    }
}

/// The token stream of the text from position `i` on, or the error lexing
/// stops with.
pub open spec fn lex(s: Seq<char>, i: int) -> Result<Seq<TokenV>, Error>
    decreases s.len() - i
        when 0 <= i <= s.len()
        via lex_decreases
{
    if i >= s.len() {
        Ok(Seq::<TokenV>::empty())
    } else {
        let c = s[i];
        if c == '(' {
            lex_cons(TokenV::OpenParen, lex(s, i + 1))
        } else if c == ')' {
            lex_cons(TokenV::CloseParen, lex(s, i + 1))
        } else if is_white_spec(c) {
            lex(s, i + 1)
        } else if c == '.' && !(i + 1 < s.len() && is_digit_spec(s[i + 1])) {
            if sep_ok(s, i + 1) {
                lex_cons(TokenV::Dot, lex(s, next_pos(s, i + 1)))
            } else {
                Err(Error::TokenizeError)
            }
        } else if c == '.' || is_digit_spec(c) {
            let end = number_end(s, i);
            match single_of_decimal(s.subrange(i, end)) {
                Some(bits) => if sep_ok(s, end) {
                    lex_cons(TokenV::Number(bits), lex(s, next_pos(s, end)))
                } else {
                    Err(Error::TokenizeError)
                },
                None => Err(Error::TokenizeError),
            }
        } else if is_ident_initial_spec(c) {
            let end = ident_end(s, i + 1);
            if sep_ok(s, end) {
                lex_cons(keyword_or_ident(s.subrange(i, end)), lex(s, next_pos(s, end)))
            } else {
                Err(Error::TokenizeError)
            }
        } else {
            Err(Error::TokenizeError)
        }
    }
}

#[via_fn]
proof fn lex_decreases(s: Seq<char>, i: int) {
    if 0 <= i < s.len() {
        lemma_digits_end(s, i + 1);
        lemma_ident_end(s, i + 1);
        lemma_ws_end(s, i + 1);
        let j = digits_end(s, i + 1);
        if j + 1 <= s.len() {
            lemma_digits_end(s, j + 1);
        }
        let dend = ident_end(s, i + 1);
        if dend <= s.len() {
            lemma_ws_end(s, dend);
        }
        let nend = number_end(s, i);
        if i < nend <= s.len() {
            lemma_ws_end(s, nend);
        }
        if i + 1 <= s.len() {
            lemma_ws_end(s, i + 1);
        }
    }
}

/// Scans the run of digits starting at `start`.
fn scan_digits(text: &str, start: usize) -> (r: usize)
    requires
        start <= text@.len(),
    ensures
        r as int == digits_end(text@, start as int),
        start <= r,
        r <= text@.len(),
{
    let n = text.unicode_len();
    let mut i = start;
    while i < n
        invariant
            start <= i <= n,
            n == text@.len(),
            digits_end(text@, start as int) == digits_end(text@, i as int),
        decreases n - i,
    {
        if !is_digit(text.get_char(i)) {
            return i;
        }
        i = i + 1;
    }
    i
}

/// Scans the run of identifier characters starting at `start`.
fn scan_ident(text: &str, start: usize) -> (r: usize)
    requires
        start <= text@.len(),
    ensures
        r as int == ident_end(text@, start as int),
        start <= r,
        r <= text@.len(),
{
    let n = text.unicode_len();
    let mut i = start;
    while i < n
        invariant
            start <= i <= n,
            n == text@.len(),
            ident_end(text@, start as int) == ident_end(text@, i as int),
        decreases n - i,
    {
        if !is_ident_subsequent(text.get_char(i)) {
            return i;
        }
        i = i + 1;
    }
    i
}

/// Consumes the run of whitespace starting at `start`, returning the first
/// position past it.
fn consume_whitespace(text: &str, start: usize) -> (r: usize)
    requires
        start <= text@.len(),
    ensures
        r as int == ws_end(text@, start as int),
        start <= r,
        r <= text@.len(),
{
    let n = text.unicode_len();
    let mut i = start;
    while i < n
        invariant
            start <= i <= n,
            n == text@.len(),
            ws_end(text@, start as int) == ws_end(text@, i as int),
        decreases n - i,
    {
        if !is_white(text.get_char(i)) {
            return i;
        }
        i = i + 1;
    }
    i
}

/// Enforces the separator rule after a non-parenthesis token ending at
/// `end`, consuming the whitespace separator if one is there.
fn next_after_token(text: &str, end: usize) -> (r: Result<usize, Error>)
    requires
        end <= text@.len(),
    ensures
        match r {
            Ok(p) => sep_ok(text@, end as int) && p as int == next_pos(text@, end as int) && end
                <= p <= text@.len(),
            Err(e) => !sep_ok(text@, end as int) && e == Error::TokenizeError,
        },
{
    let n = text.unicode_len();
    if end < n {
        let c = text.get_char(end);
        if c != '(' && c != ')' {
            let w = consume_whitespace(text, end);
            if w == end {
                proof {
                    if is_white_spec(text@[end as int]) {
                        lemma_ws_end(text@, end as int + 1);
                    }
                }
                return Err(Error::TokenizeError);
            }
            Ok(w)
        } else {
            Ok(end)
        }
    } else {
        Ok(end)
    }
}

/// Lexes the number literal beginning at `start` with a digit or a dot,
/// returning its token and the position right after it.
fn tokenize_num(text: &str, start: usize) -> (r: Result<(Token, usize), Error>)
    requires
        start < text@.len(),
        text@[start as int] == '.' || is_digit_spec(text@[start as int]),
    ensures
        ({
            let end = number_end(text@, start as int);
            match single_of_decimal(text@.subrange(start as int, end)) {
                Some(bits) => r matches Ok(p) && p.0 == Token::Number(bits) && p.1 as int == end
                    && start < p.1 <= text@.len(),
                None => r == Err::<(Token, usize), Error>(Error::TokenizeError),
            }
        }),
{
    proof {
        lemma_digits_end(text@, start as int + 1);
    }
    let n = text.unicode_len();
    let j = scan_digits(text, start + 1);
    let end: usize = if text.get_char(start) != '.' && j < n && text.get_char(j) == '.' && j + 1 < n
        && is_digit(text.get_char(j + 1)) {
        proof {
            lemma_digits_end(text@, j as int + 1);
        }
        scan_digits(text, j + 1)
    } else {
        j
    };
    let lexeme = text.substring_char(start, end);
    match parse_bits(lexeme) {
        Some(bits) => Ok((Token::Number(bits), end)),
        None => Err(Error::TokenizeError),
    }
}

/// Lexes the word beginning at `start` with an identifier-initial character,
/// returning its token — a reserved word's token or an identifier — and the
/// position right after it.
fn tokenize_ident_or_reserved(text: &str, start: usize) -> (r: (Token, usize))
    requires
        start < text@.len(),
        is_ident_initial_spec(text@[start as int]),
    ensures
        r.1 as int == ident_end(text@, start as int + 1),
        start < r.1 <= text@.len(),
        r.0.deep_view() == keyword_or_ident(text@.subrange(start as int, r.1 as int)),
{
    proof {
        lemma_ident_end(text@, start as int + 1);
    }
    let n = text.unicode_len();
    let end = scan_ident(text, start + 1);
    let lexeme = text.substring_char(start, end);
    proof {
        reveal_strlit("def");
        reveal_strlit("lambda");
        reveal_strlit("if");
        reveal_strlit("true");
        reveal_strlit("false");
    }
    let token = if str_eq(lexeme, "def") {
        Token::Def
    } else if str_eq(lexeme, "lambda") {
        Token::Lambda
    } else if str_eq(lexeme, "if") {
        Token::If
    } else if str_eq(lexeme, "true") {
        Token::Bool(true)
    } else if str_eq(lexeme, "false") {
        Token::Bool(false)
    } else {
        Token::Ident(lexeme.to_owned())
    };
    (token, end)
}

/// Tokenizes a whole text: returns exactly the token stream that [`lex`]
/// assigns to it, or the tokenize error [`lex`] stops with.
pub fn tokenize(text: &str) -> (r: Result<Vec<Token>, Error>)
    ensures
        (match r {
            Ok(v) => Ok::<Seq<TokenV>, Error>(v.deep_view()),
            Err(e) => Err(e),
        }) == lex(text@, 0),
{
    let mut result: Vec<Token> = Vec::new();
    let n = text.unicode_len();
    let mut i: usize = 0;
    while i < n
        invariant
            i <= n,
            n == text@.len(),
            lex(text@, 0) == (match lex(text@, i as int) {
                Ok(ts) => Ok::<Seq<TokenV>, Error>(result.deep_view() + ts),
                Err(e) => Err::<Seq<TokenV>, Error>(e),
            }),
        decreases n - i,
    {
        let ghost prev = result.deep_view();
        let c = text.get_char(i);
        if c == '(' {
            result.push(Token::OpenParen);
            proof {
                assert(result.deep_view() =~= prev.push(TokenV::OpenParen));
                lemma_push_token(
                    prev,
                    result.deep_view(),
                    TokenV::OpenParen,
                    lex(text@, i as int + 1),
                );
            }
            i = i + 1;
        } else if c == ')' {
            result.push(Token::CloseParen);
            proof {
                assert(result.deep_view() =~= prev.push(TokenV::CloseParen));
                lemma_push_token(
                    prev,
                    result.deep_view(),
                    TokenV::CloseParen,
                    lex(text@, i as int + 1),
                );
            }
            i = i + 1;
        } else if is_white(c) {
            i = i + 1;
        } else if c == '.' && !(i + 1 < n && is_digit(text.get_char(i + 1))) {
            match next_after_token(text, i + 1) {
                Err(e) => {
                    return Err(e);
                },
                Ok(p) => {
                    result.push(Token::Dot);
                    proof {
                        assert(result.deep_view() =~= prev.push(TokenV::Dot));
                        lemma_push_token(
                            prev,
                            result.deep_view(),
                            TokenV::Dot,
                            lex(text@, p as int),
                        );
                    }
                    i = p;
                },
            }
        } else if c == '.' || is_digit(c) {
            match tokenize_num(text, i) {
                Err(e) => {
                    return Err(e);
                },
                Ok((t, end)) => {
                    match next_after_token(text, end) {
                        Err(e) => {
                            return Err(e);
                        },
                        Ok(p) => {
                            let ghost tv = t.deep_view();
                            result.push(t);
                            proof {
                                assert(result.deep_view() =~= prev.push(tv));
                                lemma_push_token(prev, result.deep_view(), tv, lex(text@, p as int));
                            }
                            i = p;
                        },
                    }
                },
            }
        } else if is_ident_initial(c) {
            let (t, end) = tokenize_ident_or_reserved(text, i);
            match next_after_token(text, end) {
                Err(e) => {
                    return Err(e);
                },
                Ok(p) => {
                    let ghost tv = t.deep_view();
                    result.push(t);
                    proof {
                        assert(result.deep_view() =~= prev.push(tv));
                        lemma_push_token(prev, result.deep_view(), tv, lex(text@, p as int));
                    }
                    i = p;
                },
            }
        } else {
            return Err(Error::TokenizeError);
        }
    }
    proof {
        assert(result.deep_view() + Seq::<TokenV>::empty() =~= result.deep_view());
    }
    Ok(result)
}

/// Pushing one token onto the collected prefix commutes with prepending its
/// view to the remaining stream.
proof fn lemma_push_token(
    prev: Seq<TokenV>,
    cur: Seq<TokenV>,
    t: TokenV,
    rest: Result<Seq<TokenV>, Error>,
)
    requires
        cur == prev.push(t),
    ensures
        match rest {
            Ok(ts) => prev + (seq![t] + ts) =~= cur + ts,
            Err(e) => true,
        },
{
    match rest {
        Ok(ts) => {
            assert(prev + (seq![t] + ts) =~= cur + ts);
        },
        Err(_) => {},
    }
}

} // verus!
