//! The parser: a flat token sequence to one expression tree.
//!
//! One expression per input: a number, boolean, identifier or reserved word
//! stands alone, and a parenthesized group becomes a list node whose elements
//! are parsed from the balanced sub-groups between its parentheses. The
//! function [`parse_spec`] gives the expression of any token sequence;
//! [`parse`] is proved to return exactly that. Tokens after a complete first
//! expression are ignored, as the grammar reads one expression per line.

use crate::error::Error;
use crate::expression::Exp;
use crate::expression::ExpV;
use crate::expression::SpecialFormFn;
use crate::expression::exps_deep;
use crate::expression::lemma_exps_deep;
use crate::expression::res_deep;
use crate::lexer::Token;
use crate::lexer::TokenV;
use crate::list::List;
use vstd::prelude::*;
use vstd::slice::slice_subrange;

verus! {

/// How a token moves the parenthesis depth.
pub open spec fn paren_delta(t: TokenV) -> int {
    match t {
        TokenV::OpenParen => 1,
        TokenV::CloseParen => -1,
        _ => 0,
    }
}

/// The index at which the running parenthesis depth, `depth` just after
/// position `i`, first returns to zero; nothing if it never does. This is
/// the closing parenthesis of the group under scan.
pub open spec fn find_close(tokens: Seq<TokenV>, i: int, depth: int) -> Option<int>
    decreases tokens.len() - i
        when 0 <= i < tokens.len()
{
    if i + 1 >= tokens.len() {
        None
    } else {
        let d = depth + paren_delta(tokens[i + 1]);
        if d == 0 {
            Some(i + 1)
        } else {
            find_close(tokens, i + 1, d)
        }
    }
}

/// A found closing parenthesis lies strictly between the scan position and
/// the end of the tokens.
pub proof fn lemma_find_close(tokens: Seq<TokenV>, i: int, depth: int)
    requires
        0 <= i < tokens.len(),
    ensures
        match find_close(tokens, i, depth) {
            Some(c) => i < c < tokens.len(),
            None => true,
        },
    decreases tokens.len() - i,
{
    if i + 1 < tokens.len() {
        let d = depth + paren_delta(tokens[i + 1]);
        if d != 0 {
            lemma_find_close(tokens, i + 1, d);
        }
    }
}

/// The expression a token sequence parses to: an atom from its first token,
/// or, after an opening parenthesis, a list of the expressions parsed from
/// the balanced groups before the final token, which must be a closing
/// parenthesis. An empty sequence, a leading token no expression starts
/// with, an unterminated group, or a missing final parenthesis is an error.
pub open spec fn parse_spec(tokens: Seq<TokenV>) -> Result<ExpV, Error>
    decreases tokens.len(), tokens.len() + 1
        via parse_spec_decreases
{
    if tokens.len() == 0 {
        Err(Error::ParseError)
    } else {
        match tokens[0] {
            TokenV::Number(b) => Ok(ExpV::Number(b)),
            TokenV::Bool(b) => Ok(ExpV::Bool(b)),
            TokenV::Ident(s) => Ok(ExpV::Ident(s)),
            TokenV::If => Ok(ExpV::SpecialForm(SpecialFormFn::If)),
            TokenV::Def => Ok(ExpV::SpecialForm(SpecialFormFn::Def)),
            TokenV::Lambda => Ok(ExpV::SpecialForm(SpecialFormFn::Lambda)),
            TokenV::OpenParen => {
                match parse_items(tokens, 1) {
                    Err(e) => Err(e),
                    Ok(elems) => if tokens.last() == TokenV::CloseParen {
                        Ok(ExpV::List(elems))
                    } else {
                        Err(Error::ParseError)
                    },
                }
            },
            _ => Err(Error::ParseError),
        }
    }
}

/// The expressions parsed from the balanced groups between position `idx`
/// and the final token: each group is one parenthesized span or one single
/// token, and each parses recursively.
pub open spec fn parse_items(tokens: Seq<TokenV>, idx: int) -> Result<Seq<ExpV>, Error>
    decreases tokens.len(), tokens.len() - idx
        when 1 <= idx
        via parse_items_decreases
{
    if idx >= tokens.len() - 1 {
        Ok(Seq::<ExpV>::empty())
    } else {
        if tokens[idx] == TokenV::OpenParen {
            match find_close(tokens, idx, 1) {
                None => Err(Error::ParseError),
                Some(close) => {
                    match parse_spec(tokens.subrange(idx, close + 1)) {
                        Err(e) => Err(e),
                        Ok(v) => match parse_items(tokens, close + 1) {
                            Err(e) => Err(e),
                            Ok(rest) => Ok(seq![v] + rest),
                        },
                    }
                },
            }
        } else {
            match parse_spec(tokens.subrange(idx, idx + 1)) {
                Err(e) => Err(e),
                Ok(v) => match parse_items(tokens, idx + 1) {
                    Err(e) => Err(e),
                    Ok(rest) => Ok(seq![v] + rest),
                },
            }
        }
    }
}

#[via_fn]
proof fn parse_spec_decreases(tokens: Seq<TokenV>) {
}

#[via_fn]
proof fn parse_items_decreases(tokens: Seq<TokenV>, idx: int) {
    if 1 <= idx < tokens.len() - 1 {
        lemma_find_close(tokens, idx, 1);
    }
}

/// Parses one expression from a token sequence; returns exactly what
/// [`parse_spec`] assigns to it.
pub fn parse(tokens: &[Token]) -> (r: Result<Exp, Error>)
    ensures
        res_deep(r) == parse_spec(tokens.deep_view()),
    decreases tokens@.len(), tokens@.len() + 1,
{
    let ghost td = tokens.deep_view();
    let n = tokens.len();
    if n == 0 {
        return Err(Error::ParseError);
    }
    proof {
        assert(td[0] == tokens@[0].deep_view());
    }
    let first = &tokens[0];
    match first {
        Token::Number(b) => Ok(Exp::Number(*b)),
        Token::Bool(b) => Ok(Exp::Bool(*b)),
        Token::Ident(s) => Ok(Exp::Ident(s.clone())),
        Token::If => Ok(Exp::SpecialForm(SpecialFormFn::If)),
        Token::Def => Ok(Exp::SpecialForm(SpecialFormFn::Def)),
        Token::Lambda => Ok(Exp::SpecialForm(SpecialFormFn::Lambda)),
        Token::OpenParen => {
            let mut idx: usize = 1;
            let mut list_vec: Vec<Exp> = Vec::new();
            while idx < n - 1
                invariant
                    1 <= idx <= n,
                    n == tokens@.len(),
                    td == tokens.deep_view(),
                    td[0] == TokenV::OpenParen,
                    parse_items(td, 1) == (match parse_items(td, idx as int) {
                        Ok(rest) => Ok::<Seq<ExpV>, Error>(list_vec.deep_view() + rest),
                        Err(e) => Err::<Seq<ExpV>, Error>(e),
                    }),
                decreases n - idx,
            {
                let ghost i0 = idx as int;
                let ghost prev = list_vec.deep_view();
                proof {
                    assert(td[i0] == tokens@[i0].deep_view());
                }
                let is_open = match &tokens[idx] {
                    Token::OpenParen => true,
                    _ => false,
                };
                let sub: &[Token] = if is_open {
                    let begin = idx;
                    let mut depth: usize = 1;
                    loop
                        invariant_except_break
                            depth >= 1,
                            depth <= idx,
                            find_close(td, begin as int, 1) == find_close(
                                td,
                                idx as int,
                                depth as int,
                            ),
                        invariant
                            1 <= begin <= idx < n,
                            n == tokens@.len(),
                            td == tokens.deep_view(),
                            td[0] == TokenV::OpenParen,
                            begin as int == i0,
                            i0 < n - 1,
                            td[i0] == TokenV::OpenParen,
                            parse_items(td, 1) == (match parse_items(td, i0) {
                                Ok(rest) => Ok::<Seq<ExpV>, Error>(prev + rest),
                                Err(e) => Err::<Seq<ExpV>, Error>(e),
                            }),
                            prev == list_vec.deep_view(),
                        ensures
                            find_close(td, begin as int, 1) == Some(idx as int),
                            begin < idx < n,
                        decreases n - idx,
                    {
                        if idx + 1 >= n {
                            proof {
                                assert(find_close(td, idx as int, depth as int) is None);
                                assert(parse_items(td, i0) == Err::<Seq<ExpV>, Error>(
                                    Error::ParseError,
                                ));
                                assert(parse_items(td, 1) == Err::<Seq<ExpV>, Error>(
                                    Error::ParseError,
                                ));
                                assert(parse_spec(td) == Err::<ExpV, Error>(Error::ParseError))
                                    by {
                                    reveal_with_fuel(parse_spec, 2);
                                }
                            }
                            return Err(Error::ParseError);
                        }
                        proof {
                            assert(td[idx as int + 1] == tokens@[idx as int + 1].deep_view());
                        }
                        idx = idx + 1;
                        match &tokens[idx] {
                            Token::OpenParen => {
                                depth = depth + 1;
                            },
                            Token::CloseParen => {
                                depth = depth - 1;
                            },
                            _ => {},
                        }
                        if depth == 0 {
                            break ;
                        }
                    }
                    slice_subrange(tokens, begin, idx + 1)
                } else {
                    slice_subrange(tokens, idx, idx + 1)
                };
                let ghost lo = idx as int + 1 - sub@.len() as int;
                proof {
                    assert forall|k: int| 0 <= k < sub@.len() implies sub.deep_view()[k]
                        == td.subrange(lo, idx as int + 1)[k] by {
                        assert(sub.deep_view()[k] == sub@[k].deep_view());
                        assert(sub@[k] == tokens@[lo + k]);
                        assert(td[lo + k] == tokens@[lo + k].deep_view());
                    }
                    assert(sub.deep_view() =~= td.subrange(lo, idx as int + 1));
                }
                match parse(sub) {
                    Err(e) => {
                        proof {
                            if !is_open {
                                assert(td[i0] != TokenV::OpenParen);
                            }
                            assert(parse_items(td, i0) == Err::<Seq<ExpV>, Error>(e));
                            assert(parse_items(td, 1) == Err::<Seq<ExpV>, Error>(e));
                            assert(parse_spec(td) == Err::<ExpV, Error>(e)) by {
                                reveal_with_fuel(parse_spec, 2);
                            }
                        }
                        return Err(e);
                    },
                    Ok(v) => {
                        let ghost vv = v.deep_view();
                        list_vec.push(v);
                        proof {
                            if !is_open {
                                assert(td[i0] != TokenV::OpenParen);
                            }
                            assert(list_vec.deep_view() =~= prev.push(vv));
                            assert(parse_items(td, i0) == (match parse_items(td, idx as int + 1) {
                                Ok(rest) => Ok::<Seq<ExpV>, Error>(seq![vv] + rest),
                                Err(e) => Err::<Seq<ExpV>, Error>(e),
                            }));
                            match parse_items(td, idx as int + 1) {
                                Ok(rest) => {
                                    assert(prev + (seq![vv] + rest) =~= list_vec.deep_view()
                                        + rest);
                                },
                                Err(_) => {},
                            }
                        }
                        idx = idx + 1;
                    },
                }
            }
            proof {
                assert(td[n - 1] == tokens@[n - 1].deep_view());
                assert(parse_items(td, idx as int) == Ok::<Seq<ExpV>, Error>(
                    Seq::<ExpV>::empty(),
                ));
                assert(list_vec.deep_view() + Seq::<ExpV>::empty() =~= list_vec.deep_view());
            }
            let last = &tokens[n - 1];
            match last {
                Token::CloseParen => {
                    let ghost lvd = list_vec.deep_view();
                    let l = List::from_vec(list_vec);
                    proof {
                        lemma_exps_deep(&l);
                        assert forall|k: int| 0 <= k < lvd.len() implies exps_deep(l)[k]
                            == lvd[k] by {
                            assert(exps_deep(l)[k] == l@[k].deep_view());
                        }
                        assert(exps_deep(l) =~= lvd);
                    }
                    Ok(Exp::List(l))
                },
                _ => Err(Error::ParseError),
            }
        },
        _ => Err(Error::ParseError),
    }
}

/// One whole reading step: the token stream of the text, then the expression
/// of the tokens; the first stage's error if lexing fails.
pub open spec fn read_spec(s: Seq<char>) -> Result<ExpV, Error> {
    match crate::lexer::lex(s, 0) {
        Err(e) => Err(e),
        Ok(ts) => parse_spec(ts),
    }
}

/// Tokenizes and parses one input text; returns exactly what [`read_spec`]
/// assigns to it.
pub fn read(text: &str) -> (r: Result<Exp, Error>)
    ensures
        res_deep(r) == read_spec(text@),
{
    match crate::lexer::tokenize(text) {
        Err(e) => Err(e),
        Ok(tokens) => parse(tokens.as_slice()),
    }
}

/// Tokenizing followed by parsing is deterministic: it is a function of the
/// input text alone, so equal texts read to equal outcomes. It is also total
/// on syntactically balanced and unbalanced inputs alike — [`read_spec`] is
/// defined on every character sequence, and the executable [`read`] is
/// verified to return its value, never to crash.
pub proof fn lemma_read_deterministic(s1: Seq<char>, s2: Seq<char>)
    requires
        s1 == s2,
    ensures
        read_spec(s1) == read_spec(s2),
{
}

} // verus!
