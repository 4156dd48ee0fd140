//! The recursive-descent parser: one token of lookahead, lists built by
//! reading expressions until the matching close parenthesis, and atoms
//! classified as booleans, numbers or symbols.
use vstd::prelude::*;
use crate::expr::{Expression, ExpV};
use crate::num::{float_of_token, num_from_token};
use crate::err::{
    Error,
    msg_could_not_get_token,
    msg_missing_close_paren,
    msg_unexpected_close_paren,
    reason,
};
use vstd::slice::{slice_index_get, slice_subrange};

verus! {

/// How one token reads as an atom: the spellings of the booleans, then a
/// floating-point literal, and any other token is a symbol.
pub open spec fn parse_atom_spec(token: Seq<char>) -> ExpV {
    if token == "true"@ {
        ExpV::Bool(true)
    } else if token == "false"@ {
        ExpV::Bool(false)
    } else {
        match float_of_token(token) {
            Some(bits) => ExpV::Number(bits),
            None => ExpV::Symbol(token),
        }
    }
}

/// The expression read at position `pos`, with the position just after it.
/// A close parenthesis here is stray, and running out of tokens is an
/// error.
pub open spec fn parse_spec(tokens: Seq<Seq<char>>, pos: int) -> Result<(ExpV, int), Seq<char>>
    decreases tokens.len() - pos, 0int,
{
    if pos < 0 || pos >= tokens.len() {
        Err(msg_could_not_get_token())
    } else if tokens[pos] == "("@ {
        match read_seq_spec(tokens, pos + 1) {
            Ok((elems, next)) => Ok((ExpV::List(elems), next)),
            Err(m) => Err(m),
        }
    } else if tokens[pos] == ")"@ {
        Err(msg_unexpected_close_paren())
    } else {
        Ok((parse_atom_spec(tokens[pos]), pos + 1))
    }
}

/// The list elements read from position `pos` up to the matching close
/// parenthesis, with the position just after that parenthesis. The parser
/// always moves forward; the bound on `next` below only keeps the recursion
/// well-founded and never binds.
pub open spec fn read_seq_spec(tokens: Seq<Seq<char>>, pos: int) -> Result<
    (Seq<ExpV>, int),
    Seq<char>,
>
    decreases tokens.len() - pos, 1int,
{
    if pos < 0 || pos >= tokens.len() {
        Err(msg_missing_close_paren())
    } else if tokens[pos] == ")"@ {
        Ok((Seq::empty(), pos + 1))
    } else {
        match parse_spec(tokens, pos) {
            Err(m) => Err(m),
            Ok((exp, next)) => {
                let bounded_next = if pos < next <= tokens.len() {
                    next
                } else {
                    pos + 1
                };
                match read_seq_spec(tokens, bounded_next) {
                    Err(m) => Err(m),
                    Ok((elems, fin)) => Ok((seq![exp] + elems, fin)),
                }
            },
        }
    }
}

pub(crate) fn eq_lit(s: &String, lit: &str) -> (r: bool)
    ensures
        r == (s@ == lit@),
{
    let other = String::from_str(lit);
    *s == other
}

/// Reads one token as an atom: `true`/`false` become booleans, a token
/// that reads as a floating-point literal becomes a number, and anything
/// else becomes a symbol.
pub fn parse_atom(token: &String) -> (e: Expression)
    ensures
        e@ == parse_atom_spec(token@),
{
    if eq_lit(token, "true") {
        Expression::Bool(true)
    } else if eq_lit(token, "false") {
        Expression::Bool(false)
    } else {
        match num_from_token(token.as_str()) {
            Some(bits) => Expression::Number(bits),
            None => Expression::Symbol(token.clone()),
        }
    }
}

fn parse_at(tokens: &[String], pos: usize) -> (r: Result<(Expression, usize), Error>)
    ensures
        (match r {
            Ok((exp, next)) => {
                &&& parse_spec(tokens.deep_view(), pos as int) matches Ok((e2, n2)) && exp@ == e2
                    && next as int == n2
                &&& pos < next <= tokens@.len()
            },
            Err(e) => parse_spec(tokens.deep_view(), pos as int) matches Err(m) && e@ == m,
        }),
    decreases tokens@.len() - pos, 0int,
{
    if pos >= tokens.len() {
        Err(reason("could not get token"))
    } else {
        let token = slice_index_get(tokens, pos);
        proof {
            assert(tokens.deep_view()[pos as int] == token@);
        }
        if eq_lit(token, "(") {
            match read_seq_at(tokens, pos + 1) {
                Ok((elems, next)) => {
                    proof {
                        Expression::lemma_list_view(&elems);
                    }
                    Ok((Expression::List(elems), next))
                },
                Err(e) => Err(e),
            }
        } else if eq_lit(token, ")") {
            Err(reason("unexpected `)`"))
        } else {
            Ok((parse_atom(token), pos + 1))
        }
    }
}

fn read_seq_at(tokens: &[String], pos: usize) -> (r: Result<(Vec<Expression>, usize), Error>)
    ensures
        (match r {
            Ok((elems, fin)) => {
                &&& read_seq_spec(tokens.deep_view(), pos as int) matches Ok((es2, f2))
                    && elems.deep_view() == es2 && fin as int == f2
                &&& pos < fin <= tokens@.len()
            },
            Err(e) => read_seq_spec(tokens.deep_view(), pos as int) matches Err(m) && e@ == m,
        }),
    decreases tokens@.len() - pos, 1int,
{
    if pos >= tokens.len() {
        Err(reason("could not find closing `)`"))
    } else {
        let token = slice_index_get(tokens, pos);
        proof {
            assert(tokens.deep_view()[pos as int] == token@);
        }
        if eq_lit(token, ")") {
            let elems: Vec<Expression> = Vec::new();
            proof {
                assert(elems.deep_view() =~= Seq::<ExpV>::empty());
            }
            Ok((elems, pos + 1))
        } else {
            match parse_at(tokens, pos) {
                Err(e) => Err(e),
                Ok((exp, next)) => {
                    match read_seq_at(tokens, next) {
                        Err(e) => Err(e),
                        Ok((mut elems, fin)) => {
                            let ghost old_elems = elems.deep_view();
                            elems.insert(0, exp);
                            proof {
                                assert(elems.deep_view() =~= seq![exp@] + old_elems);
                            }
                            Ok((elems, fin))
                        },
                    }
                },
            }
        }
    }
}

/// Reads one expression from the front of the token sequence, returning it
/// together with the unconsumed remainder of the tokens, so that a host may
/// ignore trailing tokens.
pub fn parse<'a>(tokens: &'a [String]) -> (r: Result<(Expression, &'a [String]), Error>)
    ensures
        (match r {
            Ok((exp, rest)) => parse_spec(tokens.deep_view(), 0) matches Ok((e2, n2)) && exp@ == e2
                && rest.deep_view() == tokens.deep_view().skip(n2),
            Err(e) => parse_spec(tokens.deep_view(), 0) matches Err(m) && e@ == m,
        }),
{
    match parse_at(tokens, 0) {
        Ok((exp, next)) => {
            let rest = slice_subrange(tokens, next, tokens.len());
            proof {
                assert(rest.deep_view() =~= tokens.deep_view().skip(next as int));
            }
            Ok((exp, rest))
        },
        Err(e) => Err(e),
    }
}

} // verus!
