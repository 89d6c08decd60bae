//! The parser: a recursive descent over the token queue that builds one
//! S-expression per call, leaving the remaining tokens for the next call.
//!
//! Dispatch on the popped token: an opening parenthesis starts a list read
//! to the matching close; a quote wraps the next expression in a two-element
//! list headed by the quote symbol; a bare symbol is disambiguated into a
//! boolean, nil, a number or a symbol; a string token becomes a string atom.

use crate::lexer::{toks_view, Token, TokenV};
use crate::number::{is_float_literal, is_float_text, parse_i32, spec_parse_int, Number, NumberV};
use crate::sexp::{push_items_text, render_items, views_of, Atom, AtomV, Error, Sexp, SexpV};
use crate::text::chars_of;
use std::collections::VecDeque;
use vstd::prelude::*;

verus! {

/// The ways the parser can fail, in structured form.
pub enum ParseErrV {
    /// The queue was empty when an expression was expected.
    UnexpectedEof,
    /// A closing parenthesis with no list open.
    UnexpectedClose,
    /// The queue ran out inside a list; the elements read so far are kept
    /// for the diagnostic.
    Unterminated(Seq<SexpV>),
}

/// The reason text of each parser error.
pub open spec fn parse_msg(e: ParseErrV) -> Seq<char> {
    match e {
        ParseErrV::UnexpectedEof => "unexpected EOF"@,
        ParseErrV::UnexpectedClose => "unexpected ')'"@,
        ParseErrV::Unterminated(items) => "missing ')' in expression: "@ + seq!['(']
            + render_items(items),
    }
}

/// The atom a bare symbol token stands for: `true`, `false` and `nil` by
/// name; then a strict integer parse; then a float parse; else the symbol
/// itself, verbatim.
pub open spec fn spec_parse_atom(s: Seq<char>) -> SexpV {
    if s == "true"@ {
        SexpV::Atom(AtomV::Bool(true))
    } else if s == "false"@ {
        SexpV::Atom(AtomV::Bool(false))
    } else if s == "nil"@ {
        SexpV::List(Seq::empty())
    } else {
        match spec_parse_int(s) {
            Some(v) => SexpV::Atom(AtomV::Number(NumberV::Int(v))),
            None => if is_float_text(s) {
                SexpV::Atom(AtomV::Number(NumberV::Float(s)))
            } else {
                SexpV::Atom(AtomV::Symbol(s))
            },
        }
    }
}

/// One expression read from the front of `ts`: the expression and the
/// remaining tokens, or the parse error.
pub open spec fn spec_parse(ts: Seq<TokenV>) -> Result<(SexpV, Seq<TokenV>), ParseErrV>
    decreases ts.len(), 0int,
{
    if ts.len() == 0 {
        Err(ParseErrV::UnexpectedEof)
    } else {
        match ts[0] {
            TokenV::LParen => spec_parse_list(ts.drop_first(), Seq::empty()),
            TokenV::RParen => Err(ParseErrV::UnexpectedClose),
            TokenV::Quote => match spec_parse(ts.drop_first()) {
                Err(e) => Err(e),
                Ok((e, rest)) => Ok(
                    (SexpV::List(seq![SexpV::Atom(AtomV::Symbol("'"@)), e]), rest),
                ),
            },
            TokenV::Symbol(s) => Ok((spec_parse_atom(s), ts.drop_first())),
            TokenV::Str(s) => Ok((SexpV::Atom(AtomV::Str(s)), ts.drop_first())),
        }
    }
}

/// The elements of an open list read from `ts` until a closing parenthesis,
/// appended after those already in `acc`.
pub open spec fn spec_parse_list(ts: Seq<TokenV>, acc: Seq<SexpV>) -> Result<
    (SexpV, Seq<TokenV>),
    ParseErrV,
>
    decreases ts.len(), 1int,
{
    if ts.len() == 0 {
        Err(ParseErrV::Unterminated(acc))
    } else if ts[0] == TokenV::RParen {
        Ok((SexpV::List(acc), ts.drop_first()))
    } else {
        match spec_parse(ts) {
            Err(e) => Err(e),
            Ok((e, rest)) => if rest.len() < ts.len() {
                spec_parse_list(rest, acc.push(e))
            } else {
                // cannot arise: a parsed expression consumes at least one
                // token
                Err(ParseErrV::Unterminated(acc))
            },
        }
    }
}

/// What the parsing functions promise: on success the expression and the
/// queue left behind are the specified ones, on failure the reason is the
/// specified error's text and the expression count went down.
pub open spec fn parse_result_matches(
    r: Result<Sexp, Error>,
    q: Seq<Token>,
    sp: Result<(SexpV, Seq<TokenV>), ParseErrV>,
) -> bool {
    match r {
        Ok(s) => sp matches Ok((e, rest)) && s@ == e && toks_view(q) == rest,
        Err(Error::Reason(m)) => sp matches Err(pe) && m@ == parse_msg(pe),
    }
}

/// Reads one expression from the front of the queue, consuming only the
/// tokens that belong to it; callable repeatedly to read successive
/// top-level forms.
pub fn read_from_tokens(tokens: &mut VecDeque<Token>) -> (r: Result<Sexp, Error>)
    ensures
        parse_result_matches(r, final(tokens)@, spec_parse(toks_view(old(tokens)@))),
        r is Ok ==> final(tokens)@.len() < old(tokens)@.len(),
    decreases old(tokens)@.len(), 0int,
{
    let ghost ts = toks_view(old(tokens)@);
    let token = tokens.pop_front();
    proof {
        if old(tokens)@.len() > 0 {
            assert(toks_view(tokens@) =~= ts.drop_first());
        }
    }
    match token {
        None => Err(Error::Reason("unexpected EOF".to_owned())),
        Some(lex) => {
            proof {
                assert(ts[0] == lex@);
            }
            match lex {
                Token::LParen => parse_list(tokens),
                Token::RParen => Err(Error::Reason("unexpected ')'".to_owned())),
                Token::Quote => parse_quoted(tokens),
                Token::Symbol(s) => Ok(parse_atom(s.as_str())),
                Token::String(s) => Ok(Sexp::Atom(Atom::String(s))),
            }
        },
    }
}

/// Reads expressions up to the closing parenthesis of a list whose opening
/// parenthesis was already consumed.
#[verifier::loop_isolation(false)]
fn parse_list(tokens: &mut VecDeque<Token>) -> (r: Result<Sexp, Error>)
    ensures
        parse_result_matches(
            r,
            final(tokens)@,
            spec_parse_list(toks_view(old(tokens)@), Seq::empty()),
        ),
        r is Ok ==> final(tokens)@.len() < old(tokens)@.len(),
    decreases old(tokens)@.len(), 1int,
{
    let mut vec: Vec<Sexp> = Vec::new();
    proof {
        assert(views_of(vec@) =~= Seq::<SexpV>::empty());
    }
    loop
        invariant
            tokens@.len() <= old(tokens)@.len(),
            vec@.len() > 0 ==> tokens@.len() < old(tokens)@.len(),
            spec_parse_list(toks_view(old(tokens)@), Seq::empty()) == spec_parse_list(
                toks_view(tokens@),
                views_of(vec@),
            ),
        decreases tokens@.len(),
    {
        let ghost cur = toks_view(tokens@);
        let ghost acc = views_of(vec@);
        if tokens.len() == 0 {
            break ;
        }
        let is_close = match &tokens[0] {
            Token::RParen => true,
            _ => false,
        };
        proof {
            assert(cur[0] == tokens@[0]@);
        }
        if is_close {
            tokens.pop_front();
            proof {
                assert(toks_view(tokens@) =~= cur.drop_first());
            }
            let r = Sexp::List(vec);
            proof {
                assert(r@ == SexpV::List(acc));
            }
            return Ok(r);
        }
        let sexp = match read_from_tokens(tokens) {
            Ok(s) => s,
            Err(e) => {
                return Err(e);
            },
        };
        let ghost ev = sexp@;
        vec.push(sexp);
        proof {
            assert(views_of(vec@) =~= acc.push(ev));
        }
    }
    let ghost acc = views_of(vec@);
    proof {
        assert(toks_view(tokens@).len() == 0);
    }
    let mut msg = "missing ')' in expression: (".to_owned();
    push_items_text(&vec, &mut msg);
    proof {
        reveal_strlit("missing ')' in expression: (");
        reveal_strlit("missing ')' in expression: ");
        assert(msg@ =~= parse_msg(ParseErrV::Unterminated(acc)));
    }
    Err(Error::Reason(msg))
}

/// Reads the expression after a quote token and wraps it in a two-element
/// list headed by the quote symbol.
fn parse_quoted(tokens: &mut VecDeque<Token>) -> (r: Result<Sexp, Error>)
    ensures
        ({
            let sp = spec_parse(toks_view(old(tokens)@));
            match r {
                Ok(s) => {
                    &&& sp matches Ok((e, rest))
                    &&& s@ == SexpV::List(seq![SexpV::Atom(AtomV::Symbol("'"@)), e])
                    &&& toks_view(final(tokens)@) == rest
                    &&& final(tokens)@.len() < old(tokens)@.len()
                },
                Err(Error::Reason(m)) => sp matches Err(pe) && m@ == parse_msg(pe),
            }
        }),
    decreases old(tokens)@.len(), 1int,
{
    let inner = match read_from_tokens(tokens) {
        Ok(s) => s,
        Err(e) => {
            return Err(e);
        },
    };
    let ghost ev = inner@;
    let mut vec: Vec<Sexp> = Vec::new();
    vec.push(Sexp::Atom(Atom::Symbol("'".to_owned())));
    vec.push(inner);
    let r = Sexp::List(vec);
    proof {
        assert(views_of(vec@) =~= seq![SexpV::Atom(AtomV::Symbol("'"@)), ev]);
    }
    Ok(r)
}

/// Disambiguates a bare symbol token into the atom it stands for.
pub fn parse_atom(token: &str) -> (r: Sexp)
    ensures
        r@ == spec_parse_atom(token@),
{
    let owned = token.to_owned();
    if owned == "true".to_owned() {
        return Sexp::Atom(Atom::Bool(true));
    }
    if owned == "false".to_owned() {
        return Sexp::Atom(Atom::Bool(false));
    }
    if owned == "nil".to_owned() {
        let v: Vec<Sexp> = Vec::new();
        let r = Sexp::List(v);
        proof {
            assert(views_of(Seq::<Sexp>::empty()) =~= Seq::<SexpV>::empty());
        }
        return r;
    }
    let cs = chars_of(token);
    match parse_i32(&cs) {
        Some(v) => Sexp::Atom(Atom::Number(Number::Int(v))),
        None => {
            if is_float_literal(&cs) {
                Sexp::Atom(Atom::Number(Number::Float(owned)))
            } else {
                Sexp::Atom(Atom::Symbol(owned))
            }
        },
    }
}

} // verus!
