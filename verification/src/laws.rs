//! The laws of the library: properties that relate several functions,
//! stated over the same spec functions the functions' own contracts use,
//! and proved once and for all.

use crate::env::env_lookup;
use crate::eval::{eval_v, not_callable_msg, unbound_msg};
use crate::lexer::{
    cons_tok, forbidden_of, is_forbidden, is_space, is_terminal, prepend_toks, spec_take_string,
    spec_take_symbol, spec_tokenize, LexErrV, TokenV,
};
use crate::number::is_digit;
use crate::parser::{spec_parse, spec_parse_atom, spec_parse_list, ParseErrV};
use crate::sexp::{render, render_atom, render_items, AtomV, SexpV};
use vstd::prelude::*;

verus! {

/// A name is unbound in a chain of frames exactly when no frame binds it.
pub proof fn lemma_env_lookup_none(env: Seq<Map<Seq<char>, SexpV>>, name: Seq<char>)
    ensures
        env_lookup(env, name) is None <==> (forall|i: int|
            0 <= i < env.len() ==> !(#[trigger] env[i]).contains_key(name)),
    decreases env.len(),
{
    if env.len() > 0 {
        lemma_env_lookup_none(env.drop_last(), name);
        assert(forall|i: int|
            0 <= i < env.len() - 1 ==> env.drop_last()[i] == #[trigger] env[i]);
        assert(env.last() == env[env.len() - 1]);
    }
}

/// Evaluating a symbol that no frame of the environment binds fails with
/// the unbound-symbol error.
pub proof fn lemma_unbound_symbol_fails(
    s: Seq<char>,
    env: Seq<Map<Seq<char>, SexpV>>,
    fuel: nat,
)
    requires
        forall|i: int| 0 <= i < env.len() ==> !(#[trigger] env[i]).contains_key(s),
        fuel >= 1,
    ensures
        eval_v(SexpV::Atom(AtomV::Symbol(s)), env, fuel) == Err::<SexpV, Seq<char>>(
            unbound_msg(),
        ),
{
    lemma_env_lookup_none(env, s);
}

/// Quoting suppresses evaluation: a two-element list headed by the literal
/// quote symbol evaluates to its second element exactly as it stands,
/// whatever the environment binds.
pub proof fn lemma_quote_suppresses_evaluation(
    e: SexpV,
    env: Seq<Map<Seq<char>, SexpV>>,
    fuel: nat,
)
    requires
        fuel >= 1,
    ensures
        eval_v(SexpV::List(seq![SexpV::Atom(AtomV::Symbol("'"@)), e]), env, fuel) == Ok::<
            SexpV,
            Seq<char>,
        >(e),
{
    let l = seq![SexpV::Atom(AtomV::Symbol("'"@)), e];
    assert(l[0] == SexpV::Atom(AtomV::Symbol("'"@)));
    assert(l.drop_first() =~= seq![e]);
}

/// Calling a non-function fails: a call whose head is an atom that is
/// neither a function nor a symbol fails with the not-callable error,
/// whatever the environment binds and whatever the arguments are.
pub proof fn lemma_non_function_head_fails(
    l: Seq<SexpV>,
    env: Seq<Map<Seq<char>, SexpV>>,
    fuel: nat,
)
    requires
        fuel >= 2,
        l.len() > 0,
        l[0] matches SexpV::Atom(a) && !(a is Func) && !(a is Symbol),
    ensures
        eval_v(SexpV::List(l), env, fuel) == Err::<SexpV, Seq<char>>(not_callable_msg()),
{
}

/// The one token an atom's rendering lexes to.
pub open spec fn atom_token(a: AtomV) -> TokenV {
    match a {
        AtomV::Str(s) => TokenV::Str(s),
        _ => TokenV::Symbol(render_atom(a)),
    }
}

/// The token sequence an expression's rendering lexes to.
pub open spec fn tokens_of(e: SexpV) -> Seq<TokenV>
    decreases e,
{
    match e {
        SexpV::Atom(a) => seq![atom_token(a)],
        SexpV::List(l) => seq![TokenV::LParen] + tokens_of_items(l) + seq![TokenV::RParen],
    }
}

/// The token sequences of a list's elements, in order.
pub open spec fn tokens_of_items(l: Seq<SexpV>) -> Seq<TokenV>
    decreases l,
{
    if l.len() == 0 {
        Seq::empty()
    } else {
        tokens_of_items(l.drop_last()) + tokens_of(l.last())
    }
}

/// An atom whose rendering reads back as the same atom: its surface text is
/// one well-formed token, and disambiguation returns the atom itself.
pub open spec fn atom_parseable(a: AtomV) -> bool {
    match a {
        AtomV::Str(s) => forall|i: int| 0 <= i < s.len() ==> s[i] != '"',
        _ => {
            let t = render_atom(a);
            &&& t.len() > 0
            &&& forall|i: int|
                0 <= i < t.len() ==> !is_terminal(#[trigger] t[i]) && !is_forbidden(t[i])
            &&& spec_parse_atom(t) == SexpV::Atom(a)
        },
    }
}

/// An expression whose rendering reads back as the same expression: every
/// atom in it is parseable.  Lists of any shape qualify; of atoms,
/// booleans, in-range integers, float literals, string literals without a
/// quote, and symbols that no other reading captures.
pub open spec fn parseable(e: SexpV) -> bool
    decreases e,
{
    match e {
        SexpV::Atom(a) => atom_parseable(a),
        SexpV::List(l) => forall|i: int| 0 <= i < l.len() ==> parseable(#[trigger] l[i]),
    }
}

/// A text that may follow a rendered expression without changing how the
/// expression itself lexes: nothing, or a terminal character first.
pub open spec fn tail_ok(tail: Seq<char>) -> bool {
    tail.len() == 0 || is_terminal(tail[0])
}

proof fn lemma_take_symbol_all(t: Seq<char>, tail: Seq<char>)
    requires
        forall|i: int| 0 <= i < t.len() ==> !is_terminal(#[trigger] t[i]),
        tail_ok(tail),
    ensures
        spec_take_symbol(t + tail) == (t, tail),
    decreases t.len(),
{
    if t.len() == 0 {
        assert(t + tail =~= tail);
    } else {
        assert((t + tail)[0] == t[0]);
        assert((t + tail).drop_first() =~= t.drop_first() + tail);
        lemma_take_symbol_all(t.drop_first(), tail);
        assert(seq![t[0]] + t.drop_first() =~= t);
    }
}

proof fn lemma_forbidden_none(t: Seq<char>)
    requires
        forall|i: int| 0 <= i < t.len() ==> !is_forbidden(#[trigger] t[i]),
    ensures
        forbidden_of(t) == Seq::<char>::empty(),
    decreases t.len(),
{
    reveal(Seq::filter);
    if t.len() > 0 {
        lemma_forbidden_none(t.drop_last());
    } else {
        assert(t =~= Seq::<char>::empty());
    }
}

proof fn lemma_take_string_all(s: Seq<char>, tail: Seq<char>)
    requires
        forall|i: int| 0 <= i < s.len() ==> s[i] != '"',
    ensures
        spec_take_string(s + seq!['"'] + tail) == Some((s, tail)),
    decreases s.len(),
{
    if s.len() == 0 {
        assert((s + seq!['"'] + tail)[0] == '"');
        assert((s + seq!['"'] + tail).drop_first() =~= tail);
    } else {
        assert((s + seq!['"'] + tail)[0] == s[0]);
        assert((s + seq!['"'] + tail).drop_first() =~= s.drop_first() + seq!['"'] + tail);
        lemma_take_string_all(s.drop_first(), tail);
        assert(seq![s[0]] + s.drop_first() =~= s);
    }
}

proof fn lemma_prepend_toks_concat(
    a: Seq<TokenV>,
    b: Seq<TokenV>,
    r: Result<Seq<TokenV>, LexErrV>,
)
    ensures
        prepend_toks(a, prepend_toks(b, r)) == prepend_toks(a + b, r),
{
    match r {
        Ok(ts) => {
            assert(a + (b + ts) =~= (a + b) + ts);
        },
        Err(_) => {},
    }
}

proof fn lemma_cons_tok_prepend(t: TokenV, r: Result<Seq<TokenV>, LexErrV>)
    ensures
        cons_tok(t, r) == prepend_toks(seq![t], r),
{
}

/// Lexing a rendered expression, followed by any safely-separated tail,
/// yields exactly the expression's tokens and then the tail's.
proof fn lemma_tokenize_render(e: SexpV, tail: Seq<char>)
    requires
        parseable(e),
        tail_ok(tail),
    ensures
        spec_tokenize(render(e) + tail) == prepend_toks(tokens_of(e), spec_tokenize(tail)),
    decreases e,
{
    match e {
        SexpV::Atom(a) => {
            match a {
                AtomV::Str(s) => {
                    let txt = render_atom(a);
                    let whole = txt + tail;
                    assert(whole[0] == '"');
                    assert(whole.drop_first() =~= s + seq!['"'] + tail);
                    lemma_take_string_all(s, tail);
                    assert(spec_tokenize(whole) == cons_tok(TokenV::Str(s), spec_tokenize(tail)));
                    lemma_cons_tok_prepend(TokenV::Str(s), spec_tokenize(tail));
                    assert(tokens_of(e) == seq![TokenV::Str(s)]);
                },
                _ => {
                    let t = render_atom(a);
                    let whole = t + tail;
                    assert(whole[0] == t[0]);
                    assert(!is_terminal(t[0]) && !is_forbidden(t[0]));
                    lemma_take_symbol_all(t, tail);
                    lemma_forbidden_none(t);
                    assert(spec_tokenize(whole) == cons_tok(
                        TokenV::Symbol(t),
                        spec_tokenize(tail),
                    ));
                    lemma_cons_tok_prepend(TokenV::Symbol(t), spec_tokenize(tail));
                    assert(tokens_of(e) == seq![TokenV::Symbol(t)]);
                },
            }
        },
        SexpV::List(l) => {
            let whole = render(e) + tail;
            let tail2 = seq![')'] + tail;
            assert(whole[0] == '(');
            assert(whole.drop_first() =~= render_items(l) + tail2);
            assert(is_terminal(')'));
            lemma_tokenize_render_items(l, tail2);
            assert(tail2[0] == ')');
            assert(tail2.drop_first() =~= tail);
            assert(spec_tokenize(tail2) == cons_tok(TokenV::RParen, spec_tokenize(tail)));
            lemma_cons_tok_prepend(TokenV::RParen, spec_tokenize(tail));
            lemma_prepend_toks_concat(
                tokens_of_items(l),
                seq![TokenV::RParen],
                spec_tokenize(tail),
            );
            assert(spec_tokenize(whole) == cons_tok(
                TokenV::LParen,
                spec_tokenize(whole.drop_first()),
            ));
            lemma_cons_tok_prepend(
                TokenV::LParen,
                spec_tokenize(whole.drop_first()),
            );
            lemma_prepend_toks_concat(
                seq![TokenV::LParen],
                tokens_of_items(l) + seq![TokenV::RParen],
                spec_tokenize(tail),
            );
            assert(seq![TokenV::LParen] + (tokens_of_items(l) + seq![TokenV::RParen])
                =~= tokens_of(e));
        },
    }
}

/// Lexing rendered list elements followed by a terminal-led tail yields the
/// elements' tokens and then the tail's.
proof fn lemma_tokenize_render_items(l: Seq<SexpV>, tail2: Seq<char>)
    requires
        forall|i: int| 0 <= i < l.len() ==> parseable(#[trigger] l[i]),
        tail2.len() > 0,
        is_terminal(tail2[0]),
    ensures
        spec_tokenize(render_items(l) + tail2) == prepend_toks(
            tokens_of_items(l),
            spec_tokenize(tail2),
        ),
    decreases l,
{
    if l.len() == 0 {
        assert(render_items(l) + tail2 =~= tail2);
        assert(prepend_toks(tokens_of_items(l), spec_tokenize(tail2)) == spec_tokenize(tail2))
            by {
            match spec_tokenize(tail2) {
                Ok(ts) => {
                    assert(Seq::<TokenV>::empty() + ts =~= ts);
                },
                Err(_) => {},
            }
        }
    } else {
        lemma_render_items_front(l);
        lemma_tokens_of_items_front(l);
        if l.len() == 1 {
            assert(render_items(l) + tail2 =~= render(l[0]) + tail2);
            lemma_tokenize_render(l[0], tail2);
            assert(tokens_of_items(l) =~= tokens_of(l[0]));
        } else {
            let rest_txt = seq![' '] + (render_items(l.drop_first()) + tail2);
            assert(render_items(l) + tail2 =~= render(l[0]) + rest_txt);
            assert(rest_txt[0] == ' ');
            assert(is_terminal(' '));
            lemma_tokenize_render(l[0], rest_txt);
            assert(is_space(' '));
            assert(rest_txt.drop_first() =~= render_items(l.drop_first()) + tail2);
            assert(spec_tokenize(rest_txt) == spec_tokenize(
                render_items(l.drop_first()) + tail2,
            ));
            lemma_tokenize_render_items(l.drop_first(), tail2);
            lemma_prepend_toks_concat(
                tokens_of(l[0]),
                tokens_of_items(l.drop_first()),
                spec_tokenize(tail2),
            );
        }
    }
}

proof fn lemma_tokens_of_nonempty(e: SexpV)
    ensures
        tokens_of(e).len() >= 1,
        tokens_of(e)[0] != TokenV::RParen,
{
    match e {
        SexpV::Atom(a) => {
            assert(tokens_of(e)[0] == atom_token(a));
        },
        SexpV::List(l) => {
            assert(tokens_of(e)[0] == TokenV::LParen);
        },
    }
}

/// Parsing an expression's tokens, with any tokens after them, yields the
/// expression back and leaves exactly the tokens after it.
proof fn lemma_parse_tokens(e: SexpV, rest: Seq<TokenV>)
    requires
        parseable(e),
    ensures
        spec_parse(tokens_of(e) + rest) == Ok::<(SexpV, Seq<TokenV>), ParseErrV>((e, rest)),
    decreases e,
{
    let ts = tokens_of(e) + rest;
    match e {
        SexpV::Atom(a) => {
            assert(ts[0] == atom_token(a));
            assert(ts.drop_first() =~= rest);
        },
        SexpV::List(l) => {
            assert(tokens_of(e)[0] == TokenV::LParen);
            assert(ts[0] == TokenV::LParen);
            assert(ts.drop_first() =~= tokens_of_items(l) + seq![TokenV::RParen] + rest);
            lemma_parse_list_tokens(l, Seq::empty(), rest);
            assert(Seq::<SexpV>::empty() + l =~= l);
        },
    }
}

/// Parsing list elements' tokens up to a closing parenthesis appends the
/// elements after those already collected.
proof fn lemma_parse_list_tokens(l: Seq<SexpV>, acc: Seq<SexpV>, rest: Seq<TokenV>)
    requires
        forall|i: int| 0 <= i < l.len() ==> parseable(#[trigger] l[i]),
    ensures
        spec_parse_list(tokens_of_items(l) + seq![TokenV::RParen] + rest, acc) == Ok::<
            (SexpV, Seq<TokenV>),
            ParseErrV,
        >((SexpV::List(acc + l), rest)),
    decreases l,
{
    let ts = tokens_of_items(l) + seq![TokenV::RParen] + rest;
    if l.len() == 0 {
        assert(ts =~= seq![TokenV::RParen] + rest);
        assert(ts[0] == TokenV::RParen);
        assert(ts.drop_first() =~= rest);
        assert(acc + l =~= acc);
    } else {
        lemma_tokens_of_items_front(l);
        let rest2 = tokens_of_items(l.drop_first()) + seq![TokenV::RParen] + rest;
        assert(ts =~= tokens_of(l[0]) + rest2);
        lemma_tokens_of_nonempty(l[0]);
        assert(ts[0] == tokens_of(l[0])[0]);
        lemma_parse_tokens(l[0], rest2);
        lemma_parse_list_tokens(l.drop_first(), acc.push(l[0]), rest);
        assert(acc.push(l[0]) + l.drop_first() =~= acc + l);
    }
}

/// The round trip of the reader: rendering any parseable expression, lexing
/// the text, and parsing the resulting token queue returns the expression
/// itself, with no tokens left over.
pub proof fn lemma_render_parse_round_trip(e: SexpV)
    requires
        parseable(e),
    ensures
        spec_tokenize(render(e)) == Ok::<Seq<TokenV>, LexErrV>(tokens_of(e)),
        spec_parse(tokens_of(e)) == Ok::<(SexpV, Seq<TokenV>), ParseErrV>(
            (e, Seq::<TokenV>::empty()),
        ),
{
    lemma_tokenize_render(e, Seq::empty());
    assert(render(e) + Seq::<char>::empty() =~= render(e));
    assert(tokens_of(e) + Seq::<TokenV>::empty() =~= tokens_of(e));
    lemma_parse_tokens(e, Seq::empty());
}

/// Decimal digits and the minus sign are plain symbol characters.
proof fn lemma_number_char_plain(c: char)
    requires
        is_digit(c) || c == '-',
    ensures
        !is_terminal(c),
        !is_forbidden(c),
{
}

/// A boolean atom reads back as itself.
pub proof fn lemma_bool_atom_parseable(b: bool)
    ensures
        atom_parseable(AtomV::Bool(b)),
{
    reveal_strlit("true");
    reveal_strlit("false");
    reveal_strlit("nil");
    let t = render_atom(AtomV::Bool(b));
    if b {
        assert(t[0] == 't' && t[1] == 'r' && t[2] == 'u' && t[3] == 'e');
    } else {
        assert(t[0] == 'f' && t[1] == 'a' && t[2] == 'l' && t[3] == 's' && t[4] == 'e');
    }
    assert(forall|i: int|
        0 <= i < t.len() ==> !is_terminal(#[trigger] t[i]) && !is_forbidden(t[i]));
    assert(spec_parse_atom(t) == SexpV::Atom(AtomV::Bool(b)));
}

/// An integer atom in machine range reads back as itself.
pub proof fn lemma_int_atom_parseable(i: int)
    requires
        -0x8000_0000 <= i <= 0x7fff_ffff,
    ensures
        atom_parseable(AtomV::Number(crate::number::NumberV::Int(i))),
{
    reveal_strlit("true");
    reveal_strlit("false");
    reveal_strlit("nil");
    let a = AtomV::Number(crate::number::NumberV::Int(i));
    let t = render_atom(a);
    if i < 0 {
        crate::number::lemma_dec_text_val(-i);
        let d = crate::number::dec_text(-i);
        assert(t == seq!['-'] + d);
        assert(t[0] == '-');
        assert(forall|k: int| 0 <= k < d.len() ==> is_digit(#[trigger] d[k]));
        assert(forall|k: int|
            0 <= k < t.len() ==> !is_terminal(#[trigger] t[k]) && !is_forbidden(t[k])) by {
            assert(forall|k: int| 1 <= k < t.len() ==> #[trigger] t[k] == d[k - 1]);
            assert(forall|k: int|
                0 <= k < t.len() ==> is_digit(#[trigger] t[k]) || t[k] == '-');
            assert forall|k: int| 0 <= k < t.len() implies !is_terminal(#[trigger] t[k])
                && !is_forbidden(t[k]) by {
                lemma_number_char_plain(t[k]);
            }
        }
        assert(t != "true"@ && t != "false"@ && t != "nil"@) by {
            assert(t[0] == '-');
        }
        assert(t.drop_first() =~= d);
        assert(crate::number::spec_parse_int(t) == Some(i));
        assert(spec_parse_atom(t) == SexpV::Atom(a));
    } else {
        crate::number::lemma_dec_text_val(i);
        let d = crate::number::dec_text(i);
        assert(t == d);
        assert(is_digit(t[0]));
        assert(forall|k: int|
            0 <= k < t.len() ==> !is_terminal(#[trigger] t[k]) && !is_forbidden(t[k])) by {
            assert forall|k: int| 0 <= k < t.len() implies !is_terminal(#[trigger] t[k])
                && !is_forbidden(t[k]) by {
                lemma_number_char_plain(t[k]);
            }
        }
        assert(t != "true"@ && t != "false"@ && t != "nil"@) by {
            assert(is_digit(t[0]));
        }
        assert(t[0] != '-' && t[0] != '+');
        assert(crate::number::spec_parse_int(t) == Some(i));
        assert(spec_parse_atom(t) == SexpV::Atom(a));
    }
}

/// A float atom whose literal text is a well-formed float, free of terminal
/// and forbidden characters, and captured by no earlier reading, reads back
/// as itself.
pub proof fn lemma_float_atom_parseable(t: Seq<char>)
    requires
        forall|i: int| 0 <= i < t.len() ==> !is_terminal(#[trigger] t[i]) && !is_forbidden(t[i]),
        t != "true"@,
        t != "false"@,
        t != "nil"@,
        crate::number::spec_parse_int(t) is None,
        crate::number::is_float_text(t),
    ensures
        atom_parseable(AtomV::Number(crate::number::NumberV::Float(t))),
{
}

/// A symbol whose text is nonempty, free of terminal and forbidden
/// characters, and captured by no other reading, reads back as itself.
pub proof fn lemma_symbol_atom_parseable(s: Seq<char>)
    requires
        s.len() > 0,
        forall|i: int| 0 <= i < s.len() ==> !is_terminal(#[trigger] s[i]) && !is_forbidden(s[i]),
        s != "true"@,
        s != "false"@,
        s != "nil"@,
        crate::number::spec_parse_int(s) is None,
        !crate::number::is_float_text(s),
    ensures
        atom_parseable(AtomV::Symbol(s)),
{
}

/// Front unfolding of `render_items`: the first element, then a space and
/// the rest.
proof fn lemma_render_items_front(l: Seq<SexpV>)
    requires
        l.len() > 0,
    ensures
        render_items(l) == if l.len() == 1 {
            render(l[0])
        } else {
            render(l[0]) + seq![' '] + render_items(l.drop_first())
        },
    decreases l.len(),
{
    if l.len() > 1 {
        lemma_render_items_front(l.drop_last());
        assert(l.drop_last()[0] == l[0]);
        if l.len() == 2 {
            assert(l.drop_last() =~= seq![l[0]]);
            assert(l.drop_first() =~= seq![l[1]]);
            assert(l.drop_first()[0] == l[1]);
        } else {
            assert(l.drop_first().drop_last() =~= l.drop_last().drop_first());
            assert(l.drop_first().last() == l.last());
            let a = render(l[0]);
            let sp = seq![' '];
            let mid = render_items(l.drop_last().drop_first());
            let z = render(l.last());
            assert(render_items(l) == render_items(l.drop_last()) + sp + z);
            assert(render_items(l.drop_last()) == a + sp + mid);
            assert(render_items(l.drop_first()) == mid + sp + z);
            assert(a + sp + mid + sp + z =~= a + sp + (mid + sp + z));
        }
    }
}

/// Front unfolding of `tokens_of_items`: the first element's tokens, then
/// the rest's.
proof fn lemma_tokens_of_items_front(l: Seq<SexpV>)
    requires
        l.len() > 0,
    ensures
        tokens_of_items(l) == tokens_of(l[0]) + tokens_of_items(l.drop_first()),
    decreases l.len(),
{
    if l.len() == 1 {
        assert(l.drop_last() =~= Seq::<SexpV>::empty());
        assert(l.drop_first() =~= Seq::<SexpV>::empty());
        assert(l.last() == l[0]);
        assert(Seq::<TokenV>::empty() + tokens_of(l[0]) =~= tokens_of(l[0])
            + Seq::<TokenV>::empty());
    } else {
        lemma_tokens_of_items_front(l.drop_last());
        assert(l.drop_last()[0] == l[0]);
        assert(l.drop_first().drop_last() =~= l.drop_last().drop_first());
        assert(l.drop_first().last() == l.last());
        assert((tokens_of(l[0]) + tokens_of_items(l.drop_last().drop_first())) + tokens_of(
            l.last(),
        ) =~= tokens_of(l[0]) + (tokens_of_items(l.drop_first().drop_last()) + tokens_of(
            l.drop_first().last(),
        )));
    }
}

} // verus!
