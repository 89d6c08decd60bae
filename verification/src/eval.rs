//! The evaluator: a structural recursion over S-expressions against an
//! environment.
//!
//! Atoms other than symbols evaluate to themselves; a symbol is resolved in
//! the environment; the empty list evaluates to itself; a nonempty list is a
//! call, except that a list headed by the literal quote symbol returns its
//! one argument unevaluated.  In a call, the head is reduced (through
//! aliases and nested calls) to a native function, every remaining element
//! is evaluated left to right in the current environment, and the function
//! is invoked on the evaluated argument list.  The first error anywhere
//! aborts the whole evaluation.
//!
//! The recursion carries a depth budget: an expression nested more deeply
//! than the budget reports an error instead of exhausting the host stack.

use crate::env::predicates::{
    is_atom, is_boolean, is_char, is_cons, is_float, is_function, is_integer, is_null, is_number,
    is_symbol, res_view, spec_is_atom, spec_is_boolean, spec_is_char, spec_is_cons, spec_is_float,
    spec_is_function, spec_is_integer, spec_is_null, spec_is_number, spec_is_symbol,
};
use crate::env::special_forms::{clone_exp, cons, spec_clone_exp, spec_cons};
use crate::env::{env_lookup, Env};
use crate::sexp::{views_of, Atom, AtomV, Builtin, Error, Sexp, SexpV};
use vstd::prelude::*;

verus! {

/// The most deeply nested evaluation entered before the evaluator reports
/// an error rather than risking the host call stack.
pub const EVAL_DEPTH_LIMIT: u64 = 512;

/// The reason text when the depth budget runs out.
pub open spec fn depth_msg() -> Seq<char> {
    "evaluation nested too deeply"@
}

/// The reason text of an unbound-symbol error.
pub open spec fn unbound_msg() -> Seq<char> {
    "Symbol not found in environment."@
}

/// The reason text when a call's head is not a function.
pub open spec fn not_callable_msg() -> Seq<char> {
    "first argument must be a function"@
}

/// What one native function returns on an evaluated argument list.
pub open spec fn spec_apply(b: Builtin, args: SexpV) -> Result<SexpV, Seq<char>> {
    match b {
        Builtin::Quote => spec_clone_exp(args),
        Builtin::IsAtom => spec_is_atom(args),
        Builtin::IsBool => spec_is_boolean(args),
        Builtin::IsChar => spec_is_char(args),
        Builtin::IsCons => spec_is_cons(args),
        Builtin::IsFloat => spec_is_float(args),
        Builtin::IsFunction => spec_is_function(args),
        Builtin::IsInt => spec_is_integer(args),
        Builtin::IsNull => spec_is_null(args),
        Builtin::IsNumber => spec_is_number(args),
        Builtin::IsSymbol => spec_is_symbol(args),
        Builtin::Cons => spec_cons(args),
    }
}

/// The value of an atom: a symbol resolves in the environment, everything
/// else is self-evaluating.
pub open spec fn eval_atom_v(a: AtomV, env: Seq<Map<Seq<char>, SexpV>>) -> Result<
    SexpV,
    Seq<char>,
> {
    match a {
        AtomV::Symbol(s) => match env_lookup(env, s) {
            Some(v) => Ok(v),
            None => Err(unbound_msg()),
        },
        _ => Ok(SexpV::Atom(a)),
    }
}

/// The value of an expression in an environment, with at most `fuel` nested
/// evaluation steps.
pub open spec fn eval_v(e: SexpV, env: Seq<Map<Seq<char>, SexpV>>, fuel: nat) -> Result<
    SexpV,
    Seq<char>,
>
    decreases fuel, 0nat,
{
    if fuel == 0 {
        Err(depth_msg())
    } else {
        match e {
            SexpV::Atom(a) => eval_atom_v(a, env),
            SexpV::List(l) => if l.len() == 0 {
                Ok(e)
            } else if l[0] == SexpV::Atom(AtomV::Symbol("'"@)) {
                spec_clone_exp(SexpV::List(l.drop_first()))
            } else {
                match eval_head_v(l[0], env, (fuel - 1) as nat) {
                    Err(m) => Err(m),
                    Ok(b) => match eval_args_v(l.drop_first(), env, (fuel - 1) as nat) {
                        Err(m) => Err(m),
                        Ok(vs) => spec_apply(b, SexpV::List(vs)),
                    },
                }
            },
        }
    }
}

/// The native function a call's head reduces to: a function atom stands for
/// itself, a symbol is resolved and its value reduced in turn, a nonempty
/// list is evaluated and its value reduced in turn; anything else is not
/// callable.
pub open spec fn eval_head_v(h: SexpV, env: Seq<Map<Seq<char>, SexpV>>, fuel: nat) -> Result<
    Builtin,
    Seq<char>,
>
    decreases fuel, 0nat,
{
    if fuel == 0 {
        Err(depth_msg())
    } else {
        match h {
            SexpV::Atom(AtomV::Func(b)) => Ok(b),
            SexpV::Atom(AtomV::Symbol(s)) => match env_lookup(env, s) {
                Some(v) => eval_head_v(v, env, (fuel - 1) as nat),
                None => Err(unbound_msg()),
            },
            SexpV::Atom(_) => Err(not_callable_msg()),
            SexpV::List(l) => if l.len() == 0 {
                Err(not_callable_msg())
            } else {
                match eval_v(h, env, (fuel - 1) as nat) {
                    Err(m) => Err(m),
                    Ok(v) => eval_head_v(v, env, (fuel - 1) as nat),
                }
            },
        }
    }
}

/// The values of a call's arguments, evaluated left to right; the first
/// error aborts the rest.
pub open spec fn eval_args_v(
    items: Seq<SexpV>,
    env: Seq<Map<Seq<char>, SexpV>>,
    fuel: nat,
) -> Result<Seq<SexpV>, Seq<char>>
    decreases fuel, items.len() + 1,
{
    if items.len() == 0 {
        Ok(Seq::empty())
    } else {
        match eval_v(items[0], env, fuel) {
            Err(m) => Err(m),
            Ok(v) => match eval_args_v(items.drop_first(), env, fuel) {
                Err(m) => Err(m),
                Ok(vs) => Ok(seq![v] + vs),
            },
        }
    }
}

/// An argument-list result with `pre` prepended to the values.
spec fn prepend_vals(
    pre: Seq<SexpV>,
    r: Result<Seq<SexpV>, Seq<char>>,
) -> Result<Seq<SexpV>, Seq<char>> {
    match r {
        Ok(vs) => Ok(pre + vs),
        Err(m) => Err(m),
    }
}

/// Evaluates an expression against an environment, with the default depth
/// budget.  Evaluation never changes the environment: the language has no
/// binding form yet.
pub fn eval(exp: &Sexp, env: &mut Env) -> (r: Result<Sexp, Error>)
    ensures
        final(env)@ == old(env)@,
        res_view(r) == eval_v(exp@, old(env)@, EVAL_DEPTH_LIMIT as nat),
{
    eval_depth(exp, env, EVAL_DEPTH_LIMIT)
}

/// Evaluates an expression with an explicit depth budget.
fn eval_depth(exp: &Sexp, env: &mut Env, fuel: u64) -> (r: Result<Sexp, Error>)
    ensures
        final(env)@ == old(env)@,
        res_view(r) == eval_v(exp@, old(env)@, fuel as nat),
    decreases fuel, 0int,
{
    if fuel == 0 {
        return Err(Error::Reason("evaluation nested too deeply".to_owned()));
    }
    match exp {
        Sexp::Atom(a) => eval_atom(a, env),
        Sexp::List(l) => {
            if l.len() == 0 {
                let r = exp.clone();
                return Ok(r);
            }
            proof {
                assert(views_of(l@)[0] == l@[0]@);
            }
            let is_quote = match &l[0] {
                Sexp::Atom(Atom::Symbol(s)) => *s == "'".to_owned(),
                _ => false,
            };
            if is_quote {
                let rest = tail_of(l);
                let args = Sexp::List(rest);
                proof {
                    assert(args@ == SexpV::List(views_of(l@).drop_first()));
                }
                return clone_exp(&args);
            }
            let head = match eval_head(&l[0], env, fuel - 1) {
                Ok(b) => b,
                Err(e) => {
                    return Err(e);
                },
            };
            let rest = tail_of(l);
            let args = match map_eval(&rest, env, fuel - 1) {
                Ok(vs) => vs,
                Err(e) => {
                    return Err(e);
                },
            };
            apply(&head, &Sexp::List(args))
        },
    }
}

/// The elements of `l` after the head, cloned into a fresh list.
#[verifier::loop_isolation(false)]
fn tail_of(l: &Vec<Sexp>) -> (r: Vec<Sexp>)
    requires
        l@.len() > 0,
    ensures
        views_of(r@) == views_of(l@).drop_first(),
{
    let n = l.len();
    let mut v: Vec<Sexp> = Vec::new();
    let mut i: usize = 1;
    while i < n
        invariant
            1 <= i <= n,
            v@.len() == i - 1,
            forall|j: int| 0 <= j < i - 1 ==> v@[j]@ == l@[j + 1]@,
        decreases n - i,
    {
        let e = l[i].clone();
        v.push(e);
        i += 1;
    }
    proof {
        assert(views_of(v@) =~= views_of(l@).drop_first());
    }
    v
}

/// Evaluates an atom: a symbol resolves in the environment, everything else
/// is returned as it stands.
fn eval_atom(atom: &Atom, env: &mut Env) -> (r: Result<Sexp, Error>)
    ensures
        final(env)@ == old(env)@,
        res_view(r) == eval_atom_v(atom@, old(env)@),
{
    match atom {
        Atom::Symbol(s) => env.search(s),
        _ => Ok(Sexp::Atom(atom.clone())),
    }
}

/// Reduces a call's head to the native function it names.
fn eval_head(h: &Sexp, env: &mut Env, fuel: u64) -> (r: Result<Builtin, Error>)
    ensures
        final(env)@ == old(env)@,
        ({
            let sp = eval_head_v(h@, old(env)@, fuel as nat);
            match r {
                Ok(b) => sp == Ok::<Builtin, Seq<char>>(b),
                Err(Error::Reason(m)) => sp == Err::<Builtin, Seq<char>>(m@),
            }
        }),
    decreases fuel, 0int,
{
    if fuel == 0 {
        return Err(Error::Reason("evaluation nested too deeply".to_owned()));
    }
    match h {
        Sexp::Atom(Atom::Func(b)) => Ok(*b),
        Sexp::Atom(Atom::Symbol(s)) => {
            let v = match env.search(s) {
                Ok(v) => v,
                Err(e) => {
                    return Err(e);
                },
            };
            eval_head(&v, env, fuel - 1)
        },
        Sexp::Atom(_) => Err(Error::Reason("first argument must be a function".to_owned())),
        Sexp::List(l) => {
            if l.len() == 0 {
                proof {
                    assert(views_of(l@).len() == 0);
                }
                return Err(Error::Reason("first argument must be a function".to_owned()));
            }
            proof {
                assert(views_of(l@).len() > 0);
            }
            let v = match eval_depth(h, env, fuel - 1) {
                Ok(v) => v,
                Err(e) => {
                    return Err(e);
                },
            };
            eval_head(&v, env, fuel - 1)
        },
    }
}

/// Evaluates every element of `list` left to right in the current
/// environment, collecting the values; the first error aborts the rest.
#[verifier::loop_isolation(false)]
fn map_eval(list: &Vec<Sexp>, env: &mut Env, fuel: u64) -> (r: Result<Vec<Sexp>, Error>)
    ensures
        final(env)@ == old(env)@,
        ({
            let sp = eval_args_v(views_of(list@), old(env)@, fuel as nat);
            match r {
                Ok(vs) => sp == Ok::<Seq<SexpV>, Seq<char>>(views_of(vs@)),
                Err(Error::Reason(m)) => sp == Err::<Seq<SexpV>, Seq<char>>(m@),
            }
        }),
    decreases fuel, 1int,
{
    let ghost env0 = old(env)@;
    let ghost items = views_of(list@);
    let n = list.len();
    let mut out: Vec<Sexp> = Vec::new();
    let mut i: usize = 0;
    proof {
        lemma_prepend_vals_empty(eval_args_v(items, env0, fuel as nat));
        assert(views_of(out@) =~= Seq::<SexpV>::empty());
        assert(items.skip(0) =~= items);
    }
    while i < n
        invariant
            i <= n,
            env@ == env0,
            eval_args_v(items, env0, fuel as nat) == prepend_vals(
                views_of(out@),
                eval_args_v(items.skip(i as int), env0, fuel as nat),
            ),
        decreases n - i,
    {
        let ghost pre = views_of(out@);
        proof {
            assert(items.skip(i as int)[0] == items[i as int]);
            assert(items.skip(i as int).drop_first() =~= items.skip(i as int + 1));
        }
        let v = match eval_depth(&list[i], env, fuel) {
            Ok(v) => v,
            Err(e) => {
                return Err(e);
            },
        };
        let ghost vv = v@;
        out.push(v);
        i += 1;
        proof {
            assert(views_of(out@) =~= pre.push(vv));
            lemma_prepend_vals_push(pre, vv, eval_args_v(items.skip(i as int), env0, fuel as nat));
        }
    }
    proof {
        assert(items.skip(n as int).len() == 0);
        assert(views_of(out@) + Seq::<SexpV>::empty() =~= views_of(out@));
    }
    Ok(out)
}

proof fn lemma_prepend_vals_empty(r: Result<Seq<SexpV>, Seq<char>>)
    ensures
        prepend_vals(Seq::<SexpV>::empty(), r) == r,
{
    match r {
        Ok(vs) => {
            assert(Seq::<SexpV>::empty() + vs =~= vs);
        },
        Err(_) => {},
    }
}

proof fn lemma_prepend_vals_push(pre: Seq<SexpV>, v: SexpV, r: Result<Seq<SexpV>, Seq<char>>)
    ensures
        prepend_vals(pre, match r {
            Ok(vs) => Ok(seq![v] + vs),
            Err(m) => Err(m),
        }) == prepend_vals(pre.push(v), r),
{
    match r {
        Ok(vs) => {
            assert(pre + (seq![v] + vs) =~= pre.push(v) + vs);
        },
        Err(_) => {},
    }
}

/// Invokes a native function on an already-evaluated argument list.
pub fn apply(func: &Builtin, args: &Sexp) -> (r: Result<Sexp, Error>)
    ensures
        res_view(r) == spec_apply(*func, args@),
{
    match func {
        Builtin::Quote => clone_exp(args),
        Builtin::IsAtom => is_atom(args),
        Builtin::IsBool => is_boolean(args),
        Builtin::IsChar => is_char(args),
        Builtin::IsCons => is_cons(args),
        Builtin::IsFloat => is_float(args),
        Builtin::IsFunction => is_function(args),
        Builtin::IsInt => is_integer(args),
        Builtin::IsNull => is_null(args),
        Builtin::IsNumber => is_number(args),
        Builtin::IsSymbol => is_symbol(args),
        Builtin::Cons => cons(args),
    }
}

} // verus!
