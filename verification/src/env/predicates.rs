//! The type predicates of the primitive library.  Each takes the
//! already-evaluated argument list, demands exactly one argument, and
//! answers with a boolean atom.

use crate::number::NumberV;
use crate::sexp::{Atom, AtomV, Error, Sexp, SexpV};
use vstd::prelude::*;

verus! {

/// Maps an executable primitive result to its mathematical form.
pub open spec fn res_view(r: Result<Sexp, Error>) -> Result<SexpV, Seq<char>> {
    match r {
        Ok(s) => Ok(s@),
        Err(Error::Reason(m)) => Err(m@),
    }
}

/// The one argument of a one-argument call, if the argument list has
/// exactly one element.
pub open spec fn args1(args: SexpV) -> Option<SexpV> {
    match args {
        SexpV::List(l) => if l.len() == 1 {
            Some(l[0])
        } else {
            None
        },
        _ => None,
    }
}

/// The two arguments of a two-argument call, if the argument list has
/// exactly two elements.
pub open spec fn args2(args: SexpV) -> Option<(SexpV, SexpV)> {
    match args {
        SexpV::List(l) => if l.len() == 2 {
            Some((l[0], l[1]))
        } else {
            None
        },
        _ => None,
    }
}

/// The reason text of a one-argument arity error.
pub open spec fn arity1_msg() -> Seq<char> {
    "function takes 1 argument"@
}

/// The reason text of a two-argument arity error.
pub open spec fn arity2_msg() -> Seq<char> {
    "function takes 2 arguments"@
}

/// A boolean answer as a value of the language.
pub open spec fn bool_sexp(b: bool) -> SexpV {
    SexpV::Atom(AtomV::Bool(b))
}

/// What `atom?` answers: whether its one argument is an atom.
pub open spec fn spec_is_atom(args: SexpV) -> Result<SexpV, Seq<char>> {
    match args1(args) {
        None => Err(arity1_msg()),
        Some(a) => Ok(bool_sexp(a is Atom)),
    }
}

/// What `bool?` answers: whether its one argument is a boolean atom.
pub open spec fn spec_is_boolean(args: SexpV) -> Result<SexpV, Seq<char>> {
    match args1(args) {
        None => Err(arity1_msg()),
        Some(a) => Ok(bool_sexp(a matches SexpV::Atom(AtomV::Bool(_)))),
    }
}

/// What `char?` answers: whether its one argument is a character atom.
pub open spec fn spec_is_char(args: SexpV) -> Result<SexpV, Seq<char>> {
    match args1(args) {
        None => Err(arity1_msg()),
        Some(a) => Ok(bool_sexp(a matches SexpV::Atom(AtomV::Char(_)))),
    }
}

/// What `int?` answers: whether its one argument is an exact integer atom.
pub open spec fn spec_is_integer(args: SexpV) -> Result<SexpV, Seq<char>> {
    match args1(args) {
        None => Err(arity1_msg()),
        Some(a) => Ok(bool_sexp(a matches SexpV::Atom(AtomV::Number(NumberV::Int(_))))),
    }
}

/// What `float?` answers: whether its one argument is a float atom.
pub open spec fn spec_is_float(args: SexpV) -> Result<SexpV, Seq<char>> {
    match args1(args) {
        None => Err(arity1_msg()),
        Some(a) => Ok(bool_sexp(a matches SexpV::Atom(AtomV::Number(NumberV::Float(_))))),
    }
}

/// What `number?` answers: whether its one argument is a number atom of
/// either kind.
pub open spec fn spec_is_number(args: SexpV) -> Result<SexpV, Seq<char>> {
    match args1(args) {
        None => Err(arity1_msg()),
        Some(a) => Ok(bool_sexp(a matches SexpV::Atom(AtomV::Number(_)))),
    }
}

/// What `cons?` answers: whether its one argument is a nonempty list.
pub open spec fn spec_is_cons(args: SexpV) -> Result<SexpV, Seq<char>> {
    match args1(args) {
        None => Err(arity1_msg()),
        Some(a) => Ok(bool_sexp(a matches SexpV::List(l) && l.len() > 0)),
    }
}

/// What `symbol?` answers: whether its one argument is a symbol atom.
pub open spec fn spec_is_symbol(args: SexpV) -> Result<SexpV, Seq<char>> {
    match args1(args) {
        None => Err(arity1_msg()),
        Some(a) => Ok(bool_sexp(a matches SexpV::Atom(AtomV::Symbol(_)))),
    }
}

/// What `function?` answers: whether its one argument is a native function.
pub open spec fn spec_is_function(args: SexpV) -> Result<SexpV, Seq<char>> {
    match args1(args) {
        None => Err(arity1_msg()),
        Some(a) => Ok(bool_sexp(a matches SexpV::Atom(AtomV::Func(_)))),
    }
}

/// What `null?` answers: whether its one argument is the empty list.
pub open spec fn spec_is_null(args: SexpV) -> Result<SexpV, Seq<char>> {
    match args1(args) {
        None => Err(arity1_msg()),
        Some(a) => Ok(bool_sexp(a matches SexpV::List(l) && l.len() == 0)),
    }
}

/// The one argument of a one-argument call, or `None` on wrong arity.
pub(crate) fn arg1(sexp: &Sexp) -> (r: Option<&Sexp>)
    ensures
        match r {
            Some(a) => args1(sexp@) == Some(a@),
            None => args1(sexp@) is None,
        },
{
    match sexp {
        Sexp::List(l) => {
            if l.len() == 1 {
                proof {
                    assert(crate::sexp::views_of(l@)[0] == l@[0]@);
                }
                Some(&l[0])
            } else {
                proof {
                    assert(crate::sexp::views_of(l@).len() != 1);
                }
                None
            }
        },
        _ => None,
    }
}

/// The arity error of a one-argument primitive.
pub(crate) fn arity1_error() -> (r: Error)
    ensures
        r@ == arity1_msg(),
{
    Error::Reason("function takes 1 argument".to_owned())
}

/// `atom?`: true when the argument is any atom, not a list.
pub fn is_atom(sexp: &Sexp) -> (r: Result<Sexp, Error>)
    ensures
        res_view(r) == spec_is_atom(sexp@),
{
    match arg1(sexp) {
        None => Err(arity1_error()),
        Some(a) => {
            let b = match a {
                Sexp::Atom(_) => true,
                _ => false,
            };
            Ok(Sexp::Atom(Atom::Bool(b)))
        },
    }
}

/// `bool?`: true when the argument is a boolean atom.
pub fn is_boolean(sexp: &Sexp) -> (r: Result<Sexp, Error>)
    ensures
        res_view(r) == spec_is_boolean(sexp@),
{
    match arg1(sexp) {
        None => Err(arity1_error()),
        Some(a) => {
            let b = match a {
                Sexp::Atom(Atom::Bool(_)) => true,
                _ => false,
            };
            Ok(Sexp::Atom(Atom::Bool(b)))
        },
    }
}

/// `char?`: true when the argument is a character atom.
pub fn is_char(sexp: &Sexp) -> (r: Result<Sexp, Error>)
    ensures
        res_view(r) == spec_is_char(sexp@),
{
    match arg1(sexp) {
        None => Err(arity1_error()),
        Some(a) => {
            let b = match a {
                Sexp::Atom(Atom::Char(_)) => true,
                _ => false,
            };
            Ok(Sexp::Atom(Atom::Bool(b)))
        },
    }
}

/// `int?`: true when the argument is an exact integer atom.
pub fn is_integer(sexp: &Sexp) -> (r: Result<Sexp, Error>)
    ensures
        res_view(r) == spec_is_integer(sexp@),
{
    match arg1(sexp) {
        None => Err(arity1_error()),
        Some(a) => {
            let b = match a {
                Sexp::Atom(Atom::Number(crate::number::Number::Int(_))) => true,
                _ => false,
            };
            Ok(Sexp::Atom(Atom::Bool(b)))
        },
    }
}

/// `float?`: true when the argument is a float atom.
pub fn is_float(sexp: &Sexp) -> (r: Result<Sexp, Error>)
    ensures
        res_view(r) == spec_is_float(sexp@),
{
    match arg1(sexp) {
        None => Err(arity1_error()),
        Some(a) => {
            let b = match a {
                Sexp::Atom(Atom::Number(crate::number::Number::Float(_))) => true,
                _ => false,
            };
            Ok(Sexp::Atom(Atom::Bool(b)))
        },
    }
}

/// `number?`: true when the argument is a number atom of either kind.
pub fn is_number(sexp: &Sexp) -> (r: Result<Sexp, Error>)
    ensures
        res_view(r) == spec_is_number(sexp@),
{
    match arg1(sexp) {
        None => Err(arity1_error()),
        Some(a) => {
            let b = match a {
                Sexp::Atom(Atom::Number(_)) => true,
                _ => false,
            };
            Ok(Sexp::Atom(Atom::Bool(b)))
        },
    }
}

/// `cons?`: true when the argument is a nonempty list.
pub fn is_cons(sexp: &Sexp) -> (r: Result<Sexp, Error>)
    ensures
        res_view(r) == spec_is_cons(sexp@),
{
    match arg1(sexp) {
        None => Err(arity1_error()),
        Some(a) => {
            let b = match a {
                Sexp::List(l) => {
                    proof {
                        assert(crate::sexp::views_of(l@).len() == l@.len());
                    }
                    l.len() > 0
                },
                _ => false,
            };
            Ok(Sexp::Atom(Atom::Bool(b)))
        },
    }
}

/// `symbol?`: true when the argument is a symbol atom.
pub fn is_symbol(sexp: &Sexp) -> (r: Result<Sexp, Error>)
    ensures
        res_view(r) == spec_is_symbol(sexp@),
{
    match arg1(sexp) {
        None => Err(arity1_error()),
        Some(a) => {
            let b = match a {
                Sexp::Atom(Atom::Symbol(_)) => true,
                _ => false,
            };
            Ok(Sexp::Atom(Atom::Bool(b)))
        },
    }
}

/// `function?`: true when the argument is a native function.
pub fn is_function(sexp: &Sexp) -> (r: Result<Sexp, Error>)
    ensures
        res_view(r) == spec_is_function(sexp@),
{
    match arg1(sexp) {
        None => Err(arity1_error()),
        Some(a) => {
            let b = match a {
                Sexp::Atom(Atom::Func(_)) => true,
                _ => false,
            };
            Ok(Sexp::Atom(Atom::Bool(b)))
        },
    }
}

/// `null?`: true when the argument is the empty list.
pub fn is_null(sexp: &Sexp) -> (r: Result<Sexp, Error>)
    ensures
        res_view(r) == spec_is_null(sexp@),
{
    match arg1(sexp) {
        None => Err(arity1_error()),
        Some(a) => {
            let b = match a {
                Sexp::List(l) => {
                    proof {
                        assert(crate::sexp::views_of(l@).len() == l@.len());
                    }
                    l.len() == 0
                },
                _ => false,
            };
            Ok(Sexp::Atom(Atom::Bool(b)))
        },
    }
}

} // verus!
