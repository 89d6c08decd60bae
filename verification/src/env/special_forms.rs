//! The non-predicate primitives: the quote function and `cons`.

use crate::env::predicates::{arg1, args1, args2, arity1_error, arity1_msg, arity2_msg, res_view};
use crate::sexp::{views_of, Error, Sexp, SexpV};
use vstd::prelude::*;

verus! {

/// What the quote function returns: its one argument, unchanged.
pub open spec fn spec_clone_exp(args: SexpV) -> Result<SexpV, Seq<char>> {
    match args1(args) {
        None => Err(arity1_msg()),
        Some(a) => Ok(a),
    }
}

/// What `cons` returns: the two-element list of its two arguments.
pub open spec fn spec_cons(args: SexpV) -> Result<SexpV, Seq<char>> {
    match args2(args) {
        None => Err(arity2_msg()),
        Some((a, b)) => Ok(SexpV::List(seq![a, b])),
    }
}

/// The quote function: returns its one argument as it stands.
pub fn clone_exp(sexp: &Sexp) -> (r: Result<Sexp, Error>)
    ensures
        res_view(r) == spec_clone_exp(sexp@),
{
    match arg1(sexp) {
        None => Err(arity1_error()),
        Some(a) => Ok(a.clone()),
    }
}

/// `cons`: combines its two arguments into a two-element list (a pair), the
/// first argument first.  The second argument is kept as one element even
/// when it is itself a list.
pub fn cons(sexp: &Sexp) -> (r: Result<Sexp, Error>)
    ensures
        res_view(r) == spec_cons(sexp@),
{
    match sexp {
        Sexp::List(l) => {
            if l.len() == 2 {
                let mut v: Vec<Sexp> = Vec::new();
                v.push(l[0].clone());
                v.push(l[1].clone());
                let r = Sexp::List(v);
                proof {
                    assert(views_of(l@)[0] == l@[0]@);
                    assert(views_of(l@)[1] == l@[1]@);
                    assert(views_of(v@) =~= seq![l@[0]@, l@[1]@]);
                }
                Ok(r)
            } else {
                proof {
                    assert(views_of(l@).len() != 2);
                }
                Err(Error::Reason("function takes 2 arguments".to_owned()))
            }
        },
        _ => Err(Error::Reason("function takes 2 arguments".to_owned())),
    }
}

} // verus!
