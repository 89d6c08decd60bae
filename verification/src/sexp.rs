//! The S-expression data model: atoms, lists, native-function values, the
//! error type, and the textual rendering of values.

use crate::number::{number_text, Number, NumberV};
use crate::text::push_char;
use vstd::prelude::*;

verus! {

/// A native function of the default environment, as a tagged capability:
/// each variant names one primitive, and [`crate::eval::apply`] dispatches on
/// the tag.  New callables (for instance user-defined functions) would be
/// further variants.
#[derive(Clone, Copy, PartialEq, Eq, Structural, Debug)]
pub enum Builtin {
    /// `'`: returns its argument unevaluated (the evaluator treats a quote
    /// head specially; this value also stands in the default environment).
    Quote,
    /// `atom?`
    IsAtom,
    /// `bool?`
    IsBool,
    /// `char?`
    IsChar,
    /// `cons?`
    IsCons,
    /// `float?`
    IsFloat,
    /// `function?`
    IsFunction,
    /// `int?`
    IsInt,
    /// `null?`
    IsNull,
    /// `number?`
    IsNumber,
    /// `symbol?`
    IsSymbol,
    /// `cons`
    Cons,
}

/// The canonical name of a primitive, as bound in the default environment.
pub open spec fn builtin_name(b: Builtin) -> Seq<char> {
    match b {
        Builtin::Quote => "'"@,
        Builtin::IsAtom => "atom?"@,
        Builtin::IsBool => "bool?"@,
        Builtin::IsChar => "char?"@,
        Builtin::IsCons => "cons?"@,
        Builtin::IsFloat => "float?"@,
        Builtin::IsFunction => "function?"@,
        Builtin::IsInt => "int?"@,
        Builtin::IsNull => "null?"@,
        Builtin::IsNumber => "number?"@,
        Builtin::IsSymbol => "symbol?"@,
        Builtin::Cons => "cons"@,
    }
}

impl Builtin {
    /// The canonical name of this primitive.
    pub fn name(&self) -> (r: &'static str)
        ensures
            r@ == builtin_name(*self),
    {
        match self {
            Builtin::Quote => "'",
            Builtin::IsAtom => "atom?",
            Builtin::IsBool => "bool?",
            Builtin::IsChar => "char?",
            Builtin::IsCons => "cons?",
            Builtin::IsFloat => "float?",
            Builtin::IsFunction => "function?",
            Builtin::IsInt => "int?",
            Builtin::IsNull => "null?",
            Builtin::IsNumber => "number?",
            Builtin::IsSymbol => "symbol?",
            Builtin::Cons => "cons",
        }
    }
}

/// Mathematical model of an [`Atom`].
pub enum AtomV {
    Char(char),
    Bool(bool),
    Symbol(Seq<char>),
    Str(Seq<char>),
    Number(NumberV),
    Func(Builtin),
}

/// A non-list leaf value: character, boolean, symbol, string literal,
/// number, or native function.
pub enum Atom {
    Char(char),
    Bool(bool),
    Symbol(String),
    String(String),
    Number(Number),
    Func(Builtin),
}

impl View for Atom {
    type V = AtomV;

    open spec fn view(&self) -> AtomV {
        match self {
            Atom::Char(c) => AtomV::Char(*c),
            Atom::Bool(b) => AtomV::Bool(*b),
            Atom::Symbol(s) => AtomV::Symbol(s@),
            Atom::String(s) => AtomV::Str(s@),
            Atom::Number(n) => AtomV::Number(n@),
            Atom::Func(b) => AtomV::Func(*b),
        }
    }
}

impl Clone for Atom {
    fn clone(&self) -> (r: Self)
        ensures
            r@ == self@,
    {
        match self {
            Atom::Char(c) => Atom::Char(*c),
            Atom::Bool(b) => Atom::Bool(*b),
            Atom::Symbol(s) => Atom::Symbol(s.clone()),
            Atom::String(s) => Atom::String(s.clone()),
            Atom::Number(n) => Atom::Number(n.clone()),
            Atom::Func(b) => Atom::Func(*b),
        }
    }
}

/// Mathematical model of an [`Sexp`]: an atom, or a finite ordered sequence.
/// The empty sequence is the canonical nil.
pub enum SexpV {
    Atom(AtomV),
    List(Seq<SexpV>),
}

/// An S-expression: an atom, or an ordered list of S-expressions.  The empty
/// list is the canonical representation of nil and of "no value".
pub enum Sexp {
    Atom(Atom),
    List(Vec<Sexp>),
}

/// The views of a sequence of expressions, elementwise.
pub open spec fn views_of(l: Seq<Sexp>) -> Seq<SexpV>
    decreases l,
{
    Seq::new(l.len(), |i: int| if 0 <= i < l.len() {
        l[i]@
    } else {
        SexpV::List(Seq::empty())
    })
}

impl View for Sexp {
    type V = SexpV;

    open spec fn view(&self) -> SexpV
        decreases self,
    {
        match self {
            Sexp::Atom(a) => SexpV::Atom(a@),
            Sexp::List(l) => SexpV::List(views_of(l@)),
        }
    }
}

impl Clone for Sexp {
    #[verifier::loop_isolation(false)]
    fn clone(&self) -> (r: Self)
        ensures
            r@ == self@,
        decreases self,
    {
        match self {
            Sexp::Atom(a) => Sexp::Atom(a.clone()),
            Sexp::List(l) => {
                let mut v: Vec<Sexp> = Vec::new();
                let n = l.len();
                let mut i: usize = 0;
                while i < n
                    invariant
                        n == l@.len(),
                        i <= n,
                        v@.len() == i,
                        forall|j: int| 0 <= j < i ==> v@[j]@ == l@[j]@,
                    decreases n - i,
                {
                    proof {
                        assert(decreases_to!(*self => *l));
                        assert(decreases_to!(*l => l@));
                        assert(decreases_to!(l@ => l@[i as int]));
                    }
                    let e = l[i].clone();
                    v.push(e);
                    i += 1;
                }
                let r = Sexp::List(v);
                proof {
                    assert(views_of(v@) =~= views_of(l@));
                }
                r
            },
        }
    }
}

/// An error reported to the caller: a structured kind is not needed by the
/// language core, only the reason text.
#[derive(Debug)]
pub enum Error {
    Reason(String),
}

impl View for Error {
    type V = Seq<char>;

    open spec fn view(&self) -> Seq<char> {
        match self {
            Error::Reason(m) => m@,
        }
    }
}

impl Error {
    /// The full diagnostic line for this error.
    pub fn describe(&self) -> (r: String)
        ensures
            r@ == "Error: "@ + self@,
    {
        let mut out = "Error: ".to_owned();
        match self {
            Error::Reason(m) => {
                out.append(m.as_str());
            },
        }
        out
    }
}

/// Textual rendering of an atom: the literal surface text.
pub open spec fn render_atom(a: AtomV) -> Seq<char> {
    match a {
        AtomV::Char(c) => seq![c],
        AtomV::Bool(b) => if b {
            "true"@
        } else {
            "false"@
        },
        AtomV::Symbol(s) => s,
        AtomV::Str(s) => seq!['"'] + s + seq!['"'],
        AtomV::Number(n) => number_text(n),
        AtomV::Func(b) => "builtin function "@ + builtin_name(b),
    }
}

/// Textual rendering of an S-expression: atoms as their surface text, a list
/// as its elements space-separated inside parentheses.
pub open spec fn render(e: SexpV) -> Seq<char>
    decreases e,
{
    match e {
        SexpV::Atom(a) => render_atom(a),
        SexpV::List(l) => seq!['('] + render_items(l) + seq![')'],
    }
}

/// The elements of a list rendered space-separated, without the parentheses.
pub open spec fn render_items(l: Seq<SexpV>) -> Seq<char>
    decreases l,
{
    if l.len() == 0 {
        Seq::empty()
    } else if l.len() == 1 {
        render(l[0])
    } else {
        render_items(l.drop_last()) + seq![' '] + render(l.last())
    }
}

impl Atom {
    /// Appends this atom's rendering to `out`.
    pub fn push_text(&self, out: &mut String)
        ensures
            final(out)@ == old(out)@ + render_atom(self@),
    {
        match self {
            Atom::Char(c) => {
                push_char(out, *c);
                proof {
                    assert(out@ =~= old(out)@ + render_atom(self@));
                }
            },
            Atom::Bool(b) => {
                if *b {
                    out.append("true");
                } else {
                    out.append("false");
                }
            },
            Atom::Symbol(s) => {
                out.append(s.as_str());
            },
            Atom::String(s) => {
                push_char(out, '"');
                out.append(s.as_str());
                push_char(out, '"');
                proof {
                    assert(out@ =~= old(out)@ + render_atom(self@));
                }
            },
            Atom::Number(n) => {
                n.push_text(out);
            },
            Atom::Func(b) => {
                out.append("builtin function ");
                out.append(b.name());
                proof {
                    assert(out@ =~= old(out)@ + render_atom(self@));
                }
            },
        }
    }
}

impl Sexp {
    /// Appends this expression's rendering to `out`.
    pub fn push_text(&self, out: &mut String)
        ensures
            final(out)@ == old(out)@ + render(self@),
        decreases self,
    {
        match self {
            Sexp::Atom(a) => {
                a.push_text(out);
            },
            Sexp::List(l) => {
                push_char(out, '(');
                proof {
                    assert(decreases_to!(*self => *l));
                    assert(decreases_to!(*l => l@));
                }
                push_items_text(l, out);
                push_char(out, ')');
                proof {
                    assert(out@ =~= old(out)@ + render(self@));
                }
            },
        }
    }

    /// This expression's textual rendering.
    pub fn to_text(&self) -> (r: String)
        ensures
            r@ == render(self@),
    {
        let mut out = String::new();
        self.push_text(&mut out);
        proof {
            assert(out@ =~= render(self@));
        }
        out
    }
}

/// Appends the space-separated renderings of the elements of `items` to
/// `out`, without surrounding parentheses.
#[verifier::loop_isolation(false)]
pub fn push_items_text(items: &Vec<Sexp>, out: &mut String)
    ensures
        final(out)@ == old(out)@ + render_items(views_of(items@)),
    decreases items@,
{
    let ghost lv = views_of(items@);
    let n = items.len();
    let mut i: usize = 0;
    while i < n
        invariant
            n == items@.len(),
            i <= n,
            out@ == old(out)@ + render_items(lv.take(i as int)),
        decreases n - i,
    {
        if i > 0 {
            push_char(out, ' ');
        }
        proof {
            assert(decreases_to!(items@ => items@[i as int]));
        }
        items[i].push_text(out);
        i += 1;
        proof {
            assert(lv.take(i as int).drop_last() =~= lv.take(i as int - 1));
            assert(lv.take(i as int).last() == lv[i as int - 1]);
            assert(out@ =~= old(out)@ + render_items(lv.take(i as int)));
        }
    }
    proof {
        assert(lv.take(n as int) =~= lv);
    }
}

} // verus!
