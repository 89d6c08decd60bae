//! The environment: a chain of frames, each mapping symbol names to values,
//! implementing lexical scoping with shadowing.
//!
//! The chain is held as a stack of frames by value, innermost frame last: a
//! child environment starts from a copy of its outer chain, so frames nest
//! in strict order and no frame outlives its scope.

pub mod predicates;
pub mod special_forms;

use crate::sexp::{Atom, AtomV, Builtin, Error, Sexp, SexpV};
use vstd::prelude::*;

verus! {

/// The view pairs of a frame's entries, elementwise.
pub open spec fn pairs_view(entries: Seq<(String, Sexp)>) -> Seq<(Seq<char>, SexpV)> {
    Seq::new(entries.len(), |i: int| if 0 <= i < entries.len() {
        (entries[i].0@, entries[i].1@)
    } else {
        (Seq::empty(), SexpV::List(Seq::empty()))
    })
}

/// The mapping a sequence of binding pairs stands for: a later pair for the
/// same name shadows an earlier one.
pub open spec fn map_of(pairs: Seq<(Seq<char>, SexpV)>) -> Map<Seq<char>, SexpV>
    decreases pairs.len(),
{
    if pairs.len() == 0 {
        Map::empty()
    } else {
        map_of(pairs.drop_last()).insert(pairs.last().0, pairs.last().1)
    }
}

/// One scope's bindings.  A binding is added by appending; a lookup takes
/// the latest entry for the name, so re-binding a name shadows the old
/// entry.
pub struct Frame {
    entries: Vec<(String, Sexp)>,
}

impl View for Frame {
    type V = Map<Seq<char>, SexpV>;

    closed spec fn view(&self) -> Map<Seq<char>, SexpV> {
        map_of(pairs_view(self.entries@))
    }
}

impl Frame {
    /// A frame with no bindings.
    pub fn new() -> (r: Frame)
        ensures
            r@ == Map::<Seq<char>, SexpV>::empty(),
    {
        Frame { entries: Vec::new() }
    }

    /// Binds `symbol` to `value`, shadowing any earlier binding of the name
    /// in this frame.
    pub fn insert(&mut self, symbol: String, value: Sexp)
        ensures
            final(self)@ == old(self)@.insert(symbol@, value@),
    {
        let ghost p0 = pairs_view(self.entries@);
        let ghost pair = (symbol@, value@);
        self.entries.push((symbol, value));
        proof {
            assert(pairs_view(self.entries@) =~= p0.push(pair));
            assert(pairs_view(self.entries@).drop_last() =~= p0);
        }
    }

    /// The value bound to `symbol` in this frame, if any.
    #[verifier::loop_isolation(false)]
    pub fn lookup(&self, symbol: &String) -> (r: Option<Sexp>)
        ensures
            match r {
                Some(v) => self@.contains_key(symbol@) && v@ == self@[symbol@],
                None => !self@.contains_key(symbol@),
            },
    {
        let ghost pairs = pairs_view(self.entries@);
        let n = self.entries.len();
        let mut i: usize = n;
        proof {
            assert(pairs.take(n as int) =~= pairs);
        }
        while i > 0
            invariant
                i <= n,
                map_of(pairs).contains_key(symbol@) == map_of(pairs.take(i as int)).contains_key(
                    symbol@,
                ),
                map_of(pairs).contains_key(symbol@) ==> map_of(pairs)[symbol@] == map_of(
                    pairs.take(i as int),
                )[symbol@],
            decreases i,
        {
            i = i - 1;
            let entry = &self.entries[i];
            proof {
                assert(pairs.take(i as int + 1).drop_last() =~= pairs.take(i as int));
                assert(pairs.take(i as int + 1).last() == pairs[i as int]);
            }
            if entry.0 == *symbol {
                return Some(entry.1.clone());
            }
        }
        proof {
            assert(pairs.take(0) =~= Seq::<(Seq<char>, SexpV)>::empty());
        }
        None
    }
}

impl Clone for Frame {
    #[verifier::loop_isolation(false)]
    fn clone(&self) -> (r: Self)
        ensures
            r@ == self@,
    {
        let n = self.entries.len();
        let mut v: Vec<(String, Sexp)> = Vec::new();
        let mut i: usize = 0;
        while i < n
            invariant
                i <= n,
                v@.len() == i,
                forall|j: int|
                    0 <= j < i ==> (#[trigger] v@[j]).0@ == self.entries@[j].0@ && v@[j].1@
                        == self.entries@[j].1@,
            decreases n - i,
        {
            let entry = &self.entries[i];
            v.push((entry.0.clone(), entry.1.clone()));
            i += 1;
        }
        let r = Frame { entries: v };
        proof {
            assert(pairs_view(r.entries@) =~= pairs_view(self.entries@));
        }
        r
    }
}

/// The value `name` stands for in a chain of frames, innermost frame last
/// and searched first.
pub open spec fn env_lookup(env: Seq<Map<Seq<char>, SexpV>>, name: Seq<char>) -> Option<SexpV>
    decreases env.len(),
{
    if env.len() == 0 {
        None
    } else if env.last().contains_key(name) {
        Some(env.last()[name])
    } else {
        env_lookup(env.drop_last(), name)
    }
}

/// The frame views of a frame stack, elementwise.
pub open spec fn frames_view(frames: Seq<Frame>) -> Seq<Map<Seq<char>, SexpV>> {
    Seq::new(frames.len(), |i: int| if 0 <= i < frames.len() {
        frames[i]@
    } else {
        Map::empty()
    })
}

/// A chain of scopes mapping symbol names to values, outermost frame first.
pub struct Env {
    frames: Vec<Frame>,
}

impl View for Env {
    type V = Seq<Map<Seq<char>, SexpV>>;

    closed spec fn view(&self) -> Seq<Map<Seq<char>, SexpV>> {
        frames_view(self.frames@)
    }
}

/// The bindings of the default environment: every primitive under its
/// canonical name.
pub open spec fn default_bindings() -> Map<Seq<char>, SexpV> {
    Map::empty().insert("'"@, SexpV::Atom(AtomV::Func(Builtin::Quote))).insert(
        "atom?"@,
        SexpV::Atom(AtomV::Func(Builtin::IsAtom)),
    ).insert("bool?"@, SexpV::Atom(AtomV::Func(Builtin::IsBool))).insert(
        "char?"@,
        SexpV::Atom(AtomV::Func(Builtin::IsChar)),
    ).insert("cons?"@, SexpV::Atom(AtomV::Func(Builtin::IsCons))).insert(
        "float?"@,
        SexpV::Atom(AtomV::Func(Builtin::IsFloat)),
    ).insert("function?"@, SexpV::Atom(AtomV::Func(Builtin::IsFunction))).insert(
        "int?"@,
        SexpV::Atom(AtomV::Func(Builtin::IsInt)),
    ).insert("null?"@, SexpV::Atom(AtomV::Func(Builtin::IsNull))).insert(
        "number?"@,
        SexpV::Atom(AtomV::Func(Builtin::IsNumber)),
    ).insert("symbol?"@, SexpV::Atom(AtomV::Func(Builtin::IsSymbol))).insert(
        "cons"@,
        SexpV::Atom(AtomV::Func(Builtin::Cons)),
    )
}

impl Env {
    /// Whether this environment is usable: it has at least one frame to
    /// bind into.
    pub open spec fn wf(&self) -> bool {
        self@.len() > 0
    }

    /// A fresh innermost frame, scoped inside a copy of `outer`'s chain (or
    /// standing alone when there is none).
    #[verifier::loop_isolation(false)]
    pub fn new(outer: Option<&Env>) -> (r: Env)
        ensures
            r@ == match outer {
                Some(o) => o@.push(Map::<Seq<char>, SexpV>::empty()),
                None => seq![Map::<Seq<char>, SexpV>::empty()],
            },
            r.wf(),
    {
        let mut frames: Vec<Frame> = Vec::new();
        match outer {
            None => {},
            Some(o) => {
                let n = o.frames.len();
                let mut i: usize = 0;
                while i < n
                    invariant
                        i <= n,
                        frames@.len() == i,
                        forall|j: int| 0 <= j < i ==> (#[trigger] frames@[j])@ == o.frames@[j]@,
                    decreases n - i,
                {
                    frames.push(o.frames[i].clone());
                    i += 1;
                }
            },
        }
        frames.push(Frame::new());
        let r = Env { frames };
        proof {
            match outer {
                Some(o) => {
                    assert(frames_view(r.frames@) =~= frames_view(o.frames@).push(
                        Map::<Seq<char>, SexpV>::empty(),
                    ));
                },
                None => {
                    assert(frames_view(r.frames@) =~= seq![Map::<Seq<char>, SexpV>::empty()]);
                },
            }
        }
        r
    }

    /// The value bound to `symbol`, looked up innermost frame first; an
    /// unbound symbol is an error.
    #[verifier::loop_isolation(false)]
    pub fn search(&self, symbol: &String) -> (r: Result<Sexp, Error>)
        ensures
            match r {
                Ok(v) => env_lookup(self@, symbol@) == Some(v@),
                Err(Error::Reason(m)) => {
                    &&& env_lookup(self@, symbol@) is None
                    &&& m@ == "Symbol not found in environment."@
                },
            },
    {
        let ghost fv = frames_view(self.frames@);
        let n = self.frames.len();
        let mut i: usize = n;
        proof {
            assert(fv.take(n as int) =~= fv);
        }
        while i > 0
            invariant
                i <= n,
                env_lookup(fv, symbol@) == env_lookup(fv.take(i as int), symbol@),
            decreases i,
        {
            i = i - 1;
            proof {
                assert(fv.take(i as int + 1).drop_last() =~= fv.take(i as int));
                assert(fv.take(i as int + 1).last() == fv[i as int]);
            }
            match self.frames[i].lookup(symbol) {
                Some(v) => {
                    return Ok(v);
                },
                None => {},
            }
        }
        proof {
            assert(fv.take(0) =~= Seq::<Map<Seq<char>, SexpV>>::empty());
        }
        Err(Error::Reason("Symbol not found in environment.".to_owned()))
    }

    /// Binds `symbol` to `sexp` in the innermost frame only: an outer
    /// binding of the same name is shadowed, never changed.
    pub fn insert(&mut self, symbol: String, sexp: Sexp)
        requires
            old(self).wf(),
        ensures
            final(self).wf(),
            final(self)@ == old(self)@.update(
                old(self)@.len() - 1,
                old(self)@.last().insert(symbol@, sexp@),
            ),
    {
        let ghost fv0 = frames_view(self.frames@);
        let mut last = match self.frames.pop() {
            Some(f) => f,
            None => Frame::new(),
        };
        last.insert(symbol, sexp);
        self.frames.push(last);
        proof {
            assert(frames_view(self.frames@) =~= fv0.update(
                fv0.len() - 1,
                fv0.last().insert(symbol@, sexp@),
            ));
        }
    }

    /// The default global environment: a single fresh frame holding every
    /// primitive under its canonical name.
    pub fn default_env() -> (r: Env)
        ensures
            r.wf(),
            r@ == seq![default_bindings()],
    {
        let mut default = Env::new(None);
        default.insert("'".to_owned(), Sexp::Atom(Atom::Func(Builtin::Quote)));
        default.insert("atom?".to_owned(), Sexp::Atom(Atom::Func(Builtin::IsAtom)));
        default.insert("bool?".to_owned(), Sexp::Atom(Atom::Func(Builtin::IsBool)));
        default.insert("char?".to_owned(), Sexp::Atom(Atom::Func(Builtin::IsChar)));
        default.insert("cons?".to_owned(), Sexp::Atom(Atom::Func(Builtin::IsCons)));
        default.insert("float?".to_owned(), Sexp::Atom(Atom::Func(Builtin::IsFloat)));
        default.insert("function?".to_owned(), Sexp::Atom(Atom::Func(Builtin::IsFunction)));
        default.insert("int?".to_owned(), Sexp::Atom(Atom::Func(Builtin::IsInt)));
        default.insert("null?".to_owned(), Sexp::Atom(Atom::Func(Builtin::IsNull)));
        default.insert("number?".to_owned(), Sexp::Atom(Atom::Func(Builtin::IsNumber)));
        default.insert("symbol?".to_owned(), Sexp::Atom(Atom::Func(Builtin::IsSymbol)));
        default.insert("cons".to_owned(), Sexp::Atom(Atom::Func(Builtin::Cons)));
        proof {
            assert(default@ =~= seq![default_bindings()]);
        }
        default
    }
}

} // verus!
