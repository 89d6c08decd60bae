use plib::env::Env;
use plib::eval::eval;
use plib::lexer::tokenize;
use plib::number::Number;
use plib::parser::read_from_tokens;
use plib::sexp::{Atom, Builtin, Error, Sexp};

fn run(code: &str) -> Result<Sexp, Error> {
    let mut env = Env::default_env();
    run_in(code, &mut env)
}

fn run_in(code: &str, env: &mut Env) -> Result<Sexp, Error> {
    let mut tokens = tokenize(code.to_owned()).unwrap();
    let parsed = read_from_tokens(&mut tokens).unwrap();
    eval(&parsed, env)
}

fn expect_bool(code: &str, expected: bool) {
    match run(code) {
        Ok(Sexp::Atom(Atom::Bool(b))) => assert_eq!(b, expected, "{}", code),
        other => panic!("{} did not evaluate to a boolean: {:?}", code, other.is_ok()),
    }
}

fn expect_err(code: &str, message: &str) {
    match run(code) {
        Err(Error::Reason(m)) => assert_eq!(m, message, "{}", code),
        Ok(_) => panic!("{} unexpectedly evaluated", code),
    }
}

#[test]
fn eval_self_evaluating_atoms() {
    assert!(matches!(run("true"), Ok(Sexp::Atom(Atom::Bool(true)))));
    assert!(matches!(
        run("6"),
        Ok(Sexp::Atom(Atom::Number(Number::Int(6))))
    ));
    assert!(matches!(
        run("6.5"),
        Ok(Sexp::Atom(Atom::Number(Number::Float(f)))) if f == "6.5"
    ));
    assert!(matches!(run("\"text\""), Ok(Sexp::Atom(Atom::String(s))) if s == "text"));
}

#[test]
fn eval_nil_is_itself() {
    assert!(matches!(run("nil"), Ok(Sexp::List(items)) if items.is_empty()));
    assert!(matches!(run("()"), Ok(Sexp::List(items)) if items.is_empty()));
}

#[test]
fn eval_symbol_resolves_to_binding() {
    match run("symbol?") {
        Ok(Sexp::Atom(Atom::Func(b))) => assert_eq!(b, Builtin::IsSymbol),
        _ => panic!("symbol? did not resolve to its primitive"),
    }
}

#[test]
fn eval_unbound_symbol_fails() {
    expect_err("some-fresh-name", "Symbol not found in environment.");
}

#[test]
fn eval_non_function_head_fails() {
    expect_err("(1 2 3)", "first argument must be a function");
    expect_err("(\"s\")", "first argument must be a function");
    expect_err("(())", "first argument must be a function");
}

#[test]
fn eval_quote_suppresses_evaluation() {
    let result = run("'(symbol? true)").unwrap();
    let items = match result {
        Sexp::List(items) => items,
        _ => panic!("expected the literal list back"),
    };
    assert_eq!(items.len(), 2);
    assert!(matches!(&items[0], Sexp::Atom(Atom::Symbol(s)) if s == "symbol?"));
    assert!(matches!(&items[1], Sexp::Atom(Atom::Bool(true))));
    expect_bool("(symbol? true)", false);
}

#[test]
fn eval_quote_of_atom() {
    assert!(matches!(run("'1"), Ok(Sexp::Atom(Atom::Number(Number::Int(1))))));
    assert!(matches!(run("'symbol?"), Ok(Sexp::Atom(Atom::Symbol(s))) if s == "symbol?"));
}

#[test]
fn eval_quote_arity() {
    let quote = Sexp::Atom(Atom::Symbol("'".to_owned()));
    let one = Sexp::Atom(Atom::Number(Number::Int(1)));
    let two = Sexp::Atom(Atom::Number(Number::Int(2)));
    let mut env = Env::default_env();
    let no_args = Sexp::List(vec![quote.clone()]);
    assert!(matches!(
        eval(&no_args, &mut env),
        Err(Error::Reason(m)) if m == "function takes 1 argument"
    ));
    let two_args = Sexp::List(vec![quote, one, two]);
    assert!(matches!(
        eval(&two_args, &mut env),
        Err(Error::Reason(m)) if m == "function takes 1 argument"
    ));
}

#[test]
fn eval_null_predicate() {
    expect_bool("(null? ())", true);
    expect_bool("(null? nil)", true);
    expect_bool("(null? '(1))", false);
    expect_bool("(null? false)", false);
    expect_bool("(null? 1)", false);
}

#[test]
fn eval_cons_predicate() {
    expect_bool("(cons? '(1 2 3))", true);
    expect_bool("(cons? ())", false);
    expect_bool("(cons? 1)", false);
    expect_bool("(cons? (cons true false))", true);
}

#[test]
fn eval_number_predicates() {
    expect_bool("(int? 1)", true);
    expect_bool("(int? 21.37)", false);
    expect_bool("(number? 21.37)", true);
    expect_bool("(number? 1)", true);
    expect_bool("(number? true)", false);
    expect_bool("(float? 21.37)", true);
    expect_bool("(float? 1)", false);
}

#[test]
fn eval_other_predicates() {
    expect_bool("(atom? 1)", true);
    expect_bool("(atom? '(1))", false);
    expect_bool("(bool? true)", true);
    expect_bool("(bool? 1)", false);
    expect_bool("(symbol? 'x)", true);
    expect_bool("(symbol? \"x\")", false);
    expect_bool("(function? symbol?)", true);
    expect_bool("(function? 1)", false);
    expect_bool("(char? 1)", false);
}

#[test]
fn eval_predicate_arity_errors() {
    expect_err("(null?)", "function takes 1 argument");
    expect_err("(null? 1 2)", "function takes 1 argument");
    expect_err("(cons 1)", "function takes 2 arguments");
    expect_err("(cons 1 2 3)", "function takes 2 arguments");
}

#[test]
fn eval_cons_builds_a_pair() {
    let result = run("(cons true false)").unwrap();
    let items = match result {
        Sexp::List(items) => items,
        _ => panic!("expected a pair"),
    };
    assert_eq!(items.len(), 2);
    assert!(matches!(&items[0], Sexp::Atom(Atom::Bool(true))));
    assert!(matches!(&items[1], Sexp::Atom(Atom::Bool(false))));
}

#[test]
fn eval_arguments_are_evaluated() {
    // the inner call runs before cons packs the results
    let result = run("(cons (null? ()) 2)").unwrap();
    let items = match result {
        Sexp::List(items) => items,
        _ => panic!("expected a pair"),
    };
    assert!(matches!(&items[0], Sexp::Atom(Atom::Bool(true))));
    assert!(matches!(&items[1], Sexp::Atom(Atom::Number(Number::Int(2)))));
}

#[test]
fn eval_calls_through_an_alias() {
    let mut env = Env::default_env();
    env.insert(
        "alias".to_owned(),
        Sexp::Atom(Atom::Symbol("null?".to_owned())),
    );
    match run_in("(alias ())", &mut env) {
        Ok(Sexp::Atom(Atom::Bool(b))) => assert!(b),
        _ => panic!("alias call failed"),
    }
}

#[test]
fn eval_depth_limit_reports_error() {
    let depth = 600;
    let mut code = String::new();
    for _ in 0..depth {
        code.push('(');
    }
    code.push_str("null?");
    for _ in 0..depth {
        code.push(')');
    }
    expect_err(&code, "evaluation nested too deeply");
}

#[test]
fn env_insert_shadows_outer_binding() {
    let mut outer = Env::default_env();
    outer.insert("x".to_owned(), Sexp::Atom(Atom::Number(Number::Int(1))));
    let mut inner = Env::new(Some(&outer));
    inner.insert("x".to_owned(), Sexp::Atom(Atom::Number(Number::Int(2))));
    match inner.search(&"x".to_owned()) {
        Ok(Sexp::Atom(Atom::Number(Number::Int(i)))) => assert_eq!(i, 2),
        _ => panic!("shadowed binding not found"),
    }
    match outer.search(&"x".to_owned()) {
        Ok(Sexp::Atom(Atom::Number(Number::Int(i)))) => assert_eq!(i, 1),
        _ => panic!("outer binding changed"),
    }
}

#[test]
fn env_child_sees_outer_binding() {
    let mut outer = Env::default_env();
    outer.insert("y".to_owned(), Sexp::Atom(Atom::Bool(true)));
    let inner = Env::new(Some(&outer));
    assert!(matches!(
        inner.search(&"y".to_owned()),
        Ok(Sexp::Atom(Atom::Bool(true)))
    ));
}

#[test]
fn env_search_unbound_fails() {
    let env = Env::new(None);
    assert!(matches!(
        env.search(&"nothing".to_owned()),
        Err(Error::Reason(m)) if m == "Symbol not found in environment."
    ));
}

#[test]
fn render_values() {
    let mut tokens = tokenize("(a 1 -2 (\"s\" 2.5) ())".to_owned()).unwrap();
    let parsed = read_from_tokens(&mut tokens).unwrap();
    assert_eq!(parsed.to_text(), "(a 1 -2 (\"s\" 2.5) ())");
}

#[test]
fn render_numbers() {
    assert_eq!(Number::Int(0).to_text(), "0");
    assert_eq!(Number::Int(2137).to_text(), "2137");
    assert_eq!(Number::Int(i32::MIN).to_text(), "-2147483648");
    assert_eq!(Number::Int(i32::MAX).to_text(), "2147483647");
    assert_eq!(Number::Float("21.37".to_owned()).to_text(), "21.37");
}

#[test]
fn render_builtin_function() {
    let f = Sexp::Atom(Atom::Func(Builtin::IsSymbol));
    assert_eq!(f.to_text(), "builtin function symbol?");
    assert_eq!(Builtin::Cons.name(), "cons");
    assert_eq!(Builtin::Quote.name(), "'");
}

#[test]
fn error_describe() {
    let e = Error::Reason("unexpected EOF".to_owned());
    assert_eq!(e.describe(), "Error: unexpected EOF");
}

#[test]
fn default_env_binds_every_primitive() {
    let env = Env::default_env();
    let names = [
        ("'", Builtin::Quote),
        ("atom?", Builtin::IsAtom),
        ("bool?", Builtin::IsBool),
        ("char?", Builtin::IsChar),
        ("cons?", Builtin::IsCons),
        ("float?", Builtin::IsFloat),
        ("function?", Builtin::IsFunction),
        ("int?", Builtin::IsInt),
        ("null?", Builtin::IsNull),
        ("number?", Builtin::IsNumber),
        ("symbol?", Builtin::IsSymbol),
        ("cons", Builtin::Cons),
    ];
    for (name, tag) in names {
        match env.search(&name.to_owned()) {
            Ok(Sexp::Atom(Atom::Func(b))) => assert_eq!(b, tag, "{}", name),
            _ => panic!("{} is not bound to its primitive", name),
        }
    }
}
