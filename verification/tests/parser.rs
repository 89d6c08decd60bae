use plib::{lexer, number, parser, sexp};

#[test]
fn parse_eof_error() {
    let mut vec = lexer::tokenize("".to_owned()).unwrap();
    let err = parser::read_from_tokens(&mut vec);
    let expected = "unexpected EOF".to_owned();
    let mut to_check = "".to_owned();
    if let Err(sexp::Error::Reason(r)) = err {
        to_check = r
    }
    assert_eq!(to_check, expected)
}

#[test]
fn parse_rparen_error() {
    let mut vec = lexer::tokenize(")".to_owned()).unwrap();
    let err = parser::read_from_tokens(&mut vec);
    let expected = "unexpected ')'".to_owned();
    let mut to_check = "".to_owned();
    if let Err(sexp::Error::Reason(r)) = err {
        to_check = r
    }
    assert_eq!(to_check, expected)
}

#[test]
fn parse_lparen_error() {
    let mut vec = lexer::tokenize("(".to_owned()).unwrap();
    let err = parser::read_from_tokens(&mut vec);
    let expected = "missing ')' in expression: (".to_owned();
    let mut to_check = "".to_owned();
    if let Err(sexp::Error::Reason(r)) = err {
        to_check = r
    }
    assert_eq!(to_check, expected)
}

#[test]
fn parse_empty_list() {
    let mut tokens = lexer::tokenize("()".to_owned()).unwrap();
    if let Ok(sexp::Sexp::List(vec)) = parser::read_from_tokens(&mut tokens) {
        assert_eq!(vec.len(), 0)
    } else {
        assert!(false)
    }
}

#[test]
fn parse_nil() {
    let mut tokens = lexer::tokenize("nil".to_owned()).unwrap();
    if let Ok(sexp::Sexp::List(vec)) = parser::read_from_tokens(&mut tokens) {
        assert_eq!(vec.len(), 0)
    } else {
        assert!(false)
    }
}

#[test]
fn parse_nested_list() {
    let mut tokens = lexer::tokenize("(())".to_owned()).unwrap();
    if let Ok(sexp::Sexp::List(outer)) = parser::read_from_tokens(&mut tokens) {
        if let sexp::Sexp::List(ref inner) = outer[0] {
            assert_eq!(inner.len(), 0)
        } else {
            assert!(false)
        }
    } else {
        assert!(false)
    }
}

#[test]
fn parse_true() {
    let mut tokens = lexer::tokenize("true".to_owned()).unwrap();
    if let Ok(sexp::Sexp::Atom(sexp::Atom::Bool(t))) = parser::read_from_tokens(&mut tokens) {
        assert!(t)
    } else {
        assert!(false)
    }
}

#[test]
fn parse_false() {
    let mut tokens = lexer::tokenize("false".to_owned()).unwrap();
    if let Ok(sexp::Sexp::Atom(sexp::Atom::Bool(f))) = parser::read_from_tokens(&mut tokens) {
        assert!(!f)
    } else {
        assert!(false)
    }
}

#[test]
fn parse_int() {
    let mut tokens = lexer::tokenize("2137".to_owned()).unwrap();
    if let Ok(sexp::Sexp::Atom(sexp::Atom::Number(number::Number::Int(i)))) =
        parser::read_from_tokens(&mut tokens)
    {
        assert_eq!(i, 2137)
    } else {
        assert!(false)
    }
}

#[test]
fn parse_float() {
    let mut tokens = lexer::tokenize("21.37".to_owned()).unwrap();
    if let Ok(sexp::Sexp::Atom(sexp::Atom::Number(number::Number::Float(f)))) =
        parser::read_from_tokens(&mut tokens)
    {
        assert_eq!(f, "21.37")
    } else {
        assert!(false)
    }
}

#[test]
fn parse_symbol() {
    let mut tokens = lexer::tokenize("symbol".to_owned()).unwrap();
    if let Ok(sexp::Sexp::Atom(sexp::Atom::Symbol(s))) = parser::read_from_tokens(&mut tokens) {
        assert_eq!(s, "symbol")
    } else {
        assert!(false)
    }
}

#[test]
fn parse_string() {
    let mut tokens = lexer::tokenize("\"symbol\"".to_owned()).unwrap();
    if let Ok(sexp::Sexp::Atom(sexp::Atom::String(s))) = parser::read_from_tokens(&mut tokens) {
        assert_eq!(s, "symbol")
    } else {
        assert!(false)
    }
}

#[test]
fn parse_round_trip_structure() {
    let mut tokens = lexer::tokenize("(symbol 1 2.5 \"s\")".to_owned()).unwrap();
    let parsed = parser::read_from_tokens(&mut tokens).unwrap();
    let items = match parsed {
        sexp::Sexp::List(items) => items,
        _ => panic!("expected a list"),
    };
    assert_eq!(items.len(), 4);
    assert!(matches!(&items[0], sexp::Sexp::Atom(sexp::Atom::Symbol(s)) if s == "symbol"));
    assert!(matches!(
        &items[1],
        sexp::Sexp::Atom(sexp::Atom::Number(number::Number::Int(1)))
    ));
    assert!(matches!(
        &items[2],
        sexp::Sexp::Atom(sexp::Atom::Number(number::Number::Float(f))) if f == "2.5"
    ));
    assert!(matches!(&items[3], sexp::Sexp::Atom(sexp::Atom::String(s)) if s == "s"));
}

#[test]
fn parse_successive_forms() {
    let mut tokens = lexer::tokenize("a (b) c".to_owned()).unwrap();
    let first = parser::read_from_tokens(&mut tokens).unwrap();
    assert!(matches!(first, sexp::Sexp::Atom(sexp::Atom::Symbol(s)) if s == "a"));
    let second = parser::read_from_tokens(&mut tokens).unwrap();
    assert!(matches!(second, sexp::Sexp::List(items) if items.len() == 1));
    let third = parser::read_from_tokens(&mut tokens).unwrap();
    assert!(matches!(third, sexp::Sexp::Atom(sexp::Atom::Symbol(s)) if s == "c"));
    let done = parser::read_from_tokens(&mut tokens);
    assert!(matches!(done, Err(sexp::Error::Reason(m)) if m == "unexpected EOF"));
}

#[test]
fn parse_quote_shape() {
    let mut tokens = lexer::tokenize("'x".to_owned()).unwrap();
    let parsed = parser::read_from_tokens(&mut tokens).unwrap();
    let items = match parsed {
        sexp::Sexp::List(items) => items,
        _ => panic!("expected a list"),
    };
    assert_eq!(items.len(), 2);
    assert!(matches!(&items[0], sexp::Sexp::Atom(sexp::Atom::Symbol(s)) if s == "'"));
    assert!(matches!(&items[1], sexp::Sexp::Atom(sexp::Atom::Symbol(s)) if s == "x"));
}

#[test]
fn parse_int_overflow_becomes_float() {
    let mut tokens = lexer::tokenize("2147483648".to_owned()).unwrap();
    let parsed = parser::read_from_tokens(&mut tokens).unwrap();
    assert!(matches!(
        parsed,
        sexp::Sexp::Atom(sexp::Atom::Number(number::Number::Float(f))) if f == "2147483648"
    ));
}

#[test]
fn parse_int_min() {
    let mut tokens = lexer::tokenize("-2147483648".to_owned()).unwrap();
    let parsed = parser::read_from_tokens(&mut tokens).unwrap();
    assert!(matches!(
        parsed,
        sexp::Sexp::Atom(sexp::Atom::Number(number::Number::Int(i))) if i == i32::MIN
    ));
}

#[test]
fn parse_float_forms() {
    for text in ["1e3", ".5", "5.", "-0.25", "+2e-7", "inf", "NaN", "Infinity"] {
        let mut tokens = lexer::tokenize(text.to_owned()).unwrap();
        let parsed = parser::read_from_tokens(&mut tokens).unwrap();
        assert!(
            matches!(
                parsed,
                sexp::Sexp::Atom(sexp::Atom::Number(number::Number::Float(f))) if f == text
            ),
            "{} did not parse as a float",
            text
        );
    }
}

#[test]
fn parse_symbol_forms() {
    for text in ["+", "-", "e3", "1.2.3", "nan-boxed", "truer"] {
        let mut tokens = lexer::tokenize(text.to_owned()).unwrap();
        let parsed = parser::read_from_tokens(&mut tokens).unwrap();
        assert!(
            matches!(
                parsed,
                sexp::Sexp::Atom(sexp::Atom::Symbol(s)) if s == text
            ),
            "{} did not parse as a symbol",
            text
        );
    }
}

#[test]
fn parse_partial_list_error_message() {
    let mut tokens = lexer::tokenize("(1 2".to_owned()).unwrap();
    let err = parser::read_from_tokens(&mut tokens);
    assert!(matches!(
        err,
        Err(sexp::Error::Reason(m)) if m == "missing ')' in expression: (1 2"
    ));
}
