use plib::lexer;
use std::collections::VecDeque;

#[test]
fn tokenize_parens() {
    let vec = vec![lexer::Token::LParen, lexer::Token::RParen];
    let tokens = lexer::tokenize("()".to_owned()).unwrap();
    let matching = vec
        .iter()
        .zip(tokens.iter())
        .filter(|&(a, b)| a == b)
        .count();
    assert_eq!(matching, tokens.len())
}

#[test]
fn tokenize_symbol() {
    let mut expected = VecDeque::new();
    expected.push_back(lexer::Token::Symbol("symbol?".to_owned()));
    let result = lexer::tokenize("symbol?".to_owned()).unwrap();
    assert_eq!(expected, result)
}

#[test]
fn tokenize_symbol_error() {
    let is_err = match lexer::tokenize("dd'dd".to_owned()) {
        Ok(_) => false,
        Err(_) => true,
    };
    assert!(is_err);
}

#[test]
fn tokenize_string() {
    let mut expected = VecDeque::new();
    expected.push_back(lexer::Token::String("string".to_owned()));
    let result = lexer::tokenize("\"string\"".to_owned()).unwrap();
    assert_eq!(expected, result)
}

#[test]
fn tokenize_string_error() {
    let is_err = match lexer::tokenize("\"ddd".to_owned()) {
        Ok(_) => false,
        Err(_) => true,
    };
    assert!(is_err)
}

#[test]
fn tokenize() {
    let mut expected = VecDeque::new();
    expected.push_back(lexer::Token::LParen);
    expected.push_back(lexer::Token::Symbol("string?".to_owned()));
    expected.push_back(lexer::Token::String("string".to_owned()));
    expected.push_back(lexer::Token::RParen);
    let result = lexer::tokenize("(string? \"string\")".to_owned()).unwrap();
    assert_eq!(expected, result)
}

#[test]
fn tokenize_empty_input() {
    let result = lexer::tokenize("".to_owned()).unwrap();
    assert!(result.is_empty());
}

#[test]
fn tokenize_skips_whitespace() {
    let mut expected = VecDeque::new();
    expected.push_back(lexer::Token::LParen);
    expected.push_back(lexer::Token::Symbol("a".to_owned()));
    expected.push_back(lexer::Token::RParen);
    let result = lexer::tokenize("  (\t a\n)  ".to_owned()).unwrap();
    assert_eq!(expected, result);
}

#[test]
fn tokenize_quote_token() {
    let mut expected = VecDeque::new();
    expected.push_back(lexer::Token::Quote);
    expected.push_back(lexer::Token::Symbol("x".to_owned()));
    let result = lexer::tokenize("'x".to_owned()).unwrap();
    assert_eq!(expected, result);
}

#[test]
fn tokenize_symbol_error_message() {
    match lexer::tokenize("ab'cd".to_owned()) {
        Err(lexer::LexerError::Reason(m)) => {
            assert_eq!(m, "invalid characters: ['''] in symbol: ab'cd");
        }
        Ok(_) => panic!("expected an error"),
    }
}

#[test]
fn tokenize_string_error_message() {
    match lexer::tokenize("\"ddd".to_owned()) {
        Err(e) => {
            assert_eq!(e.describe(), "Lexer error: missing closing quote");
        }
        Ok(_) => panic!("expected an error"),
    }
}

#[test]
fn tokenize_symbol_direct() {
    let chars: Vec<char> = "hello)".chars().collect();
    let mut pos: usize = 0;
    let token = lexer::tokenize_symbol(&chars, &mut pos).unwrap();
    assert_eq!(token, lexer::Token::Symbol("hello".to_owned()));
    assert_eq!(pos, 5);
}

#[test]
fn tokenize_string_direct() {
    let chars: Vec<char> = "abc\"rest".chars().collect();
    let mut pos: usize = 0;
    let token = lexer::tokenize_string(&chars, &mut pos).unwrap();
    assert_eq!(token, lexer::Token::String("abc".to_owned()));
    assert_eq!(pos, 4);
}

#[test]
fn whitespace_table_agrees_with_unicode() {
    let spaces = [
        '\u{9}', '\u{a}', '\u{b}', '\u{c}', '\u{d}', ' ', '\u{85}', '\u{a0}', '\u{1680}',
        '\u{2000}', '\u{2001}', '\u{2002}', '\u{2003}', '\u{2004}', '\u{2005}', '\u{2006}',
        '\u{2007}', '\u{2008}', '\u{2009}', '\u{200a}', '\u{2028}', '\u{2029}', '\u{202f}',
        '\u{205f}', '\u{3000}',
    ];
    for c in spaces {
        assert!(c.is_whitespace(), "{:?} should be whitespace", c);
        assert!(lexer::is_whitespace_char(c), "{:?} missing from the table", c);
    }
    for c in ['a', '0', '(', ')', '\'', '"', '\u{200b}', '-'] {
        assert!(!c.is_whitespace(), "{:?} should not be whitespace", c);
        assert!(!lexer::is_whitespace_char(c), "{:?} wrongly in the table", c);
    }
}

#[test]
fn tokenize_non_ascii_symbols() {
    let mut expected = VecDeque::new();
    expected.push_back(lexer::Token::LParen);
    expected.push_back(lexer::Token::Symbol("éñ".to_owned()));
    expected.push_back(lexer::Token::RParen);
    let result = lexer::tokenize("(éñ)".to_owned()).unwrap();
    assert_eq!(expected, result);
}
