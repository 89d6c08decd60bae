//! The lexer: a single left-to-right scan that turns source text into an
//! ordered token queue.
//!
//! `(`, `)` and `'` each stand for themselves; `"` opens a string literal
//! read verbatim to the closing `"`; whitespace separates and is dropped;
//! any other character opens a bare symbol that runs to the next whitespace
//! or parenthesis.  A `"` or `'` inside a bare symbol is an error that
//! reports every offending character together with the symbol text.

use crate::text::{chars_of, push_char};
use std::collections::VecDeque;
use vstd::prelude::*;

verus! {

/// A lexical token, consumed by the parser.  Tokens carry no semantic type:
/// number, boolean and nil disambiguation is deferred to parsing.
#[derive(Debug, PartialEq)]
pub enum Token {
    Symbol(String),
    String(String),
    Quote,
    LParen,
    RParen,
}

/// Mathematical model of a [`Token`].
pub enum TokenV {
    Symbol(Seq<char>),
    Str(Seq<char>),
    Quote,
    LParen,
    RParen,
}

impl View for Token {
    type V = TokenV;

    open spec fn view(&self) -> TokenV {
        match self {
            Token::Symbol(s) => TokenV::Symbol(s@),
            Token::String(s) => TokenV::Str(s@),
            Token::Quote => TokenV::Quote,
            Token::LParen => TokenV::LParen,
            Token::RParen => TokenV::RParen,
        }
    }
}

/// The views of a sequence of tokens, elementwise.
pub open spec fn toks_view(q: Seq<Token>) -> Seq<TokenV> {
    Seq::new(q.len(), |i: int| if 0 <= i < q.len() {
        q[i]@
    } else {
        TokenV::Quote
    })
}

/// An error of the lexer, carrying the reason text.
#[derive(Debug, PartialEq)]
pub enum LexerError {
    Reason(String),
}

impl View for LexerError {
    type V = Seq<char>;

    open spec fn view(&self) -> Seq<char> {
        match self {
            LexerError::Reason(m) => m@,
        }
    }
}

impl LexerError {
    /// The full diagnostic line for this error.
    pub fn describe(&self) -> (r: String)
        ensures
            r@ == "Lexer error: "@ + self@,
    {
        let mut out = "Lexer error: ".to_owned();
        match self {
            LexerError::Reason(m) => {
                out.append(m.as_str());
            },
        }
        out
    }
}

/// The ways the lexer can fail, in structured form.
pub enum LexErrV {
    /// A string literal was still open at the end of the input.
    UnterminatedString,
    /// A bare symbol contained forbidden characters; `found` lists each
    /// offending character in order, `symbol` is the whole symbol text.
    InvalidChars { found: Seq<char>, symbol: Seq<char> },
}

/// Whitespace, as the lexer understands it: the Unicode `White_Space`
/// code points.
pub open spec fn is_space(c: char) -> bool {
    ||| c == '\u{9}'
    ||| c == '\u{a}'
    ||| c == '\u{b}'
    ||| c == '\u{c}'
    ||| c == '\u{d}'
    ||| c == ' '
    ||| c == '\u{85}'
    ||| c == '\u{a0}'
    ||| c == '\u{1680}'
    ||| ('\u{2000}' <= c && c <= '\u{200a}')
    ||| c == '\u{2028}'
    ||| c == '\u{2029}'
    ||| c == '\u{202f}'
    ||| c == '\u{205f}'
    ||| c == '\u{3000}'
}

/// A character that ends a bare symbol: whitespace or a parenthesis.
pub open spec fn is_terminal(c: char) -> bool {
    is_space(c) || c == '(' || c == ')'
}

/// A character that may not occur inside a bare symbol.
pub open spec fn is_forbidden(c: char) -> bool {
    c == '"' || c == '\''
}

/// Exec check for [`is_space`].
pub fn is_whitespace_char(c: char) -> (r: bool)
    ensures
        r == is_space(c),
{
    c == '\u{9}' || c == '\u{a}' || c == '\u{b}' || c == '\u{c}' || c == '\u{d}' || c == ' '
        || c == '\u{85}' || c == '\u{a0}' || c == '\u{1680}' || ('\u{2000}' <= c && c
        <= '\u{200a}') || c == '\u{2028}' || c == '\u{2029}' || c == '\u{202f}' || c == '\u{205f}'
        || c == '\u{3000}'
}

/// Exec check for [`is_terminal`].
pub fn is_terminal_char(c: char) -> (r: bool)
    ensures
        r == is_terminal(c),
{
    is_whitespace_char(c) || c == '(' || c == ')'
}

/// Exec check for [`is_forbidden`].
pub fn is_forbidden_char(c: char) -> (r: bool)
    ensures
        r == is_forbidden(c),
{
    c == '"' || c == '\''
}

/// A single character in quotes, for the invalid-character diagnostic.
pub open spec fn quoted_char(c: char) -> Seq<char> {
    seq!['\'', c, '\'']
}

/// The elements of a character list diagnostic, comma-separated.
pub open spec fn render_char_items(cs: Seq<char>) -> Seq<char>
    decreases cs.len(),
{
    if cs.len() == 0 {
        Seq::empty()
    } else if cs.len() == 1 {
        quoted_char(cs[0])
    } else {
        render_char_items(cs.drop_last()) + seq![',', ' '] + quoted_char(cs.last())
    }
}

/// A character list diagnostic: quoted characters, comma-separated, in
/// square brackets.
pub open spec fn render_char_list(cs: Seq<char>) -> Seq<char> {
    seq!['['] + render_char_items(cs) + seq![']']
}

/// The reason text of each lexer error.
pub open spec fn lex_msg(e: LexErrV) -> Seq<char> {
    match e {
        LexErrV::UnterminatedString => "missing closing quote"@,
        LexErrV::InvalidChars { found, symbol } => "invalid characters: "@ + render_char_list(
            found,
        ) + " in symbol: "@ + symbol,
    }
}

/// The string literal text starting at `s` (just after the opening quote):
/// the characters up to the first `"`, and the rest after that quote; `None`
/// when the input ends first.
pub open spec fn spec_take_string(s: Seq<char>) -> Option<(Seq<char>, Seq<char>)>
    decreases s.len(),
{
    if s.len() == 0 {
        None
    } else if s[0] == '"' {
        Some((Seq::empty(), s.drop_first()))
    } else {
        match spec_take_string(s.drop_first()) {
            None => None,
            Some((t, rest)) => Some((seq![s[0]] + t, rest)),
        }
    }
}

/// The bare symbol starting at `s`: the longest prefix without a terminal
/// character, and the rest.
pub open spec fn spec_take_symbol(s: Seq<char>) -> (Seq<char>, Seq<char>)
    decreases s.len(),
{
    if s.len() == 0 || is_terminal(s[0]) {
        (Seq::empty(), s)
    } else {
        let (t, rest) = spec_take_symbol(s.drop_first());
        (seq![s[0]] + t, rest)
    }
}

/// The forbidden characters of a symbol, in order.
pub open spec fn forbidden_of(s: Seq<char>) -> Seq<char> {
    s.filter(|x: char| is_forbidden(x))
}

/// Prepends a token to a tokenizing result.
pub open spec fn cons_tok(
    t: TokenV,
    r: Result<Seq<TokenV>, LexErrV>,
) -> Result<Seq<TokenV>, LexErrV> {
    match r {
        Ok(ts) => Ok(seq![t] + ts),
        Err(e) => Err(e),
    }
}

/// The token queue of a whole text, or the first lexical error in it.
pub open spec fn spec_tokenize(s: Seq<char>) -> Result<Seq<TokenV>, LexErrV>
    decreases s.len(),
{
    if s.len() == 0 {
        Ok(Seq::empty())
    } else {
        let c = s[0];
        if c == '(' {
            cons_tok(TokenV::LParen, spec_tokenize(s.drop_first()))
        } else if c == ')' {
            cons_tok(TokenV::RParen, spec_tokenize(s.drop_first()))
        } else if c == '\'' {
            cons_tok(TokenV::Quote, spec_tokenize(s.drop_first()))
        } else if c == '"' {
            match spec_take_string(s.drop_first()) {
                None => Err(LexErrV::UnterminatedString),
                Some((t, rest)) => if rest.len() < s.len() {
                    cons_tok(TokenV::Str(t), spec_tokenize(rest))
                } else {
                    // cannot arise: the closing quote was consumed, so the
                    // rest is shorter than the input
                    Err(LexErrV::UnterminatedString)
                },
            }
        } else if is_space(c) {
            spec_tokenize(s.drop_first())
        } else {
            let (sym, rest) = spec_take_symbol(s);
            let bad = forbidden_of(sym);
            if bad.len() > 0 {
                Err(LexErrV::InvalidChars { found: bad, symbol: sym })
            } else if rest.len() < s.len() {
                cons_tok(TokenV::Symbol(sym), spec_tokenize(rest))
            } else {
                // cannot arise: the first character is not terminal, so the
                // symbol has at least one character
                Ok(Seq::empty())
            }
        }
    }
}

/// What `tokenize` promises: on success the queue is exactly the specified
/// token sequence, on failure the reason is the specified error's text.
pub open spec fn lex_result_matches(
    r: Result<VecDeque<Token>, LexerError>,
    sp: Result<Seq<TokenV>, LexErrV>,
) -> bool {
    match r {
        Ok(q) => sp matches Ok(ts) && toks_view(q@) == ts,
        Err(LexerError::Reason(m)) => sp matches Err(e) && m@ == lex_msg(e),
    }
}

/// A symbol-and-rest pair with `pre` prepended to the symbol part.
spec fn prepend_sym(pre: Seq<char>, p: (Seq<char>, Seq<char>)) -> (Seq<char>, Seq<char>) {
    (pre + p.0, p.1)
}

/// A string-and-rest pair with `pre` prepended to the text part.
spec fn prepend_str(
    pre: Seq<char>,
    o: Option<(Seq<char>, Seq<char>)>,
) -> Option<(Seq<char>, Seq<char>)> {
    match o {
        None => None,
        Some((t, rest)) => Some((pre + t, rest)),
    }
}

/// A tokenizing result with `pre` prepended to the token sequence.
pub open spec fn prepend_toks(
    pre: Seq<TokenV>,
    r: Result<Seq<TokenV>, LexErrV>,
) -> Result<Seq<TokenV>, LexErrV> {
    match r {
        Ok(ts) => Ok(pre + ts),
        Err(e) => Err(e),
    }
}

proof fn lemma_forbidden_push(s: Seq<char>, c: char)
    ensures
        forbidden_of(s.push(c)) == if is_forbidden(c) {
            forbidden_of(s).push(c)
        } else {
            forbidden_of(s)
        },
{
    reveal(Seq::filter);
    assert(s.push(c).drop_last() =~= s);
    assert(s.push(c).last() == c);
}

proof fn lemma_forbidden_empty()
    ensures
        forbidden_of(Seq::<char>::empty()) == Seq::<char>::empty(),
{
    reveal(Seq::filter);
}

/// Reads one string literal, starting just after the opening quote at
/// `*pos`, through its closing quote.
#[verifier::loop_isolation(false)]
pub fn tokenize_string(chars: &Vec<char>, pos: &mut usize) -> (r: Result<Token, LexerError>)
    requires
        *old(pos) <= chars@.len(),
    ensures
        ({
            let sp = spec_take_string(chars@.skip(*old(pos) as int));
            match r {
                Ok(t) => {
                    &&& sp matches Some((txt, rest))
                    &&& t@ == TokenV::Str(txt)
                    &&& *old(pos) < *final(pos) <= chars@.len()
                    &&& chars@.skip(*final(pos) as int) == rest
                },
                Err(LexerError::Reason(m)) => {
                    &&& sp is None
                    &&& m@ == lex_msg(LexErrV::UnterminatedString)
                },
            }
        }),
{
    let ghost i0 = *pos as int;
    let n = chars.len();
    let mut text = String::new();
    let mut j: usize = *pos;
    proof {
        lemma_prepend_str_empty(spec_take_string(chars@.skip(i0)));
    }
    while j < n
        invariant
            *pos as int == i0,
            i0 <= j <= n,
            spec_take_string(chars@.skip(i0)) == prepend_str(
                text@,
                spec_take_string(chars@.skip(j as int)),
            ),
        decreases n - j,
    {
        let c = chars[j];
        proof {
            assert(chars@.skip(j as int)[0] == c);
            assert(chars@.skip(j as int).drop_first() =~= chars@.skip(j as int + 1));
        }
        if c == '"' {
            *pos = j + 1;
            proof {
                assert(text@ + Seq::<char>::empty() =~= text@);
            }
            return Ok(Token::String(text));
        }
        push_char(&mut text, c);
        j += 1;
        proof {
            let tail = spec_take_string(chars@.skip(j as int));
            match tail {
                None => {},
                Some((t, rest)) => {
                    assert(text@ + t =~= text@.drop_last() + (seq![c] + t));
                },
            }
        }
    }
    proof {
        assert(chars@.skip(n as int).len() == 0);
    }
    Err(LexerError::Reason("missing closing quote".to_owned()))
}

/// Reads one bare symbol starting at `*pos`, up to the next terminal
/// character; reports every forbidden character found in it.
#[verifier::loop_isolation(false)]
pub fn tokenize_symbol(chars: &Vec<char>, pos: &mut usize) -> (r: Result<Token, LexerError>)
    requires
        *old(pos) <= chars@.len(),
    ensures
        ({
            let (sym, rest) = spec_take_symbol(chars@.skip(*old(pos) as int));
            let bad = forbidden_of(sym);
            match r {
                Ok(t) => {
                    &&& bad.len() == 0
                    &&& t@ == TokenV::Symbol(sym)
                    &&& *old(pos) <= *final(pos) <= chars@.len()
                    &&& *final(pos) - *old(pos) == sym.len()
                    &&& chars@.skip(*final(pos) as int) == rest
                },
                Err(LexerError::Reason(m)) => {
                    &&& bad.len() > 0
                    &&& m@ == lex_msg(LexErrV::InvalidChars { found: bad, symbol: sym })
                },
            }
        }),
{
    let ghost i0 = *pos as int;
    let n = chars.len();
    let mut symbol = String::new();
    let mut forbidden: Vec<char> = Vec::new();
    let mut j: usize = *pos;
    proof {
        lemma_forbidden_empty();
        let p = spec_take_symbol(chars@.skip(i0));
        assert(Seq::<char>::empty() + p.0 =~= p.0);
    }
    while j < n && !is_terminal_char(chars[j])
        invariant
            *pos as int == i0,
            i0 <= j <= n,
            symbol@.len() == j - i0,
            spec_take_symbol(chars@.skip(i0)) == prepend_sym(
                symbol@,
                spec_take_symbol(chars@.skip(j as int)),
            ),
            forbidden@ == forbidden_of(symbol@),
        decreases n - j,
    {
        let c = chars[j];
        let ghost sym0 = symbol@;
        proof {
            assert(chars@.skip(j as int)[0] == c);
            assert(chars@.skip(j as int).drop_first() =~= chars@.skip(j as int + 1));
        }
        if is_forbidden_char(c) {
            forbidden.push(c);
        }
        push_char(&mut symbol, c);
        j += 1;
        proof {
            lemma_forbidden_push(sym0, c);
            assert(symbol@ == sym0.push(c));
            let (t, rest) = spec_take_symbol(chars@.skip(j as int));
            assert(symbol@ + t =~= sym0 + (seq![c] + t));
        }
    }
    proof {
        let s = chars@.skip(j as int);
        assert(j == n ==> s.len() == 0);
        assert(spec_take_symbol(s).0 == Seq::<char>::empty());
        assert(symbol@ + Seq::<char>::empty() =~= symbol@);
    }
    *pos = j;
    if forbidden.len() == 0 {
        return Ok(Token::Symbol(symbol));
    }
    let ghost bad = forbidden_of(symbol@);
    let mut msg = "invalid characters: ".to_owned();
    push_char(&mut msg, '[');
    let m = forbidden.len();
    let mut k: usize = 0;
    while k < m
        invariant
            m == forbidden@.len(),
            k <= m,
            forbidden@ == bad,
            msg@ == "invalid characters: "@ + seq!['['] + render_char_items(
                bad.take(k as int),
            ),
        decreases m - k,
    {
        if k > 0 {
            push_char(&mut msg, ',');
            push_char(&mut msg, ' ');
        }
        push_char(&mut msg, '\'');
        push_char(&mut msg, forbidden[k]);
        push_char(&mut msg, '\'');
        k += 1;
        proof {
            assert(bad.take(k as int).drop_last() =~= bad.take(k as int - 1));
            assert(bad.take(k as int).last() == bad[k as int - 1]);
            assert(msg@ =~= "invalid characters: "@ + seq!['['] + render_char_items(
                bad.take(k as int),
            ));
        }
    }
    push_char(&mut msg, ']');
    msg.append(" in symbol: ");
    msg.append(symbol.as_str());
    proof {
        assert(bad.take(m as int) =~= bad);
        assert(msg@ =~= lex_msg(LexErrV::InvalidChars { found: bad, symbol: symbol@ }));
    }
    Err(LexerError::Reason(msg))
}

/// Divides the supplied text into its queue of tokens, or reports the first
/// lexical error in it.
#[verifier::loop_isolation(false)]
pub fn tokenize(code: String) -> (r: Result<VecDeque<Token>, LexerError>)
    ensures
        lex_result_matches(r, spec_tokenize(code@)),
{
    let chars = chars_of(code.as_str());
    let n = chars.len();
    let mut tokens: VecDeque<Token> = VecDeque::new();
    let mut i: usize = 0;
    proof {
        assert(code@.skip(0) =~= code@);
        assert(toks_view(tokens@) =~= Seq::<TokenV>::empty());
        lemma_prepend_toks_empty(spec_tokenize(code@));
    }
    while i < n
        invariant
            i <= n,
            n == chars@.len(),
            chars@ == code@,
            spec_tokenize(code@) == prepend_toks(
                toks_view(tokens@),
                spec_tokenize(code@.skip(i as int)),
            ),
        decreases n - i,
    {
        let ghost pre = toks_view(tokens@);
        let ghost suffix = code@.skip(i as int);
        let c = chars[i];
        proof {
            assert(suffix[0] == c);
            assert(suffix.drop_first() =~= code@.skip(i as int + 1));
        }
        if c == '(' {
            tokens.push_back(Token::LParen);
            i += 1;
            proof {
                lemma_prepend_toks_push(pre, TokenV::LParen, spec_tokenize(code@.skip(i as int)));
                assert(toks_view(tokens@) =~= pre.push(TokenV::LParen));
            }
        } else if c == ')' {
            tokens.push_back(Token::RParen);
            i += 1;
            proof {
                lemma_prepend_toks_push(pre, TokenV::RParen, spec_tokenize(code@.skip(i as int)));
                assert(toks_view(tokens@) =~= pre.push(TokenV::RParen));
            }
        } else if c == '\'' {
            tokens.push_back(Token::Quote);
            i += 1;
            proof {
                lemma_prepend_toks_push(pre, TokenV::Quote, spec_tokenize(code@.skip(i as int)));
                assert(toks_view(tokens@) =~= pre.push(TokenV::Quote));
            }
        } else if c == '"' {
            i += 1;
            let token = match tokenize_string(&chars, &mut i) {
                Ok(t) => t,
                Err(e) => {
                    return Err(e);
                },
            };
            let ghost t = token@;
            tokens.push_back(token);
            proof {
                lemma_prepend_toks_push(pre, t, spec_tokenize(code@.skip(i as int)));
                assert(toks_view(tokens@) =~= pre.push(t));
            }
        } else if is_whitespace_char(c) {
            i += 1;
        } else {
            let token = match tokenize_symbol(&chars, &mut i) {
                Ok(t) => t,
                Err(e) => {
                    return Err(e);
                },
            };
            let ghost t = token@;
            tokens.push_back(token);
            proof {
                let (sym, rest) = spec_take_symbol(suffix);
                assert(sym.len() >= 1);
                lemma_prepend_toks_push(pre, t, spec_tokenize(code@.skip(i as int)));
                assert(toks_view(tokens@) =~= pre.push(t));
            }
        }
    }
    proof {
        assert(code@.skip(n as int).len() == 0);
        assert(toks_view(tokens@) + Seq::<TokenV>::empty() =~= toks_view(tokens@));
    }
    Ok(tokens)
}

proof fn lemma_prepend_toks_push(pre: Seq<TokenV>, t: TokenV, r: Result<Seq<TokenV>, LexErrV>)
    ensures
        prepend_toks(pre, cons_tok(t, r)) == prepend_toks(pre.push(t), r),
{
    match r {
        Ok(ts) => {
            assert(pre + (seq![t] + ts) =~= pre.push(t) + ts);
        },
        Err(_) => {},
    }
}

proof fn lemma_prepend_toks_empty(r: Result<Seq<TokenV>, LexErrV>)
    ensures
        prepend_toks(Seq::<TokenV>::empty(), r) == r,
{
    match r {
        Ok(ts) => {
            assert(Seq::<TokenV>::empty() + ts =~= ts);
        },
        Err(_) => {},
    }
}

proof fn lemma_prepend_str_empty(o: Option<(Seq<char>, Seq<char>)>)
    ensures
        prepend_str(Seq::<char>::empty(), o) == o,
{
    match o {
        None => {},
        Some((t, rest)) => {
            assert(Seq::<char>::empty() + t =~= t);
        },
    }
}

} // verus!
