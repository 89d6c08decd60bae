//! The numeric part of the data model.
//!
//! The language has two kinds of numbers: exact integers and floating-point
//! literals.  A floating-point value is never computed with by this library:
//! it is carried as the text it was written with, so that the whole data
//! model stays a plain value that contracts can speak about.

use crate::text::push_char;
use vstd::prelude::*;

verus! {

/// Mathematical model of a [`Number`]: an unbounded integer, or the
/// character sequence of a floating-point literal.
pub enum NumberV {
    Int(int),
    Float(Seq<char>),
}

/// A numeric atom: an exact integer, or a floating-point literal kept as its
/// source text (the library stores and renders such a literal but never does
/// float arithmetic).
pub enum Number {
    Int(i32),
    Float(String),
}

impl View for Number {
    type V = NumberV;

    open spec fn view(&self) -> NumberV {
        match self {
            Number::Int(i) => NumberV::Int(*i as int),
            Number::Float(t) => NumberV::Float(t@),
        }
    }
}

impl Clone for Number {
    fn clone(&self) -> (r: Self)
        ensures
            r@ == self@,
    {
        match self {
            Number::Int(i) => Number::Int(*i),
            Number::Float(t) => Number::Float(t.clone()),
        }
    }
}

/// The decimal digit character for a digit value `d` (`0 <= d <= 9`).
pub open spec fn digit_char(d: int) -> char {
    ((48 + d) as u8) as char
}

/// Decimal text of a nonnegative integer, without a sign.
pub open spec fn dec_text(n: int) -> Seq<char>
    decreases n,
{
    if n < 10 {
        seq![digit_char(n)]
    } else {
        dec_text(n / 10) + seq![digit_char(n % 10)]
    }
}

/// Decimal text of an integer, with a leading minus sign when negative.
pub open spec fn int_text(i: int) -> Seq<char> {
    if i < 0 {
        seq!['-'] + dec_text(-i)
    } else {
        dec_text(i)
    }
}

/// Textual rendering of a number: standard decimal text for an integer, the
/// literal's own text for a float.
pub open spec fn number_text(n: NumberV) -> Seq<char> {
    match n {
        NumberV::Int(i) => int_text(i),
        NumberV::Float(t) => t,
    }
}

fn push_digit(d: u32, out: &mut String)
    requires
        d < 10,
    ensures
        final(out)@ == old(out)@ + seq![digit_char(d as int)],
{
    let c: char = ((48 + d) as u8) as char;
    push_char(out, c);
    proof {
        assert(c == digit_char(d as int));
        assert(out@ =~= old(out)@ + seq![digit_char(d as int)]);
    }
}

fn push_dec(n: u32, out: &mut String)
    ensures
        final(out)@ == old(out)@ + dec_text(n as int),
    decreases n,
{
    if n < 10 {
        push_digit(n, out);
    } else {
        push_dec(n / 10, out);
        push_digit(n % 10, out);
        proof {
            assert(out@ =~= old(out)@ + dec_text(n as int));
        }
    }
}

impl Number {
    /// Appends this number's textual rendering to `out`.
    pub fn push_text(&self, out: &mut String)
        ensures
            final(out)@ == old(out)@ + number_text(self@),
    {
        match self {
            Number::Int(i) => {
                let m: u32 = if *i < 0 {
                    push_char(out, '-');
                    (-(*i as i64)) as u32
                } else {
                    *i as u32
                };
                push_dec(m, out);
                proof {
                    assert(out@ =~= old(out)@ + number_text(self@));
                }
            },
            Number::Float(t) => {
                out.append(t.as_str());
            },
        }
    }

    /// This number's textual rendering.
    pub fn to_text(&self) -> (r: String)
        ensures
            r@ == number_text(self@),
    {
        let mut out = String::new();
        self.push_text(&mut out);
        proof {
            assert(out@ =~= number_text(self@));
        }
        out
    }
}

/// An ASCII decimal digit.
pub open spec fn is_digit(c: char) -> bool {
    '0' <= c && c <= '9'
}

/// The value of a decimal digit character.
pub open spec fn digit_val(c: char) -> int {
    c as int - 48
}

/// Every character of `s` is a decimal digit.
pub open spec fn all_digits(s: Seq<char>) -> bool {
    forall|i: int| 0 <= i < s.len() ==> is_digit(#[trigger] s[i])
}

/// The value of a nonempty digit string, most significant digit first.
pub open spec fn digits_val(s: Seq<char>) -> int
    decreases s.len(),
{
    if s.len() == 0 {
        0
    } else {
        digits_val(s.drop_last()) * 10 + digit_val(s.last())
    }
}

/// The integer parse of a token: an optional sign, then one or more decimal
/// digits, with the value in `i32` range; `None` otherwise.
pub open spec fn spec_parse_int(s: Seq<char>) -> Option<int> {
    if s.len() == 0 {
        None
    } else {
        let neg = s[0] == '-';
        let body = if s[0] == '-' || s[0] == '+' {
            s.drop_first()
        } else {
            s
        };
        if body.len() > 0 && all_digits(body) {
            let v = if neg {
                -digits_val(body)
            } else {
                digits_val(body)
            };
            if -0x8000_0000 <= v <= 0x7fff_ffff {
                Some(v)
            } else {
                None
            }
        } else {
            None
        }
    }
}

/// The first position at or after `i` that does not hold a decimal digit.
pub open spec fn digits_end(s: Seq<char>, i: int) -> int
    decreases s.len() - i,
{
    if i < 0 || i >= s.len() || !is_digit(s[i]) {
        i
    } else {
        digits_end(s, i + 1)
    }
}

/// Case-insensitive equality of a character against a lowercase letter.
pub open spec fn char_eqi(c: char, l: char) -> bool {
    c == l || c as int == l as int - 32
}

/// Case-insensitive equality against a lowercase keyword.
pub open spec fn keyword_eqi(s: Seq<char>, kw: Seq<char>) -> bool {
    s.len() == kw.len() && forall|i: int| 0 <= i < s.len() ==> char_eqi(#[trigger] s[i], kw[i])
}

/// `inf`, `infinity` or `nan`, in any letter case.
pub open spec fn is_float_keyword(s: Seq<char>) -> bool {
    ||| keyword_eqi(s, seq!['i', 'n', 'f'])
    ||| keyword_eqi(s, seq!['i', 'n', 'f', 'i', 'n', 'i', 't', 'y'])
    ||| keyword_eqi(s, seq!['n', 'a', 'n'])
}

/// An exponent part filling `s` from position `i` to the end: `e` or `E`, an
/// optional sign, then one or more digits.
pub open spec fn is_exp_from(s: Seq<char>, i: int) -> bool {
    &&& 0 <= i < s.len()
    &&& (s[i] == 'e' || s[i] == 'E')
    &&& {
        let j = if i + 1 < s.len() && (s[i + 1] == '+' || s[i + 1] == '-') {
            i + 2
        } else {
            i + 1
        };
        j < s.len() && digits_end(s, j) == s.len()
    }
}

/// An unsigned decimal float literal: digits with an optional point and an
/// optional exponent, or a point followed by digits and an optional
/// exponent.
pub open spec fn is_float_number(s: Seq<char>) -> bool {
    let d1 = digits_end(s, 0);
    if d1 > 0 {
        if d1 == s.len() {
            true
        } else if s[d1] == '.' {
            let d2 = digits_end(s, d1 + 1);
            if d2 == s.len() {
                true
            } else {
                is_exp_from(s, d2)
            }
        } else {
            is_exp_from(s, d1)
        }
    } else if s.len() > 0 && s[0] == '.' {
        let d2 = digits_end(s, 1);
        if d2 == 1 {
            false
        } else if d2 == s.len() {
            true
        } else {
            is_exp_from(s, d2)
        }
    } else {
        false
    }
}

/// A float literal as the language accepts it: an optional sign, then a
/// decimal number or one of the keywords `inf`, `infinity`, `nan` in any
/// letter case.
pub open spec fn is_float_text(s: Seq<char>) -> bool {
    if s.len() == 0 {
        false
    } else {
        let body = if s[0] == '-' || s[0] == '+' {
            s.drop_first()
        } else {
            s
        };
        is_float_keyword(body) || is_float_number(body)
    }
}

proof fn lemma_digits_val_nonneg(s: Seq<char>)
    requires
        all_digits(s),
    ensures
        digits_val(s) >= 0,
    decreases s.len(),
{
    if s.len() > 0 {
        assert(all_digits(s.drop_last()));
        lemma_digits_val_nonneg(s.drop_last());
        assert(is_digit(s.last()));
    }
}

proof fn lemma_digits_val_prefix(s: Seq<char>, k: int)
    requires
        all_digits(s),
        0 <= k <= s.len(),
    ensures
        digits_val(s.take(k)) <= digits_val(s),
    decreases s.len(),
{
    if k < s.len() {
        assert(all_digits(s.drop_last()));
        assert(s.drop_last().take(k) =~= s.take(k));
        lemma_digits_val_prefix(s.drop_last(), k);
        lemma_digits_val_nonneg(s.drop_last());
        assert(is_digit(s.last()));
    } else {
        assert(s.take(k) =~= s);
    }
}

/// The decimal text of a nonnegative integer is nonempty, is all digits,
/// and reads back as the same integer.
pub proof fn lemma_dec_text_val(n: int)
    requires
        n >= 0,
    ensures
        dec_text(n).len() >= 1,
        all_digits(dec_text(n)),
        digits_val(dec_text(n)) == n,
    decreases n,
{
    if n < 10 {
        assert(digit_char(n) as int == 48 + n);
        assert(is_digit(digit_char(n)));
        assert(dec_text(n) =~= seq![digit_char(n)]);
        assert(dec_text(n).drop_last() =~= Seq::<char>::empty());
        assert(dec_text(n).last() == digit_char(n));
        assert(digits_val(Seq::<char>::empty()) == 0);
        assert(digits_val(dec_text(n)) == digit_val(digit_char(n)));
    } else {
        lemma_dec_text_val(n / 10);
        vstd::arithmetic::div_mod::lemma_fundamental_div_mod(n, 10);
        assert(0 <= n % 10 <= 9);
        assert(digit_char(n % 10) as int == 48 + n % 10);
        assert(is_digit(digit_char(n % 10)));
        let t = dec_text(n);
        assert(t == dec_text(n / 10) + seq![digit_char(n % 10)]);
        assert(t.drop_last() =~= dec_text(n / 10));
        assert(t.last() == digit_char(n % 10));
        assert(forall|i: int|
            0 <= i < t.len() ==> is_digit(#[trigger] t[i])) by {
            assert(forall|i: int|
                0 <= i < t.len() - 1 ==> #[trigger] t[i] == dec_text(n / 10)[i]);
        }
    }
}

/// The strict integer parse of a token, as [`spec_parse_int`] describes it.
#[verifier::loop_isolation(false)]
pub fn parse_i32(cs: &Vec<char>) -> (r: Option<i32>)
    ensures
        match r {
            Some(v) => spec_parse_int(cs@) == Some(v as int),
            None => spec_parse_int(cs@) is None,
        },
{
    let n = cs.len();
    if n == 0 {
        return None;
    }
    let c0 = cs[0];
    let neg = c0 == '-';
    let start: usize = if c0 == '-' || c0 == '+' {
        1
    } else {
        0
    };
    let ghost body = if c0 == '-' || c0 == '+' {
        cs@.drop_first()
    } else {
        cs@
    };
    proof {
        assert(body =~= cs@.subrange(start as int, n as int));
    }
    if start == n {
        return None;
    }
    let mut acc: u64 = 0;
    let mut k: usize = start;
    while k < n
        invariant
            start <= k <= n,
            all_digits(cs@.subrange(start as int, k as int)),
            acc as int == digits_val(cs@.subrange(start as int, k as int)),
            acc <= 0x8000_0000,
        decreases n - k,
    {
        let c = cs[k];
        if c < '0' || c > '9' {
            proof {
                assert(body[k - start] == cs@[k as int]);
                assert(!is_digit(body[k - start]));
            }
            return None;
        }
        let d: u64 = ((c as u32) - 48) as u64;
        acc = acc * 10 + d;
        k += 1;
        proof {
            let p = cs@.subrange(start as int, k as int);
            assert(p.drop_last() =~= cs@.subrange(start as int, k as int - 1));
            assert(p.last() == cs@[k as int - 1]);
        }
        if acc > 0x8000_0000 {
            proof {
                if body.len() > 0 && all_digits(body) {
                    assert(body.take(k - start) =~= cs@.subrange(start as int, k as int));
                    lemma_digits_val_prefix(body, k - start);
                }
            }
            return None;
        }
    }
    proof {
        assert(cs@.subrange(start as int, n as int) =~= body);
    }
    if neg {
        if acc == 0x8000_0000 {
            Some(i32::MIN)
        } else {
            Some(-(acc as i32))
        }
    } else {
        if acc > 0x7fff_ffff {
            return None;
        }
        Some(acc as i32)
    }
}

#[verifier::loop_isolation(false)]
fn digits_end_exec(cs: &Vec<char>, i: usize) -> (r: usize)
    requires
        i <= cs@.len(),
    ensures
        r as int == digits_end(cs@, i as int),
        i <= r <= cs@.len(),
{
    let n = cs.len();
    let mut j: usize = i;
    while j < n && '0' <= cs[j] && cs[j] <= '9'
        invariant
            i <= j <= n,
            digits_end(cs@, i as int) == digits_end(cs@, j as int),
        decreases n - j,
    {
        j += 1;
    }
    j
}

fn is_exp_exec(cs: &Vec<char>, i: usize) -> (r: bool)
    requires
        i <= cs@.len(),
    ensures
        r == is_exp_from(cs@, i as int),
{
    let n = cs.len();
    if i >= n {
        return false;
    }
    let c = cs[i];
    if c != 'e' && c != 'E' {
        return false;
    }
    let j: usize = if i + 1 < n && (cs[i + 1] == '+' || cs[i + 1] == '-') {
        i + 2
    } else {
        i + 1
    };
    if j >= n {
        return false;
    }
    digits_end_exec(cs, j) == n
}

fn is_float_number_exec(cs: &Vec<char>) -> (r: bool)
    ensures
        r == is_float_number(cs@),
{
    let n = cs.len();
    let d1 = digits_end_exec(cs, 0);
    if d1 > 0 {
        if d1 == n {
            true
        } else if cs[d1] == '.' {
            let d2 = digits_end_exec(cs, d1 + 1);
            if d2 == n {
                true
            } else {
                is_exp_exec(cs, d2)
            }
        } else {
            is_exp_exec(cs, d1)
        }
    } else if n > 0 && cs[0] == '.' {
        let d2 = digits_end_exec(cs, 1);
        if d2 == 1 {
            false
        } else if d2 == n {
            true
        } else {
            is_exp_exec(cs, d2)
        }
    } else {
        false
    }
}

fn eqi(c: char, l: char) -> (r: bool)
    ensures
        r == char_eqi(c, l),
{
    c == l || (c as u32) + 32 == (l as u32)
}

#[verifier::loop_isolation(false)]
fn matches_kw(cs: &Vec<char>, kw: &Vec<char>) -> (r: bool)
    ensures
        r == keyword_eqi(cs@, kw@),
{
    let n = cs.len();
    if n != kw.len() {
        return false;
    }
    let mut i: usize = 0;
    while i < n
        invariant
            i <= n,
            forall|j: int| 0 <= j < i ==> char_eqi(#[trigger] cs@[j], kw@[j]),
        decreases n - i,
    {
        if !eqi(cs[i], kw[i]) {
            return false;
        }
        i += 1;
    }
    true
}

/// Whether a token is a float literal, as [`is_float_text`] describes it.
#[verifier::loop_isolation(false)]
pub fn is_float_literal(cs: &Vec<char>) -> (r: bool)
    ensures
        r == is_float_text(cs@),
{
    let n = cs.len();
    if n == 0 {
        return false;
    }
    let c0 = cs[0];
    let start: usize = if c0 == '-' || c0 == '+' {
        1
    } else {
        0
    };
    let mut body: Vec<char> = Vec::new();
    let mut k: usize = start;
    while k < n
        invariant
            start <= k <= n,
            n == cs@.len(),
            body@ == cs@.subrange(start as int, k as int),
        decreases n - k,
    {
        body.push(cs[k]);
        k += 1;
        proof {
            assert(body@ =~= cs@.subrange(start as int, k as int));
        }
    }
    proof {
        if start == 1 {
            assert(body@ =~= cs@.drop_first());
        } else {
            assert(body@ =~= cs@);
        }
    }
    let kw_inf = vec!['i', 'n', 'f'];
    let kw_infinity = vec!['i', 'n', 'f', 'i', 'n', 'i', 't', 'y'];
    let kw_nan = vec!['n', 'a', 'n'];
    proof {
        assert(kw_inf@ =~= seq!['i', 'n', 'f']);
        assert(kw_infinity@ =~= seq!['i', 'n', 'f', 'i', 'n', 'i', 't', 'y']);
        assert(kw_nan@ =~= seq!['n', 'a', 'n']);
    }
    matches_kw(&body, &kw_inf) || matches_kw(&body, &kw_infinity) || matches_kw(&body, &kw_nan)
        || is_float_number_exec(&body)
}

} // verus!
