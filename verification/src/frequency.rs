//! Frequencies, kept as the decimal text that stands for them.
//!
//! The library never computes with a frequency. It keeps the text and makes
//! sure that the text is one that Rust reads as a floating-point number.

use crate::decimal::{digit, is_digit};
use crate::text::{ascii_lower, lower_char, to_chars};
use vstd::prelude::*;

verus! {

/// A plus or a minus sign.
pub open spec fn is_sign(c: char) -> bool {
    c == '+' || c == '-'
}

/// The end of the run of digits that starts at `from`.
pub open spec fn digit_run(s: Seq<char>, from: int) -> int
    decreases s.len() - from,
{
    if 0 <= from < s.len() && is_digit(s[from]) {
        digit_run(s, from + 1)
    } else {
        from
    }
}

/// `inf`, `infinity` or `nan`, in any mix of capital and small letters.
pub open spec fn is_special_float(s: Seq<char>) -> bool {
    let l = ascii_lower(s);
    ||| l == seq!['i', 'n', 'f']
    ||| l == seq!['i', 'n', 'f', 'i', 'n', 'i', 't', 'y']
    ||| l == seq!['n', 'a', 'n']
}

/// From `at` to the end, `s` is an exponent: `e` or `E`, an optional sign,
/// and one digit or more.
pub open spec fn is_exponent(s: Seq<char>, at: int) -> bool {
    &&& 0 <= at < s.len()
    &&& (s[at] == 'e' || s[at] == 'E')
    &&& {
        let digits = if at + 1 < s.len() && is_sign(s[at + 1]) {
            at + 2
        } else {
            at + 1
        };
        digits < s.len() && digit_run(s, digits) == s.len()
    }
}

/// Digits with at most one point among them and at least one digit, then
/// possibly an exponent.
pub open spec fn is_float_number(s: Seq<char>) -> bool {
    let whole_end = digit_run(s, 0);
    let has_point = whole_end < s.len() && s[whole_end] == '.';
    let mantissa_end = if has_point {
        digit_run(s, whole_end + 1)
    } else {
        whole_end
    };
    let digits = if has_point {
        mantissa_end - 1
    } else {
        mantissa_end
    };
    digits > 0 && (mantissa_end == s.len() || is_exponent(s, mantissa_end))
}

/// Text that Rust reads as a floating-point number: an optional sign, then a
/// number or one of `inf`, `infinity`, `nan`.
pub open spec fn is_float_text(s: Seq<char>) -> bool {
    let body = if s.len() > 0 && is_sign(s[0]) {
        s.skip(1)
    } else {
        s
    };
    is_special_float(body) || is_float_number(body)
}

fn sign(c: char) -> (r: bool)
    ensures
        r == is_sign(c),
{
    c == '+' || c == '-'
}

fn run_end(chars: &Vec<char>, base: usize, from: usize) -> (end: usize)
    requires
        base <= from <= chars.len(),
    ensures
        from <= end <= chars.len(),
        end - base == digit_run(chars@.skip(base as int), from - base),
{
    let ghost s = chars@.skip(base as int);
    let mut i: usize = from;
    while i < chars.len() && digit(chars[i])
        invariant
            base <= from <= i <= chars.len(),
            s == chars@.skip(base as int),
            digit_run(s, from - base) == digit_run(s, i - base),
        decreases chars.len() - i,
    {
        assert(s[i - base] == chars@[i as int]);
        i += 1;
    }
    proof {
        if i < chars.len() {
            assert(s[i - base] == chars@[i as int]);
        }
    }
    i
}

fn special_float(chars: &Vec<char>, base: usize) -> (r: bool)
    requires
        base <= chars.len(),
    ensures
        r == is_special_float(chars@.skip(base as int)),
{
    let ghost s = chars@.skip(base as int);
    let ghost l = ascii_lower(s);
    let n = chars.len() - base;
    assert(l.len() == n);
    proof {
        assert forall|k: int| 0 <= k < s.len() implies l[k] == crate::text::ascii_lower_char(
            chars@[base + k],
        ) by {
            assert(s[k] == chars@[base + k]);
        }
    }
    if n == 3 {
        let a = lower_char(chars[base]);
        let b = lower_char(chars[base + 1]);
        let c = lower_char(chars[base + 2]);
        assert(l == seq![a, b, c]);
        assert(seq![a, b, c] == seq!['i', 'n', 'f'] <==> a == 'i' && b == 'n' && c == 'f') by {
            if seq![a, b, c] == seq!['i', 'n', 'f'] {
                assert(seq![a, b, c][0] == 'i' && seq![a, b, c][1] == 'n' && seq![a, b, c][2]
                    == 'f');
            }
        }
        assert(seq![a, b, c] == seq!['n', 'a', 'n'] <==> a == 'n' && b == 'a' && c == 'n') by {
            if seq![a, b, c] == seq!['n', 'a', 'n'] {
                assert(seq![a, b, c][0] == 'n' && seq![a, b, c][1] == 'a' && seq![a, b, c][2]
                    == 'n');
            }
        }
        (a == 'i' && b == 'n' && c == 'f') || (a == 'n' && b == 'a' && c == 'n')
    } else if n == 8 {
        let c0 = lower_char(chars[base]);
        let c1 = lower_char(chars[base + 1]);
        let c2 = lower_char(chars[base + 2]);
        let c3 = lower_char(chars[base + 3]);
        let c4 = lower_char(chars[base + 4]);
        let c5 = lower_char(chars[base + 5]);
        let c6 = lower_char(chars[base + 6]);
        let c7 = lower_char(chars[base + 7]);
        assert(l == seq![c0, c1, c2, c3, c4, c5, c6, c7]);
        let ghost word = seq!['i', 'n', 'f', 'i', 'n', 'i', 't', 'y'];
        assert(l == word <==> c0 == 'i' && c1 == 'n' && c2 == 'f' && c3 == 'i' && c4 == 'n' && c5
            == 'i' && c6 == 't' && c7 == 'y') by {
            if l == word {
                assert(l[0] == word[0] && l[1] == word[1] && l[2] == word[2] && l[3] == word[3]
                    && l[4] == word[4] && l[5] == word[5] && l[6] == word[6] && l[7] == word[7]);
            }
        }
        c0 == 'i' && c1 == 'n' && c2 == 'f' && c3 == 'i' && c4 == 'n' && c5 == 'i' && c6 == 't'
            && c7 == 'y'
    } else {
        false
    }
}

fn exponent(chars: &Vec<char>, base: usize, at: usize) -> (r: bool)
    requires
        base <= at < chars.len(),
    ensures
        r == is_exponent(chars@.skip(base as int), at - base),
{
    let ghost s = chars@.skip(base as int);
    assert(s[at - base] == chars@[at as int]);
    if !(chars[at] == 'e' || chars[at] == 'E') {
        return false;
    }
    let mut digits: usize = at + 1;
    if digits < chars.len() {
        assert(s[digits - base] == chars@[digits as int]);
        if sign(chars[digits]) {
            digits += 1;
        }
    }
    if digits >= chars.len() {
        return false;
    }
    run_end(chars, base, digits) == chars.len()
}

fn float_number(chars: &Vec<char>, base: usize) -> (r: bool)
    requires
        base <= chars.len(),
    ensures
        r == is_float_number(chars@.skip(base as int)),
{
    let ghost s = chars@.skip(base as int);
    let whole_end = run_end(chars, base, base);
    let mut has_point = false;
    if whole_end < chars.len() {
        assert(s[whole_end - base] == chars@[whole_end as int]);
        has_point = chars[whole_end] == '.';
    }
    let mantissa_end = if has_point {
        run_end(chars, base, whole_end + 1)
    } else {
        whole_end
    };
    let digits = if has_point {
        mantissa_end - base - 1
    } else {
        mantissa_end - base
    };
    if digits == 0 {
        return false;
    }
    if mantissa_end == chars.len() {
        return true;
    }
    exponent(chars, base, mantissa_end)
}

/// Whether `chars` is text that Rust reads as a floating-point number.
pub fn float_text(chars: &Vec<char>) -> (r: bool)
    ensures
        r == is_float_text(chars@),
{
    let base: usize = if chars.len() > 0 && sign(chars[0]) {
        1
    } else {
        0
    };
    assert(chars@.skip(0) == chars@);
    special_float(chars, base) || float_number(chars, base)
}

/// A frequency in MHz, as the text it was written with.
#[derive(Debug)]
pub struct Frequency {
    text: String,
}

impl View for Frequency {
    type V = Seq<char>;

    closed spec fn view(&self) -> Seq<char> {
        self.text@
    }
}

impl Clone for Frequency {
    fn clone(&self) -> (r: Self)
        ensures
            r@ == self@,
    {
        proof {
            use_type_invariant(self);
        }
        Frequency { text: self.text.clone() }
    }
}

impl Frequency {
    #[verifier::type_invariant]
    closed spec fn reads_as_number(self) -> bool {
        is_float_text(self.text@)
    }

    /// The frequency written as `text`, if `text` reads as a number.
    pub fn parse(text: &str) -> (r: Option<Frequency>)
        ensures
            r is Some <==> is_float_text(text@),
            r matches Some(f) ==> f@ == text@,
    {
        let chars = to_chars(text);
        if float_text(&chars) {
            Some(Frequency { text: text.to_owned() })
        } else {
            None
        }
    }

    /// The text of the frequency.
    pub fn as_str(&self) -> (s: &str)
        ensures
            s@ == self@,
            is_float_text(self@),
    {
        proof {
            use_type_invariant(self);
        }
        self.text.as_str()
    }
}

} // verus!
