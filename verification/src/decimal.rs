//! Unsigned numbers written in decimal digits.

use vstd::prelude::*;

verus! {

/// One of the characters `0` to `9`.
pub open spec fn is_digit(c: char) -> bool {
    '0' <= c && c <= '9'
}

/// The number a digit stands for; 0 for any other character.
pub open spec fn digit_value(c: char) -> nat {
    if is_digit(c) {
        (c as u32 - 48) as nat
    } else {
        0
    }
}

/// The digit that stands for `d`, for `d` below ten.
pub open spec fn digit_char(d: nat) -> char {
    ((48 + d % 10) as u8) as char
}

/// Every character of `s` is a digit.
pub open spec fn all_digits(s: Seq<char>) -> bool {
    forall|i: int| 0 <= i < s.len() ==> is_digit(#[trigger] s[i])
}

/// A decimal numeral: one digit or more, and nothing else.
pub open spec fn is_decimal(s: Seq<char>) -> bool {
    s.len() > 0 && all_digits(s)
}

/// The number that the digits of `s` write, most significant digit first.
pub open spec fn decimal_value(s: Seq<char>) -> nat
    decreases s.len(),
{
    if s.len() == 0 {
        0
    } else {
        decimal_value(s.drop_last()) * 10 + digit_value(s.last())
    }
}

/// The shortest decimal numeral of `n`.
pub open spec fn decimal_text(n: nat) -> Seq<char>
    decreases n,
{
    if n < 10 {
        seq![digit_char(n)]
    } else {
        decimal_text(n / 10).push(digit_char(n % 10))
    }
}

/// What a numeral means as a `u64`: its value where it is a decimal numeral
/// that fits, nothing otherwise.
pub open spec fn decimal_u64(s: Seq<char>) -> Option<u64> {
    if is_decimal(s) && decimal_value(s) <= u64::MAX {
        Some(decimal_value(s) as u64)
    } else {
        None
    }
}

/// What a numeral with an optional leading `+` means as a `u64`.
pub open spec fn unsigned_u64(s: Seq<char>) -> Option<u64> {
    if s.len() > 0 && s[0] == '+' {
        decimal_u64(s.skip(1))
    } else {
        decimal_u64(s)
    }
}

/// A digit and the number it stands for are two views of one thing.
pub proof fn lemma_digit_char(d: nat)
    requires
        d < 10,
    ensures
        is_digit(digit_char(d)),
        digit_value(digit_char(d)) == d,
{
}

/// The numeral of `n` is a decimal numeral and writes `n`.
pub proof fn lemma_decimal_text(n: nat)
    ensures
        is_decimal(decimal_text(n)),
        decimal_value(decimal_text(n)) == n,
    decreases n,
{
    if n < 10 {
        lemma_digit_char(n);
        let s = decimal_text(n);
        assert(s.drop_last().len() == 0);
        assert(decimal_value(s.drop_last()) == 0);
        assert(s.last() == digit_char(n));
    } else {
        lemma_decimal_text(n / 10);
        lemma_digit_char(n % 10);
        let s = decimal_text(n);
        assert(s.drop_last() == decimal_text(n / 10));
        assert(s.last() == digit_char(n % 10));
        assert(all_digits(s)) by {
            assert forall|i: int| 0 <= i < s.len() implies is_digit(#[trigger] s[i]) by {
                if i < s.len() - 1 {
                    assert(s[i] == decimal_text(n / 10)[i]);
                }
            }
        }
    }
}

/// A numeral writes at least what any of its prefixes writes.
pub proof fn lemma_decimal_value_prefix(s: Seq<char>, k: int)
    requires
        0 <= k <= s.len(),
    ensures
        decimal_value(s.take(k)) <= decimal_value(s),
    decreases s.len() - k,
{
    if k == s.len() {
        assert(s.take(k) == s);
    } else {
        lemma_decimal_value_prefix(s.drop_last(), k);
        assert(s.drop_last().take(k) == s.take(k));
    }
}

/// A numeral of two characters writes ten times its first digit plus its
/// second.
pub proof fn lemma_two_digit_value(s: Seq<char>)
    requires
        s.len() == 2,
    ensures
        decimal_value(s) == digit_value(s[0]) * 10 + digit_value(s[1]),
        decimal_value(s) <= 99,
{
    let a = s.drop_last();
    assert(a.drop_last().len() == 0);
    assert(decimal_value(a.drop_last()) == 0);
    assert(decimal_value(a) == digit_value(s[0]));
}

/// A numeral of four characters writes its digits by thousands, hundreds,
/// tens and ones.
pub proof fn lemma_four_digit_value(s: Seq<char>)
    requires
        s.len() == 4,
    ensures
        decimal_value(s) == digit_value(s[0]) * 1000 + digit_value(s[1]) * 100 + digit_value(s[2])
            * 10 + digit_value(s[3]),
        decimal_value(s) <= 9999,
{
    let a = s.drop_last();
    let b = a.drop_last();
    assert(b.len() == 2);
    lemma_two_digit_value(b);
    assert(b[0] == s[0] && b[1] == s[1]);
    assert(decimal_value(a) == decimal_value(b) * 10 + digit_value(s[2]));
}

/// Whether `c` is a digit.
pub fn digit(c: char) -> (r: bool)
    ensures
        r == is_digit(c),
{
    '0' <= c && c <= '9'
}

/// The number that the digit `c` stands for.
pub fn digit_of(c: char) -> (d: u8)
    requires
        is_digit(c),
    ensures
        d == digit_value(c),
        d < 10,
{
    (c as u32 - 48) as u8
}

/// Whether `chars[from..to]` is a decimal numeral.
pub fn numeral(chars: &Vec<char>, from: usize, to: usize) -> (r: bool)
    requires
        from <= to <= chars.len(),
    ensures
        r == is_decimal(chars@.subrange(from as int, to as int)),
{
    let ghost s = chars@.subrange(from as int, to as int);
    if from == to {
        return false;
    }
    let mut i: usize = from;
    while i < to
        invariant
            from <= i <= to <= chars.len(),
            s == chars@.subrange(from as int, to as int),
            forall|k: int| 0 <= k < i - from ==> is_digit(#[trigger] s[k]),
        decreases to - i,
    {
        if !digit(chars[i]) {
            assert(!is_digit(s[i - from]));
            return false;
        }
        i += 1;
    }
    true
}

/// The value of the numeral `chars[from..to]`.
pub fn parse_decimal(chars: &Vec<char>, from: usize, to: usize) -> (r: Option<u64>)
    requires
        from <= to <= chars.len(),
    ensures
        r == decimal_u64(chars@.subrange(from as int, to as int)),
{
    let ghost s = chars@.subrange(from as int, to as int);
    if from == to {
        return None;
    }
    let mut acc: u64 = 0;
    let mut i: usize = from;
    while i < to
        invariant
            from <= i <= to <= chars.len(),
            s == chars@.subrange(from as int, to as int),
            all_digits(s.take(i - from)),
            acc == decimal_value(s.take(i - from)),
        decreases to - i,
    {
        let c = chars[i];
        assert(c == s[i - from]);
        if !digit(c) {
            return None;
        }
        let ghost next = s.take(i - from + 1);
        assert(next.drop_last() == s.take(i - from));
        assert(next.last() == c);
        assert(all_digits(next)) by {
            assert forall|k: int| 0 <= k < next.len() implies is_digit(#[trigger] next[k]) by {
                if k < i - from {
                    assert(s.take(i - from)[k] == next[k]);
                }
            }
        }
        proof {
            lemma_decimal_value_prefix(s, i - from + 1);
        }
        let d: u64 = digit_of(c) as u64;
        let grown = match acc.checked_mul(10) {
            Some(t) => t.checked_add(d),
            None => None,
        };
        match grown {
            Some(v) => {
                acc = v;
            },
            None => {
                return None;
            },
        }
        i += 1;
    }
    assert(s.take(to - from) == s);
    Some(acc)
}

/// What a numeral with an optional leading `+` means.
pub fn parse_unsigned(chars: &Vec<char>) -> (r: Option<u64>)
    ensures
        r == unsigned_u64(chars@),
{
    if chars.len() > 0 && chars[0] == '+' {
        assert(chars@.subrange(1, chars.len() as int) == chars@.skip(1));
        parse_decimal(chars, 1, chars.len())
    } else {
        assert(chars@.subrange(0, chars.len() as int) == chars@);
        parse_decimal(chars, 0, chars.len())
    }
}

/// Appends the numeral of `n` to `out`.
pub fn push_decimal(out: &mut Vec<char>, n: u64)
    ensures
        final(out)@ == old(out)@ + decimal_text(n as nat),
    decreases n,
{
    if n >= 10 {
        push_decimal(out, n / 10);
    }
    let d: u8 = (n % 10) as u8;
    out.push((48 + d) as char);
    proof {
        if n < 10 {
            assert(old(out)@.push(digit_char(n as nat)) == old(out)@ + decimal_text(n as nat));
        } else {
            assert((old(out)@ + decimal_text((n / 10) as nat)).push(digit_char((n % 10) as nat))
                == old(out)@ + decimal_text(n as nat));
        }
    }
}

} // verus!
