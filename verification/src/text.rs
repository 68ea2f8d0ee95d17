//! Strings as sequences of characters: conversion, search, and decimal
//! numbers.

use vstd::prelude::*;

verus! {

/// `String::push` appends one character to the end of the string.
pub assume_specification[ String::push ](s: &mut String, c: char)
    ensures
        final(s)@ == old(s)@.push(c),
;

/// The characters of a text that may be missing.
pub open spec fn option_view(text: Option<&str>) -> Option<Seq<char>> {
    match text {
        Some(text) => Some(text@),
        None => None,
    }
}

/// The characters of a string, in order.
pub fn chars_of(s: &str) -> (v: Vec<char>)
    ensures
        v@ == s@,
{
    let mut v: Vec<char> = Vec::new();
    let chars = s.chars();
    for c in it: chars
        invariant
            it.seq() == s@,
            v@ == it.seq().take(it.index()),
    {
        v.push(c);
    }
    assert(v@ == s@.take(s@.len() as int));
    v
}

/// The string made of the given characters.
pub fn string_of(v: &Vec<char>) -> (s: String)
    ensures
        s@ == v@,
{
    let mut s = String::new();
    let mut i: usize = 0;
    while i < v.len()
        invariant
            i <= v.len(),
            s@ == v@.take(i as int),
        decreases v.len() - i,
    {
        s.push(v[i]);
        i += 1;
    }
    s
}

/// Appends the characters of `tail` to `out`.
pub fn extend_chars(out: &mut Vec<char>, tail: &Vec<char>)
    ensures
        final(out)@ == old(out)@ + tail@,
{
    let mut i: usize = 0;
    while i < tail.len()
        invariant
            i <= tail.len(),
            out@ == old(out)@ + tail@.take(i as int),
        decreases tail.len() - i,
    {
        out.push(tail[i]);
        i += 1;
    }
    assert(tail@.take(tail.len() as int) == tail@);
}

/// The characters of `v` from `from` up to, not including, `to`.
pub fn copy_range(v: &Vec<char>, from: usize, to: usize) -> (out: Vec<char>)
    requires
        from <= to <= v.len(),
    ensures
        out@ == v@.subrange(from as int, to as int),
{
    let mut out: Vec<char> = Vec::new();
    let mut i: usize = from;
    while i < to
        invariant
            from <= i <= to <= v.len(),
            out@ == v@.subrange(from as int, i as int),
        decreases to - i,
    {
        out.push(v[i]);
        i += 1;
    }
    out
}

/// Whether two character vectors hold the same characters.
pub fn same_chars(a: &Vec<char>, b: &Vec<char>) -> (same: bool)
    ensures
        same == (a@ == b@),
{
    if a.len() != b.len() {
        return false;
    }
    let mut i: usize = 0;
    while i < a.len()
        invariant
            a.len() == b.len(),
            i <= a.len(),
            a@.take(i as int) == b@.take(i as int),
        decreases a.len() - i,
    {
        if a[i] != b[i] {
            return false;
        }
        assert(a@.take(i + 1) == a@.take(i as int).push(a@[i as int]));
        assert(b@.take(i + 1) == b@.take(i as int).push(b@[i as int]));
        i += 1;
    }
    assert(a@.take(a.len() as int) == a@);
    assert(b@.take(b.len() as int) == b@);
    true
}

/// Whether `s` begins with `prefix`.
pub fn has_prefix(s: &Vec<char>, prefix: &Vec<char>) -> (yes: bool)
    ensures
        yes == prefix@.is_prefix_of(s@),
{
    if prefix.len() > s.len() {
        return false;
    }
    let mut i: usize = 0;
    while i < prefix.len()
        invariant
            prefix.len() <= s.len(),
            i <= prefix.len(),
            prefix@.take(i as int) == s@.take(i as int),
        decreases prefix.len() - i,
    {
        if prefix[i] != s[i] {
            assert(s@.subrange(0, prefix.len() as int)[i as int] != prefix@[i as int]);
            return false;
        }
        assert(prefix@.take(i + 1) == prefix@.take(i as int).push(prefix@[i as int]));
        assert(s@.take(i + 1) == s@.take(i as int).push(s@[i as int]));
        i += 1;
    }
    assert(prefix@.take(prefix.len() as int) == prefix@);
    assert(s@.take(prefix.len() as int) == s@.subrange(0, prefix.len() as int));
    true
}

/// The least index at which `s` holds `c`, or the length of `s` where it
/// holds none.
pub open spec fn find_char(s: Seq<char>, c: char) -> int
    decreases s.len(),
{
    if s.len() == 0 {
        0
    } else if s[0] == c {
        0
    } else {
        1 + find_char(s.drop_first(), c)
    }
}

/// `find_char` is an index into `s` or its length, holds `c` when it is an
/// index, and nothing before it holds `c`.
pub proof fn lemma_find_char(s: Seq<char>, c: char)
    ensures
        0 <= find_char(s, c) <= s.len(),
        find_char(s, c) < s.len() ==> s[find_char(s, c)] == c,
        forall|j: int| 0 <= j < find_char(s, c) ==> s[j] != c,
    decreases s.len(),
{
    if s.len() > 0 && s[0] != c {
        let rest = s.drop_first();
        lemma_find_char(rest, c);
        assert forall|j: int| 0 <= j < find_char(s, c) implies s[j] != c by {
            if j > 0 {
                assert(s[j] == rest[j - 1]);
            }
        }
    }
}

/// The first position that holds `c`, with none before it, is `find_char`.
pub proof fn lemma_find_char_is(s: Seq<char>, c: char, i: int)
    requires
        0 <= i <= s.len(),
        i < s.len() ==> s[i] == c,
        forall|j: int| 0 <= j < i ==> s[j] != c,
    ensures
        find_char(s, c) == i,
{
    lemma_find_char(s, c);
    let f = find_char(s, c);
    if f < i {
        assert(s[f] == c);
    }
}

/// Finds the first `c` at or after `from`; the length of `v` where there is
/// none.
pub fn find_from(v: &Vec<char>, from: usize, c: char) -> (at: usize)
    requires
        from <= v.len(),
    ensures
        from <= at <= v.len(),
        at == from + find_char(v@.skip(from as int), c),
{
    let mut i: usize = from;
    while i < v.len() && v[i] != c
        invariant
            from <= i <= v.len(),
            forall|j: int| from <= j < i ==> v@[j] != c,
        decreases v.len() - i,
    {
        i += 1;
    }
    proof {
        lemma_find_char_is(v@.skip(from as int), c, i - from);
    }
    i
}

/// Whether `c` is one of the ten decimal digits.
pub open spec fn is_digit(c: char) -> bool {
    '0' <= c <= '9'
}

/// The number that a decimal digit stands for.
pub open spec fn digit_value(c: char) -> nat {
    (c as int - '0' as int) as nat
}

/// The decimal digit for a number below ten.
pub open spec fn digit_char(d: nat) -> char {
    (('0' as nat + d) as u8) as char
}

/// Whether every character of `s` is a decimal digit.
pub open spec fn all_digits(s: Seq<char>) -> bool {
    forall|i: int| 0 <= i < s.len() ==> is_digit(#[trigger] s[i])
}

/// The number written by the digits `s`, most significant first.
pub open spec fn digits_value(s: Seq<char>) -> nat
    decreases s.len(),
{
    if s.len() == 0 {
        0
    } else {
        digits_value(s.drop_last()) * 10 + digit_value(s.last())
    }
}

/// The decimal numeral of `n`, without sign or leading zeros.
pub open spec fn decimal(n: nat) -> Seq<char>
    decreases n,
{
    if n < 10 {
        seq![digit_char(n)]
    } else {
        decimal(n / 10).push(digit_char(n % 10))
    }
}

/// What a string means as an unsigned 64-bit decimal number: an optional
/// `+`, then at least one digit and nothing else, with a value that fits.
pub open spec fn parse_u64_spec(s: Seq<char>) -> Option<u64> {
    let digits = if s.len() > 0 && s[0] == '+' {
        s.drop_first()
    } else {
        s
    };
    if digits.len() > 0 && all_digits(digits) && digits_value(digits) <= u64::MAX {
        Some(digits_value(digits) as u64)
    } else {
        None
    }
}

/// A numeral is never worth less than one of its prefixes.
pub proof fn lemma_digits_value_prefix(s: Seq<char>, i: int)
    requires
        0 <= i <= s.len(),
    ensures
        digits_value(s.take(i)) <= digits_value(s),
    decreases s.len(),
{
    if i == s.len() {
        assert(s.take(i) == s);
    } else {
        lemma_digits_value_prefix(s.drop_last(), i);
        assert(s.drop_last().take(i) == s.take(i));
    }
}

/// The decimal numeral of `n` is made of digits, is not empty, and is worth
/// `n`.
pub proof fn lemma_decimal_digits(n: nat)
    ensures
        decimal(n).len() >= 1,
        all_digits(decimal(n)),
        digits_value(decimal(n)) == n,
    decreases n,
{
    if n < 10 {
        let s = decimal(n);
        assert(s.drop_last() == Seq::<char>::empty());
        assert(digits_value(s.drop_last()) == 0);
    } else {
        lemma_decimal_digits(n / 10);
        let s = decimal(n);
        assert(s.drop_last() == decimal(n / 10));
        assert(s.last() == digit_char(n % 10));
    }
}

/// Reading back the decimal numeral of a number gives the number.
pub proof fn lemma_parse_decimal(n: u64)
    ensures
        parse_u64_spec(decimal(n as nat)) == Some(n),
{
    lemma_decimal_digits(n as nat);
    let s = decimal(n as nat);
    assert(is_digit(s[0]));
}

/// Reads the characters of `v` from `from` up to `to` as an unsigned decimal
/// number.
#[verifier::loop_isolation(false)]
pub fn parse_u64(v: &Vec<char>, from: usize, to: usize) -> (parsed: Option<u64>)
    requires
        from <= to <= v.len(),
    ensures
        parsed == parse_u64_spec(v@.subrange(from as int, to as int)),
{
    let ghost s = v@.subrange(from as int, to as int);
    let start: usize = if from < to && v[from] == '+' {
        from + 1
    } else {
        from
    };
    let ghost digits = v@.subrange(start as int, to as int);
    proof {
        if start == from {
            assert(digits == s);
            if s.len() > 0 {
                assert(s[0] != '+');
            }
        } else {
            assert(s[0] == '+');
            assert(digits == s.drop_first());
        }
    }
    if start == to {
        return None;
    }
    let mut acc: u64 = 0;
    let mut i: usize = start;
    while i < to
        invariant
            start <= i <= to <= v.len(),
            digits == v@.subrange(start as int, to as int),
            all_digits(digits.take(i - start)),
            acc == digits_value(digits.take(i - start)),
        decreases to - i,
    {
        let c = v[i];
        let ghost k = i - start;
        assert(digits[k] == c);
        assert(digits.take(k + 1).drop_last() == digits.take(k));
        assert(digits.take(k + 1).last() == c);
        if c < '0' || c > '9' {
            assert(!is_digit(digits[k]));
            return None;
        }
        let d: u64 = (c as u32 - '0' as u32) as u64;
        assert(d == digit_value(c));
        proof {
            lemma_digits_value_prefix(digits, k + 1);
        }
        if acc > (u64::MAX - d) / 10 {
            assert(digits_value(digits.take(k + 1)) > u64::MAX);
            return None;
        }
        acc = acc * 10 + d;
        assert(all_digits(digits.take(k + 1))) by {
            assert forall|j: int| 0 <= j < k + 1 implies is_digit(
                #[trigger] digits.take(k + 1)[j],
            ) by {
                if j < k {
                    assert(digits.take(k + 1)[j] == digits.take(k)[j]);
                }
            }
        }
        i += 1;
    }
    assert(digits.take(to - start) == digits);
    Some(acc)
}

/// Appends the decimal numeral of `n` to `out`.
pub fn push_decimal(out: &mut Vec<char>, n: u64)
    ensures
        final(out)@ == old(out)@ + decimal(n as nat),
{
    let mut low: Vec<char> = Vec::new();
    let mut m: u64 = n;
    while m >= 10
        invariant
            decimal(n as nat) == decimal(m as nat) + low@.reverse(),
        decreases m,
    {
        let d: u8 = (m % 10) as u8;
        let c: char = (48u8 + d) as char;
        assert(c == digit_char((m % 10) as nat));
        proof {
            let next = low@.push(c);
            assert(next.reverse() == seq![c] + low@.reverse());
            assert(decimal(m as nat) == decimal((m / 10) as nat).push(c));
            assert(decimal((m / 10) as nat).push(c) + low@.reverse() == decimal((m / 10) as nat)
                + (seq![c] + low@.reverse()));
        }
        low.push(c);
        m = m / 10;
    }
    let c: char = (48u8 + m as u8) as char;
    assert(c == digit_char(m as nat));
    proof {
        let next = low@.push(c);
        assert(next.reverse() == seq![c] + low@.reverse());
    }
    low.push(c);
    let mut i: usize = low.len();
    while i > 0
        invariant
            i <= low.len(),
            low@.reverse() == decimal(n as nat),
            out@ == old(out)@ + low@.reverse().take(low.len() - i),
        decreases i,
    {
        i -= 1;
        proof {
            let r = low@.reverse();
            let k = low.len() - 1 - i;
            assert(r[k] == low@[i as int]);
            assert(r.take(k + 1) == r.take(k).push(r[k]));
        }
        out.push(low[i]);
    }
    assert(low@.reverse().take(low.len() as int) == low@.reverse());
}

/// The decimal numeral of `n` as a string.
pub fn decimal_string(n: u64) -> (s: String)
    ensures
        s@ == decimal(n as nat),
{
    let mut out: Vec<char> = Vec::new();
    push_decimal(&mut out, n);
    string_of(&out)
}

} // verus!
