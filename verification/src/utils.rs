//! Sizes in bytes, written for people.

use crate::text::{decimal, digit_char, push_decimal, string_of};
use vstd::prelude::*;

verus! {

pub const KIB: u64 = 1024;

pub const MIB: u64 = 1024 * 1024;

pub const GIB: u64 = 1024 * 1024 * 1024;

pub const TIB: u64 = 1024 * 1024 * 1024 * 1024;

pub const PIB: u64 = 1024 * 1024 * 1024 * 1024 * 1024;

/// The least size that a double-precision number no longer holds exactly
/// in every case: two to the power of 53.
pub const EXACT_LIMIT: u64 = 0x20_0000_0000_0000;

/// `n / d` rounded to the nearest whole number, a tie going to the even one.
pub open spec fn round_half_even(n: nat, d: nat) -> nat {
    let q = n / d;
    let r = n % d;
    if 2 * r > d || (2 * r == d && q % 2 == 1) {
        q + 1
    } else {
        q
    }
}

/// The distance between neighbouring double-precision numbers around `b`:
/// one below `EXACT_LIMIT`, and doubling with each doubling of `b` from
/// there.
pub open spec fn binary64_step(b: nat) -> nat
    decreases b,
{
    if b < EXACT_LIMIT {
        1
    } else {
        2 * binary64_step(b / 2)
    }
}

/// The double-precision number nearest to `b`, a tie going to the one with
/// the even significand.
pub open spec fn binary64_nearest(b: nat) -> nat {
    round_half_even(b, binary64_step(b)) * binary64_step(b)
}

/// The unit in which a size of at least `KIB` is shown.
pub open spec fn unit_size(b: u64) -> nat {
    if b < MIB {
        KIB as nat
    } else if b < GIB {
        MIB as nat
    } else if b < TIB {
        GIB as nat
    } else if b < PIB {
        TIB as nat
    } else {
        PIB as nat
    }
}

/// The letter that stands for `unit_size`.
pub open spec fn unit_letter(b: u64) -> char {
    if b < MIB {
        'K'
    } else if b < GIB {
        'M'
    } else if b < TIB {
        'G'
    } else if b < PIB {
        'T'
    } else {
        'P'
    }
}

/// The size in tenths of its unit: the quotient of the nearest
/// double-precision number by the unit, rounded half to even at the first
/// decimal.
pub open spec fn tenths_of_unit(b: u64) -> nat {
    round_half_even(binary64_nearest(b as nat) * 10, unit_size(b))
}

/// The text for a size: below `KIB` the number of bytes and `B`; from there
/// the size in its unit with one decimal, and the unit's letter.
pub open spec fn format_bytes_spec(b: u64) -> Seq<char> {
    if b < KIB {
        decimal(b as nat).push('B')
    } else {
        decimal(tenths_of_unit(b) / 10).push('.').push(digit_char(tenths_of_unit(b) % 10)).push(
            unit_letter(b),
        )
    }
}

/// Computes `round_half_even(n, d)`.
fn rounded_quotient(n: u128, d: u64) -> (q: u128)
    requires
        d > 0,
        n < u128::MAX,
    ensures
        q == round_half_even(n as nat, d as nat),
        q <= n / (d as u128) + 1,
{
    let q: u128 = n / (d as u128);
    let r: u128 = n % (d as u128);
    if 2 * r > d as u128 || (2 * r == d as u128 && q % 2 == 1) {
        q + 1
    } else {
        q
    }
}

/// Computes `binary64_nearest(b)`.
fn nearest_binary64(b: u64) -> (near: u128)
    ensures
        near == binary64_nearest(b as nat),
        near <= 0x1_0000_0000_0000_1000,
{
    let mut step: u64 = 1;
    let mut x: u64 = b;
    while x >= EXACT_LIMIT
        invariant
            1 <= step < 4096,
            step * x <= b,
            b < step * (x + 1),
            binary64_step(b as nat) == step * binary64_step(x as nat),
        decreases x,
    {
        assert(step < 2048) by (nonlinear_arith)
            requires
                step * x <= b,
                x >= 0x20_0000_0000_0000,
                b <= 0xffff_ffff_ffff_ffff,
                step >= 1,
        ;
        assert((2 * step) * (x / 2) <= b && b < (2 * step) * (x / 2 + 1)) by (nonlinear_arith)
            requires
                step * x <= b,
                b < step * (x + 1),
                step >= 1,
        ;
        assert(step * (2 * binary64_step((x / 2) as nat)) == (2 * step) * binary64_step(
            (x / 2) as nat,
        )) by (nonlinear_arith);
        step = 2 * step;
        x = x / 2;
    }
    assert(binary64_step(b as nat) == step) by {
        assert(binary64_step(x as nat) == 1);
        assert(step * 1 == step);
    }
    let q: u128 = rounded_quotient(b as u128, step);
    assert(q == x || q == x + 1) by (nonlinear_arith)
        requires
            step * x <= b,
            b < step * (x + 1),
            step >= 1,
            q == (b as int) / (step as int) || q == (b as int) / (step as int) + 1,
    ;
    assert(q * step <= 0x1_0000_0000_0000_1000) by (nonlinear_arith)
        requires
            q <= x + 1,
            step * x <= b,
            b <= 0xffff_ffff_ffff_ffff,
            1 <= step < 4096,
    ;
    q * (step as u128)
}

/// The size `b` as a short text: `"512B"`, `"1.5K"`, `"2.0G"`.
pub fn format_bytes(b: u64) -> (s: String)
    ensures
        s@ == format_bytes_spec(b),
{
    let mut out: Vec<char> = Vec::new();
    if b < KIB {
        push_decimal(&mut out, b);
        out.push('B');
        return string_of(&out);
    }
    let unit: u64 = if b < MIB {
        KIB
    } else if b < GIB {
        MIB
    } else if b < TIB {
        GIB
    } else if b < PIB {
        TIB
    } else {
        PIB
    };
    let letter: char = if b < MIB {
        'K'
    } else if b < GIB {
        'M'
    } else if b < TIB {
        'G'
    } else if b < PIB {
        'T'
    } else {
        'P'
    };
    let near: u128 = nearest_binary64(b);
    let tenths: u128 = rounded_quotient(near * 10, unit);
    assert(tenths <= 0xffff_ffff_ffff_ffff) by (nonlinear_arith)
        requires
            tenths <= (near * 10) / (unit as int) + 1,
            near <= 0x1_0000_0000_0000_1000,
            unit >= 1024,
    ;
    let whole: u64 = (tenths / 10) as u64;
    let tenth: u8 = (tenths % 10) as u8;
    push_decimal(&mut out, whole);
    out.push('.');
    out.push((48u8 + tenth) as char);
    out.push(letter);
    string_of(&out)
}

} // verus!
