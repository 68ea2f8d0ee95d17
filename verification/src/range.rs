//! Byte ranges: the `Range` header of a download request.

use crate::text::{
    chars_of, decimal, find_char, find_from, has_prefix, lemma_decimal_digits, lemma_find_char,
    lemma_find_char_is, lemma_parse_decimal, parse_u64, parse_u64_spec,
};
use vstd::prelude::*;

verus! {

/// What every range header starts with: the unit and the equals sign.
pub open spec fn range_unit() -> Seq<char> {
    seq!['b', 'y', 't', 'e', 's', '=']
}

/// What a range header asks of a file of `size` bytes: the first and the
/// last byte to send, both counted from 0.
///
/// The header is `bytes=`, a first byte, a dash, and a last byte that may
/// be left out; there is one dash only, and each number is an unsigned
/// decimal. A missing last byte means the end of the file, and one past the
/// end is cut down to it. No range comes of a header of another shape, of a
/// first byte behind the last one or behind the end of the file, or of an
/// empty file.
pub open spec fn parse_range_spec(range: Seq<char>, size: u64) -> Option<(u64, u64)> {
    if size == 0 || !range_unit().is_prefix_of(range) {
        None
    } else {
        let body = range.skip(6);
        let dash = find_char(body, '-');
        if dash >= body.len() {
            None
        } else {
            match (parse_u64_spec(body.take(dash)), last_byte_spec(body.skip(dash + 1), size)) {
                (Some(start), Some(end)) => if start <= end {
                    Some((start, end))
                } else {
                    None
                },
                _ => None,
            }
        }
    }
}

/// The last byte that the text after the dash asks for, in a file of
/// `size` bytes, which is not empty.
pub open spec fn last_byte_spec(last: Seq<char>, size: u64) -> Option<u64> {
    if last.len() == 0 {
        Some((size - 1) as u64)
    } else {
        match parse_u64_spec(last) {
            Some(end) => if end < size {
                Some(end)
            } else {
                Some((size - 1) as u64)
            },
            None => None,
        }
    }
}

/// The header that asks for the bytes from `first` to `last`.
pub open spec fn range_header(first: u64, last: u64) -> Seq<char> {
    range_unit() + decimal(first as nat) + seq!['-'] + decimal(last as nat)
}

/// The header that asks for the bytes from `first` to the end.
pub open spec fn open_range_header(first: u64) -> Seq<char> {
    range_unit() + decimal(first as nat) + seq!['-']
}

/// A range that was parsed lies inside the file, its first byte not behind
/// its last.
pub proof fn lemma_range_inside(range: Seq<char>, size: u64)
    ensures
        parse_range_spec(range, size) matches Some((start, end)) ==> start <= end < size,
{
}

/// The two numbers of a header are read back as they were written: the
/// header for `first` and `last` gives the range from `first` to `last`,
/// cut down to the file, or none where `first` lies behind that.
pub proof fn lemma_range_header(first: u64, last: u64, size: u64)
    ensures
        parse_range_spec(range_header(first, last), size) == if size > 0 && first <= last && first
            < size {
            Some((first, if last < size { last } else { (size - 1) as u64 }))
        } else {
            None
        },
{
    let a = decimal(first as nat);
    let b = decimal(last as nat);
    let header = range_header(first, last);
    let body = header.skip(6);
    lemma_decimal_digits(first as nat);
    lemma_decimal_digits(last as nat);
    lemma_parse_decimal(first);
    lemma_parse_decimal(last);
    assert(header.subrange(0, 6) == range_unit());
    assert(body == a + seq!['-'] + b);
    assert forall|j: int| 0 <= j < a.len() implies body[j] != '-' by {
        assert(crate::text::is_digit(a[j]));
    }
    assert(body[a.len() as int] == '-');
    lemma_find_char_is(body, '-', a.len() as int);
    assert(body.take(a.len() as int) == a);
    assert(body.skip(a.len() as int + 1) == b);
}

/// The header for `first` and no last byte gives the range from `first`
/// to the end of the file, or none where `first` lies behind the end.
pub proof fn lemma_open_range_header(first: u64, size: u64)
    ensures
        parse_range_spec(open_range_header(first), size) == if first < size {
            Some((first, (size - 1) as u64))
        } else {
            None
        },
{
    let a = decimal(first as nat);
    let header = open_range_header(first);
    let body = header.skip(6);
    lemma_decimal_digits(first as nat);
    lemma_parse_decimal(first);
    assert(header.subrange(0, 6) == range_unit());
    assert(body == a + seq!['-']);
    assert forall|j: int| 0 <= j < a.len() implies body[j] != '-' by {
        assert(crate::text::is_digit(a[j]));
    }
    assert(body[a.len() as int] == '-');
    lemma_find_char_is(body, '-', a.len() as int);
    assert(body.take(a.len() as int) == a);
    assert(body.skip(a.len() as int + 1) == Seq::<char>::empty());
}

/// A header for bytes inside the file, in order, gives exactly these bytes.
pub proof fn lemma_satisfiable_range(first: u64, last: u64, size: u64)
    requires
        first <= last < size,
    ensures
        parse_range_spec(range_header(first, last), size) == Some((first, last)),
{
    lemma_range_header(first, last, size);
}

/// A header whose first byte lies behind its last, or behind the end of
/// the file, gives no range.
pub proof fn lemma_unsatisfiable_range(first: u64, last: u64, size: u64)
    requires
        first > last || first >= size,
    ensures
        parse_range_spec(range_header(first, last), size) is None,
{
    lemma_range_header(first, last, size);
}

/// Reads a range header for a file of `size` bytes:
/// `parse_range("bytes=0-99", 1000)` is `Some((0, 99))`.
pub fn parse_range(range: &str, size: u64) -> (parsed: Option<(u64, u64)>)
    ensures
        parsed == parse_range_spec(range@, size),
{
    if size == 0 {
        return None;
    }
    let v = chars_of(range);
    let mut unit: Vec<char> = Vec::new();
    unit.push('b');
    unit.push('y');
    unit.push('t');
    unit.push('e');
    unit.push('s');
    unit.push('=');
    assert(unit@ == range_unit());
    if !has_prefix(&v, &unit) {
        return None;
    }
    let dash = find_from(&v, 6, '-');
    let ghost body = v@.skip(6);
    proof {
        lemma_find_char(body, '-');
    }
    if dash == v.len() {
        return None;
    }
    assert(v@.subrange(6, dash as int) == body.take(dash - 6));
    assert(v@.subrange(dash + 1, v.len() as int) == body.skip(dash - 6 + 1));
    let start = match parse_u64(&v, 6, dash) {
        Some(start) => start,
        None => { return None; },
    };
    let end = if dash + 1 == v.len() {
        size - 1
    } else {
        match parse_u64(&v, dash + 1, v.len()) {
            Some(end) => if end < size {
                end
            } else {
                size - 1
            },
            None => { return None; },
        }
    };
    if start > end {
        return None;
    }
    Some((start, end))
}

} // verus!
