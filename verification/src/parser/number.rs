//! Numbers: integers in base 16, 2, 8 and 10, and floats.
//!
//! `0x`, `0b` and `0o` introduce hexadecimal, binary and octal digits. A
//! decimal integer is `0` alone or starts with a digit other than `0`. A
//! float is digits, a dot, and digits that may be missing. An integer that
//! does not fit in 64 bits with a sign is not read in that base.

use super::{
    deeper, error_at, is_digit, lemma_scan_bounds, note, noted, one_error, pick_deeper, run_end,
    scan, slice_bytes, Class, ErrorKind, ParseError, ParseResult, Parsed, Rule,
};
use vstd::prelude::*;

verus! {

/// What a digit counts for; hexadecimal digits count in either case.
pub open spec fn digit_value(b: u8) -> int {
    if 48 <= b <= 57 {
        b - 48
    } else if 97 <= b <= 102 {
        b - 87
    } else if 65 <= b <= 70 {
        b - 55
    } else {
        0
    }
}

/// The number that the digits write in the given base.
pub open spec fn digits_value(digits: Seq<u8>, radix: int) -> int
    decreases digits.len(),
{
    if digits.len() == 0 {
        0
    } else {
        digits_value(digits.drop_last(), radix) * radix + digit_value(digits.last())
    }
}

proof fn lemma_digits_prefix(digits: Seq<u8>, k: int, radix: int)
    requires
        0 <= k <= digits.len(),
        radix >= 1,
    ensures
        0 <= digits_value(digits.subrange(0, k), radix) <= digits_value(digits, radix),
    decreases digits.len() - k,
{
    if k == digits.len() {
        assert(digits.subrange(0, k) =~= digits);
        lemma_digits_nonnegative(digits, radix);
    } else {
        lemma_digits_prefix(digits.drop_last(), k, radix);
        assert(digits.drop_last().subrange(0, k) =~= digits.subrange(0, k));
        let v = digits_value(digits.drop_last(), radix);
        assert(v * radix >= v) by (nonlinear_arith)
            requires
                v >= 0,
                radix >= 1,
        ;
    }
}

proof fn lemma_digits_nonnegative(digits: Seq<u8>, radix: int)
    requires
        radix >= 1,
    ensures
        0 <= digits_value(digits, radix),
    decreases digits.len(),
{
    if digits.len() > 0 {
        lemma_digits_nonnegative(digits.drop_last(), radix);
        let v = digits_value(digits.drop_last(), radix);
        assert(v * radix >= 0) by (nonlinear_arith)
            requires
                v >= 0,
                radix >= 1,
        ;
    }
}

fn digit_of(b: u8) -> (r: u8)
    ensures
        r == digit_value(b),
        r <= 15,
{
    if 48 <= b && b <= 57 {
        b - 48
    } else if 97 <= b && b <= 102 {
        b - 87
    } else if 65 <= b && b <= 70 {
        b - 55
    } else {
        0
    }
}

/// The number that the bytes from `from` up to `to` write in the given
/// base, or `None` where it is more than the largest integer.
fn read_digits(src: &[u8], from: usize, to: usize, radix: u8) -> (r: Option<i64>)
    requires
        from <= to <= src.len(),
        1 <= radix <= 16,
    ensures
        match r {
            Some(v) => v == digits_value(src@.subrange(from as int, to as int), radix as int),
            None => digits_value(src@.subrange(from as int, to as int), radix as int) > i64::MAX,
        },
{
    let ghost digits = src@.subrange(from as int, to as int);
    let mut acc: u64 = 0;
    let mut i = from;
    assert(digits.subrange(0, 0) =~= Seq::<u8>::empty());
    while i < to
        invariant
            from <= i <= to <= src.len(),
            1 <= radix <= 16,
            digits == src@.subrange(from as int, to as int),
            acc == digits_value(digits.subrange(0, i - from), radix as int),
            acc <= i64::MAX,
        decreases to - i,
    {
        let d = digit_of(src[i]);
        proof {
            let next = digits.subrange(0, i - from + 1);
            assert(next.drop_last() =~= digits.subrange(0, i - from));
            assert(next.last() == src@[i as int]);
            lemma_digits_prefix(digits, i - from + 1, radix as int);
            assert(acc * radix <= 0xffff_ffff_ffff_ffff_f) by (nonlinear_arith)
                requires
                    acc <= 0x7fff_ffff_ffff_ffff,
                    radix <= 16,
            ;
        }
        let wide: u128 = (acc as u128) * (radix as u128) + (d as u128);
        if wide > 0x7fff_ffff_ffff_ffff {
            return None;
        }
        acc = wide as u64;
        i = i + 1;
    }
    assert(digits.subrange(0, to - from) =~= digits);
    Some(acc as i64)
}

/// The trace left where the digits after a base's prefix are missing.
pub open spec fn missing_digits(at: int, class: Class) -> Seq<super::ErrorEntry> {
    match class {
        Class::HexDigit => one_error(at, ErrorKind::Rule(Rule::HexDigit)),
        Class::OctDigit => one_error(at, ErrorKind::Rule(Rule::OctDigit)),
        _ => noted(one_error(at, ErrorKind::Rule(Rule::OneOf)), at, ErrorKind::Rule(Rule::Many1)),
    }
}

/// An integer written as `0`, a letter that names the base, and digits
/// of that base.
pub open spec fn spec_prefixed(s: Seq<u8>, at: int, letter: u8, class: Class, radix: int) -> Parsed<
    i64,
> {
    if 0 <= at && at + 1 < s.len() && s[at] == 48 && s[at + 1] == letter {
        let end = scan(s, at + 2, class);
        if end == at + 2 {
            Parsed::Failed { errors: missing_digits(at + 2, class) }
        } else if digits_value(s.subrange(at + 2, end), radix) > i64::MAX {
            Parsed::Failed { errors: one_error(at, ErrorKind::Rule(Rule::MapRes)) }
        } else {
            Parsed::Done { rest: end, value: digits_value(s.subrange(at + 2, end), radix) as i64 }
        }
    } else {
        Parsed::Failed { errors: one_error(at, ErrorKind::Rule(Rule::Tag)) }
    }
}

/// A decimal integer: `0` alone, or digits of which the first is not `0`.
pub open spec fn spec_decimal(s: Seq<u8>, at: int) -> Parsed<i64> {
    if 0 <= at < s.len() && 49 <= s[at] <= 57 {
        let end = scan(s, at, Class::Digit);
        if digits_value(s.subrange(at, end), 10) > i64::MAX {
            Parsed::Failed { errors: one_error(at, ErrorKind::Rule(Rule::MapRes)) }
        } else {
            Parsed::Done { rest: end, value: digits_value(s.subrange(at, end), 10) as i64 }
        }
    } else if 0 <= at < s.len() && s[at] == 48 {
        Parsed::Done { rest: at + 1, value: 0 }
    } else {
        Parsed::Failed {
            errors: noted(
                one_error(at, ErrorKind::Rule(Rule::OneOf)),
                at,
                ErrorKind::Rule(Rule::Alt),
            ),
        }
    }
}

/// An integer: hexadecimal, binary, octal or decimal, whichever reads
/// first in that order.
pub open spec fn spec_integer(s: Seq<u8>, at: int) -> Parsed<i64> {
    let hex = spec_prefixed(s, at, 120, Class::HexDigit, 16);
    let bin = spec_prefixed(s, at, 98, Class::BinDigit, 2);
    let oct = spec_prefixed(s, at, 111, Class::OctDigit, 8);
    let dec = spec_decimal(s, at);
    if hex is Done {
        hex
    } else if bin is Done {
        bin
    } else if oct is Done {
        oct
    } else if dec is Done {
        dec
    } else {
        Parsed::Failed {
            errors: noted(
                deeper(deeper(deeper(hex->errors, bin->errors), oct->errors), dec->errors),
                at,
                ErrorKind::Rule(Rule::Alt),
            ),
        }
    }
}

/// A float: digits, a dot, and as many digits as follow. What is read is
/// the text of the number.
pub open spec fn spec_float(s: Seq<u8>, at: int) -> Parsed<Seq<u8>> {
    let dot = scan(s, at, Class::Digit);
    if dot == at {
        Parsed::Failed { errors: one_error(at, ErrorKind::Rule(Rule::Digit)) }
    } else if 0 <= dot < s.len() && s[dot] == 46 {
        let rest = scan(s, dot + 1, Class::Digit);
        Parsed::Done { rest, value: s.subrange(at, rest) }
    } else {
        Parsed::Failed { errors: one_error(dot, ErrorKind::Char(46)) }
    }
}

/// Whether an executable result is what the model says.
pub open spec fn integer_matches(r: ParseResult<i64>, model: Parsed<i64>) -> bool {
    match r {
        Ok((rest, value)) => model == (Parsed::Done { rest: rest as int, value }),
        Err(e) => model == (Parsed::<i64>::Failed { errors: e@ }) && e@.len() > 0,
    }
}

fn missing(at: usize, class: Class) -> (r: ParseError)
    ensures
        r@ == missing_digits(at as int, class),
{
    match class {
        Class::HexDigit => error_at(at, ErrorKind::Rule(Rule::HexDigit)),
        Class::OctDigit => error_at(at, ErrorKind::Rule(Rule::OctDigit)),
        _ => note(error_at(at, ErrorKind::Rule(Rule::OneOf)), at, ErrorKind::Rule(Rule::Many1)),
    }
}

fn prefixed(src: &[u8], at: usize, letter: u8, class: Class, radix: u8) -> (r: ParseResult<i64>)
    requires
        at <= src.len(),
        1 <= radix <= 16,
    ensures
        integer_matches(r, spec_prefixed(src@, at as int, letter, class, radix as int)),
        r matches Ok(done) ==> at < done.0 <= src.len(),
{
    if src.len() - at >= 2 && src[at] == 48 && src[at + 1] == letter {
        let end = run_end(src, at + 2, class);
        if end == at + 2 {
            Err(missing(at + 2, class))
        } else {
            match read_digits(src, at + 2, end, radix) {
                Some(value) => Ok((end, value)),
                None => Err(error_at(at, ErrorKind::Rule(Rule::MapRes))),
            }
        }
    } else {
        Err(error_at(at, ErrorKind::Rule(Rule::Tag)))
    }
}

fn decimal_integer(src: &[u8], at: usize) -> (r: ParseResult<i64>)
    requires
        at <= src.len(),
    ensures
        integer_matches(r, spec_decimal(src@, at as int)),
        r matches Ok(done) ==> at < done.0 <= src.len(),
{
    if at < src.len() && 49 <= src[at] && src[at] <= 57 {
        let end = run_end(src, at, Class::Digit);
        proof {
            assert(Class::Digit.holds(src@[at as int]));
            lemma_scan_bounds(src@, at as int + 1, Class::Digit);
        }
        match read_digits(src, at, end, 10) {
            Some(value) => Ok((end, value)),
            None => Err(error_at(at, ErrorKind::Rule(Rule::MapRes))),
        }
    } else if at < src.len() && src[at] == 48 {
        Ok((at + 1, 0))
    } else {
        Err(note(error_at(at, ErrorKind::Rule(Rule::OneOf)), at, ErrorKind::Rule(Rule::Alt)))
    }
}

/// Reads an integer at `at`.
pub fn integer(src: &[u8], at: usize) -> (r: ParseResult<i64>)
    requires
        at <= src.len(),
    ensures
        integer_matches(r, spec_integer(src@, at as int)),
        r matches Ok(done) ==> at < done.0 <= src.len(),
{
    let hex = match prefixed(src, at, 120, Class::HexDigit, 16) {
        Ok(done) => {
            return Ok(done);
        },
        Err(e) => e,
    };
    let bin = match prefixed(src, at, 98, Class::BinDigit, 2) {
        Ok(done) => {
            return Ok(done);
        },
        Err(e) => e,
    };
    let oct = match prefixed(src, at, 111, Class::OctDigit, 8) {
        Ok(done) => {
            return Ok(done);
        },
        Err(e) => e,
    };
    let dec = match decimal_integer(src, at) {
        Ok(done) => {
            return Ok(done);
        },
        Err(e) => e,
    };
    Err(note(pick_deeper(pick_deeper(pick_deeper(hex, bin), oct), dec), at, ErrorKind::Rule(Rule::Alt)))
}

/// Reads a float at `at`; what is read is its text.
pub fn float(src: &[u8], at: usize) -> (r: ParseResult<Vec<u8>>)
    requires
        at <= src.len(),
    ensures
        match r {
            Ok((rest, text)) => spec_float(src@, at as int) == (Parsed::Done {
                rest: rest as int,
                value: text@,
            }) && at < rest <= src.len(),
            Err(e) => spec_float(src@, at as int) == (Parsed::<Seq<u8>>::Failed { errors: e@ })
                && e@.len() > 0,
        },
{
    let dot = run_end(src, at, Class::Digit);
    if dot == at {
        Err(error_at(at, ErrorKind::Rule(Rule::Digit)))
    } else if dot < src.len() && src[dot] == 46 {
        let rest = run_end(src, dot + 1, Class::Digit);
        Ok((rest, slice_bytes(src, at, rest)))
    } else {
        Err(error_at(dot, ErrorKind::Char(46)))
    }
}

} // verus!
