//! Identifiers: a letter or one of `+-*/.:^%&$#@`, then any number of
//! those or digits.

use super::{error_at, run_end, scan, slice_bytes, Class, ErrorKind, ParseResult, Parsed, Rule};
use super::one_error;
use vstd::prelude::*;

verus! {

/// Whether a character may start an identifier.
pub open spec fn valid_ident_start(c: char) -> bool {
    ('a' <= c <= 'z') || ('A' <= c <= 'Z') || c == '+' || c == '-' || c == '*' || c == '/' || c
        == '.' || c == ':' || c == '^' || c == '%' || c == '&' || c == '$' || c == '#' || c == '@'
}

/// Whether a character may stand in an identifier after its start.
pub open spec fn valid_ident_char(c: char) -> bool {
    valid_ident_start(c) || ('0' <= c <= '9')
}

/// Whether a character may start an identifier.
pub fn is_valid_ident_start(c: char) -> (r: bool)
    ensures
        r == valid_ident_start(c),
{
    ('a' <= c && c <= 'z') || ('A' <= c && c <= 'Z') || c == '+' || c == '-' || c == '*' || c
        == '/' || c == '.' || c == ':' || c == '^' || c == '%' || c == '&' || c == '$' || c == '#'
        || c == '@'
}

/// Whether a character may stand in an identifier after its start.
pub fn is_valid_ident_char(c: char) -> (r: bool)
    ensures
        r == valid_ident_char(c),
{
    is_valid_ident_start(c) || ('0' <= c && c <= '9')
}

/// An identifier at `at`: the longest run of identifier bytes, provided
/// that the first of them may start one.
pub open spec fn spec_ident(s: Seq<u8>, at: int) -> Parsed<Seq<u8>> {
    if 0 <= at < s.len() && valid_ident_start(s[at] as char) {
        let rest = scan(s, at, Class::IdentChar);
        Parsed::Done { rest, value: s.subrange(at, rest) }
    } else {
        Parsed::Failed { errors: one_error(at, ErrorKind::Rule(Rule::TakeWhile1)) }
    }
}

/// Reads an identifier at `at`.
pub fn ident(src: &[u8], at: usize) -> (r: ParseResult<Vec<u8>>)
    requires
        at <= src.len(),
    ensures
        match r {
            Ok((rest, name)) => spec_ident(src@, at as int) == (Parsed::Done {
                rest: rest as int,
                value: name@,
            }) && at < rest <= src.len(),
            Err(e) => spec_ident(src@, at as int) == (Parsed::<Seq<u8>>::Failed { errors: e@ })
                && e@.len() > 0,
        },
{
    if at < src.len() && is_valid_ident_start(src[at] as char) {
        let rest = run_end(src, at, Class::IdentChar);
        assert(rest > at) by {
            assert(Class::IdentChar.holds(src@[at as int]));
            super::lemma_scan_bounds(src@, at as int + 1, Class::IdentChar);
        }
        Ok((rest, slice_bytes(src, at, rest)))
    } else {
        Err(error_at(at, ErrorKind::Rule(Rule::TakeWhile1)))
    }
}

} // verus!
