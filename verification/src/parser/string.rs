//! Strings: between double quotes, runs of bytes other than `\` and `"`
//! and escapes. An escape is `\` and one of `n`, `t`, `"`, `\`. A string
//! holds at least one byte or escape.

use super::{
    error_at, lemma_scan_bounds, note, noted, one_error, run_end, scan,
    Class, Context, ErrorEntry, ErrorKind, ParseError, ParseResult, Parsed, Rule,
};
use vstd::prelude::*;

verus! {

/// The byte that an escape stands for.
pub open spec fn escape_byte(b: u8) -> Option<u8> {
    if b == 110 {
        Some(10u8)
    } else if b == 116 {
        Some(9u8)
    } else if b == 34 {
        Some(34u8)
    } else if b == 92 {
        Some(92u8)
    } else {
        None
    }
}

/// The trace left by a byte that is no escape.
pub open spec fn bad_escape(at: int) -> Seq<ErrorEntry> {
    noted(
        noted(one_error(at, ErrorKind::Char(110)), at, ErrorKind::Rule(Rule::Alt)),
        at,
        ErrorKind::Context(Context::Escape),
    )
}

/// What is inside the quotes, read from `at` on. The string's bytes began
/// at `start`, and `acc` is what has been read of it so far.
pub open spec fn spec_string_body(s: Seq<u8>, start: int, at: int, acc: Seq<u8>) -> Parsed<Seq<u8>>
    decreases s.len() - at,
{
    if at < 0 || at >= s.len() {
        Parsed::Done { rest: at, value: acc }
    } else {
        let run = scan(s, at, Class::Plain);
        if run > at {
            proof {
                lemma_scan_bounds(s, at, Class::Plain);
            }
            spec_string_body(s, start, run, acc + s.subrange(at, run))
        } else if s[at] == 92 {
            if at + 1 >= s.len() {
                Parsed::Failed { errors: one_error(at, ErrorKind::Rule(Rule::EscapedTransform)) }
            } else {
                match escape_byte(s[at + 1]) {
                    Some(b) => spec_string_body(s, start, at + 2, acc.push(b)),
                    None => Parsed::Failed { errors: bad_escape(at + 1) },
                }
            }
        } else if at == start {
            Parsed::Failed { errors: one_error(at, ErrorKind::Rule(Rule::EscapedTransform)) }
        } else {
            Parsed::Done { rest: at, value: acc }
        }
    }
}

/// A string at `at`, quotes included; what is read is its bytes with the
/// escapes replaced.
pub open spec fn spec_string(s: Seq<u8>, at: int) -> Parsed<Seq<u8>> {
    if 0 <= at < s.len() && s[at] == 34 {
        match spec_string_body(s, at + 1, at + 1, Seq::empty()) {
            Parsed::Failed { errors } => Parsed::Failed { errors },
            Parsed::Done { rest, value } => {
                if 0 <= rest < s.len() && s[rest] == 34 {
                    Parsed::Done { rest: rest + 1, value }
                } else {
                    Parsed::Failed { errors: one_error(rest, ErrorKind::Char(34)) }
                }
            },
        }
    } else {
        Parsed::Failed { errors: one_error(at, ErrorKind::Char(34)) }
    }
}

fn escape_of(b: u8) -> (r: Option<u8>)
    ensures
        r == escape_byte(b),
{
    if b == 110 {
        Some(10)
    } else if b == 116 {
        Some(9)
    } else if b == 34 {
        Some(34)
    } else if b == 92 {
        Some(92)
    } else {
        None
    }
}

fn escape_error(at: usize) -> (r: ParseError)
    ensures
        r@ == bad_escape(at as int),
{
    note(
        note(error_at(at, ErrorKind::Char(110)), at, ErrorKind::Rule(Rule::Alt)),
        at,
        ErrorKind::Context(Context::Escape),
    )
}

fn string_inner(src: &[u8], start: usize) -> (r: ParseResult<Vec<u8>>)
    requires
        start <= src.len(),
    ensures
        match r {
            Ok((rest, text)) => spec_string_body(
                src@,
                start as int,
                start as int,
                Seq::empty(),
            ) == (Parsed::Done { rest: rest as int, value: text@ }) && start <= rest <= src.len(),
            Err(e) => spec_string_body(src@, start as int, start as int, Seq::empty()) == (
            Parsed::<Seq<u8>>::Failed { errors: e@ }) && e@.len() > 0,
        },
{
    let mut text: Vec<u8> = Vec::new();
    let mut at = start;
    while at < src.len()
        invariant
            start <= at <= src.len(),
            spec_string_body(src@, start as int, start as int, Seq::empty()) == spec_string_body(
                src@,
                start as int,
                at as int,
                text@,
            ),
        decreases src.len() - at,
    {
        let run = run_end(src, at, Class::Plain);
        if run > at {
            let ghost before = text@;
            let mut i = at;
            while i < run
                invariant
                    at <= i <= run <= src.len(),
                    text@ == before + src@.subrange(at as int, i as int),
                decreases run - i,
            {
                text.push(src[i]);
                i = i + 1;
                assert(text@ =~= before + src@.subrange(at as int, i as int));
            }
            at = run;
        } else if src[at] == 92 {
            if at + 1 >= src.len() {
                return Err(error_at(at, ErrorKind::Rule(Rule::EscapedTransform)));
            }
            match escape_of(src[at + 1]) {
                Some(b) => {
                    text.push(b);
                    at = at + 2;
                },
                None => {
                    return Err(escape_error(at + 1));
                },
            }
        } else if at == start {
            return Err(error_at(at, ErrorKind::Rule(Rule::EscapedTransform)));
        } else {
            return Ok((at, text));
        }
    }
    Ok((at, text))
}

/// Reads a string at `at`, where its first quote stands.
pub fn string(src: &[u8], at: usize) -> (r: ParseResult<Vec<u8>>)
    requires
        at <= src.len(),
    ensures
        match r {
            Ok((rest, text)) => spec_string(src@, at as int) == (Parsed::Done {
                rest: rest as int,
                value: text@,
            }) && at < rest <= src.len(),
            Err(e) => spec_string(src@, at as int) == (Parsed::<Seq<u8>>::Failed { errors: e@ })
                && e@.len() > 0,
        },
{
    if at < src.len() && src[at] == 34 {
        match string_inner(src, at + 1) {
            Err(e) => Err(e),
            Ok((rest, text)) => {
                if rest < src.len() && src[rest] == 34 {
                    Ok((rest + 1, text))
                } else {
                    Err(error_at(rest, ErrorKind::Char(34)))
                }
            },
        }
    } else {
        Err(error_at(at, ErrorKind::Char(34)))
    }
}

} // verus!
