//! Tokens, lists and whole programs.
//!
//! A token is a value with an optional prefix: `'` marks it raw, `!`
//! sequential. The byte after the prefix decides what is read: `"` a
//! string, `(` a list, a digit a number, anything else an identifier.
//! Between the tokens of a list there is whitespace; after `(` and before
//! `)` there may be.

use super::ident::{ident, spec_ident};
use super::number::{float, integer, spec_float, spec_integer};
use super::string::{spec_string, string};
use super::{
    deeper, error_at, is_digit, lemma_scan_bounds, note, noted, one_error, pick_deeper, run_end,
    scan, Class, Context, ErrorEntry, ErrorKind, ParseError, ParseResult, Parsed, Rule,
};
use crate::list::List;
use crate::value::{
    lemma_list_view, list_view, Float, FloatView, KindView, Value, ValueKind, ValueView,
};
use vstd::prelude::*;

verus! {

/// A number: a float where one can be read, else an integer.
pub open spec fn spec_number(s: Seq<u8>, at: int) -> Parsed<KindView> {
    match spec_float(s, at) {
        Parsed::Done { rest, value } => Parsed::Done {
            rest,
            value: KindView::Float(FloatView { bits: None, text: value }),
        },
        Parsed::Failed { errors: float_errors } => match spec_integer(s, at) {
            Parsed::Done { rest, value } => Parsed::Done { rest, value: KindView::Integer(value) },
            Parsed::Failed { errors: integer_errors } => Parsed::Failed {
                errors: noted(deeper(float_errors, integer_errors), at, ErrorKind::Rule(Rule::Alt)),
            },
        },
    }
}

/// A failure with the name of the form that was being read added to it.
pub open spec fn in_context<T>(p: Parsed<T>, at: int, context: Context) -> Parsed<T> {
    match p {
        Parsed::Failed { errors } => Parsed::Failed {
            errors: noted(errors, at, ErrorKind::Context(context)),
        },
        done => done,
    }
}

/// A token at `at`: a prefix that may be missing, then a value.
pub open spec fn spec_token(s: Seq<u8>, at: int) -> Parsed<ValueView>
    decreases s.len() - at, 2int,
{
    if at < 0 || at > s.len() {
        Parsed::Failed { errors: Seq::empty() }
    } else {
        let raw = at < s.len() && s[at] == 39;
        let sequential = at < s.len() && s[at] == 33;
        let next = if raw || sequential {
            at + 1
        } else {
            at
        };
        match spec_token_kind(s, next) {
            Parsed::Failed { errors } => Parsed::Failed { errors },
            Parsed::Done { rest, value } => Parsed::Done {
                rest,
                value: ValueView { raw, sequential, kind: value },
            },
        }
    }
}

/// What follows a token's prefix.
pub open spec fn spec_token_kind(s: Seq<u8>, at: int) -> Parsed<KindView>
    decreases s.len() - at, 1int,
{
    if at < 0 || at > s.len() {
        Parsed::Failed { errors: Seq::empty() }
    } else if at < s.len() && s[at] == 34 {
        in_context(
            match spec_string(s, at) {
                Parsed::Done { rest, value } => Parsed::Done {
                    rest,
                    value: KindView::String(value),
                },
                Parsed::Failed { errors } => Parsed::Failed { errors },
            },
            at,
            Context::String,
        )
    } else if at < s.len() && s[at] == 40 {
        in_context(
            match spec_list(s, at) {
                Parsed::Done { rest, value } => Parsed::Done { rest, value: KindView::List(value) },
                Parsed::Failed { errors } => Parsed::Failed { errors },
            },
            at,
            Context::List,
        )
    } else if at < s.len() && is_digit(s[at]) {
        in_context(spec_number(s, at), at, Context::Number)
    } else {
        in_context(
            match spec_ident(s, at) {
                Parsed::Done { rest, value } => Parsed::Done {
                    rest,
                    value: KindView::Symbol(value),
                },
                Parsed::Failed { errors } => Parsed::Failed { errors },
            },
            at,
            Context::Ident,
        )
    }
}

/// A list at `at`, parentheses included.
pub open spec fn spec_list(s: Seq<u8>, at: int) -> Parsed<Seq<ValueView>>
    decreases s.len() - at, 0int,
{
    if 0 <= at < s.len() && s[at] == 40 {
        spec_list_items(s, at + 1, true, Seq::empty())
    } else {
        Parsed::Failed { errors: one_error(at, ErrorKind::Char(40)) }
    }
}

/// The rest of a list from `at` on, where `acc` holds the tokens read so
/// far and `first` says that none was read yet.
pub open spec fn spec_list_items(s: Seq<u8>, at: int, first: bool, acc: Seq<ValueView>) -> Parsed<
    Seq<ValueView>,
>
    decreases s.len() - at, 3int,
{
    if at < 0 || at > s.len() {
        Parsed::Failed { errors: Seq::empty() }
    } else {
        let start = scan(s, at, Class::Space);
        proof {
            lemma_scan_bounds(s, at, Class::Space);
        }
        if start < s.len() && s[start] == 41 {
            Parsed::Done { rest: start + 1, value: acc }
        } else if !first && start == at {
            Parsed::Failed { errors: one_error(at, ErrorKind::Rule(Rule::MultiSpace)) }
        } else {
            match spec_token(s, start) {
                Parsed::Failed { errors } => Parsed::Failed { errors },
                Parsed::Done { rest, value } => {
                    if start < rest <= s.len() {
                        spec_list_items(s, rest, false, acc.push(value))
                    } else {
                        Parsed::Failed { errors: Seq::empty() }
                    }
                },
            }
        }
    }
}

/// The value of a program: the sequential list of its forms.
pub open spec fn program_value(forms: Seq<ValueView>) -> ValueView {
    ValueView { raw: false, sequential: true, kind: KindView::List(forms) }
}

/// The rest of a program from `at` on, where `acc` holds the forms read so
/// far and `first` says that none was read yet.
pub open spec fn spec_program_items(s: Seq<u8>, at: int, first: bool, acc: Seq<ValueView>) -> Parsed<
    ValueView,
>
    decreases s.len() - at,
{
    if at < 0 || at >= s.len() {
        Parsed::Done { rest: s.len() as int, value: program_value(acc) }
    } else {
        let start = scan(s, at, Class::Space);
        proof {
            lemma_scan_bounds(s, at, Class::Space);
        }
        if !first && start == at {
            Parsed::Failed { errors: one_error(at, ErrorKind::Rule(Rule::MultiSpace)) }
        } else if start >= s.len() {
            Parsed::Done { rest: s.len() as int, value: program_value(acc) }
        } else {
            match spec_token(s, start) {
                Parsed::Failed { errors } => Parsed::Failed { errors },
                Parsed::Done { rest, value } => {
                    if start < rest <= s.len() {
                        spec_program_items(s, rest, false, acc.push(value))
                    } else {
                        Parsed::Failed { errors: Seq::empty() }
                    }
                },
            }
        }
    }
}

/// A whole source: forms with whitespace between them, and whitespace
/// that may stand before the first and after the last.
pub open spec fn spec_program(s: Seq<u8>) -> Parsed<ValueView> {
    spec_program_items(s, scan(s, 0, Class::Space), true, Seq::empty())
}

/// The models of the values in a vector, in order.
pub open spec fn values_view(items: Seq<Value>) -> Seq<ValueView> {
    items.map_values(|v: Value| v@)
}

fn number(src: &[u8], at: usize) -> (r: ParseResult<ValueKind>)
    requires
        at <= src.len(),
    ensures
        match r {
            Ok((rest, kind)) => spec_number(src@, at as int) == (Parsed::Done {
                rest: rest as int,
                value: kind@,
            }) && at < rest <= src.len(),
            Err(e) => spec_number(src@, at as int) == (Parsed::<KindView>::Failed { errors: e@ })
                && e@.len() > 0,
        },
{
    let float_errors = match float(src, at) {
        Ok((rest, text)) => {
            return Ok((rest, ValueKind::Float(Float { bits: None, text })));
        },
        Err(e) => e,
    };
    let integer_errors = match integer(src, at) {
        Ok((rest, value)) => {
            return Ok((rest, ValueKind::Integer(value)));
        },
        Err(e) => e,
    };
    Err(note(pick_deeper(float_errors, integer_errors), at, ErrorKind::Rule(Rule::Alt)))
}

fn token_kind(src: &[u8], at: usize) -> (r: ParseResult<ValueKind>)
    requires
        at <= src.len(),
    ensures
        match r {
            Ok((rest, kind)) => spec_token_kind(src@, at as int) == (Parsed::Done {
                rest: rest as int,
                value: kind@,
            }) && at < rest <= src.len(),
            Err(e) => spec_token_kind(src@, at as int) == (Parsed::<KindView>::Failed {
                errors: e@,
            }) && e@.len() > 0,
        },
    decreases src.len() - at, 1int,
{
    if at < src.len() && src[at] == 34 {
        match string(src, at) {
            Ok((rest, text)) => Ok((rest, ValueKind::String(text))),
            Err(e) => Err(note(e, at, ErrorKind::Context(Context::String))),
        }
    } else if at < src.len() && src[at] == 40 {
        match list(src, at) {
            Ok((rest, items)) => Ok((rest, ValueKind::List(items))),
            Err(e) => Err(note(e, at, ErrorKind::Context(Context::List))),
        }
    } else if at < src.len() && 48 <= src[at] && src[at] <= 57 {
        match number(src, at) {
            Ok(done) => Ok(done),
            Err(e) => Err(note(e, at, ErrorKind::Context(Context::Number))),
        }
    } else {
        match ident(src, at) {
            Ok((rest, name)) => Ok((rest, ValueKind::Symbol(name))),
            Err(e) => Err(note(e, at, ErrorKind::Context(Context::Ident))),
        }
    }
}

/// Reads a token at `at`.
pub fn token(src: &[u8], at: usize) -> (r: ParseResult<Value>)
    requires
        at <= src.len(),
    ensures
        match r {
            Ok((rest, value)) => spec_token(src@, at as int) == (Parsed::Done {
                rest: rest as int,
                value: value@,
            }) && at < rest <= src.len(),
            Err(e) => spec_token(src@, at as int) == (Parsed::<ValueView>::Failed { errors: e@ })
                && e@.len() > 0,
        },
    decreases src.len() - at, 2int,
{
    let raw = at < src.len() && src[at] == 39;
    let sequential = at < src.len() && src[at] == 33;
    let next = if raw || sequential {
        at + 1
    } else {
        at
    };
    match token_kind(src, next) {
        Ok((rest, kind)) => Ok((rest, Value { raw, sequential, kind })),
        Err(e) => Err(e),
    }
}

/// Reads a list at `at`, where its `(` stands.
pub fn list(src: &[u8], at: usize) -> (r: ParseResult<List<Value>>)
    requires
        at <= src.len(),
    ensures
        match r {
            Ok((rest, items)) => spec_list(src@, at as int) == (Parsed::Done {
                rest: rest as int,
                value: list_view(items),
            }) && at < rest <= src.len(),
            Err(e) => spec_list(src@, at as int) == (Parsed::<Seq<ValueView>>::Failed {
                errors: e@,
            }) && e@.len() > 0,
        },
    decreases src.len() - at, 0int,
{
    if !(at < src.len() && src[at] == 40) {
        return Err(error_at(at, ErrorKind::Char(40)));
    }
    let mut items: Vec<Value> = Vec::new();
    let mut first = true;
    let mut pos = at + 1;
    assert(values_view(items@) =~= Seq::empty());
    loop
        invariant
            at < pos <= src.len(),
            spec_list(src@, at as int) == spec_list_items(
                src@,
                pos as int,
                first,
                values_view(items@),
            ),
        decreases src.len() - pos,
    {
        let start = run_end(src, pos, Class::Space);
        if start < src.len() && src[start] == 41 {
            let result = List::from_double_ended_iter(items);
            proof {
                lemma_list_view(result);
            }
            return Ok((start + 1, result));
        }
        if !first && start == pos {
            return Err(error_at(pos, ErrorKind::Rule(Rule::MultiSpace)));
        }
        match token(src, start) {
            Err(e) => {
                return Err(e);
            },
            Ok((rest, value)) => {
                let ghost before = values_view(items@);
                items.push(value);
                assert(values_view(items@) =~= before.push(value@));
                pos = rest;
                first = false;
            },
        }
    }
}

/// Reads a whole source as one sequential list of forms.
pub fn program(src: &[u8]) -> (r: ParseResult<Value>)
    ensures
        match r {
            Ok((rest, value)) => spec_program(src@) == (Parsed::Done {
                rest: rest as int,
                value: value@,
            }) && rest == src.len(),
            Err(e) => spec_program(src@) == (Parsed::<ValueView>::Failed { errors: e@ })
                && e@.len() > 0,
        },
{
    let mut forms: Vec<Value> = Vec::new();
    let mut first = true;
    let mut pos = run_end(src, 0, Class::Space);
    assert(values_view(forms@) =~= Seq::empty());
    while pos < src.len()
        invariant
            pos <= src.len(),
            spec_program(src@) == spec_program_items(
                src@,
                pos as int,
                first,
                values_view(forms@),
            ),
        decreases src.len() - pos,
    {
        let start = run_end(src, pos, Class::Space);
        if !first && start == pos {
            return Err(error_at(pos, ErrorKind::Rule(Rule::MultiSpace)));
        }
        if start >= src.len() {
            pos = start;
            proof {
                assert(spec_program_items(src@, src.len() as int, false, values_view(forms@))
                    == spec_program(src@));
            }
            first = false;
        } else {
            match token(src, start) {
                Err(e) => {
                    return Err(e);
                },
                Ok((rest, value)) => {
                    let ghost before = values_view(forms@);
                    forms.push(value);
                    assert(values_view(forms@) =~= before.push(value@));
                    pos = rest;
                    first = false;
                },
            }
        }
    }
    let items = List::from_double_ended_iter(forms);
    proof {
        lemma_list_view(items);
    }
    Ok((src.len(), Value { raw: false, sequential: true, kind: ValueKind::List(items) }))
}

} // verus!
