//! The reader is held against the same grammar written with parser
//! combinators: on every input both read the same value and stop at the
//! same place, or both fail with the same trace and the same annotation.

use nom::branch::alt;
use nom::bytes::complete::{escaped_transform, is_not, tag, take, take_while, take_while1};
use nom::character::complete::{
    char as one_char, digit0, digit1, hex_digit1, multispace0, multispace1, oct_digit1, one_of,
};
use nom::combinator::{map_res, peek, recognize, value};
use nom::error::{context, make_error, ErrorKind as NomKind};
use nom::multi::many1;
use nom::sequence::{delimited, preceded, tuple};
use nom_greedyerror::{GreedyError, GreedyErrorKind};
use show_my_errors::Annotation;
use spli::list::List;
use spli::parser::{determine_error, program, token, Context, ErrorEntry, ErrorKind, ParseError, Rule};
use spli::value::Float;
use spli::{Value, ValueKind};
use std::str::FromStr;

type Span<'a> = nom_locate::LocatedSpan<&'a str>;
type Trace<'a> = GreedyError<Span<'a>>;
type IResult<'a, O> = nom::IResult<Span<'a>, O, Trace<'a>>;

const VALID_IDENT_PUNCT: &str = "+-*/.:^%&$#@";

fn ident_start(c: char) -> bool {
    c.is_ascii_alphabetic() || VALID_IDENT_PUNCT.contains(c)
}

fn ident_char(c: char) -> bool {
    ident_start(c) || c.is_ascii_digit()
}

fn ident(i: Span) -> IResult<Span> {
    recognize(tuple((take_while1(ident_start), take_while(ident_char))))(i)
}

fn decimal_integer(i: Span) -> IResult<i64> {
    map_res(
        alt((recognize(tuple((one_of("123456789"), digit0))), recognize(one_char('0')))),
        |n: Span| i64::from_str(n.fragment()),
    )(i)
}

fn hex_integer(i: Span) -> IResult<i64> {
    map_res(preceded(tag("0x"), hex_digit1), |n: Span| i64::from_str_radix(n.fragment(), 16))(i)
}

fn oct_integer(i: Span) -> IResult<i64> {
    map_res(preceded(tag("0o"), oct_digit1), |n: Span| i64::from_str_radix(n.fragment(), 8))(i)
}

fn bin_integer(i: Span) -> IResult<i64> {
    map_res(preceded(tag("0b"), recognize(many1(one_of("01")))), |n: Span| {
        i64::from_str_radix(n.fragment(), 2)
    })(i)
}

fn integer(i: Span) -> IResult<i64> {
    alt((hex_integer, bin_integer, oct_integer, decimal_integer))(i)
}

fn float(i: Span) -> IResult<Float> {
    map_res(recognize(tuple((digit1, one_char('.'), digit0))), |n: Span| {
        f64::from_str(n.fragment())
            .map(|_| Float { bits: None, text: n.fragment().as_bytes().to_vec() })
    })(i)
}

fn escape<'a>(val: &'static str, tag: char, i: Span<'a>) -> IResult<'a, &'a str> {
    value(val, one_char(tag))(i)
}

fn escape_nl(i: Span) -> IResult<&str> {
    escape("\n", 'n', i)
}

fn escape_tab(i: Span) -> IResult<&str> {
    escape("\t", 't', i)
}

fn escape_quote(i: Span) -> IResult<&str> {
    escape("\"", '"', i)
}

fn escape_backslash(i: Span) -> IResult<&str> {
    escape("\\", '\\', i)
}

fn invalid_escape(i: Span) -> IResult<&str> {
    Err(nom::Err::Error(make_error(i, NomKind::OneOf)))
}

fn string_inner(i: Span) -> IResult<String> {
    escaped_transform(
        is_not("\\\""),
        '\\',
        context(
            "escape",
            alt((escape_nl, escape_tab, escape_quote, escape_backslash, invalid_escape)),
        ),
    )(i)
}

fn string(i: Span) -> IResult<String> {
    delimited(one_char('"'), string_inner, one_char('"'))(i)
}

fn modifier(i: Span) -> IResult<char> {
    alt((one_char('\''), one_char('!'), value('\0', take(0usize))))(i)
}

fn token_kind<'a>(i: Span<'a>) -> IResult<'a, ValueKind> {
    if peek::<_, _, Trace<'a>, _>(one_char('"'))(i).is_ok() {
        context("string", nom::combinator::map(string, |s| ValueKind::String(s.into_bytes())))(i)
    } else if peek::<_, _, Trace<'a>, _>(one_char('('))(i).is_ok() {
        context("list", nom::combinator::map(list, ValueKind::List))(i)
    } else if peek::<_, _, Trace<'a>, _>(digit1)(i).is_ok() {
        context("number", alt((nom::combinator::map(float, ValueKind::Float), nom::combinator::map(integer, ValueKind::Integer))))(i)
    } else {
        context("ident", nom::combinator::map(ident, |s| ValueKind::Symbol(s.fragment().as_bytes().to_vec())))(i)
    }
}

fn combinator_token<'a>(i: Span<'a>) -> IResult<'a, Value> {
    nom::combinator::map(tuple((modifier, token_kind)), |(modifier, kind)| Value {
        kind,
        raw: modifier == '\'',
        sequential: modifier == '!',
    })(i)
}

fn list<'a>(i: Span<'a>) -> IResult<'a, List<Value>> {
    let mut result = Vec::new();
    let mut first_token = true;
    let (mut i, _) = one_char('(')(i)?;
    loop {
        if let Ok((i, _)) = preceded(multispace0, one_char::<_, Trace>(')'))(i) {
            break Ok((i, List::from_double_ended_iter(result)));
        }
        if !first_token {
            i = multispace1(i)?.0;
        } else {
            i = multispace0(i)?.0;
            first_token = false;
        }
        let (new_i, token) = combinator_token(i)?;
        i = new_i;
        result.push(token);
    }
}

fn combinator_program<'a>(i: Span<'a>) -> IResult<'a, Value> {
    let (mut i, _) = multispace0(i)?;
    let mut result = Vec::new();
    let mut first_token = true;
    while i.fragment().len() != 0 {
        if !first_token {
            i = multispace1(i)?.0;
        } else {
            i = multispace0(i)?.0;
            first_token = false;
        }
        if i.fragment().len() == 0 {
            break;
        }
        let i_value = combinator_token(i)?;
        i = i_value.0;
        result.push(i_value.1);
    }
    Ok((
        Span::new(""),
        Value {
            raw: false,
            sequential: true,
            kind: ValueKind::List(List::from_double_ended_iter(result)),
        },
    ))
}

fn first_context<'a, 'b>(err: &'b Trace<'a>) -> Option<(&'static str, &'b Span<'a>)> {
    err.errors
        .iter()
        .filter_map(|(span, kind)| match kind {
            GreedyErrorKind::Context(context) => Some((*context, span)),
            _ => None,
        })
        .next()
}

fn unknown_error(err: &Trace) -> Annotation {
    let (span, kind) = err.errors.iter().next().unwrap();
    let offset = span.location_offset();
    let message = format!("unknown parsing error: {:?}", kind).replacen("Nom(", "Rule(", 1);
    Annotation::error(offset..offset + 1, message, "somewhere here").unwrap()
}

fn whitespace_error(offset: usize) -> Annotation {
    Annotation::error(offset..offset + 1, "expected whitespace after token", "here").unwrap()
}

fn unclosed_list_error(span: &Span, err: &Trace) -> Annotation {
    let first_list = err
        .errors
        .iter()
        .filter_map(|(span, kind)| match kind {
            GreedyErrorKind::Context("list") => Some(span),
            _ => None,
        })
        .next();
    if let Some(list_span) = first_list {
        let offset = list_span.location_offset();
        Annotation::error(offset..offset + 1, "unclosed list", "started here").unwrap()
    } else {
        let offset = span.location_offset() - 1;
        Annotation::error(offset..offset, "unclosed list", None).unwrap()
    }
}

fn word_error(span: &Span, message: &str) -> Annotation {
    let word = span.fragment().split_ascii_whitespace().next().unwrap_or("");
    let offset = span.location_offset();
    Annotation::error(offset..offset + word.chars().count(), message, None).unwrap()
}

fn combinator_annotation(source: &str, err: &Trace) -> Annotation {
    match first_context(err) {
        Some(("escape", span)) => {
            let offset = span.location_offset();
            Annotation::error(offset..offset + 1, "unknown escape code", None).unwrap()
        }
        Some(("ident", span)) => {
            if span.fragment().len() == 0 && span.location_offset() == source.len() {
                unclosed_list_error(span, err)
            } else {
                word_error(span, "invalid identifier")
            }
        }
        Some(("number", span)) => word_error(span, "invalid number"),
        Some(("string", span)) => match err.errors.first() {
            Some((_, GreedyErrorKind::Char('"'))) => {
                let offset = span.location_offset();
                Annotation::error(offset..offset + 1, "unclosed string", "started here").unwrap()
            }
            _ => unknown_error(err),
        },
        Some(("list", span)) => match err.errors.first() {
            Some((first_span, GreedyErrorKind::Nom(NomKind::MultiSpace))) => {
                if first_span.location_offset() == source.len() {
                    unclosed_list_error(span, err)
                } else {
                    whitespace_error(first_span.location_offset())
                }
            }
            _ => unknown_error(err),
        },
        None => {
            if let Some((span, GreedyErrorKind::Nom(NomKind::MultiSpace))) = err.errors.first() {
                whitespace_error(span.location_offset())
            } else {
                unknown_error(err)
            }
        }
        _ => unknown_error(err),
    }
}

fn entries(err: &Trace) -> Vec<ErrorEntry> {
    err.errors
        .iter()
        .map(|(span, kind)| ErrorEntry {
            offset: span.location_offset(),
            kind: match kind {
                GreedyErrorKind::Context("string") => ErrorKind::Context(Context::String),
                GreedyErrorKind::Context("list") => ErrorKind::Context(Context::List),
                GreedyErrorKind::Context("number") => ErrorKind::Context(Context::Number),
                GreedyErrorKind::Context("ident") => ErrorKind::Context(Context::Ident),
                GreedyErrorKind::Context("escape") => ErrorKind::Context(Context::Escape),
                GreedyErrorKind::Context(other) => panic!("a form named {}", other),
                GreedyErrorKind::Char(c) => ErrorKind::Char(*c as u8),
                GreedyErrorKind::Nom(NomKind::Alt) => ErrorKind::Rule(Rule::Alt),
                GreedyErrorKind::Nom(NomKind::MapRes) => ErrorKind::Rule(Rule::MapRes),
                GreedyErrorKind::Nom(NomKind::MultiSpace) => ErrorKind::Rule(Rule::MultiSpace),
                GreedyErrorKind::Nom(NomKind::EscapedTransform) => {
                    ErrorKind::Rule(Rule::EscapedTransform)
                }
                GreedyErrorKind::Nom(NomKind::OneOf) => ErrorKind::Rule(Rule::OneOf),
                GreedyErrorKind::Nom(NomKind::Tag) => ErrorKind::Rule(Rule::Tag),
                GreedyErrorKind::Nom(NomKind::Digit) => ErrorKind::Rule(Rule::Digit),
                GreedyErrorKind::Nom(NomKind::HexDigit) => ErrorKind::Rule(Rule::HexDigit),
                GreedyErrorKind::Nom(NomKind::OctDigit) => ErrorKind::Rule(Rule::OctDigit),
                GreedyErrorKind::Nom(NomKind::Many1) => ErrorKind::Rule(Rule::Many1),
                GreedyErrorKind::Nom(NomKind::TakeWhile1) => ErrorKind::Rule(Rule::TakeWhile1),
                GreedyErrorKind::Nom(other) => panic!("a rule named {:?}", other),
            },
        })
        .collect()
}

fn annotation_of(source: &str, err: &ParseError) -> Annotation {
    let mark = determine_error(source.as_bytes(), err);
    let header = String::from_utf8(mark.diagnosis.message()).unwrap();
    let text = mark.label.text().map(|text| String::from_utf8(text).unwrap());
    Annotation::error(mark.start..mark.end, header, text).unwrap()
}

fn failure<'a, O>(result: IResult<'a, O>) -> Trace<'a> {
    match result {
        Err(nom::Err::Error(err)) | Err(nom::Err::Failure(err)) => err,
        _ => panic!("a failure was expected"),
    }
}

fn agree_on_token(source: &str) {
    match token(source.as_bytes(), 0) {
        Ok((rest, value)) => {
            let (span, expected) = combinator_token(Span::new(source))
                .unwrap_or_else(|_| panic!("only the reader accepts {:?}", source));
            assert_eq!(rest, span.location_offset(), "where reading {:?} stops", source);
            assert_eq!(value, expected, "the value of {:?}", source);
        }
        Err(err) => {
            let expected = failure(combinator_token(Span::new(source)));
            assert_eq!(err.errors, entries(&expected), "the trace of {:?}", source);
            if !source.is_empty() {
                assert_eq!(
                    annotation_of(source, &err),
                    combinator_annotation(source, &expected),
                    "the annotation of {:?}",
                    source
                );
            }
        }
    }
}

fn agree_on_program(source: &str) {
    match program(source.as_bytes()) {
        Ok((rest, value)) => {
            let (_, expected) = combinator_program(Span::new(source))
                .unwrap_or_else(|_| panic!("only the reader accepts {:?}", source));
            assert_eq!(rest, source.len());
            assert_eq!(value, expected, "the value of {:?}", source);
        }
        Err(err) => {
            let expected = failure(combinator_program(Span::new(source)));
            assert_eq!(err.errors, entries(&expected), "the trace of {:?}", source);
            assert_eq!(
                annotation_of(source, &err),
                combinator_annotation(source, &expected),
                "the annotation of {:?}",
                source
            );
        }
    }
}

/// All texts of up to `length` pieces.
fn texts(pieces: &[&str], length: usize) -> Vec<String> {
    let mut all = vec![String::new()];
    let mut last = vec![String::new()];
    for _ in 0..length {
        let mut next = Vec::new();
        for text in &last {
            for piece in pieces {
                next.push(format!("{}{}", text, piece));
            }
        }
        all.extend(next.iter().cloned());
        last = next;
    }
    all
}

#[test]
fn tokens_of_short_texts() {
    let pieces = ["(", ")", " ", "a", "0", "1", ".", "\"", "\\", "n", "'", "!", "x", "\t"];
    for source in texts(&pieces, 4) {
        agree_on_token(&source);
    }
}

#[test]
fn tokens_of_numbers() {
    let pieces = ["0", "1", "7", "9", "a", "f", "F", "x", "b", "o", ".", " ", "g"];
    for source in texts(&pieces, 4) {
        agree_on_token(&source);
    }
}

#[test]
fn tokens_of_lists() {
    let pieces = ["(", ")", " ", "\n", "a", "\"b\"", "12", "1.5", "'", "!", "\"", "]"];
    for source in texts(&pieces, 5) {
        agree_on_token(&source);
    }
}

#[test]
fn tokens_of_strings() {
    let pieces = ["\"", "\\", "n", "t", "q", " ", "\u{e9}", "(", "a"];
    for source in texts(&pieces, 5) {
        agree_on_token(&format!("\"{}", source));
    }
}

#[test]
fn programs_of_short_texts() {
    let pieces = ["(", ")", " ", "\n", "a", "\"b\"", "12", "1.5", "'", "!", "\"", "\\"];
    for source in texts(&pieces, 5) {
        agree_on_program(&source);
    }
}

#[test]
fn tokens_of_chosen_texts() {
    for source in [
        "9223372036854775807",
        "9223372036854775808",
        "99999999999999999999999 1",
        "(1 99999999999999999999999 2)",
        "0x7fffffffffffffff",
        "0x8000000000000000",
        "0xffffffffffffffffffffff",
        "0b111111111111111111111111111111111111111111111111111111111111111",
        "0b1111111111111111111111111111111111111111111111111111111111111111",
        "0o777777777777777777777",
        "0o1777777777777777777777",
        "0o7777777777777777777777",
        "12345678901234567890.5",
        "(+ !(/ 2 3) (eval '(* 2 4)) 6)",
        "(a (b (c (d \"e\\n\" 1.) 0x10) 0b11) 0o17)",
        "(a (b (c (d \"e\\q\" 1.) 0x10) 0b11) 0o17)",
        "(a (b (c (d \"e",
        "(a (b (c (d ",
        "(a (b (c (d",
        "(a (b]c d) e)",
        "  (a b)",
        "(\u{e9}\u{e9}\u{e9} a)",
        "(a \u{e9}\u{e9}\u{e9} b)",
        "(a\u{a0}b)",
        "\"\u{e9}\\t\u{4e2d}\"",
        "(a \"b\"\"c\")",
        "(a \"b\"c)",
        "(a 1b)",
        "(a 1.5.5)",
        "(a 1.b)",
        "name'",
        "'invalid character",
        "''a",
        "'!a",
        "!'a",
        "'",
        "!",
        "(')",
        "( ! )",
    ] {
        agree_on_token(source);
        agree_on_program(source);
    }
}
