use spli::list::List;
use spli::parser::error_handling::{Annotation, Diagnosis, Label};
use spli::parser::{
    determine_error, float, ident, integer, list, program, string, token, Context, ErrorEntry,
    ErrorKind, ParseError, Rule,
};
use spli::value::Float;
use spli::{Value, ValueKind};

fn simple_value(kind: ValueKind) -> Value {
    Value { raw: false, sequential: false, kind }
}

fn raw_value(kind: ValueKind) -> Value {
    Value { raw: true, sequential: false, kind }
}

fn sequential_value(kind: ValueKind) -> Value {
    Value { raw: false, sequential: true, kind }
}

fn integer_kind(n: i64) -> ValueKind {
    ValueKind::Integer(n)
}

fn float_kind(text: &str) -> ValueKind {
    ValueKind::Float(Float { bits: None, text: text.as_bytes().to_vec() })
}

fn string_kind(text: &str) -> ValueKind {
    ValueKind::String(text.as_bytes().to_vec())
}

fn symbol_kind(name: &str) -> ValueKind {
    ValueKind::Symbol(name.as_bytes().to_vec())
}

fn list_kind(items: Vec<Value>) -> ValueKind {
    ValueKind::List(List::from_double_ended_iter(items))
}

fn as_float(text: &[u8]) -> f64 {
    std::str::from_utf8(text).unwrap().parse().unwrap()
}

fn rest_of<'a, T>(src: &'a str, parsed: &(usize, T)) -> &'a str {
    &src[parsed.0..]
}

fn entry(offset: usize, kind: ErrorKind) -> ErrorEntry {
    ErrorEntry { offset, kind }
}

fn assert_ident(src: &str, rest: &str, name: &str) {
    let parsed = ident(src.as_bytes(), 0).unwrap();
    assert_eq!(rest_of(src, &parsed), rest);
    assert_eq!(parsed.1, name.as_bytes());
}

fn assert_integer(src: &str, rest: &str, value: i64) {
    let parsed = integer(src.as_bytes(), 0).unwrap();
    assert_eq!(rest_of(src, &parsed), rest);
    assert_eq!(parsed.1, value);
}

fn assert_float(src: &str, rest: &str, value: f64) {
    let parsed = float(src.as_bytes(), 0).unwrap();
    assert_eq!(rest_of(src, &parsed), rest);
    assert_eq!(as_float(&parsed.1), value);
}

fn assert_string(src: &str, rest: &str, value: &str) {
    let parsed = string(src.as_bytes(), 0).unwrap();
    assert_eq!(rest_of(src, &parsed), rest);
    assert_eq!(parsed.1, value.as_bytes());
}

fn assert_token(src: &str, rest: &str, value: Value) {
    let parsed = token(src.as_bytes(), 0).unwrap();
    assert_eq!(rest_of(src, &parsed), rest);
    assert_eq!(parsed.1, value);
}

fn assert_list(src: &str, rest: &str, items: Vec<Value>) {
    let parsed = list(src.as_bytes(), 0).unwrap();
    assert_eq!(rest_of(src, &parsed), rest);
    assert_eq!(parsed.1, List::from_double_ended_iter(items));
}

#[test]
fn test_ident() {
    assert_ident("name", "", "name");
    assert_ident("name and more", " and more", "name");
    assert_ident("+-*/.:^%&$#@", "", "+-*/.:^%&$#@");
    assert_ident("name'", "'", "name");
    assert!(ident("'invalid character".as_bytes(), 0).is_err());
}

#[test]
fn test_integer() {
    assert_integer("0", "", 0);
    assert_integer("123", "", 123);
    assert_integer("0x123", "", 0x123);
    assert_integer("0o123", "", 0o123);
    assert_integer("0b1010", "", 10);
    assert_integer("0b123", "23", 1);
    assert_integer("0123", "123", 0);
    assert_integer("0q123", "q123", 0);
}

#[test]
fn test_float() {
    assert_float("123.0", "", 123.0);
    assert_float("5.6", "", 5.6);
    assert_float("05.6", "", 5.6);
    assert_float("5.6.", ".", 5.6);
    assert_float("5.", "", 5.0);
    assert!(float(".".as_bytes(), 0).is_err());
    assert!(float(".123".as_bytes(), 0).is_err());
    assert!(float("0x5.6".as_bytes(), 0).is_err());
    assert!(float("0o5.6".as_bytes(), 0).is_err());
    assert!(float("0b0.1".as_bytes(), 0).is_err());
}

#[test]
fn test_string() {
    assert_string("\"Hello, world!\"", "", "Hello, world!");
    assert_string(
        "\"Hello, world!\", \"Also, other data\"",
        ", \"Also, other data\"",
        "Hello, world!",
    );
    assert_string(
        "\"String with \\n multiple \\t escapes \\\" \\\\ :)\"",
        "",
        "String with \n multiple \t escapes \" \\ :)",
    );
    assert!(string("Unquoted string".as_bytes(), 0).is_err());
    assert!(string("\"Unterminated string".as_bytes(), 0).is_err());
    assert!(string("\"Badly terminated string\\\"".as_bytes(), 0).is_err());
    assert!(string("\"String with \\bad escape\"".as_bytes(), 0).is_err());
}

#[test]
fn test_token() {
    assert_token("1", "", simple_value(integer_kind(1)));
    assert_token("1.2", "", simple_value(float_kind("1.2")));
    assert_token("\"3\"", "", simple_value(string_kind("3")));
    assert_token("four", "", simple_value(symbol_kind("four")));
    assert_token("'four", "", raw_value(symbol_kind("four")));
    assert_token(
        "'(1 2 3)",
        "",
        raw_value(list_kind(vec![
            simple_value(integer_kind(1)),
            simple_value(integer_kind(2)),
            simple_value(integer_kind(3)),
        ])),
    );
    assert_token(
        "!(1 2 3)",
        "",
        sequential_value(list_kind(vec![
            simple_value(integer_kind(1)),
            simple_value(integer_kind(2)),
            simple_value(integer_kind(3)),
        ])),
    );
}

#[test]
fn test_simple_list() {
    assert_list(
        "(1 2 3)",
        "",
        vec![
            simple_value(integer_kind(1)),
            simple_value(integer_kind(2)),
            simple_value(integer_kind(3)),
        ],
    );
}

#[test]
fn test_heterogenous_list() {
    assert_list(
        "(1 1.2 \"3\" four)",
        "",
        vec![
            simple_value(integer_kind(1)),
            simple_value(float_kind("1.2")),
            simple_value(string_kind("3")),
            simple_value(symbol_kind("four")),
        ],
    );
}

#[test]
fn test_after_list() {
    assert_list(
        "(1 2 3)4",
        "4",
        vec![
            simple_value(integer_kind(1)),
            simple_value(integer_kind(2)),
            simple_value(integer_kind(3)),
        ],
    );
}

#[test]
fn test_nested_lists() {
    assert_list(
        "(+ !(/ 2 3) (eval '(* 2 4)) 6)",
        "",
        vec![
            simple_value(symbol_kind("+")),
            sequential_value(list_kind(vec![
                simple_value(symbol_kind("/")),
                simple_value(integer_kind(2)),
                simple_value(integer_kind(3)),
            ])),
            simple_value(list_kind(vec![
                simple_value(symbol_kind("eval")),
                raw_value(list_kind(vec![
                    simple_value(symbol_kind("*")),
                    simple_value(integer_kind(2)),
                    simple_value(integer_kind(4)),
                ])),
            ])),
            simple_value(integer_kind(6)),
        ],
    );
}

#[test]
fn test_space_before_closing_paren() {
    assert_list("(a )", "", vec![simple_value(symbol_kind("a"))]);
}

#[test]
fn test_space_before_first_token() {
    assert_list("( a)", "", vec![simple_value(symbol_kind("a"))]);
}

#[test]
fn token_starts_at_the_given_offset() {
    let src = "skip (1 2)";
    let parsed = token(src.as_bytes(), 5).unwrap();
    assert_eq!(parsed.0, src.len());
    assert_eq!(
        parsed.1,
        simple_value(list_kind(vec![
            simple_value(integer_kind(1)),
            simple_value(integer_kind(2)),
        ]))
    );
}

#[test]
fn zero_parses() {
    assert_token("0", "", simple_value(integer_kind(0)));
}

#[test]
fn leading_zero_is_no_octal() {
    assert_token("0123", "123", simple_value(integer_kind(0)));
}

#[test]
fn binary_stops_at_the_first_other_digit() {
    assert_token("0b102", "2", simple_value(integer_kind(2)));
}

#[test]
fn leading_dot_is_no_float() {
    assert!(float(".5".as_bytes(), 0).is_err());
    assert_token(".5", "", simple_value(symbol_kind(".5")));
}

#[test]
fn hex_digits_of_either_case() {
    assert_integer("0xaF", "", 0xaf);
    assert_integer("0x7fffffffffffffff", "", i64::MAX);
}

#[test]
fn integer_that_does_not_fit_is_an_error() {
    let err = integer("9223372036854775808".as_bytes(), 0).unwrap_err();
    assert_eq!(
        err.errors,
        vec![entry(0, ErrorKind::Rule(Rule::Tag)), entry(0, ErrorKind::Rule(Rule::Alt))]
    );
    assert_integer("9223372036854775807", "", i64::MAX);
    let err = token("9223372036854775808".as_bytes(), 0).unwrap_err();
    assert_eq!(
        err.errors,
        vec![
            entry(19, ErrorKind::Char(b'.')),
            entry(0, ErrorKind::Rule(Rule::Alt)),
            entry(0, ErrorKind::Context(Context::Number)),
        ]
    );
}

#[test]
fn hex_that_does_not_fit_reads_as_zero() {
    assert_integer("0xffffffffffffffff", "xffffffffffffffff", 0);
}

#[test]
fn empty_string_is_an_error() {
    let err = string("\"\"".as_bytes(), 0).unwrap_err();
    assert_eq!(err.errors, vec![entry(1, ErrorKind::Rule(Rule::EscapedTransform))]);
}

#[test]
fn unknown_escape_is_traced() {
    let err = token("\"a\\qb\"".as_bytes(), 0).unwrap_err();
    assert_eq!(
        err.errors,
        vec![
            entry(3, ErrorKind::Char(b'n')),
            entry(3, ErrorKind::Rule(Rule::Alt)),
            entry(3, ErrorKind::Context(Context::Escape)),
            entry(0, ErrorKind::Context(Context::String)),
        ]
    );
    assert_eq!(
        determine_error("\"a\\qb\"".as_bytes(), &err),
        Annotation { start: 3, end: 4, diagnosis: Diagnosis::UnknownEscape, label: Label::Nothing }
    );
}

#[test]
fn unclosed_string_is_marked_at_its_quote() {
    let src = "(a \"bc";
    let err = token(src.as_bytes(), 0).unwrap_err();
    assert_eq!(
        err.errors,
        vec![
            entry(6, ErrorKind::Char(b'"')),
            entry(3, ErrorKind::Context(Context::String)),
            entry(0, ErrorKind::Context(Context::List)),
        ]
    );
    assert_eq!(
        determine_error(src.as_bytes(), &err),
        Annotation {
            start: 3,
            end: 4,
            diagnosis: Diagnosis::UnclosedString,
            label: Label::StartedHere
        }
    );
}

#[test]
fn unclosed_list_is_marked_at_its_paren() {
    let src = "(a (b c";
    let err = token(src.as_bytes(), 0).unwrap_err();
    assert_eq!(
        err.errors,
        vec![
            entry(7, ErrorKind::Rule(Rule::MultiSpace)),
            entry(3, ErrorKind::Context(Context::List)),
            entry(0, ErrorKind::Context(Context::List)),
        ]
    );
    assert_eq!(
        determine_error(src.as_bytes(), &err),
        Annotation {
            start: 3,
            end: 4,
            diagnosis: Diagnosis::UnclosedList,
            label: Label::StartedHere
        }
    );
}

#[test]
fn unclosed_list_after_whitespace() {
    let src = "(a ";
    let err = token(src.as_bytes(), 0).unwrap_err();
    assert_eq!(
        err.errors,
        vec![
            entry(3, ErrorKind::Rule(Rule::TakeWhile1)),
            entry(3, ErrorKind::Context(Context::Ident)),
            entry(0, ErrorKind::Context(Context::List)),
        ]
    );
    assert_eq!(
        determine_error(src.as_bytes(), &err),
        Annotation {
            start: 0,
            end: 1,
            diagnosis: Diagnosis::UnclosedList,
            label: Label::StartedHere
        }
    );
}

#[test]
fn missing_whitespace_in_a_list() {
    let src = "(\"a\"\"b\")";
    let err = token(src.as_bytes(), 0).unwrap_err();
    assert_eq!(
        err.errors,
        vec![
            entry(4, ErrorKind::Rule(Rule::MultiSpace)),
            entry(0, ErrorKind::Context(Context::List)),
        ]
    );
    assert_eq!(
        determine_error(src.as_bytes(), &err),
        Annotation {
            start: 4,
            end: 5,
            diagnosis: Diagnosis::WhitespaceMissing,
            label: Label::Here
        }
    );
}

#[test]
fn missing_whitespace_in_a_program() {
    let src = "(a)(b)";
    let err = program(src.as_bytes()).unwrap_err();
    assert_eq!(err.errors, vec![entry(3, ErrorKind::Rule(Rule::MultiSpace))]);
    assert_eq!(
        determine_error(src.as_bytes(), &err),
        Annotation {
            start: 3,
            end: 4,
            diagnosis: Diagnosis::WhitespaceMissing,
            label: Label::Here
        }
    );
}

#[test]
fn invalid_identifier_is_marked_as_far_as_it_goes() {
    let src = "(a ]bc d)";
    let err = token(src.as_bytes(), 0).unwrap_err();
    assert_eq!(
        determine_error(src.as_bytes(), &err),
        Annotation {
            start: 3,
            end: 6,
            diagnosis: Diagnosis::InvalidIdentifier,
            label: Label::Nothing
        }
    );
}

#[test]
fn invalid_number_is_marked_as_far_as_it_goes() {
    let src = "(1 99999999999999999999 2)";
    let err = token(src.as_bytes(), 0).unwrap_err();
    assert_eq!(
        determine_error(src.as_bytes(), &err),
        Annotation {
            start: 3,
            end: 23,
            diagnosis: Diagnosis::InvalidNumber,
            label: Label::Nothing
        }
    );
}

#[test]
fn word_is_counted_in_characters() {
    let src = "]\u{e9}\u{e9} x";
    let err = token(src.as_bytes(), 0).unwrap_err();
    let annotation = determine_error(src.as_bytes(), &err);
    assert_eq!(annotation.start, 0);
    assert_eq!(annotation.end, 3);
}

#[test]
fn unknown_error_names_the_first_line() {
    let src = "\"\"";
    let err = token(src.as_bytes(), 0).unwrap_err();
    assert_eq!(
        determine_error(src.as_bytes(), &err),
        Annotation {
            start: 1,
            end: 2,
            diagnosis: Diagnosis::Unknown(ErrorKind::Rule(Rule::EscapedTransform)),
            label: Label::SomewhereHere
        }
    );
}

#[test]
fn unclosed_list_without_a_list() {
    let src = "'";
    let err = token(src.as_bytes(), 0).unwrap_err();
    assert_eq!(
        determine_error(src.as_bytes(), &err),
        Annotation { start: 0, end: 0, diagnosis: Diagnosis::UnclosedList, label: Label::Nothing }
    );
}

#[test]
fn program_is_a_sequential_list_of_forms() {
    let src = "  (a b)\n\t42 \"s\"  ";
    let parsed = program(src.as_bytes()).unwrap();
    assert_eq!(parsed.0, src.len());
    assert_eq!(
        parsed.1,
        sequential_value(list_kind(vec![
            simple_value(list_kind(vec![
                simple_value(symbol_kind("a")),
                simple_value(symbol_kind("b")),
            ])),
            simple_value(integer_kind(42)),
            simple_value(string_kind("s")),
        ]))
    );
}

#[test]
fn empty_program() {
    assert_eq!(program(b"").unwrap().1, sequential_value(list_kind(vec![])));
    assert_eq!(program(b" \n ").unwrap().1, sequential_value(list_kind(vec![])));
}

#[test]
fn empty_list_and_whitespace_kinds() {
    assert_list("()", "", vec![]);
    assert_list("( \t\r\n)", "", vec![]);
    assert!(list("(a\u{b}b)".as_bytes(), 0).is_err());
}

#[test]
fn trace_of_a_parse_error_can_be_made_by_hand() {
    let err = ParseError { errors: vec![entry(2, ErrorKind::Char(b'('))] };
    assert_eq!(
        determine_error(b"ab", &err),
        Annotation {
            start: 2,
            end: 3,
            diagnosis: Diagnosis::Unknown(ErrorKind::Char(b'(')),
            label: Label::SomewhereHere
        }
    );
}
