//! From the trace of a failed parse to one annotation of the source: the
//! range to mark, what went wrong there, and a short label for the mark.
//!
//! The innermost named form of the trace decides what is reported.

use super::{run_end, scan, Class, Context, ErrorEntry, ErrorKind, ParseError, Rule};
use crate::text::{ascii, literal};
use vstd::prelude::*;

verus! {

/// What went wrong.
#[derive(Debug, Clone, Copy, PartialEq, Eq, Structural)]
pub enum Diagnosis {
    UnknownEscape,
    WhitespaceMissing,
    UnclosedList,
    InvalidIdentifier,
    InvalidNumber,
    UnclosedString,
    /// None of the above; the first line of the trace says what was
    /// expected.
    Unknown(ErrorKind),
}

/// The words that go with the mark.
#[derive(Debug, Clone, Copy, PartialEq, Eq, Structural)]
pub enum Label {
    Nothing,
    StartedHere,
    Here,
    SomewhereHere,
}

/// A range of the source, from `start` up to `end`, and what to say of it.
#[derive(Debug, Clone, Copy, PartialEq, Eq, Structural)]
pub struct Annotation {
    pub start: usize,
    pub end: usize,
    pub diagnosis: Diagnosis,
    pub label: Label,
}

/// The offset after `offset`, as far as offsets go.
pub open spec fn after(offset: usize) -> usize {
    if offset < usize::MAX {
        (offset + 1) as usize
    } else {
        offset
    }
}

/// The offset before `offset`, as far as offsets go.
pub open spec fn before(offset: usize) -> usize {
    if offset > 0 {
        (offset - 1) as usize
    } else {
        offset
    }
}

/// The first line of the trace that names a form, from `from` on.
pub open spec fn first_context(errors: Seq<ErrorEntry>, from: int) -> Option<(Context, usize)>
    decreases errors.len() - from,
{
    if from < 0 || from >= errors.len() {
        None
    } else {
        match errors[from].kind {
            ErrorKind::Context(context) => Some((context, errors[from].offset)),
            _ => first_context(errors, from + 1),
        }
    }
}

/// Where the innermost list of the trace began, looking from `from` on.
pub open spec fn first_list(errors: Seq<ErrorEntry>, from: int) -> Option<usize>
    decreases errors.len() - from,
{
    if from < 0 || from >= errors.len() {
        None
    } else if errors[from].kind == ErrorKind::Context(Context::List) {
        Some(errors[from].offset)
    } else {
        first_list(errors, from + 1)
    }
}

/// Whether a byte starts a character of UTF-8 text.
pub open spec fn starts_char(b: u8) -> bool {
    b < 128 || b >= 192
}

/// The number of characters that start between `from` and `to`.
pub open spec fn count_chars(s: Seq<u8>, from: int, to: int) -> int
    decreases to - from,
{
    if from >= to || from < 0 || to > s.len() {
        0
    } else {
        count_chars(s, from, to - 1) + if starts_char(s[to - 1]) {
            1int
        } else {
            0int
        }
    }
}

/// The length in characters of the first word at or after `offset`: what
/// stands between whitespace.
pub open spec fn word_chars(s: Seq<u8>, offset: int) -> int {
    if 0 <= offset <= s.len() {
        let start = scan(s, offset, Class::Blank);
        count_chars(s, start, scan(s, start, Class::Solid))
    } else {
        0
    }
}

/// An error that is none of the known ones is marked at the first line of
/// the trace.
pub open spec fn spec_unknown_error(errors: Seq<ErrorEntry>) -> Annotation {
    Annotation {
        start: errors[0].offset,
        end: after(errors[0].offset),
        diagnosis: Diagnosis::Unknown(errors[0].kind),
        label: Label::SomewhereHere,
    }
}

/// Missing whitespace is marked where it was expected.
pub open spec fn spec_whitespace_error(offset: usize) -> Annotation {
    Annotation {
        start: offset,
        end: after(offset),
        diagnosis: Diagnosis::WhitespaceMissing,
        label: Label::Here,
    }
}

/// An unknown escape is marked at the byte after the backslash.
pub open spec fn spec_escape_context_error(offset: usize) -> Annotation {
    Annotation {
        start: offset,
        end: after(offset),
        diagnosis: Diagnosis::UnknownEscape,
        label: Label::Nothing,
    }
}

/// An unclosed list is marked where the innermost list began; where the
/// trace names no list, an empty range just before `offset` is marked.
pub open spec fn spec_unclosed_list_error(offset: usize, errors: Seq<ErrorEntry>) -> Annotation {
    match first_list(errors, 0) {
        Some(list_offset) => Annotation {
            start: list_offset,
            end: after(list_offset),
            diagnosis: Diagnosis::UnclosedList,
            label: Label::StartedHere,
        },
        None => Annotation {
            start: before(offset),
            end: before(offset),
            diagnosis: Diagnosis::UnclosedList,
            label: Label::Nothing,
        },
    }
}

/// A word that is no identifier, or no number, is marked as far as it
/// goes.
pub open spec fn spec_word_error(source: Seq<u8>, offset: usize, diagnosis: Diagnosis)
    -> Annotation {
    Annotation {
        start: offset,
        end: (offset + word_chars(source, offset as int)) as usize,
        diagnosis,
        label: Label::Nothing,
    }
}

/// A string that is not closed is marked at its first quote.
pub open spec fn spec_string_error(offset: usize, errors: Seq<ErrorEntry>) -> Annotation {
    if errors[0].kind == ErrorKind::Char(34) {
        Annotation {
            start: offset,
            end: after(offset),
            diagnosis: Diagnosis::UnclosedString,
            label: Label::StartedHere,
        }
    } else {
        spec_unknown_error(errors)
    }
}

/// Within a list, whitespace that was expected is either missing, or the
/// source ended and the list is not closed.
pub open spec fn spec_list_error(source: Seq<u8>, offset: usize, errors: Seq<ErrorEntry>)
    -> Annotation {
    if errors[0].kind == ErrorKind::Rule(Rule::MultiSpace) {
        if errors[0].offset == source.len() {
            spec_unclosed_list_error(offset, errors)
        } else {
            spec_whitespace_error(errors[0].offset)
        }
    } else {
        spec_unknown_error(errors)
    }
}

/// The annotation for a trace:
/// - within an escape: an unknown escape, at the byte after the `\`;
/// - within an identifier: at the end of the source an unclosed list, else
///   an invalid identifier;
/// - within a number: an invalid number;
/// - within a string: an unclosed string where the closing quote was
///   expected;
/// - within a list: where whitespace was expected, at the end of the
///   source an unclosed list, else missing whitespace;
/// - within no form: missing whitespace where it was expected;
/// - in all other cases an unknown error at the first line of the trace.
pub open spec fn spec_determine_error(source: Seq<u8>, errors: Seq<ErrorEntry>) -> Annotation {
    match first_context(errors, 0) {
        Some((Context::Escape, offset)) => spec_escape_context_error(offset),
        Some((Context::Ident, offset)) => {
            if offset == source.len() {
                spec_unclosed_list_error(offset, errors)
            } else {
                spec_word_error(source, offset, Diagnosis::InvalidIdentifier)
            }
        },
        Some((Context::Number, offset)) => spec_word_error(
            source,
            offset,
            Diagnosis::InvalidNumber,
        ),
        Some((Context::String, offset)) => spec_string_error(offset, errors),
        Some((Context::List, offset)) => spec_list_error(source, offset, errors),
        None => {
            if errors[0].kind == ErrorKind::Rule(Rule::MultiSpace) {
                spec_whitespace_error(errors[0].offset)
            } else {
                spec_unknown_error(errors)
            }
        },
    }
}

fn step_after(offset: usize) -> (r: usize)
    ensures
        r == after(offset),
{
    if offset < usize::MAX {
        offset + 1
    } else {
        offset
    }
}

fn step_before(offset: usize) -> (r: usize)
    ensures
        r == before(offset),
{
    if offset > 0 {
        offset - 1
    } else {
        offset
    }
}

fn find_context(err: &ParseError) -> (r: Option<(Context, usize)>)
    ensures
        r == first_context(err@, 0),
{
    let mut i: usize = 0;
    while i < err.errors.len()
        invariant
            i <= err.errors.len(),
            first_context(err@, 0) == first_context(err@, i as int),
        decreases err.errors.len() - i,
    {
        match err.errors[i].kind {
            ErrorKind::Context(context) => {
                return Some((context, err.errors[i].offset));
            },
            _ => {},
        }
        i = i + 1;
    }
    None
}

fn find_list(err: &ParseError) -> (r: Option<usize>)
    ensures
        r == first_list(err@, 0),
{
    let mut i: usize = 0;
    while i < err.errors.len()
        invariant
            i <= err.errors.len(),
            first_list(err@, 0) == first_list(err@, i as int),
        decreases err.errors.len() - i,
    {
        match err.errors[i].kind {
            ErrorKind::Context(Context::List) => {
                return Some(err.errors[i].offset);
            },
            _ => {},
        }
        i = i + 1;
    }
    None
}

fn word_length(source: &[u8], offset: usize) -> (r: usize)
    ensures
        r == word_chars(source@, offset as int),
        offset + r <= usize::MAX,
{
    if offset > source.len() {
        return 0;
    }
    let start = run_end(source, offset, Class::Blank);
    let end = run_end(source, start, Class::Solid);
    let mut count: usize = 0;
    let mut i = start;
    while i < end
        invariant
            start <= i <= end <= source.len(),
            count == count_chars(source@, start as int, i as int),
            count <= i - start,
        decreases end - i,
    {
        if source[i] < 128 || source[i] >= 192 {
            count = count + 1;
        }
        i = i + 1;
    }
    count
}

fn unknown_error(err: &ParseError) -> (r: Annotation)
    requires
        err@.len() > 0,
    ensures
        r == spec_unknown_error(err@),
{
    let entry = err.errors[0];
    Annotation {
        start: entry.offset,
        end: step_after(entry.offset),
        diagnosis: Diagnosis::Unknown(entry.kind),
        label: Label::SomewhereHere,
    }
}

fn whitespace_error(offset: usize) -> (r: Annotation)
    ensures
        r == spec_whitespace_error(offset),
{
    Annotation {
        start: offset,
        end: step_after(offset),
        diagnosis: Diagnosis::WhitespaceMissing,
        label: Label::Here,
    }
}

fn escape_context_error(offset: usize) -> (r: Annotation)
    ensures
        r == spec_escape_context_error(offset),
{
    Annotation {
        start: offset,
        end: step_after(offset),
        diagnosis: Diagnosis::UnknownEscape,
        label: Label::Nothing,
    }
}

fn unclosed_list_error(offset: usize, err: &ParseError) -> (r: Annotation)
    ensures
        r == spec_unclosed_list_error(offset, err@),
{
    match find_list(err) {
        Some(list_offset) => Annotation {
            start: list_offset,
            end: step_after(list_offset),
            diagnosis: Diagnosis::UnclosedList,
            label: Label::StartedHere,
        },
        None => {
            let at = step_before(offset);
            Annotation { start: at, end: at, diagnosis: Diagnosis::UnclosedList, label: Label::Nothing }
        },
    }
}

fn invalid_ident_error(source: &[u8], offset: usize) -> (r: Annotation)
    ensures
        r == spec_word_error(source@, offset, Diagnosis::InvalidIdentifier),
{
    Annotation {
        start: offset,
        end: offset + word_length(source, offset),
        diagnosis: Diagnosis::InvalidIdentifier,
        label: Label::Nothing,
    }
}

fn number_error(source: &[u8], offset: usize) -> (r: Annotation)
    ensures
        r == spec_word_error(source@, offset, Diagnosis::InvalidNumber),
{
    Annotation {
        start: offset,
        end: offset + word_length(source, offset),
        diagnosis: Diagnosis::InvalidNumber,
        label: Label::Nothing,
    }
}

fn string_error(offset: usize, err: &ParseError) -> (r: Annotation)
    requires
        err@.len() > 0,
    ensures
        r == spec_string_error(offset, err@),
{
    match err.errors[0].kind {
        ErrorKind::Char(34) => Annotation {
            start: offset,
            end: step_after(offset),
            diagnosis: Diagnosis::UnclosedString,
            label: Label::StartedHere,
        },
        _ => unknown_error(err),
    }
}

fn list_error(source: &[u8], offset: usize, err: &ParseError) -> (r: Annotation)
    requires
        err@.len() > 0,
    ensures
        r == spec_list_error(source@, offset, err@),
{
    match err.errors[0].kind {
        ErrorKind::Rule(Rule::MultiSpace) => {
            if err.errors[0].offset == source.len() {
                unclosed_list_error(offset, err)
            } else {
                whitespace_error(err.errors[0].offset)
            }
        },
        _ => unknown_error(err),
    }
}

/// The annotation for the trace of a parse of `source` that failed.
pub fn determine_error(source: &[u8], err: &ParseError) -> (r: Annotation)
    requires
        err@.len() > 0,
    ensures
        r == spec_determine_error(source@, err@),
{
    match find_context(err) {
        Some((Context::Escape, offset)) => escape_context_error(offset),
        Some((Context::Ident, offset)) => {
            if offset == source.len() {
                unclosed_list_error(offset, err)
            } else {
                invalid_ident_error(source, offset)
            }
        },
        Some((Context::Number, offset)) => number_error(source, offset),
        Some((Context::String, offset)) => string_error(offset, err),
        Some((Context::List, offset)) => list_error(source, offset, err),
        None => {
            match err.errors[0].kind {
                ErrorKind::Rule(Rule::MultiSpace) => whitespace_error(err.errors[0].offset),
                _ => unknown_error(err),
            }
        },
    }
}

/// The name of a rule.
pub open spec fn rule_name(rule: Rule) -> Seq<u8> {
    match rule {
        Rule::Alt => ascii("Alt"@),
        Rule::MapRes => ascii("MapRes"@),
        Rule::MultiSpace => ascii("MultiSpace"@),
        Rule::EscapedTransform => ascii("EscapedTransform"@),
        Rule::OneOf => ascii("OneOf"@),
        Rule::Tag => ascii("Tag"@),
        Rule::Digit => ascii("Digit"@),
        Rule::HexDigit => ascii("HexDigit"@),
        Rule::OctDigit => ascii("OctDigit"@),
        Rule::Many1 => ascii("Many1"@),
        Rule::TakeWhile1 => ascii("TakeWhile1"@),
    }
}

/// The name of a form.
pub open spec fn context_name(context: Context) -> Seq<u8> {
    match context {
        Context::String => ascii("string"@),
        Context::List => ascii("list"@),
        Context::Number => ascii("number"@),
        Context::Ident => ascii("ident"@),
        Context::Escape => ascii("escape"@),
    }
}

/// What was expected, in words: `Context("list")`, `Char('(')`,
/// `Rule(MultiSpace)`. In a `Char` a quote or a backslash has a backslash
/// in front.
pub open spec fn kind_text(kind: ErrorKind) -> Seq<u8> {
    match kind {
        ErrorKind::Context(context) => ascii("Context(\""@) + context_name(context) + ascii(
            "\")"@,
        ),
        ErrorKind::Char(b) => ascii("Char('"@) + (if b == 39 || b == 92 {
            seq![92u8, b]
        } else {
            seq![b]
        }) + ascii("')"@),
        ErrorKind::Rule(rule) => ascii("Rule("@) + rule_name(rule) + ascii(")"@),
    }
}

/// What is said of the marked range.
pub open spec fn spec_message(diagnosis: Diagnosis) -> Seq<u8> {
    match diagnosis {
        Diagnosis::UnknownEscape => ascii("unknown escape code"@),
        Diagnosis::WhitespaceMissing => ascii("expected whitespace after token"@),
        Diagnosis::UnclosedList => ascii("unclosed list"@),
        Diagnosis::InvalidIdentifier => ascii("invalid identifier"@),
        Diagnosis::InvalidNumber => ascii("invalid number"@),
        Diagnosis::UnclosedString => ascii("unclosed string"@),
        Diagnosis::Unknown(kind) => ascii("unknown parsing error: "@) + kind_text(kind),
    }
}

/// The words that go with the mark, if there are any.
pub open spec fn spec_label_text(label: Label) -> Option<Seq<u8>> {
    match label {
        Label::Nothing => None,
        Label::StartedHere => Some(ascii("started here"@)),
        Label::Here => Some(ascii("here"@)),
        Label::SomewhereHere => Some(ascii("somewhere here"@)),
    }
}

fn append(out: &mut Vec<u8>, text: &str)
    requires
        vstd::string::is_ascii(text),
    ensures
        final(out)@ == old(out)@ + ascii(text@),
{
    let bytes = literal(text);
    let mut i: usize = 0;
    while i < bytes.len()
        invariant
            i <= bytes@.len(),
            out@ == old(out)@ + bytes@.subrange(0, i as int),
        decreases bytes@.len() - i,
    {
        out.push(bytes[i]);
        i = i + 1;
        assert(out@ =~= old(out)@ + bytes@.subrange(0, i as int));
    }
    assert(bytes@.subrange(0, bytes@.len() as int) =~= bytes@);
}

fn rule_text(rule: Rule) -> (r: &'static str)
    ensures
        vstd::string::is_ascii(r),
        ascii(r@) == rule_name(rule),
{
    proof {
        reveal_strlit("Alt");
        reveal_strlit("MapRes");
        reveal_strlit("MultiSpace");
        reveal_strlit("EscapedTransform");
        reveal_strlit("OneOf");
        reveal_strlit("Tag");
        reveal_strlit("Digit");
        reveal_strlit("HexDigit");
        reveal_strlit("OctDigit");
        reveal_strlit("Many1");
        reveal_strlit("TakeWhile1");
    }
    match rule {
        Rule::Alt => "Alt",
        Rule::MapRes => "MapRes",
        Rule::MultiSpace => "MultiSpace",
        Rule::EscapedTransform => "EscapedTransform",
        Rule::OneOf => "OneOf",
        Rule::Tag => "Tag",
        Rule::Digit => "Digit",
        Rule::HexDigit => "HexDigit",
        Rule::OctDigit => "OctDigit",
        Rule::Many1 => "Many1",
        Rule::TakeWhile1 => "TakeWhile1",
    }
}

fn context_text(context: Context) -> (r: &'static str)
    ensures
        vstd::string::is_ascii(r),
        ascii(r@) == context_name(context),
{
    proof {
        reveal_strlit("string");
        reveal_strlit("list");
        reveal_strlit("number");
        reveal_strlit("ident");
        reveal_strlit("escape");
    }
    match context {
        Context::String => "string",
        Context::List => "list",
        Context::Number => "number",
        Context::Ident => "ident",
        Context::Escape => "escape",
    }
}

fn write_kind(out: &mut Vec<u8>, kind: ErrorKind)
    ensures
        final(out)@ == old(out)@ + kind_text(kind),
{
    proof {
        reveal_strlit("Context(\"");
        reveal_strlit("\")");
        reveal_strlit("Char('");
        reveal_strlit("')");
        reveal_strlit("Rule(");
        reveal_strlit(")");
    }
    match kind {
        ErrorKind::Context(context) => {
            append(out, "Context(\"");
            append(out, context_text(context));
            append(out, "\")");
        },
        ErrorKind::Char(b) => {
            append(out, "Char('");
            let ghost before = out@;
            if b == 39 || b == 92 {
                out.push(92);
            }
            out.push(b);
            assert(out@ =~= before + (if b == 39 || b == 92 {
                seq![92u8, b]
            } else {
                seq![b]
            }));
            append(out, "')");
        },
        ErrorKind::Rule(rule) => {
            append(out, "Rule(");
            append(out, rule_text(rule));
            append(out, ")");
        },
    }
    assert(out@ =~= old(out)@ + kind_text(kind));
}

impl Diagnosis {
    /// What is said of the marked range.
    pub fn message(&self) -> (r: Vec<u8>)
        ensures
            r@ == spec_message(*self),
    {
        proof {
            reveal_strlit("unknown escape code");
            reveal_strlit("expected whitespace after token");
            reveal_strlit("unclosed list");
            reveal_strlit("invalid identifier");
            reveal_strlit("invalid number");
            reveal_strlit("unclosed string");
            reveal_strlit("unknown parsing error: ");
        }
        match self {
            Diagnosis::UnknownEscape => literal("unknown escape code"),
            Diagnosis::WhitespaceMissing => literal("expected whitespace after token"),
            Diagnosis::UnclosedList => literal("unclosed list"),
            Diagnosis::InvalidIdentifier => literal("invalid identifier"),
            Diagnosis::InvalidNumber => literal("invalid number"),
            Diagnosis::UnclosedString => literal("unclosed string"),
            Diagnosis::Unknown(kind) => {
                let mut out = literal("unknown parsing error: ");
                write_kind(&mut out, *kind);
                out
            },
        }
    }
}

impl Label {
    /// The words that go with the mark, if there are any.
    pub fn text(&self) -> (r: Option<Vec<u8>>)
        ensures
            match r {
                Some(text) => spec_label_text(*self) == Some(text@),
                None => spec_label_text(*self) is None,
            },
    {
        proof {
            reveal_strlit("started here");
            reveal_strlit("here");
            reveal_strlit("somewhere here");
        }
        match self {
            Label::Nothing => None,
            Label::StartedHere => Some(literal("started here")),
            Label::Here => Some(literal("here")),
            Label::SomewhereHere => Some(literal("somewhere here")),
        }
    }
}

} // verus!
