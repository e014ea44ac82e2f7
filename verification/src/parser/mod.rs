//! The reader: from source bytes to values.
//!
//! Every parser takes the whole source and a position in it, and gives
//! either the position where it stopped together with what it read, or a
//! trace of errors. Positions are byte offsets into the source.
//!
//! A trace lists what was expected, innermost first: the rule or the
//! character that did not match, then the named forms (`string`, `list`,
//! `number`, `ident`, `escape`) that were being read around it. Where
//! several alternatives fail, the trace of the one that got furthest is
//! kept, and of those that got equally far the first.

pub mod error_handling;
pub mod ident;
pub mod list;
pub mod number;
pub mod round_trip;
pub mod string;

pub use error_handling::determine_error;
pub use ident::ident;
pub use list::{list, program, token};
pub use number::{float, integer};
pub use string::string;

use vstd::prelude::*;

verus! {

/// The forms that a trace names.
#[derive(Debug, Clone, Copy, PartialEq, Eq, Structural)]
pub enum Context {
    String,
    List,
    Number,
    Ident,
    Escape,
}

/// The lexical rules that a trace names.
#[derive(Debug, Clone, Copy, PartialEq, Eq, Structural)]
pub enum Rule {
    Alt,
    MapRes,
    MultiSpace,
    EscapedTransform,
    OneOf,
    Tag,
    Digit,
    HexDigit,
    OctDigit,
    Many1,
    TakeWhile1,
}

/// What was expected where a parser gave up.
#[derive(Debug, Clone, Copy, PartialEq, Eq, Structural)]
pub enum ErrorKind {
    /// A named form was being read.
    Context(Context),
    /// This byte was expected.
    Char(u8),
    /// This rule did not match.
    Rule(Rule),
}

/// One line of a trace: where, and what was expected there.
#[derive(Debug, Clone, Copy, PartialEq, Eq, Structural)]
pub struct ErrorEntry {
    pub offset: usize,
    pub kind: ErrorKind,
}

/// A trace of errors, innermost first.
#[derive(Debug, Clone, PartialEq, Eq)]
pub struct ParseError {
    pub errors: Vec<ErrorEntry>,
}

impl View for ParseError {
    type V = Seq<ErrorEntry>;

    open spec fn view(&self) -> Seq<ErrorEntry> {
        self.errors@
    }
}

/// Where a parser stopped and what it read, or the trace of its failure.
pub type ParseResult<T> = Result<(usize, T), ParseError>;

/// The model of a parser's result.
pub enum Parsed<T> {
    Done { rest: int, value: T },
    Failed { errors: Seq<ErrorEntry> },
}

/// A trace of one line.
pub open spec fn one_error(offset: int, kind: ErrorKind) -> Seq<ErrorEntry> {
    seq![ErrorEntry { offset: offset as usize, kind }]
}

/// Of two traces the one that got further, and the first if neither did.
pub open spec fn deeper(first: Seq<ErrorEntry>, second: Seq<ErrorEntry>) -> Seq<ErrorEntry> {
    let first_at: int = if first.len() > 0 {
        first[0].offset as int
    } else {
        0
    };
    let second_at: int = if second.len() > 0 {
        second[0].offset as int
    } else {
        0
    };
    if second_at > first_at {
        second
    } else {
        first
    }
}

/// The trace with one more line at its end.
pub open spec fn noted(errors: Seq<ErrorEntry>, offset: int, kind: ErrorKind) -> Seq<ErrorEntry> {
    errors.push(ErrorEntry { offset: offset as usize, kind })
}

/// Classes of bytes that the grammar speaks of.
#[derive(Debug, Clone, Copy, PartialEq, Eq, Structural)]
pub enum Class {
    /// Space, tab, carriage return and line feed.
    Space,
    /// `0` to `9`.
    Digit,
    /// `0` to `9`, `a` to `f`, `A` to `F`.
    HexDigit,
    /// `0` to `7`.
    OctDigit,
    /// `0` and `1`.
    BinDigit,
    /// What an identifier may hold after its first byte.
    IdentChar,
    /// What a string may hold as it stands: all but `\` and `"`.
    Plain,
    /// Space, tab, line feed, form feed and carriage return.
    Blank,
    /// All but the bytes of `Blank`.
    Solid,
}

/// Whether a byte is one of `0` to `9`.
pub open spec fn is_digit(b: u8) -> bool {
    48 <= b <= 57
}

impl Class {
    /// Whether a byte is of this class.
    pub open spec fn holds(self, b: u8) -> bool {
        match self {
            Class::Space => b == 32 || b == 9 || b == 13 || b == 10,
            Class::Digit => is_digit(b),
            Class::HexDigit => is_digit(b) || 97 <= b <= 102 || 65 <= b <= 70,
            Class::OctDigit => 48 <= b <= 55,
            Class::BinDigit => b == 48 || b == 49,
            Class::IdentChar => crate::parser::ident::valid_ident_char(b as char),
            Class::Plain => b != 92 && b != 34,
            Class::Blank => b == 32 || b == 9 || b == 10 || b == 12 || b == 13,
            Class::Solid => !(b == 32 || b == 9 || b == 10 || b == 12 || b == 13),
        }
    }

    /// Whether a byte is of this class.
    pub fn has(self, b: u8) -> (r: bool)
        ensures
            r == self.holds(b),
    {
        match self {
            Class::Space => b == 32 || b == 9 || b == 13 || b == 10,
            Class::Digit => 48 <= b && b <= 57,
            Class::HexDigit => (48 <= b && b <= 57) || (97 <= b && b <= 102) || (65 <= b && b
                <= 70),
            Class::OctDigit => 48 <= b && b <= 55,
            Class::BinDigit => b == 48 || b == 49,
            Class::IdentChar => crate::parser::ident::is_valid_ident_char(b as char),
            Class::Plain => b != 92 && b != 34,
            Class::Blank => b == 32 || b == 9 || b == 10 || b == 12 || b == 13,
            Class::Solid => !(b == 32 || b == 9 || b == 10 || b == 12 || b == 13),
        }
    }
}

/// The end of the longest run of bytes of `class` that starts at `at`.
pub open spec fn scan(s: Seq<u8>, at: int, class: Class) -> int
    decreases s.len() - at,
{
    if 0 <= at < s.len() && class.holds(s[at]) {
        scan(s, at + 1, class)
    } else {
        at
    }
}

/// A run ends within the source, holds only bytes of its class, and is
/// followed by none.
pub proof fn lemma_scan_bounds(s: Seq<u8>, at: int, class: Class)
    requires
        0 <= at <= s.len(),
    ensures
        at <= scan(s, at, class) <= s.len(),
        forall|i: int| at <= i < scan(s, at, class) ==> class.holds(#[trigger] s[i]),
        scan(s, at, class) < s.len() ==> !class.holds(s[scan(s, at, class)]),
    decreases s.len() - at,
{
    if at < s.len() && class.holds(s[at]) {
        lemma_scan_bounds(s, at + 1, class);
    }
}

/// The end of the longest run of bytes of `class` that starts at `at`.
pub fn run_end(src: &[u8], at: usize, class: Class) -> (end: usize)
    requires
        at <= src.len(),
    ensures
        end == scan(src@, at as int, class),
        at <= end <= src.len(),
{
    let mut end = at;
    proof {
        lemma_scan_bounds(src@, at as int, class);
    }
    while end < src.len() && class.has(src[end])
        invariant
            at <= end <= src.len(),
            scan(src@, end as int, class) == scan(src@, at as int, class),
        decreases src.len() - end,
    {
        end = end + 1;
    }
    end
}

/// The bytes of `src` from `from` up to `to`.
pub fn slice_bytes(src: &[u8], from: usize, to: usize) -> (r: Vec<u8>)
    requires
        from <= to <= src.len(),
    ensures
        r@ == src@.subrange(from as int, to as int),
{
    let mut r: Vec<u8> = Vec::new();
    let mut i = from;
    while i < to
        invariant
            from <= i <= to <= src.len(),
            r@ == src@.subrange(from as int, i as int),
        decreases to - i,
    {
        r.push(src[i]);
        i = i + 1;
        assert(r@ =~= src@.subrange(from as int, i as int));
    }
    r
}

/// A trace of one line.
pub fn error_at(offset: usize, kind: ErrorKind) -> (r: ParseError)
    ensures
        r@ == one_error(offset as int, kind),
{
    let mut errors: Vec<ErrorEntry> = Vec::new();
    errors.push(ErrorEntry { offset, kind });
    assert(errors@ =~= one_error(offset as int, kind));
    ParseError { errors }
}

/// Of two traces the one that got further, and the first if neither did.
pub fn pick_deeper(first: ParseError, second: ParseError) -> (r: ParseError)
    ensures
        r@ == deeper(first@, second@),
{
    let first_at = if first.errors.len() > 0 {
        first.errors[0].offset
    } else {
        0
    };
    let second_at = if second.errors.len() > 0 {
        second.errors[0].offset
    } else {
        0
    };
    if second_at > first_at {
        second
    } else {
        first
    }
}

/// The trace with one more line at its end.
pub fn note(trace: ParseError, offset: usize, kind: ErrorKind) -> (r: ParseError)
    ensures
        r@ == noted(trace@, offset as int, kind),
{
    let mut trace = trace;
    trace.errors.push(ErrorEntry { offset, kind });
    trace
}

} // verus!
