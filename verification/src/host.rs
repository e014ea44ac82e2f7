//! What evaluation asks of its host.
//!
//! The library does no input or output, keeps no clock and computes with
//! no floats. Where evaluation needs one of these it stops with a request;
//! the host does what is asked and evaluation goes on from the answer.

use crate::exception::{host_error_view, Exception};
use crate::text::{ascii, literal};
use crate::value::{
    raw_view, simple_view, unit_view, Float, FloatView, KindView, Value, ValueKind, ValueView,
};
use std::sync::Arc;
use vstd::prelude::*;

verus! {

/// A number as it is handed to the host.
#[derive(Debug)]
pub enum Num {
    Int(i64),
    Float(Float),
}

/// Two numbers that are to be compared.
#[derive(Debug)]
pub struct Pair {
    pub left: Num,
    pub right: Num,
}

/// The operations that fold any number of numbers.
#[derive(Debug, Clone, Copy, PartialEq, Eq, Structural)]
pub enum FoldOp {
    Add,
    Mul,
}

/// The operations on two numbers.
#[derive(Debug, Clone, Copy, PartialEq, Eq, Structural)]
pub enum BinaryOp {
    Sub,
    Div,
}

/// The comparisons of a number with the next.
#[derive(Debug, Clone, Copy, PartialEq, Eq, Structural)]
pub enum CompareOp {
    Lt,
    Le,
    Gt,
    Ge,
}

/// How two numbers stand to each other.
#[derive(Debug, Clone, Copy, PartialEq, Eq, Structural)]
pub enum Sign {
    Less,
    Equal,
    Greater,
    Uncomparable,
}

/// What the host is asked to do.
#[derive(Debug)]
pub enum Request {
    /// Print the lines, each on a line of its own.
    Print(Vec<Vec<u8>>),
    /// Suspend for this many seconds; a negative number counts as zero.
    Sleep(Num),
    /// Give the time in seconds since the epoch, as a float.
    Time,
    /// Fold the numbers with the operation as floats, from the left,
    /// starting with the first. The first is an integer: what the integers
    /// before the first float came to. The second is a float.
    Fold(FoldOp, Vec<Num>),
    /// Apply the operation to the two numbers as floats. At least one of
    /// them is a float.
    Binary(BinaryOp, Num, Num),
    /// Say whether in every pair the left number stands to the right one
    /// as the operation asks, both taken as floats. Every pair holds a
    /// float, and there is at least one pair.
    Compare(CompareOp, Vec<Pair>),
    /// Say how the first number stands to the second. At least one of
    /// them is a float.
    Order(Num, Num),
}

/// What the host answers.
#[derive(Debug)]
pub enum Answer {
    /// What was asked has been done.
    Done,
    Number(Float),
    Truth(bool),
    Order(Sign),
}

/// The model of a number.
pub enum NumView {
    Int(i64),
    Float(FloatView),
}

/// The model of a pair.
pub struct PairView {
    pub left: NumView,
    pub right: NumView,
}

/// The model of a request.
pub enum RequestView {
    Print(Seq<Seq<u8>>),
    Sleep(NumView),
    Time,
    Fold(FoldOp, Seq<NumView>),
    Binary(BinaryOp, NumView, NumView),
    Compare(CompareOp, Seq<PairView>),
    Order(NumView, NumView),
}

/// The model of an answer.
pub enum AnswerView {
    Done,
    Number(FloatView),
    Truth(bool),
    Order(Sign),
}

impl View for Num {
    type V = NumView;

    open spec fn view(&self) -> NumView {
        match self {
            Num::Int(n) => NumView::Int(*n),
            Num::Float(f) => NumView::Float(f@),
        }
    }
}

impl View for Pair {
    type V = PairView;

    open spec fn view(&self) -> PairView {
        PairView { left: self.left@, right: self.right@ }
    }
}

/// The models of the pairs in a vector.
pub open spec fn pairs_view(pairs: Seq<Pair>) -> Seq<PairView> {
    pairs.map_values(|pair: Pair| pair@)
}

/// The models of the numbers in a vector.
pub open spec fn nums_view(nums: Seq<Num>) -> Seq<NumView> {
    nums.map_values(|n: Num| n@)
}

/// The lines in a vector, as bytes.
pub open spec fn lines_view(lines: Seq<Vec<u8>>) -> Seq<Seq<u8>> {
    lines.map_values(|line: Vec<u8>| line@)
}

impl View for Request {
    type V = RequestView;

    open spec fn view(&self) -> RequestView {
        match self {
            Request::Print(lines) => RequestView::Print(lines_view(lines@)),
            Request::Sleep(n) => RequestView::Sleep(n@),
            Request::Time => RequestView::Time,
            Request::Fold(op, nums) => RequestView::Fold(*op, nums_view(nums@)),
            Request::Binary(op, a, b) => RequestView::Binary(*op, a@, b@),
            Request::Compare(op, pairs) => RequestView::Compare(*op, pairs_view(pairs@)),
            Request::Order(a, b) => RequestView::Order(a@, b@),
        }
    }
}

impl View for Answer {
    type V = AnswerView;

    open spec fn view(&self) -> AnswerView {
        match self {
            Answer::Done => AnswerView::Done,
            Answer::Number(f) => AnswerView::Number(f@),
            Answer::Truth(b) => AnswerView::Truth(*b),
            Answer::Order(s) => AnswerView::Order(*s),
        }
    }
}

/// The symbol that names how two numbers stand to each other.
pub open spec fn sign_name(sign: Sign) -> Seq<u8> {
    match sign {
        Sign::Less => ascii("less"@),
        Sign::Equal => ascii("equal"@),
        Sign::Greater => ascii("greater"@),
        Sign::Uncomparable => ascii("uncomparable"@),
    }
}

/// How two numbers stand to each other, as a value: a raw symbol.
pub open spec fn sign_view(sign: Sign) -> ValueView {
    raw_view(KindView::Symbol(sign_name(sign)))
}

/// The value that evaluation goes on with after the host's answer:
/// nothing for what was only to be done, a float for the time and for
/// arithmetic, a bool for a comparison, a raw symbol for an order. An
/// answer of another kind than was asked for gives `host-error`.
pub open spec fn answer_view(request: RequestView, answer: AnswerView) -> ValueView {
    match (request, answer) {
        (RequestView::Print(_), AnswerView::Done) => unit_view(),
        (RequestView::Sleep(_), AnswerView::Done) => unit_view(),
        (RequestView::Time, AnswerView::Number(f)) => simple_view(KindView::Float(f)),
        (RequestView::Fold(_, _), AnswerView::Number(f)) => simple_view(KindView::Float(f)),
        (RequestView::Binary(_, _, _), AnswerView::Number(f)) => simple_view(KindView::Float(f)),
        (RequestView::Compare(_, _), AnswerView::Truth(b)) => simple_view(KindView::Bool(b)),
        (RequestView::Order(_, _), AnswerView::Order(sign)) => sign_view(sign),
        _ => host_error_view(),
    }
}

/// How two numbers stand to each other, as a value.
pub fn sign_value(sign: Sign) -> (r: Arc<Value>)
    ensures
        r@ == sign_view(sign),
{
    proof {
        reveal_strlit("less");
        reveal_strlit("equal");
        reveal_strlit("greater");
        reveal_strlit("uncomparable");
    }
    let name = match sign {
        Sign::Less => literal("less"),
        Sign::Equal => literal("equal"),
        Sign::Greater => literal("greater"),
        Sign::Uncomparable => literal("uncomparable"),
    };
    Value::raw(ValueKind::Symbol(name))
}

/// The value that evaluation goes on with after the host's answer.
pub fn answer_value(request: &Request, answer: Answer) -> (r: Arc<Value>)
    ensures
        r@ == answer_view(request@, answer@),
{
    proof {
        reveal_strlit("host-error");
        crate::text::lemma_ascii_bytes("host-error");
    }
    match (request, answer) {
        (Request::Print(_), Answer::Done) => Value::unit(),
        (Request::Sleep(_), Answer::Done) => Value::unit(),
        (Request::Time, Answer::Number(f)) => Value::simple(ValueKind::Float(f)),
        (Request::Fold(_, _), Answer::Number(f)) => Value::simple(ValueKind::Float(f)),
        (Request::Binary(_, _, _), Answer::Number(f)) => Value::simple(ValueKind::Float(f)),
        (Request::Compare(_, _), Answer::Truth(b)) => Value::simple(ValueKind::Bool(b)),
        (Request::Order(_, _), Answer::Order(sign)) => sign_value(sign),
        _ => Exception::bare("host-error").to_value(),
    }
}

} // verus!
