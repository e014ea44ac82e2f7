//! The errors that evaluation hands on as values. An exception is told
//! from other values by its kind alone; each has a tag and arguments.

use crate::list::List;
use crate::text::{ascii, bytes_of, literal};
use vstd::string::StringSliceAdditionalSpecFns;
pub use crate::value::Exception;
use crate::value::{
    lemma_list_view, list_view, simple_view, ExceptionView, KindView, Value, ValueKind, ValueView,
};
use std::sync::Arc;
use vstd::prelude::*;

verus! {

/// The exception with the given tag and arguments, as a value.
pub open spec fn exception_view(ident: Seq<u8>, args: Seq<ValueView>) -> ValueView {
    simple_view(KindView::Exception(ExceptionView { ident, args }))
}

/// `wrong-type`: the symbol of the kind that was expected, and the value
/// that was found.
pub open spec fn wrong_type_view(expected: Seq<u8>, val: ValueView) -> ValueView {
    exception_view(ascii("wrong-type"@), seq![simple_view(KindView::Symbol(expected)), val])
}

/// `too-few-arguments`: the number of arguments that was expected.
pub open spec fn too_few_view(expected: i64) -> ValueView {
    exception_view(ascii("too-few-arguments"@), seq![simple_view(KindView::Integer(expected))])
}

/// `too-many-arguments`: the number of arguments that was expected.
pub open spec fn too_many_view(expected: i64) -> ValueView {
    exception_view(ascii("too-many-arguments"@), seq![simple_view(KindView::Integer(expected))])
}

/// `list-is-empty`, without arguments.
pub open spec fn list_is_empty_view() -> ValueView {
    exception_view(ascii("list-is-empty"@), Seq::empty())
}

/// `undefined-ident`: the name that is bound nowhere, as a raw symbol.
pub open spec fn undefined_ident_view(name: Seq<u8>) -> ValueView {
    exception_view(
        ascii("undefined-ident"@),
        seq![ValueView { raw: true, sequential: false, kind: KindView::Symbol(name) }],
    )
}

/// `not-a-function`: the value that stood where a function was expected.
pub open spec fn not_a_function_view(head: ValueView) -> ValueView {
    exception_view(ascii("not-a-function"@), seq![head])
}

/// `division-by-zero`, without arguments.
pub open spec fn division_by_zero_view() -> ValueView {
    exception_view(ascii("division-by-zero"@), Seq::empty())
}

/// `list-too-long`, without arguments: a list cannot take one more
/// element.
pub open spec fn list_too_long_view() -> ValueView {
    exception_view(ascii("list-too-long"@), Seq::empty())
}

/// `unknown-scope`, without arguments: a function was made in another
/// context than the one that is asked to call it.
pub open spec fn unknown_scope_view() -> ValueView {
    exception_view(ascii("unknown-scope"@), Seq::empty())
}

/// `host-error`, without arguments: the host gave an answer that does not
/// fit what it was asked.
pub open spec fn host_error_view() -> ValueView {
    exception_view(ascii("host-error"@), Seq::empty())
}

/// The list of one value.
pub fn list_of_one(val: Arc<Value>) -> (r: List<Value>)
    ensures
        list_view(r) == seq![val@],
{
    let empty: List<Value> = List::new();
    let r = empty.cons_arc(val);
    proof {
        lemma_list_view(r);
        assert(list_view(r) =~= seq![val@]);
    }
    r
}

/// The list of two values.
pub fn list_of_two(first: Arc<Value>, second: Arc<Value>) -> (r: List<Value>)
    ensures
        list_view(r) == seq![first@, second@],
{
    let empty: List<Value> = List::new();
    let r = empty.cons_arc(second).cons_arc(first);
    proof {
        lemma_list_view(r);
        assert(list_view(r) =~= seq![first@, second@]);
    }
    r
}

/// The list of no value.
pub fn list_of_none() -> (r: List<Value>)
    ensures
        list_view(r) == Seq::<ValueView>::empty(),
{
    let r: List<Value> = List::new();
    proof {
        lemma_list_view(r);
        assert(list_view(r) =~= Seq::<ValueView>::empty());
    }
    r
}

impl Exception {
    /// This exception as a value with both flags clear.
    pub fn to_value(self) -> (r: Arc<Value>)
        ensures
            r@ == exception_view(self@.ident, self@.args),
    {
        Value::simple(ValueKind::Exception(self))
    }

    /// `wrong-type`: a value of another kind than `expected` was found.
    pub fn wrong_type(expected: &str, val: Arc<Value>) -> (r: Self)
        ensures
            r.to_value_view() == wrong_type_view(expected.spec_bytes(), val@),
    {
        proof {
            reveal_strlit("wrong-type");
        }
        let symbol = Value::simple(ValueKind::Symbol(bytes_of(expected)));
        Exception { ident: literal("wrong-type"), args: list_of_two(symbol, val) }
    }

    /// `too-few-arguments`: `expected` arguments were expected.
    pub fn too_few_arguments(expected: i64) -> (r: Self)
        ensures
            r.to_value_view() == too_few_view(expected),
    {
        proof {
            reveal_strlit("too-few-arguments");
        }
        Exception {
            ident: literal("too-few-arguments"),
            args: list_of_one(Value::simple(ValueKind::Integer(expected))),
        }
    }

    /// `too-many-arguments`: `expected` arguments were expected.
    pub fn too_many_arguments(expected: i64) -> (r: Self)
        ensures
            r.to_value_view() == too_many_view(expected),
    {
        proof {
            reveal_strlit("too-many-arguments");
        }
        Exception {
            ident: literal("too-many-arguments"),
            args: list_of_one(Value::simple(ValueKind::Integer(expected))),
        }
    }

    /// `list-is-empty`: an element of the empty list was asked for.
    pub fn list_is_empty() -> (r: Self)
        ensures
            r.to_value_view() == list_is_empty_view(),
    {
        proof {
            reveal_strlit("list-is-empty");
        }
        Exception { ident: literal("list-is-empty"), args: list_of_none() }
    }

    /// `undefined-ident`: the name is bound nowhere.
    pub fn undefined_ident(name: Vec<u8>) -> (r: Self)
        ensures
            r.to_value_view() == undefined_ident_view(name@),
    {
        proof {
            reveal_strlit("undefined-ident");
        }
        Exception {
            ident: literal("undefined-ident"),
            args: list_of_one(Value::raw(ValueKind::Symbol(name))),
        }
    }

    /// `not-a-function`: `head` stood where a function was expected.
    pub fn not_a_function(head: Arc<Value>) -> (r: Self)
        ensures
            r.to_value_view() == not_a_function_view(head@),
    {
        proof {
            reveal_strlit("not-a-function");
        }
        Exception { ident: literal("not-a-function"), args: list_of_one(head) }
    }

    /// An exception without arguments.
    pub fn bare(ident: &str) -> (r: Self)
        ensures
            r.to_value_view() == exception_view(ident.spec_bytes(), Seq::empty()),
    {
        Exception { ident: bytes_of(ident), args: list_of_none() }
    }

    /// This exception as a value.
    pub open spec fn to_value_view(self) -> ValueView {
        exception_view(self@.ident, self@.args)
    }
}

} // verus!
