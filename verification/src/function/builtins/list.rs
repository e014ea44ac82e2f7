//! The functions on lists: `cons`, `head` and `tail`.

use super::functions_for;
use super::lang::{expected_list, too_few, too_many};
use crate::exception::{
    list_is_empty_view, list_too_long_view, too_few_view, too_many_view, wrong_type_view, Exception,
};
use crate::exception::list_of_two;
use crate::function::{Builtin, Function};
use crate::list::{share, List};
use crate::text::ascii;
use crate::value::{
    handles_of, lemma_list_view, list_view, simple_view, KindView, Value, ValueKind, ValueView,
};
use std::sync::Arc;
use vstd::prelude::*;

verus! {

/// The functions of this file, in the order in which they are bound.
pub open spec fn list_builtins() -> Seq<Builtin> {
    seq![Builtin::Cons, Builtin::Head, Builtin::Tail]
}

/// The functions of this file, each under its own name.
pub fn builtins() -> (r: Vec<Function>)
    ensures
        super::functions_view(r@) == list_builtins().map_values(
            |b: Builtin| crate::function::builtin_view(b),
        ),
{
    let which = vec![Builtin::Cons, Builtin::Head, Builtin::Tail];
    assert(which@ =~= list_builtins());
    functions_for(&which)
}

/// `cons x xs` puts `x` in front of the list `xs`; where `xs` is no list
/// it gives the list of the two.
pub open spec fn spec_cons(args: Seq<ValueView>) -> ValueView {
    if args.len() < 2 {
        too_few_view(2)
    } else if args.len() > 2 {
        too_many_view(2)
    } else {
        match args[1].kind {
            KindView::List(items) => {
                if items.len() < usize::MAX {
                    simple_view(KindView::List(seq![args[0]] + items))
                } else {
                    list_too_long_view()
                }
            },
            _ => simple_view(KindView::List(seq![args[0], args[1]])),
        }
    }
}

/// `cons x xs`
pub fn cons(args: List<Value>) -> (r: Arc<Value>)
    ensures
        r@ == spec_cons(list_view(args)),
{
    let items = handles_of(&args);
    if items.len() < 2 {
        return too_few(2);
    }
    if items.len() > 2 {
        return too_many(2);
    }
    match &items[1].kind {
        ValueKind::List(list) => {
            proof {
                lemma_list_view(*list);
            }
            match list.try_cons_arc(share(&items[0])) {
                Some(longer) => {
                    proof {
                        lemma_list_view(longer);
                        assert(list_view(longer) =~= seq![items@[0]@] + list_view(*list));
                    }
                    Value::simple(ValueKind::List(longer))
                },
                None => {
                    proof {
                        reveal_strlit("list-too-long");
                        crate::text::lemma_ascii_bytes("list-too-long");
                    }
                    Exception::bare("list-too-long").to_value()
                },
            }
        },
        _ => Value::simple(ValueKind::List(list_of_two(share(&items[0]), share(&items[1])))),
    }
}

/// `head xs` gives the first element of a list.
pub open spec fn spec_head(args: Seq<ValueView>) -> ValueView {
    if args.len() == 0 {
        too_few_view(1)
    } else if !(args[0].kind is List) {
        wrong_type_view(ascii("list"@), args[0])
    } else if args.len() > 1 {
        too_many_view(1)
    } else if args[0].kind->List_0.len() == 0 {
        list_is_empty_view()
    } else {
        args[0].kind->List_0[0]
    }
}

/// `head xs`
pub fn head(args: List<Value>) -> (r: Arc<Value>)
    ensures
        r@ == spec_head(list_view(args)),
{
    let items = handles_of(&args);
    if items.len() == 0 {
        return too_few(1);
    }
    match &items[0].kind {
        ValueKind::List(list) => {
            if items.len() > 1 {
                return too_many(1);
            }
            proof {
                lemma_list_view(*list);
            }
            match list.head() {
                Some(first) => first,
                None => Exception::list_is_empty().to_value(),
            }
        },
        _ => expected_list(share(&items[0])),
    }
}

/// `tail xs` gives a list without its first element.
pub open spec fn spec_tail(args: Seq<ValueView>) -> ValueView {
    if args.len() == 0 {
        too_few_view(1)
    } else if !(args[0].kind is List) {
        wrong_type_view(ascii("list"@), args[0])
    } else if args.len() > 1 {
        too_many_view(1)
    } else if args[0].kind->List_0.len() == 0 {
        list_is_empty_view()
    } else {
        simple_view(KindView::List(args[0].kind->List_0.subrange(1, args[0].kind->List_0.len() as int)))
    }
}

/// `tail xs`
pub fn tail(args: List<Value>) -> (r: Arc<Value>)
    ensures
        r@ == spec_tail(list_view(args)),
{
    let items = handles_of(&args);
    if items.len() == 0 {
        return too_few(1);
    }
    match &items[0].kind {
        ValueKind::List(list) => {
            if items.len() > 1 {
                return too_many(1);
            }
            proof {
                lemma_list_view(*list);
            }
            match list.tail() {
                Some(rest) => {
                    proof {
                        lemma_list_view(rest);
                        assert(list_view(rest) =~= list_view(*list).subrange(
                            1,
                            list_view(*list).len() as int,
                        ));
                    }
                    Value::simple(ValueKind::List(rest))
                },
                None => Exception::list_is_empty().to_value(),
            }
        },
        _ => expected_list(share(&items[0])),
    }
}

} // verus!
