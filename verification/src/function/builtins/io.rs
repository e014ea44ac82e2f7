//! What only the host can do: `debug`, `sleep` and `time`. Each of them
//! checks its arguments and hands a request to the host.

use super::functions_for;
use super::lang::{expected_number, too_few, too_many};
use crate::exception::{too_few_view, too_many_view, wrong_type_view};
use crate::executor::{Control, ControlView};
use crate::function::{Builtin, Function};
use crate::host::{lines_view, Num, NumView, Request, RequestView};
use crate::list::{share, List};
use crate::text::ascii;
use crate::value::{handles_of, handles_view, list_view, render, KindView, Value, ValueKind, ValueView};
use std::sync::Arc;
use vstd::prelude::*;

verus! {

/// The functions of this file, in the order in which they are bound.
pub open spec fn io_builtins() -> Seq<Builtin> {
    seq![Builtin::Debug, Builtin::Sleep, Builtin::Time]
}

/// The functions of this file, each under its own name.
pub fn builtins() -> (r: Vec<Function>)
    ensures
        super::functions_view(r@) == io_builtins().map_values(
            |b: Builtin| crate::function::builtin_view(b),
        ),
{
    let which = vec![Builtin::Debug, Builtin::Sleep, Builtin::Time];
    assert(which@ =~= io_builtins());
    functions_for(&which)
}

/// `debug x…` has each argument printed on a line of its own, as it is
/// shown.
pub open spec fn spec_debug(args: Seq<ValueView>) -> ControlView {
    ControlView::Await { request: RequestView::Print(args.map_values(|v: ValueView| render(v))) }
}

/// `debug x…`
pub fn debug(args: List<Value>) -> (r: Control)
    ensures
        r@ == spec_debug(list_view(args)),
{
    let items = handles_of(&args);
    let mut lines: Vec<Vec<u8>> = Vec::new();
    let mut i: usize = 0;
    while i < items.len()
        invariant
            i <= items@.len(),
            lines@.len() == i,
            forall|j: int| 0 <= j < i ==> (#[trigger] lines@[j])@ == render(items@[j]@),
        decreases items@.len() - i,
    {
        lines.push(items[i].to_text());
        i = i + 1;
    }
    assert(lines_view(lines@) =~= handles_view(items@).map_values(|v: ValueView| render(v)));
    Control::Await { request: Request::Print(lines) }
}

/// `sleep t` has the host suspend for `t` seconds. A negative integer
/// counts as zero; so does a negative float, which the host sees to.
pub open spec fn spec_sleep(args: Seq<ValueView>) -> ControlView {
    if args.len() == 0 {
        ControlView::Return { value: too_few_view(1) }
    } else if args.len() > 1 {
        ControlView::Return { value: too_many_view(1) }
    } else {
        match args[0].kind {
            KindView::Integer(n) => ControlView::Await {
                request: RequestView::Sleep(
                    NumView::Int(
                        if n < 0 {
                            0
                        } else {
                            n
                        },
                    ),
                ),
            },
            KindView::Float(f) => ControlView::Await {
                request: RequestView::Sleep(NumView::Float(f)),
            },
            _ => ControlView::Return { value: wrong_type_view(ascii("number"@), args[0]) },
        }
    }
}

/// `sleep t`
pub fn sleep(args: List<Value>) -> (r: Control)
    ensures
        r@ == spec_sleep(list_view(args)),
{
    let items = handles_of(&args);
    if items.len() == 0 {
        return Control::Return { value: too_few(1) };
    }
    if items.len() > 1 {
        return Control::Return { value: too_many(1) };
    }
    match &items[0].kind {
        ValueKind::Integer(n) => {
            let seconds = if *n < 0 {
                0
            } else {
                *n
            };
            Control::Await { request: Request::Sleep(Num::Int(seconds)) }
        },
        ValueKind::Float(f) => Control::Await { request: Request::Sleep(Num::Float(f.clone())) },
        _ => Control::Return { value: expected_number(share(&items[0])) },
    }
}

/// `time` asks the host for the time.
pub open spec fn spec_time(args: Seq<ValueView>) -> ControlView {
    if args.len() > 0 {
        ControlView::Return { value: too_many_view(0) }
    } else {
        ControlView::Await { request: RequestView::Time }
    }
}

/// `time`
pub fn time(args: List<Value>) -> (r: Control)
    ensures
        r@ == spec_time(list_view(args)),
{
    let items = handles_of(&args);
    if items.len() > 0 {
        return Control::Return { value: too_many(0) };
    }
    Control::Await { request: Request::Time }
}

} // verus!
