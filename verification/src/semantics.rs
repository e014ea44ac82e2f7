//! What the steps of an evaluation amount to.
//!
//! An evaluation goes step by step and keeps the lists that it is in the
//! middle of on a stack. Here the steps are put together again: the
//! evaluation of a list is the evaluation of its elements one after
//! another, each as if it stood alone, and then the outcome of the list
//! for the values that they gave.

use crate::exception::undefined_ident_view;
use crate::executor::{
    first_exception, spec_begin, spec_evaluate_list, spec_finished, spec_join, spec_outcome,
    spec_resume, spec_run, spec_settle, spec_split, spec_step, ContextView, ControlView,
    FrameView, ListFrameView, TaskView,
};
use crate::host::{AnswerView, RequestView};
use crate::value::{KindView, ValueView};
use vstd::prelude::*;

verus! {

/// The task with the frames of `base` below its own.
pub open spec fn on_top_of(t: TaskView, base: Seq<FrameView>) -> TaskView {
    TaskView { control: t.control, stack: base + t.stack }
}

/// Whether the evaluation of `value` in `scope`, begun in the context `c`,
/// comes to an end with `result` and leaves the context `after`.
pub open spec fn evaluates_to(
    c: ContextView,
    value: ValueView,
    scope: int,
    after: ContextView,
    result: ValueView,
) -> bool {
    exists|steps: nat| spec_run(c, spec_begin(value, scope), steps) == (after, spec_finished(result))
}

/// Whether the items evaluate one after another, in `scope`, to the
/// values: the first in the context `contexts[0]`, each of the others in
/// the context that the one before it left, which for the `i`th item is
/// `contexts[i]`.
pub open spec fn elements_give(
    items: Seq<ValueView>,
    scope: int,
    contexts: Seq<ContextView>,
    values: Seq<ValueView>,
) -> bool {
    &&& contexts.len() == items.len() + 1
    &&& values.len() == items.len()
    &&& forall|i: int|
        0 <= i < items.len() ==> evaluates_to(
            #[trigger] contexts[i],
            items[i],
            scope,
            contexts[i + 1],
            values[i],
        )
}

/// A step does not look below the top of the stack.
pub proof fn lemma_step_on_top(c: ContextView, t: TaskView, base: Seq<FrameView>)
    requires
        !t.halted(),
    ensures
        spec_step(c, on_top_of(t, base)) == (
            spec_step(c, t).0,
            on_top_of(spec_step(c, t).1, base),
        ),
        !on_top_of(t, base).halted(),
{
    let lifted = on_top_of(t, base);
    match t.control {
        ControlView::Eval { value, scope } => {
            let alone = spec_step(c, t).1;
            assert(spec_step(c, lifted).1.stack =~= base + alone.stack);
        },
        ControlView::Enter { value, scope } => {
            let alone = spec_step(c, t).1;
            assert(spec_step(c, lifted).1.stack =~= base + alone.stack);
        },
        ControlView::Return { value } => {
            assert(t.stack.len() > 0);
            assert(lifted.stack.last() == t.stack.last());
            assert(lifted.stack.drop_last() =~= base + t.stack.drop_last());
            let alone = spec_step(c, t).1;
            assert(spec_step(c, lifted).1.stack =~= base + alone.stack);
        },
        ControlView::Await { request } => {},
    }
}

/// Steps that are run in two parts are run as a whole.
pub proof fn lemma_run_in_parts(c: ContextView, t: TaskView, first: nat, second: nat)
    ensures
        spec_run(c, t, first + second) == spec_run(
            spec_run(c, t, first).0,
            spec_run(c, t, first).1,
            second,
        ),
    decreases first,
{
    if t.halted() {
        lemma_run_halted(c, t, first + second);
        lemma_run_halted(c, t, first);
        lemma_run_halted(c, t, second);
    } else if first > 0 {
        let next = spec_step(c, t);
        lemma_run_in_parts(next.0, next.1, (first - 1) as nat, second);
    }
}

/// One step of a task that has not halted.
pub proof fn lemma_one_step(c: ContextView, t: TaskView)
    requires
        !t.halted(),
    ensures
        spec_run(c, t, 1) == spec_step(c, t),
{
    let next = spec_step(c, t);
    assert(spec_run(next.0, next.1, 0) == next);
}

/// A task that has halted stays as it is.
pub proof fn lemma_run_halted(c: ContextView, t: TaskView, steps: nat)
    requires
        t.halted(),
    ensures
        spec_run(c, t, steps) == (c, t),
{
}

/// An evaluation that comes to an end alone comes to the same end on top
/// of any stack, in no more steps, and then stands on that stack.
pub proof fn lemma_run_on_top(
    c: ContextView,
    t: TaskView,
    base: Seq<FrameView>,
    steps: nat,
    after: ContextView,
    result: ValueView,
) -> (taken: nat)
    requires
        spec_run(c, t, steps) == (after, spec_finished(result)),
    ensures
        taken <= steps,
        spec_run(c, on_top_of(t, base), taken) == (
            after,
            TaskView { control: ControlView::Return { value: result }, stack: base },
        ),
    decreases steps,
{
    if t.halted() {
        assert(t == spec_finished(result));
        assert(on_top_of(t, base).stack =~= base);
        0
    } else {
        assert(steps > 0);
        let next = spec_step(c, t);
        lemma_step_on_top(c, t, base);
        let taken = lemma_run_on_top(next.0, next.1, base, (steps - 1) as nat, after, result);
        taken + 1
    }
}

/// The frame of a list of which the first `done` items have their
/// values.
pub open spec fn frame_at(
    items: Seq<ValueView>,
    values: Seq<ValueView>,
    scope: int,
    sequential: bool,
    done: int,
) -> ListFrameView {
    ListFrameView {
        pending: items.subrange(done + 1, items.len() as int),
        done: values.subrange(0, done),
        scope,
        sequential,
    }
}

/// The task that is about to evaluate the item at `at` of a list.
pub open spec fn task_at(
    base: Seq<FrameView>,
    items: Seq<ValueView>,
    values: Seq<ValueView>,
    scope: int,
    sequential: bool,
    at: int,
) -> TaskView {
    TaskView {
        control: ControlView::Eval { value: items[at], scope },
        stack: base.push(FrameView::List(frame_at(items, values, scope, sequential, at))),
    }
}

/// What becomes of a list whose elements give the values: in a
/// sequential list the first exception ends it at once, in the context in
/// which it arose; in every other case the list has its outcome for all
/// the values, in the context that the last element left.
pub open spec fn list_result(
    sequential: bool,
    scope: int,
    contexts: Seq<ContextView>,
    values: Seq<ValueView>,
) -> (ContextView, ControlView) {
    let stop = first_exception_at(values, 0);
    if sequential && stop < values.len() {
        (contexts[stop + 1], ControlView::Return { value: values[stop] })
    } else {
        spec_outcome(contexts[values.len() as int], values, scope)
    }
}

/// The place of the first of the values from `from` on that is an
/// exception, or the number of values where none is.
pub open spec fn first_exception_at(values: Seq<ValueView>, from: int) -> int
    decreases values.len() - from,
{
    if from < 0 || from >= values.len() {
        values.len() as int
    } else if values[from].kind is Exception {
        from
    } else {
        first_exception_at(values, from + 1)
    }
}

proof fn lemma_first_exception_at(values: Seq<ValueView>, from: int, at: int)
    requires
        0 <= from <= at < values.len(),
        at < first_exception_at(values, from),
    ensures
        !(values[at].kind is Exception),
        first_exception_at(values, from) == first_exception_at(values, at + 1),
    decreases at - from,
{
    if from < at {
        lemma_first_exception_at(values, from + 1, at);
    }
}

proof fn lemma_first_exception_found(values: Seq<ValueView>, from: int)
    requires
        0 <= from <= values.len(),
    ensures
        from <= first_exception_at(values, from) <= values.len(),
        first_exception_at(values, from) < values.len() ==> values[first_exception_at(
            values,
            from,
        )].kind is Exception && first_exception(values, from) == Some(
            values[first_exception_at(values, from)],
        ),
        first_exception_at(values, from) == values.len() ==> first_exception(values, from)
            is None,
    decreases values.len() - from,
{
    if from < values.len() && !(values[from].kind is Exception) {
        lemma_first_exception_found(values, from + 1);
    }
}

/// From the item at `at` on, a list whose elements give the values comes
/// to its result, on whatever stack it stands.
proof fn lemma_list_from(
    base: Seq<FrameView>,
    items: Seq<ValueView>,
    scope: int,
    sequential: bool,
    contexts: Seq<ContextView>,
    values: Seq<ValueView>,
    at: int,
) -> (steps: nat)
    requires
        0 <= at < items.len(),
        elements_give(items, scope, contexts, values),
        sequential ==> at <= first_exception_at(values, 0),
    ensures
        spec_run(contexts[at], task_at(base, items, values, scope, sequential, at), steps) == (
            list_result(sequential, scope, contexts, values).0,
            TaskView { control: list_result(sequential, scope, contexts, values).1, stack: base },
        ),
    decreases items.len() - at,
{
    let inner = frame_at(items, values, scope, sequential, at);
    let frame = FrameView::List(inner);
    let start = task_at(base, items, values, scope, sequential, at);
    let alone = spec_begin(items[at], scope);
    assert(on_top_of(alone, base.push(frame)).stack =~= base.push(frame));
    assert(on_top_of(alone, base.push(frame)) == start);
    let needed = choose|n: nat|
        spec_run(contexts[at], alone, n) == (contexts[at + 1], spec_finished(values[at]));
    let taken = lemma_run_on_top(
        contexts[at],
        alone,
        base.push(frame),
        needed,
        contexts[at + 1],
        values[at],
    );
    let returned = TaskView {
        control: ControlView::Return { value: values[at] },
        stack: base.push(frame),
    };
    assert(spec_run(contexts[at], start, taken) == (contexts[at + 1], returned));
    let settled = spec_settle(contexts[at + 1], base.push(frame), values[at]);
    assert(spec_step(contexts[at + 1], returned) == settled);
    assert(base.push(frame).drop_last() =~= base);
    assert(settled == spec_evaluate_list(contexts[at + 1], base, inner, values[at]));
    assert(inner.done.push(values[at]) =~= values.subrange(0, at + 1));
    lemma_first_exception_found(values, 0);
    let stop = first_exception_at(values, 0);
    if sequential && values[at].kind is Exception {
        if at < stop {
            lemma_first_exception_at(values, 0, at);
        }
        assert(stop == at);
        lemma_one_step(contexts[at + 1], returned);
        lemma_run_in_parts(contexts[at], start, taken, 1);
        taken + 1
    } else if at + 1 < items.len() {
        assert(inner.pending[0] == items[at + 1]);
        assert(inner.pending.subrange(1, inner.pending.len() as int) =~= items.subrange(
            at + 2,
            items.len() as int,
        ));
        let next = task_at(base, items, values, scope, sequential, at + 1);
        assert(settled.1 == next);
        if sequential {
            lemma_first_exception_at(values, 0, at);
        }
        let rest = lemma_list_from(base, items, scope, sequential, contexts, values, at + 1);
        lemma_one_step(contexts[at + 1], returned);
        lemma_run_in_parts(contexts[at + 1], returned, 1, rest);
        lemma_run_in_parts(contexts[at], start, taken, 1 + rest);
        taken + 1 + rest
    } else {
        assert(values.subrange(0, at + 1) =~= values);
        if sequential {
            lemma_first_exception_at(values, 0, at);
            assert(stop == values.len());
        }
        lemma_one_step(contexts[at + 1], returned);
        lemma_run_in_parts(contexts[at], start, taken, 1);
        taken + 1
    }
}

/// The task that is about to evaluate `value` in `scope` on the stack
/// `base`.
pub open spec fn about_to(value: ValueView, scope: int, base: Seq<FrameView>) -> TaskView {
    TaskView { control: ControlView::Eval { value, scope }, stack: base }
}

/// The evaluation of a list that is not raw and not empty is the
/// evaluation of its elements one after another, the first of them
/// included, and then the result of the list for their values: where the
/// elements give the values, the list comes to that result after some
/// number of steps, on whatever stack it stands.
pub proof fn law_list_evaluation(
    c: ContextView,
    base: Seq<FrameView>,
    list: ValueView,
    items: Seq<ValueView>,
    scope: int,
    contexts: Seq<ContextView>,
    values: Seq<ValueView>,
) -> (steps: nat)
    requires
        !list.raw,
        list.kind == KindView::List(items),
        items.len() > 0,
        elements_give(items, scope, contexts, values),
        contexts[0] == c,
    ensures
        spec_run(c, about_to(list, scope, base), steps) == (
            list_result(list.sequential, scope, contexts, values).0,
            TaskView {
                control: list_result(list.sequential, scope, contexts, values).1,
                stack: base,
            },
        ),
{
    let start = about_to(list, scope, base);
    let entered = spec_step(c, start);
    let first = task_at(base, items, values, scope, list.sequential, 0);
    assert(values.subrange(0, 0) =~= Seq::<ValueView>::empty());
    assert(entered == (c, first));
    lemma_first_exception_found(values, 0);
    let rest = lemma_list_from(base, items, scope, list.sequential, contexts, values, 0);
    lemma_one_step(c, start);
    lemma_run_in_parts(c, start, 1, rest);
    1 + rest
}

/// Where the elements of a list give their values without a change to
/// the context, the list comes to the same result whether it is
/// sequential or not: the order of evaluation, and whether the elements
/// after an exception are evaluated at all, makes no difference to the
/// result.
pub proof fn law_order_of_evaluation(
    c: ContextView,
    base: Seq<FrameView>,
    items: Seq<ValueView>,
    scope: int,
    values: Seq<ValueView>,
) -> (steps: (nat, nat))
    requires
        items.len() > 0,
        values.len() == items.len(),
        forall|i: int|
            0 <= i < items.len() ==> evaluates_to(c, #[trigger] items[i], scope, c, values[i]),
    ensures
        spec_run(
            c,
            about_to(
                ValueView { raw: false, sequential: true, kind: KindView::List(items) },
                scope,
                base,
            ),
            steps.0,
        ) == spec_run(
            c,
            about_to(
                ValueView { raw: false, sequential: false, kind: KindView::List(items) },
                scope,
                base,
            ),
            steps.1,
        ),
        spec_run(
            c,
            about_to(
                ValueView { raw: false, sequential: false, kind: KindView::List(items) },
                scope,
                base,
            ),
            steps.1,
        ) == (
            spec_outcome(c, values, scope).0,
            TaskView { control: spec_outcome(c, values, scope).1, stack: base },
        ),
{
    let in_order = ValueView { raw: false, sequential: true, kind: KindView::List(items) };
    let in_any = ValueView { raw: false, sequential: false, kind: KindView::List(items) };
    let contexts = Seq::new((items.len() + 1) as nat, |i: int| c);
    assert(elements_give(items, scope, contexts, values));
    let first = law_list_evaluation(c, base, in_order, items, scope, contexts, values);
    let second = law_list_evaluation(c, base, in_any, items, scope, contexts, values);
    lemma_first_exception_found(values, 0);
    (first, second)
}

/// The call of a function written in the language is the evaluation of
/// its body in the scope that was made for the call: where the body
/// evaluates to a value, the call comes to that value on whatever stack it
/// stands, and the scope is given up if no scope has been made since.
pub proof fn law_call_evaluation(
    c: ContextView,
    base: Seq<FrameView>,
    body: ValueView,
    scope: int,
    after: ContextView,
    result: ValueView,
) -> (steps: nat)
    requires
        evaluates_to(c, body, scope, after, result),
    ensures
        spec_run(
            c,
            TaskView { control: ControlView::Enter { value: body, scope }, stack: base },
            steps,
        ) == (
            after.release(scope),
            TaskView { control: ControlView::Return { value: result }, stack: base },
        ),
{
    let start = TaskView { control: ControlView::Enter { value: body, scope }, stack: base };
    let frame = FrameView::Call { scope };
    let alone = spec_begin(body, scope);
    let entered = on_top_of(alone, base.push(frame));
    assert(entered.stack =~= base.push(frame));
    assert(spec_step(c, start) == (c, entered));
    lemma_one_step(c, start);
    let needed = choose|n: nat| spec_run(c, alone, n) == (after, spec_finished(result));
    let taken = lemma_run_on_top(c, alone, base.push(frame), needed, after, result);
    let returned = TaskView {
        control: ControlView::Return { value: result },
        stack: base.push(frame),
    };
    assert(base.push(frame).drop_last() =~= base);
    lemma_one_step(after, returned);
    lemma_run_in_parts(c, entered, taken, 1);
    lemma_run_in_parts(c, start, 1, taken + 1);
    1 + taken + 1
}

/// To split a task, run the parts one after another and join them is to
/// run the task: where the elements of the list that the task is about to
/// evaluate give the values, the task comes, after some number of steps,
/// to what joining those values gives.
pub proof fn law_join(
    c: ContextView,
    t: TaskView,
    contexts: Seq<ContextView>,
    values: Seq<ValueView>,
) -> (steps: nat)
    requires
        spec_split(t) matches Some(parts) && elements_give(
            parts.items,
            parts.scope,
            contexts,
            values,
        ),
        contexts[0] == c,
    ensures
        spec_run(c, t, steps) == spec_join(contexts[values.len() as int], t, values),
{
    let items = spec_split(t)->0.items;
    let scope = spec_split(t)->0.scope;
    let list = t.control->Eval_value;
    assert(t == about_to(list, scope, t.stack));
    law_list_evaluation(c, t.stack, list, items, scope, contexts, values)
}

/// What an evaluation comes to does not depend on how many steps it is
/// given: two runs of the same task that both halt have halted in the
/// same place.
pub proof fn law_result_is_unique(c: ContextView, t: TaskView, first: nat, second: nat)
    requires
        spec_run(c, t, first).1.halted(),
        spec_run(c, t, second).1.halted(),
    ensures
        spec_run(c, t, first) == spec_run(c, t, second),
{
    if first <= second {
        lemma_run_in_parts(c, t, first, (second - first) as nat);
        let there = spec_run(c, t, first);
        lemma_run_halted(there.0, there.1, (second - first) as nat);
    } else {
        lemma_run_in_parts(c, t, second, (first - second) as nat);
        let there = spec_run(c, t, second);
        lemma_run_halted(there.0, there.1, (first - second) as nat);
    }
}

/// A symbol that is not raw evaluates to what it is bound to as seen from
/// the scope, and to `undefined-ident` where it is bound nowhere; the
/// context stays as it is.
pub proof fn law_symbol_evaluation(c: ContextView, value: ValueView, scope: int)
    requires
        !value.raw,
        value.kind is Symbol,
    ensures
        evaluates_to(
            c,
            value,
            scope,
            c,
            match c.find(scope, value.kind->Symbol_0) {
                Some(bound) => bound,
                None => undefined_ident_view(value.kind->Symbol_0),
            },
        ),
{
    lemma_one_step(c, spec_begin(value, scope));
}

/// Bools, integers, floats, strings, functions and exceptions evaluate to
/// themselves, whatever their flags; the context stays as it is.
pub proof fn law_other_values_evaluate_to_themselves(c: ContextView, value: ValueView, scope: int)
    requires
        !(value.kind is Symbol),
        !(value.kind is List),
    ensures
        evaluates_to(c, value, scope, c, value),
{
    lemma_one_step(c, spec_begin(value, scope));
}

/// An evaluation together with its host: the context, the task, what the
/// host has been asked so far, in order, and the answers that it has yet
/// to give, in order.
pub struct Hosted {
    pub context: ContextView,
    pub task: TaskView,
    pub asked: Seq<RequestView>,
    pub answers: Seq<AnswerView>,
}

/// One step of an evaluation with its host: a task that waits for the
/// host has its request noted and goes on from the next answer, if one is
/// left; any other task takes a step of its own.
pub open spec fn hosted_step(h: Hosted) -> Hosted {
    match h.task.control {
        ControlView::Await { request } => {
            if h.answers.len() > 0 {
                Hosted {
                    context: h.context,
                    task: spec_resume(h.task, h.answers[0]),
                    asked: h.asked.push(request),
                    answers: h.answers.subrange(1, h.answers.len() as int),
                }
            } else {
                h
            }
        },
        _ => {
            let next = spec_step(h.context, h.task);
            Hosted { context: next.0, task: next.1, asked: h.asked, answers: h.answers }
        },
    }
}

/// So many steps of an evaluation with its host.
pub open spec fn hosted_run(h: Hosted, steps: nat) -> Hosted
    decreases steps,
{
    if steps == 0 {
        h
    } else {
        hosted_run(hosted_step(h), (steps - 1) as nat)
    }
}

/// Whether the evaluation of `value` in `scope`, begun in the context `c`
/// with a host that gives exactly these answers, comes to an end with
/// `result`, leaves the context `after`, and has asked the host exactly
/// this, in this order.
pub open spec fn evaluates_with_host(
    c: ContextView,
    value: ValueView,
    scope: int,
    answers: Seq<AnswerView>,
    after: ContextView,
    result: ValueView,
    asked: Seq<RequestView>,
) -> bool {
    exists|steps: nat|
        hosted_run(
            Hosted { context: c, task: spec_begin(value, scope), asked: Seq::empty(), answers },
            steps,
        ) == (Hosted {
            context: after,
            task: spec_finished(result),
            asked,
            answers: Seq::empty(),
        })
}

/// The parts from `from` up to `to`, one after another.
pub open spec fn joined<T>(parts: Seq<Seq<T>>, from: int, to: int) -> Seq<T>
    decreases to - from,
{
    if from < 0 || from >= to || to > parts.len() {
        Seq::empty()
    } else {
        parts[from] + joined(parts, from + 1, to)
    }
}

/// Whether the items evaluate one after another to the values as
/// `elements_give` says, each with a host that gives the answers of its
/// place and is asked what stands at its place.
pub open spec fn elements_ask(
    items: Seq<ValueView>,
    scope: int,
    contexts: Seq<ContextView>,
    values: Seq<ValueView>,
    answers: Seq<Seq<AnswerView>>,
    asked: Seq<Seq<RequestView>>,
) -> bool {
    &&& contexts.len() == items.len() + 1
    &&& values.len() == items.len()
    &&& answers.len() == items.len()
    &&& asked.len() == items.len()
    &&& forall|i: int|
        0 <= i < items.len() ==> evaluates_with_host(
            #[trigger] contexts[i],
            items[i],
            scope,
            answers[i],
            contexts[i + 1],
            values[i],
            asked[i],
        )
}

/// The number of elements of a list that are evaluated: in a sequential
/// list those up to the first that gives an exception, that one included;
/// in every other case all.
pub open spec fn evaluated(sequential: bool, values: Seq<ValueView>) -> int {
    let stop = first_exception_at(values, 0);
    if sequential && stop < values.len() {
        stop + 1
    } else {
        values.len() as int
    }
}

proof fn lemma_hosted_in_parts(h: Hosted, first: nat, second: nat)
    ensures
        hosted_run(h, first + second) == hosted_run(hosted_run(h, first), second),
    decreases first,
{
    if first > 0 {
        lemma_hosted_in_parts(hosted_step(h), (first - 1) as nat, second);
    }
}

proof fn lemma_hosted_fixed(h: Hosted, steps: nat)
    requires
        hosted_step(h) == h,
    ensures
        hosted_run(h, steps) == h,
    decreases steps,
{
    if steps > 0 {
        lemma_hosted_fixed(h, (steps - 1) as nat);
    }
}

/// An evaluation with its host that comes to an end alone comes to the
/// same end on top of any stack, after whatever the host was asked before
/// and with whatever answers are to follow, and leaves those answers.
proof fn lemma_hosted_on_top(
    c: ContextView,
    t: TaskView,
    before: Seq<RequestView>,
    answers: Seq<AnswerView>,
    steps: nat,
    after: ContextView,
    result: ValueView,
    asked: Seq<RequestView>,
    base: Seq<FrameView>,
    pre: Seq<RequestView>,
    more: Seq<AnswerView>,
) -> (taken: nat)
    requires
        hosted_run(Hosted { context: c, task: t, asked: before, answers }, steps) == (Hosted {
            context: after,
            task: spec_finished(result),
            asked,
            answers: Seq::empty(),
        }),
    ensures
        hosted_run(
            Hosted {
                context: c,
                task: on_top_of(t, base),
                asked: pre + before,
                answers: answers + more,
            },
            taken,
        ) == (Hosted {
            context: after,
            task: TaskView { control: ControlView::Return { value: result }, stack: base },
            asked: pre + asked,
            answers: more,
        }),
    decreases steps,
{
    let alone = Hosted { context: c, task: t, asked: before, answers };
    let lifted = Hosted {
        context: c,
        task: on_top_of(t, base),
        asked: pre + before,
        answers: answers + more,
    };
    if t.control is Return && t.stack.len() == 0 {
        assert(hosted_step(alone) == alone);
        lemma_hosted_fixed(alone, steps);
        assert(on_top_of(t, base).stack =~= base);
        assert(answers + more =~= more);
        0
    } else if t.control is Await && answers.len() == 0 {
        assert(hosted_step(alone) == alone);
        lemma_hosted_fixed(alone, steps);
        0
    } else {
        assert(steps > 0);
        let next = hosted_step(alone);
        if t.control is Await {
            let request = t.control->Await_request;
            assert((answers + more)[0] == answers[0]);
            assert((answers + more).subrange(1, (answers + more).len() as int)
                =~= answers.subrange(1, answers.len() as int) + more);
            assert((pre + before).push(request) =~= pre + before.push(request));
            assert(spec_resume(on_top_of(t, base), answers[0]) == on_top_of(
                spec_resume(t, answers[0]),
                base,
            ));
        } else {
            lemma_step_on_top(c, t, base);
        }
        let taken = lemma_hosted_on_top(
            next.context,
            next.task,
            next.asked,
            next.answers,
            (steps - 1) as nat,
            after,
            result,
            asked,
            base,
            pre,
            more,
        );
        let lifted_next = Hosted {
            context: next.context,
            task: on_top_of(next.task, base),
            asked: pre + next.asked,
            answers: next.answers + more,
        };
        assert(hosted_step(lifted) == lifted_next);
        taken + 1
    }
}

/// From the item at `at` on, a list whose elements give the values and
/// ask their hosts comes to its result, having asked what its elements
/// asked, one element after another.
proof fn lemma_hosted_list_from(
    base: Seq<FrameView>,
    items: Seq<ValueView>,
    scope: int,
    sequential: bool,
    contexts: Seq<ContextView>,
    values: Seq<ValueView>,
    answers: Seq<Seq<AnswerView>>,
    asked: Seq<Seq<RequestView>>,
    pre: Seq<RequestView>,
    at: int,
) -> (steps: nat)
    requires
        0 <= at < items.len(),
        elements_ask(items, scope, contexts, values, answers, asked),
        sequential ==> at <= first_exception_at(values, 0),
    ensures
        hosted_run(
            Hosted {
                context: contexts[at],
                task: task_at(base, items, values, scope, sequential, at),
                asked: pre,
                answers: joined(answers, at, evaluated(sequential, values)),
            },
            steps,
        ) == (Hosted {
            context: list_result(sequential, scope, contexts, values).0,
            task: TaskView {
                control: list_result(sequential, scope, contexts, values).1,
                stack: base,
            },
            asked: pre + joined(asked, at, evaluated(sequential, values)),
            answers: Seq::empty(),
        }),
    decreases items.len() - at,
{
    let inner = frame_at(items, values, scope, sequential, at);
    let frame = FrameView::List(inner);
    let start = task_at(base, items, values, scope, sequential, at);
    let alone = spec_begin(items[at], scope);
    let count = evaluated(sequential, values);
    lemma_first_exception_found(values, 0);
    let stop = first_exception_at(values, 0);
    assert(at < count);
    let more = joined(answers, at + 1, count);
    assert(joined(answers, at, count) == answers[at] + more);
    assert(joined(asked, at, count) == asked[at] + joined(asked, at + 1, count));
    assert(on_top_of(alone, base.push(frame)).stack =~= base.push(frame));
    assert(on_top_of(alone, base.push(frame)) == start);
    let needed = choose|n: nat|
        hosted_run(
            Hosted {
                context: contexts[at],
                task: alone,
                asked: Seq::empty(),
                answers: answers[at],
            },
            n,
        ) == (Hosted {
            context: contexts[at + 1],
            task: spec_finished(values[at]),
            asked: asked[at],
            answers: Seq::empty(),
        });
    let taken = lemma_hosted_on_top(
        contexts[at],
        alone,
        Seq::empty(),
        answers[at],
        needed,
        contexts[at + 1],
        values[at],
        asked[at],
        base.push(frame),
        pre,
        more,
    );
    assert(pre + Seq::<RequestView>::empty() =~= pre);
    let begun = Hosted {
        context: contexts[at],
        task: start,
        asked: pre,
        answers: joined(answers, at, count),
    };
    let returned = Hosted {
        context: contexts[at + 1],
        task: TaskView {
            control: ControlView::Return { value: values[at] },
            stack: base.push(frame),
        },
        asked: pre + asked[at],
        answers: more,
    };
    assert(hosted_run(begun, taken) == returned);
    let settled = spec_settle(contexts[at + 1], base.push(frame), values[at]);
    assert(base.push(frame).drop_last() =~= base);
    assert(settled == spec_evaluate_list(contexts[at + 1], base, inner, values[at]));
    assert(inner.done.push(values[at]) =~= values.subrange(0, at + 1));
    let after = Hosted {
        context: settled.0,
        task: settled.1,
        asked: pre + asked[at],
        answers: more,
    };
    assert(hosted_step(returned) == after);
    assert(hosted_run(returned, 1) == after) by {
        assert(hosted_run(after, 0) == after);
    }
    lemma_hosted_in_parts(begun, taken, 1);
    if sequential && values[at].kind is Exception {
        if at < stop {
            lemma_first_exception_at(values, 0, at);
        }
        assert(stop == at);
        assert(more =~= Seq::<AnswerView>::empty());
        assert(pre + joined(asked, at, count) =~= pre + asked[at]);
        taken + 1
    } else if at + 1 < items.len() {
        assert(inner.pending[0] == items[at + 1]);
        assert(inner.pending.subrange(1, inner.pending.len() as int) =~= items.subrange(
            at + 2,
            items.len() as int,
        ));
        if sequential {
            lemma_first_exception_at(values, 0, at);
        }
        let rest = lemma_hosted_list_from(
            base,
            items,
            scope,
            sequential,
            contexts,
            values,
            answers,
            asked,
            pre + asked[at],
            at + 1,
        );
        assert((pre + asked[at]) + joined(asked, at + 1, count) =~= pre + joined(
            asked,
            at,
            count,
        ));
        lemma_hosted_in_parts(begun, taken + 1, rest);
        taken + 1 + rest
    } else {
        assert(values.subrange(0, at + 1) =~= values);
        if sequential {
            lemma_first_exception_at(values, 0, at);
        }
        assert(count == items.len());
        assert(more =~= Seq::<AnswerView>::empty());
        assert(pre + joined(asked, at, count) =~= pre + asked[at]);
        taken + 1
    }
}

/// What a list asks of the host, it asks element by element: where the
/// elements give the values, each with a host of its own, the list comes
/// to its result with a host that gives the answers of the first element,
/// then those of the second, and so on, and it has then asked what the
/// first element asked, then what the second asked, and so on. Of a
/// sequential list only the elements up to the first exception are
/// evaluated: nothing is asked for any element after it.
pub proof fn law_order_of_requests(
    c: ContextView,
    base: Seq<FrameView>,
    list: ValueView,
    items: Seq<ValueView>,
    scope: int,
    contexts: Seq<ContextView>,
    values: Seq<ValueView>,
    answers: Seq<Seq<AnswerView>>,
    asked: Seq<Seq<RequestView>>,
) -> (steps: nat)
    requires
        !list.raw,
        list.kind == KindView::List(items),
        items.len() > 0,
        elements_ask(items, scope, contexts, values, answers, asked),
        contexts[0] == c,
    ensures
        hosted_run(
            Hosted {
                context: c,
                task: about_to(list, scope, base),
                asked: Seq::empty(),
                answers: joined(answers, 0, evaluated(list.sequential, values)),
            },
            steps,
        ) == (Hosted {
            context: list_result(list.sequential, scope, contexts, values).0,
            task: TaskView {
                control: list_result(list.sequential, scope, contexts, values).1,
                stack: base,
            },
            asked: joined(asked, 0, evaluated(list.sequential, values)),
            answers: Seq::empty(),
        }),
{
    let count = evaluated(list.sequential, values);
    let start = Hosted {
        context: c,
        task: about_to(list, scope, base),
        asked: Seq::empty(),
        answers: joined(answers, 0, count),
    };
    let first = Hosted {
        context: c,
        task: task_at(base, items, values, scope, list.sequential, 0),
        asked: Seq::empty(),
        answers: joined(answers, 0, count),
    };
    assert(values.subrange(0, 0) =~= Seq::<ValueView>::empty());
    assert(hosted_step(start) == first);
    assert(hosted_run(start, 1) == first) by {
        assert(hosted_run(first, 0) == first);
    }
    lemma_first_exception_found(values, 0);
    let rest = lemma_hosted_list_from(
        base,
        items,
        scope,
        list.sequential,
        contexts,
        values,
        answers,
        asked,
        Seq::empty(),
        0,
    );
    assert(Seq::<RequestView>::empty() + joined(asked, 0, count) =~= joined(asked, 0, count));
    lemma_hosted_in_parts(start, 1, rest);
    1 + rest
}

} // verus!
