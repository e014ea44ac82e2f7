//! The functions that define and decide: `def`, `defn`, `fn`, `list`,
//! `do`, `do_`, `if`, `atom` and `cond`.

use super::functions_for;
use crate::exception::{too_few_view, too_many_view, wrong_type_view, Exception};
use crate::executor::{Context, ContextView, Control, ControlView};
use crate::function::{Builtin, Callable, Function, Lambda};
use crate::list::{share, List};
use crate::text::{ascii, literal};
use crate::value::{
    clone_bytes, handles_of, handles_view, lemma_list_view, list_view, names_view, simple_view,
    unit_view, CallableView, FunctionView, KindView, LambdaView, Value, ValueKind, ValueView,
};
use std::sync::Arc;
use vstd::prelude::*;

verus! {

/// The functions of this file, in the order in which they are bound.
pub open spec fn lang_builtins() -> Seq<Builtin> {
    seq![
        Builtin::Def,
        Builtin::Defn,
        Builtin::Lambda,
        Builtin::List,
        Builtin::Do,
        Builtin::DoDiscard,
        Builtin::If,
        Builtin::Atom,
        Builtin::Cond,
    ]
}

/// The functions of this file, each under its own name.
pub fn builtins() -> (r: Vec<Function>)
    ensures
        super::functions_view(r@) == lang_builtins().map_values(
            |b: Builtin| crate::function::builtin_view(b),
        ),
{
    let which = vec![
        Builtin::Def,
        Builtin::Defn,
        Builtin::Lambda,
        Builtin::List,
        Builtin::Do,
        Builtin::DoDiscard,
        Builtin::If,
        Builtin::Atom,
        Builtin::Cond,
    ];
    assert(which@ =~= lang_builtins());
    functions_for(&which)
}

/// `too-few-arguments` as a value.
pub fn too_few(expected: i64) -> (r: Arc<Value>)
    ensures
        r@ == too_few_view(expected),
{
    Exception::too_few_arguments(expected).to_value()
}

/// `too-many-arguments` as a value.
pub fn too_many(expected: i64) -> (r: Arc<Value>)
    ensures
        r@ == too_many_view(expected),
{
    Exception::too_many_arguments(expected).to_value()
}

/// `wrong-type` for a value that is no symbol.
pub fn expected_ident(val: Arc<Value>) -> (r: Arc<Value>)
    ensures
        r@ == wrong_type_view(ascii("ident"@), val@),
{
    proof {
        reveal_strlit("ident");
        crate::text::lemma_ascii_bytes("ident");
    }
    Exception::wrong_type("ident", val).to_value()
}

/// `wrong-type` for a value that is no list.
pub fn expected_list(val: Arc<Value>) -> (r: Arc<Value>)
    ensures
        r@ == wrong_type_view(ascii("list"@), val@),
{
    proof {
        reveal_strlit("list");
        crate::text::lemma_ascii_bytes("list");
    }
    Exception::wrong_type("list", val).to_value()
}

/// `wrong-type` for a value that is no bool.
pub fn expected_bool(val: Arc<Value>) -> (r: Arc<Value>)
    ensures
        r@ == wrong_type_view(ascii("bool"@), val@),
{
    proof {
        reveal_strlit("bool");
        crate::text::lemma_ascii_bytes("bool");
    }
    Exception::wrong_type("bool", val).to_value()
}

/// `wrong-type` for a value that is no number.
pub fn expected_number(val: Arc<Value>) -> (r: Arc<Value>)
    ensures
        r@ == wrong_type_view(ascii("number"@), val@),
{
    proof {
        reveal_strlit("number");
        crate::text::lemma_ascii_bytes("number");
    }
    Exception::wrong_type("number", val).to_value()
}

/// `def ident value` binds the name to the value in the scope in which it
/// is called, and gives the value.
pub open spec fn spec_def(c: ContextView, scope: int, args: Seq<ValueView>) -> (
    ContextView,
    ValueView,
) {
    if args.len() == 0 {
        (c, too_few_view(2))
    } else if !(args[0].kind is Symbol) {
        (c, wrong_type_view(ascii("ident"@), args[0]))
    } else if args.len() == 1 {
        (c, too_few_view(2))
    } else if args.len() > 2 {
        (c, too_many_view(2))
    } else {
        (c.define(scope, args[0].kind->Symbol_0, args[1]), args[1])
    }
}

/// `def ident value`
pub fn def(ctx: &mut Context, scope: usize, args: List<Value>) -> (r: Arc<Value>)
    ensures
        (final(ctx)@, r@) == spec_def(old(ctx)@, scope as int, list_view(args)),
{
    let items = handles_of(&args);
    if items.len() == 0 {
        return too_few(2);
    }
    let name = match &items[0].kind {
        ValueKind::Symbol(name) => clone_bytes(name),
        _ => {
            return expected_ident(share(&items[0]));
        },
    };
    if items.len() == 1 {
        return too_few(2);
    }
    if items.len() > 2 {
        return too_many(2);
    }
    ctx.define(scope, name, share(&items[1]));
    share(&items[1])
}

/// The first of the values from `from` on that is no symbol.
pub open spec fn first_non_symbol(params: Seq<ValueView>, from: int) -> Option<ValueView>
    decreases params.len() - from,
{
    if from < 0 || from >= params.len() {
        None
    } else if params[from].kind is Symbol {
        first_non_symbol(params, from + 1)
    } else {
        Some(params[from])
    }
}

/// The names of symbols.
pub open spec fn symbol_names(params: Seq<ValueView>) -> Seq<Seq<u8>> {
    params.map_values(|v: ValueView| v.kind->Symbol_0)
}

/// A new function from a list of parameter names and a body. The body is
/// kept with its flags cleared. The function keeps a fork of the scope in
/// which it is made. A parameter list and a body are taken, and 2 is the
/// count that is reported where there are fewer or more.
pub open spec fn spec_create_function(
    c: ContextView,
    scope: int,
    name: Seq<u8>,
    args: Seq<ValueView>,
) -> (ContextView, ValueView) {
    if args.len() == 0 {
        (c, too_few_view(2))
    } else if !(args[0].kind is List) {
        (c, wrong_type_view(ascii("list"@), args[0]))
    } else if args.len() == 1 {
        (c, too_few_view(2))
    } else if args.len() > 2 {
        (c, too_many_view(2))
    } else {
        let params = args[0].kind->List_0;
        match first_non_symbol(params, 0) {
            Some(val) => (c, wrong_type_view(ascii("ident"@), val)),
            None => (
                c.fork(scope),
                simple_view(
                    KindView::Function(
                        FunctionView {
                            name,
                            call: CallableView::Lambda(
                                LambdaView {
                                    params: symbol_names(params),
                                    body: Box::new(simple_view(args[1].kind)),
                                    scope: c.scopes.len() as int,
                                },
                            ),
                        },
                    ),
                ),
            ),
        }
    }
}

#[verifier::loop_isolation(false)]
fn create_function(
    ctx: &mut Context,
    scope: usize,
    name: Vec<u8>,
    items: &Vec<Arc<Value>>,
    from: usize,
) -> (r: Arc<Value>)
    requires
        from <= items@.len(),
    ensures
        (final(ctx)@, r@) == spec_create_function(
            old(ctx)@,
            scope as int,
            name@,
            handles_view(items@).subrange(from as int, items@.len() as int),
        ),
{
    let ghost args = handles_view(items@).subrange(from as int, items@.len() as int);
    if items.len() - from == 0 {
        return too_few(2);
    }
    assert(args[0] == items@[from as int]@);
    let params = match &items[from].kind {
        ValueKind::List(params) => handles_of(params),
        _ => {
            return expected_list(share(&items[from]));
        },
    };
    if items.len() - from == 1 {
        return too_few(2);
    }
    if items.len() - from > 2 {
        return too_many(2);
    }
    assert(args[1] == items@[from + 1]@);
    let ghost views = args[0].kind->List_0;
    assert(views == handles_view(params@));
    let mut names: Vec<Vec<u8>> = Vec::new();
    let mut i: usize = 0;
    while i < params.len()
        invariant
            i <= params@.len(),
            views == handles_view(params@),
            names@.len() == i,
            first_non_symbol(views, 0) == first_non_symbol(views, i as int),
            forall|j: int| 0 <= j < i ==> (#[trigger] views[j]).kind is Symbol,
            forall|j: int| 0 <= j < i ==> (#[trigger] names@[j])@ == views[j].kind->Symbol_0,
        decreases params@.len() - i,
    {
        assert(views[i as int] == params@[i as int]@);
        match &params[i].kind {
            ValueKind::Symbol(param) => {
                let ghost before = names@;
                names.push(clone_bytes(param));
                assert(views[i as int].kind == KindView::Symbol(param@));
                assert(names@[i as int]@ == param@);
                assert forall|j: int| 0 <= j < i + 1 implies (#[trigger] names@[j])@
                    == views[j].kind->Symbol_0 by {
                    if j < i {
                        assert(names@[j] == before[j]);
                    }
                }
            },
            _ => {
                return expected_ident(share(&params[i]));
            },
        }
        i = i + 1;
    }
    assert(names_view(names@) =~= symbol_names(views));
    let body = Value::simple(items[from + 1].kind.clone());
    let captured = ctx.fork(scope);
    Value::simple(
        ValueKind::Function(
            Function { name, call: Callable::Lambda(Lambda { params: names, body, scope: captured }) },
        ),
    )
}

/// `defn name (arg…) body` makes a function, binds it to the name in the
/// scope in which it is called, and gives it. What is bound is whatever
/// making the function gave. Without any argument, too few are reported
/// with the count 2; after the name, the counts are those of `fn`.
pub open spec fn spec_defn(c: ContextView, scope: int, args: Seq<ValueView>) -> (
    ContextView,
    ValueView,
) {
    if args.len() == 0 {
        (c, too_few_view(2))
    } else if !(args[0].kind is Symbol) {
        (c, wrong_type_view(ascii("ident"@), args[0]))
    } else {
        let name = args[0].kind->Symbol_0;
        let made = spec_create_function(c, scope, name, args.subrange(1, args.len() as int));
        (made.0.define(scope, name, made.1), made.1)
    }
}

/// `defn name (arg…) body`
pub fn defn(ctx: &mut Context, scope: usize, args: List<Value>) -> (r: Arc<Value>)
    ensures
        (final(ctx)@, r@) == spec_defn(old(ctx)@, scope as int, list_view(args)),
{
    let items = handles_of(&args);
    if items.len() == 0 {
        return too_few(2);
    }
    let name = match &items[0].kind {
        ValueKind::Symbol(name) => clone_bytes(name),
        _ => {
            return expected_ident(share(&items[0]));
        },
    };
    let func = create_function(ctx, scope, clone_bytes(&name), &items, 1);
    ctx.define(scope, name, share(&func));
    func
}

/// `fn (arg…) body` makes a function that is shown as `<lambda>`.
pub open spec fn spec_func_literal(c: ContextView, scope: int, args: Seq<ValueView>) -> (
    ContextView,
    ValueView,
) {
    spec_create_function(c, scope, ascii("<lambda>"@), args)
}

/// `fn (arg…) body`
pub fn func_literal(ctx: &mut Context, scope: usize, args: List<Value>) -> (r: Arc<Value>)
    ensures
        (final(ctx)@, r@) == spec_func_literal(old(ctx)@, scope as int, list_view(args)),
{
    proof {
        reveal_strlit("<lambda>");
    }
    let items = handles_of(&args);
    assert(handles_view(items@).subrange(0, items@.len() as int) =~= handles_view(items@));
    create_function(ctx, scope, literal("<lambda>"), &items, 0)
}

/// `list a…` gives the list of its arguments.
pub open spec fn spec_create_list(args: Seq<ValueView>) -> ValueView {
    simple_view(KindView::List(args))
}

/// `list a…`
pub fn create_list(args: List<Value>) -> (r: Arc<Value>)
    ensures
        r@ == spec_create_list(list_view(args)),
{
    Value::simple(ValueKind::List(args))
}

/// `do a…` gives its last argument, and the empty list where it has
/// none.
pub open spec fn spec_do_return(args: Seq<ValueView>) -> ValueView {
    if args.len() == 0 {
        unit_view()
    } else {
        args.last()
    }
}

/// `do a…`
pub fn do_return(args: List<Value>) -> (r: Arc<Value>)
    ensures
        r@ == spec_do_return(list_view(args)),
{
    proof {
        lemma_list_view(args);
    }
    match args.last() {
        Some(last) => last,
        None => Value::unit(),
    }
}

/// `do_ …` gives the empty list, whatever its arguments.
pub fn do_discard(args: List<Value>) -> (r: Arc<Value>)
    ensures
        r@ == unit_view(),
{
    Value::unit()
}

/// `if pred then [else]` chooses a branch by a bool and has it evaluated
/// once more, with its flags cleared; a missing `else` is the empty list.
pub open spec fn spec_if(scope: int, args: Seq<ValueView>) -> ControlView {
    if args.len() == 0 {
        ControlView::Return { value: too_few_view(2) }
    } else if !(args[0].kind is Bool) {
        ControlView::Return { value: wrong_type_view(ascii("bool"@), args[0]) }
    } else if args.len() == 1 {
        ControlView::Return { value: too_few_view(2) }
    } else if args.len() > 3 {
        ControlView::Return { value: too_many_view(1) }
    } else {
        let if_false = if args.len() == 3 {
            args[2]
        } else {
            unit_view()
        };
        let chosen = if args[0].kind->Bool_0 {
            args[1]
        } else {
            if_false
        };
        ControlView::Eval { value: simple_view(chosen.kind), scope }
    }
}

/// `if pred then [else]`
pub fn if_func(scope: usize, args: List<Value>) -> (r: Control)
    ensures
        r@ == spec_if(scope as int, list_view(args)),
{
    let items = handles_of(&args);
    if items.len() == 0 {
        return Control::Return { value: too_few(2) };
    }
    let pred = match &items[0].kind {
        ValueKind::Bool(pred) => *pred,
        _ => {
            return Control::Return { value: expected_bool(share(&items[0])) };
        },
    };
    if items.len() == 1 {
        return Control::Return { value: too_few(2) };
    }
    if items.len() > 3 {
        return Control::Return { value: too_many(1) };
    }
    let if_false = if items.len() == 3 {
        share(&items[2])
    } else {
        Value::unit()
    };
    let chosen = if pred {
        share(&items[1])
    } else {
        if_false
    };
    Control::Eval { value: Value::simple(chosen.kind.clone()), scope }
}

/// What counts as true: all but `false` and the empty list.
pub open spec fn spec_truish(v: ValueView) -> bool {
    match v.kind {
        KindView::Bool(b) => b,
        KindView::List(items) => items.len() != 0,
        _ => true,
    }
}

fn truish(val: &Value) -> (r: bool)
    ensures
        r == spec_truish(val@),
{
    match &val.kind {
        ValueKind::Bool(b) => *b,
        ValueKind::List(items) => {
            proof {
                lemma_list_view(*items);
            }
            items.len() != 0
        },
        _ => true,
    }
}

/// `atom x` says whether `x` is anything but a list that holds
/// something.
pub open spec fn spec_atom(args: Seq<ValueView>) -> ValueView {
    if args.len() == 0 {
        too_few_view(1)
    } else if args.len() > 1 {
        too_many_view(1)
    } else {
        match args[0].kind {
            KindView::List(items) => simple_view(KindView::Bool(items.len() == 0)),
            _ => simple_view(KindView::Bool(true)),
        }
    }
}

/// `atom x`
pub fn atom(args: List<Value>) -> (r: Arc<Value>)
    ensures
        r@ == spec_atom(list_view(args)),
{
    let items = handles_of(&args);
    if items.len() == 0 {
        return too_few(1);
    }
    if items.len() > 1 {
        return too_many(1);
    }
    match &items[0].kind {
        ValueKind::List(list) => {
            proof {
                lemma_list_view(*list);
            }
            Value::simple(ValueKind::Bool(list.len() == 0))
        },
        _ => Value::simple(ValueKind::Bool(true)),
    }
}

/// What `cond` gives for the branches from `from` on: the first branch
/// that counts as true decides. A branch that is a list counts by its
/// first element and gives its last; an empty list is passed over. Any
/// other branch counts and gives itself. Where no branch counts, the
/// empty list is given.
pub open spec fn spec_cond_from(args: Seq<ValueView>, from: int) -> ValueView
    decreases args.len() - from,
{
    if from < 0 || from >= args.len() {
        unit_view()
    } else {
        match args[from].kind {
            KindView::List(items) => {
                if items.len() > 0 && spec_truish(items[0]) {
                    items.last()
                } else {
                    spec_cond_from(args, from + 1)
                }
            },
            _ => {
                if spec_truish(args[from]) {
                    args[from]
                } else {
                    spec_cond_from(args, from + 1)
                }
            },
        }
    }
}

/// `cond branch…`
pub open spec fn spec_cond(args: Seq<ValueView>) -> ValueView {
    spec_cond_from(args, 0)
}

/// `cond branch…`
pub fn cond(args: List<Value>) -> (r: Arc<Value>)
    ensures
        r@ == spec_cond(list_view(args)),
{
    let items = handles_of(&args);
    let mut i: usize = 0;
    while i < items.len()
        invariant
            i <= items@.len(),
            handles_view(items@) == list_view(args),
            spec_cond(list_view(args)) == spec_cond_from(list_view(args), i as int),
        decreases items@.len() - i,
    {
        match &items[i].kind {
            ValueKind::List(list) => {
                let branch = handles_of(list);
                if branch.len() > 0 && truish(&branch[0]) {
                    return share(&branch[branch.len() - 1]);
                }
            },
            _ => {
                if truish(&items[i]) {
                    return share(&items[i]);
                }
            },
        }
        i = i + 1;
    }
    Value::unit()
}

} // verus!
