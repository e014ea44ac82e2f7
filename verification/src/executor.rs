//! Evaluation contexts, and evaluation step by step.
//!
//! A context holds the scopes of one session. A scope binds names to
//! values and may have a parent; a name is looked up in a scope, then in
//! its parent, and so on outwards. A scope is known by its number. Forking
//! a scope makes a new one that starts with a copy of the bindings and has
//! the forked scope as its parent: what is defined in the new scope later
//! is not seen from the old one, and what is defined in the old one later
//! is still found from the new one, through the parent.
//!
//! An evaluation is a task: what is to be done next, and a stack of what
//! waits for a value: the lists whose elements are being evaluated, and
//! the calls whose bodies are. A step does the next thing.
//! A task halts when the value has been found, and also when the host is
//! needed: then it holds a request, and goes on from the answer. Nothing
//! here waits, prints or computes with floats, and no step takes longer
//! than the values at hand are large, so whoever runs a task decides how
//! long it may run.

use crate::exception::{
    not_a_function_view, too_few_view, too_many_view, undefined_ident_view, unknown_scope_view,
    Exception,
};
use crate::function::builtins::lang::{too_few, too_many};
use crate::function::builtins::list as lists;
use crate::function::builtins::{all_builtins, builtins, functions_view, io, lang, math};
use crate::function::{builtin_name, builtin_view, Builtin, Callable, Lambda};
use crate::host::{
    answer_value, answer_view, Answer, AnswerView, BinaryOp, CompareOp, FoldOp, Request,
    RequestView,
};
use crate::list::{share, List};
use crate::text::{ascii, literal};
use crate::value::{
    clone_bytes, handles_of, handles_view, list_from, list_view, names_view, simple_view,
    take_first, unit_view, CallableView, KindView, LambdaView, Value, ValueKind, ValueView,
};
use std::sync::Arc;
use vstd::prelude::*;

verus! {

/// What is to be done next.
#[derive(Debug)]
pub enum Control {
    /// The value is to be evaluated in the scope.
    Eval { value: Arc<Value>, scope: usize },
    /// A function written in the language has been called: the value is
    /// its body, and the scope was made for the call.
    Enter { value: Arc<Value>, scope: usize },
    /// The value has been found.
    Return { value: Arc<Value> },
    /// The host has been asked and its answer is waited for.
    Await { request: Request },
}

/// The model of what is to be done next.
pub enum ControlView {
    Eval { value: ValueView, scope: int },
    Enter { value: ValueView, scope: int },
    Return { value: ValueView },
    Await { request: RequestView },
}

impl View for Control {
    type V = ControlView;

    open spec fn view(&self) -> ControlView {
        match self {
            Control::Eval { value, scope } => ControlView::Eval {
                value: value@,
                scope: *scope as int,
            },
            Control::Enter { value, scope } => ControlView::Enter {
                value: value@,
                scope: *scope as int,
            },
            Control::Return { value } => ControlView::Return { value: value@ },
            Control::Await { request } => ControlView::Await { request: request@ },
        }
    }
}

/// A name and the value bound to it.
#[derive(Debug)]
pub struct Binding {
    pub name: Vec<u8>,
    pub value: Arc<Value>,
}

/// The bindings of one scope, oldest first, and its parent.
#[derive(Debug)]
pub struct Scope {
    names: Vec<Binding>,
    parent: Option<usize>,
}

/// The scopes of one session, by number; the root has the number 0.
#[derive(Debug)]
pub struct Context {
    scopes: Vec<Scope>,
}

/// The model of a scope: its bindings as a map, and its parent.
pub struct ScopeView {
    pub names: Map<Seq<u8>, ValueView>,
    pub parent: Option<int>,
}

/// The model of a context: its scopes by number.
pub struct ContextView {
    pub scopes: Seq<ScopeView>,
}

/// The models of the bindings of a scope, oldest first.
pub open spec fn bindings_view(names: Seq<Binding>) -> Seq<(Seq<u8>, ValueView)> {
    names.map_values(|b: Binding| (b.name@, b.value@))
}

/// The map that a sequence of bindings stands for: a later binding of a
/// name takes the place of an earlier one.
pub open spec fn bindings_map(pairs: Seq<(Seq<u8>, ValueView)>) -> Map<Seq<u8>, ValueView>
    decreases pairs.len(),
{
    if pairs.len() == 0 {
        Map::empty()
    } else {
        bindings_map(pairs.drop_last()).insert(pairs.last().0, pairs.last().1)
    }
}

/// The model of a scope.
pub closed spec fn scope_view(scope: Scope) -> ScopeView {
    ScopeView {
        names: bindings_map(bindings_view(scope.names@)),
        parent: match scope.parent {
            Some(p) => Some(p as int),
            None => None,
        },
    }
}

impl ContextView {
    /// Whether `scope` is the number of a scope of this context.
    pub open spec fn has_scope(self, scope: int) -> bool {
        0 <= scope < self.scopes.len()
    }

    /// What `name` is bound to as seen from `scope`: the binding in the
    /// scope itself, else what its parent sees.
    pub open spec fn find(self, scope: int, name: Seq<u8>) -> Option<ValueView>
        decreases scope,
    {
        if !self.has_scope(scope) {
            None
        } else if self.scopes[scope].names.contains_key(name) {
            Some(self.scopes[scope].names[name])
        } else {
            match self.scopes[scope].parent {
                Some(parent) => if 0 <= parent < scope {
                    self.find(parent, name)
                } else {
                    None
                },
                None => None,
            }
        }
    }

    /// The context with `name` bound to `value` in `scope`.
    pub open spec fn define(self, scope: int, name: Seq<u8>, value: ValueView) -> ContextView {
        if self.has_scope(scope) {
            ContextView {
                scopes: self.scopes.update(
                    scope,
                    ScopeView {
                        names: self.scopes[scope].names.insert(name, value),
                        parent: self.scopes[scope].parent,
                    },
                ),
            }
        } else {
            self
        }
    }

    /// The context with one more scope, forked from `scope`. The new scope
    /// has the number `self.scopes.len()`. A fork of what is no scope of
    /// this context starts without bindings.
    pub open spec fn fork(self, scope: int) -> ContextView {
        ContextView {
            scopes: self.scopes.push(
                ScopeView {
                    names: if self.has_scope(scope) {
                        self.scopes[scope].names
                    } else {
                        Map::empty()
                    },
                    parent: Some(scope),
                },
            ),
        }
    }

    /// The context without its last scope, where that is `scope` and not
    /// the root; in every other case the context as it is.
    pub open spec fn release(self, scope: int) -> ContextView {
        if scope > 0 && scope + 1 == self.scopes.len() {
            ContextView { scopes: self.scopes.drop_last() }
        } else {
            self
        }
    }

    /// The context of a new session: one scope without bindings.
    pub open spec fn fresh() -> ContextView {
        ContextView { scopes: seq![ScopeView { names: Map::empty(), parent: None }] }
    }
}

proof fn lemma_bindings_lookup(pairs: Seq<(Seq<u8>, ValueView)>, name: Seq<u8>, at: int)
    requires
        0 <= at < pairs.len(),
        pairs[at].0 == name,
        forall|j: int| at < j < pairs.len() ==> (#[trigger] pairs[j]).0 != name,
    ensures
        bindings_map(pairs).contains_key(name),
        bindings_map(pairs)[name] == pairs[at].1,
    decreases pairs.len(),
{
    if at < pairs.len() - 1 {
        lemma_bindings_lookup(pairs.drop_last(), name, at);
    }
}

proof fn lemma_bindings_missing(pairs: Seq<(Seq<u8>, ValueView)>, name: Seq<u8>)
    requires
        forall|j: int| 0 <= j < pairs.len() ==> (#[trigger] pairs[j]).0 != name,
    ensures
        !bindings_map(pairs).contains_key(name),
    decreases pairs.len(),
{
    if pairs.len() > 0 {
        lemma_bindings_missing(pairs.drop_last(), name);
    }
}

proof fn lemma_bindings_replace(
    pairs: Seq<(Seq<u8>, ValueView)>,
    name: Seq<u8>,
    at: int,
    value: ValueView,
)
    requires
        0 <= at < pairs.len(),
        pairs[at].0 == name,
        forall|j: int| at < j < pairs.len() ==> (#[trigger] pairs[j]).0 != name,
    ensures
        bindings_map(pairs.update(at, (name, value))) == bindings_map(pairs).insert(name, value),
    decreases pairs.len(),
{
    let updated = pairs.update(at, (name, value));
    if at == pairs.len() - 1 {
        assert(updated.drop_last() =~= pairs.drop_last());
        assert(bindings_map(updated) =~= bindings_map(pairs).insert(name, value));
    } else {
        lemma_bindings_replace(pairs.drop_last(), name, at, value);
        assert(updated.drop_last() =~= pairs.drop_last().update(at, (name, value)));
        assert(updated.last() == pairs.last());
        assert(bindings_map(updated) =~= bindings_map(pairs).insert(name, value));
    }
}

impl View for Scope {
    type V = ScopeView;

    closed spec fn view(&self) -> ScopeView {
        scope_view(*self)
    }
}

impl Scope {
    /// The place of the latest binding of `name`, if it has one.
    fn position(&self, name: &Vec<u8>) -> (r: Option<usize>)
        ensures
            match r {
                Some(at) => at < self.names@.len() && self.names@[at as int].name@ == name@
                    && self@.names.contains_key(name@) && self@.names[name@]
                    == self.names@[at as int].value@ && forall|j: int|
                    at < j < self.names@.len() ==> (#[trigger] bindings_view(self.names@)[j]).0
                        != name@,
                None => !self@.names.contains_key(name@),
            },
    {
        let ghost pairs = bindings_view(self.names@);
        let mut i = self.names.len();
        while i > 0
            invariant
                i <= self.names@.len(),
                pairs == bindings_view(self.names@),
                forall|j: int| i <= j < pairs.len() ==> (#[trigger] pairs[j]).0 != name@,
            decreases i,
        {
            i = i - 1;
            if self.names[i].name == *name {
                proof {
                    assert(pairs[i as int].0 == name@);
                    lemma_bindings_lookup(pairs, name@, i as int);
                }
                return Some(i);
            }
            assert(pairs[i as int].0 != name@);
        }
        proof {
            lemma_bindings_missing(pairs, name@);
        }
        None
    }

    fn get(&self, name: &Vec<u8>) -> (r: Option<Arc<Value>>)
        ensures
            match r {
                Some(value) => self@.names.contains_key(name@) && self@.names[name@] == value@,
                None => !self@.names.contains_key(name@),
            },
    {
        match self.position(name) {
            Some(at) => Some(share(&self.names[at].value)),
            None => None,
        }
    }

    fn insert(&mut self, name: Vec<u8>, value: Arc<Value>)
        ensures
            final(self)@.names == old(self)@.names.insert(name@, value@),
            final(self)@.parent == old(self)@.parent,
    {
        let ghost pairs = bindings_view(self.names@);
        match self.position(&name) {
            Some(at) => {
                proof {
                    lemma_bindings_replace(pairs, name@, at as int, value@);
                }
                self.names[at] = Binding { name, value };
                assert(bindings_view(self.names@) =~= pairs.update(at as int, (name@, value@)));
            },
            None => {
                self.names.push(Binding { name, value });
                assert(bindings_view(self.names@) =~= pairs.push((name@, value@)));
                assert(bindings_view(self.names@).drop_last() =~= pairs);
            },
        }
    }

    fn copy_names(&self) -> (r: Vec<Binding>)
        ensures
            bindings_view(r@) == bindings_view(self.names@),
    {
        let mut r: Vec<Binding> = Vec::new();
        let mut i: usize = 0;
        while i < self.names.len()
            invariant
                i <= self.names@.len(),
                r@.len() == i,
                forall|j: int|
                    0 <= j < i ==> (#[trigger] r@[j]).name@ == self.names@[j].name@ && r@[j].value@
                        == self.names@[j].value@,
            decreases self.names@.len() - i,
        {
            r.push(
                Binding {
                    name: clone_bytes(&self.names[i].name),
                    value: share(&self.names[i].value),
                },
            );
            i = i + 1;
        }
        assert(bindings_view(r@) =~= bindings_view(self.names@));
        r
    }
}

impl View for Context {
    type V = ContextView;

    closed spec fn view(&self) -> ContextView {
        ContextView { scopes: self.scopes@.map_values(|scope: Scope| scope@) }
    }
}

impl Context {
    /// A context with one scope, the root, which has the number 0 and no
    /// bindings yet.
    pub fn new() -> (r: Self)
        ensures
            r@ == ContextView::fresh(),
    {
        let mut scopes: Vec<Scope> = Vec::new();
        scopes.push(Scope { names: Vec::new(), parent: None });
        let r = Context { scopes };
        assert(bindings_view(Seq::<Binding>::empty()) =~= Seq::empty());
        assert(r@.scopes =~= ContextView::fresh().scopes);
        r
    }

    /// Whether `scope` is the number of a scope of this context.
    pub fn is_scope(&self, scope: usize) -> (r: bool)
        ensures
            r == self@.has_scope(scope as int),
    {
        scope < self.scopes.len()
    }

    /// The number of scopes; the next fork gets this number.
    pub fn scope_count(&self) -> (r: usize)
        ensures
            r == self@.scopes.len(),
    {
        self.scopes.len()
    }

    /// Forks `scope`: the new scope starts with a copy of its bindings and
    /// has it as its parent.
    pub fn fork(&mut self, scope: usize) -> (r: usize)
        ensures
            r == old(self)@.scopes.len(),
            final(self)@ == old(self)@.fork(scope as int),
    {
        let names = if scope < self.scopes.len() {
            self.scopes[scope].copy_names()
        } else {
            assert(bindings_view(Seq::<Binding>::empty()) =~= Seq::empty());
            Vec::new()
        };
        let r = self.scopes.len();
        self.scopes.push(Scope { names, parent: Some(scope) });
        assert(self@.scopes =~= old(self)@.fork(scope as int).scopes);
        r
    }

    /// Gives up `scope`, where it is the last scope that was made and not
    /// the root: the next fork gets its number. The scope that is made for
    /// a call is given up like this when the call has its value; where
    /// other scopes have been made since, it stays.
    pub fn release(&mut self, scope: usize)
        ensures
            final(self)@ == old(self)@.release(scope as int),
    {
        if scope > 0 && scope < self.scopes.len() && scope + 1 == self.scopes.len() {
            self.scopes.pop();
            assert(self@.scopes =~= old(self)@.scopes.drop_last());
        }
    }

    /// The bindings of `scope` itself, without those of its parents: for
    /// each name the value that it is bound to now.
    pub fn bindings(&self, scope: usize) -> (r: Vec<Binding>)
        ensures
            self@.has_scope(scope as int) ==> bindings_map(bindings_view(r@))
                == self@.scopes[scope as int].names,
            !self@.has_scope(scope as int) ==> r@.len() == 0,
    {
        if scope < self.scopes.len() {
            self.scopes[scope].copy_names()
        } else {
            Vec::new()
        }
    }

    /// The parent of `scope`, if it has one.
    pub fn parent(&self, scope: usize) -> (r: Option<usize>)
        ensures
            match r {
                Some(p) => self@.has_scope(scope as int) && self@.scopes[scope as int].parent
                    == Some(p as int),
                None => !self@.has_scope(scope as int) || self@.scopes[scope as int].parent
                    is None,
            },
    {
        if scope < self.scopes.len() {
            self.scopes[scope].parent
        } else {
            None
        }
    }

    /// Binds `name` to `value` in `scope`.
    pub fn define(&mut self, scope: usize, name: Vec<u8>, value: Arc<Value>)
        ensures
            final(self)@ == old(self)@.define(scope as int, name@, value@),
    {
        if scope < self.scopes.len() {
            self.scopes[scope].insert(name, value);
            assert(self@.scopes =~= old(self)@.define(scope as int, name@, value@).scopes);
        }
    }

    /// What `ident` is bound to as seen from `scope`.
    pub fn find_ident(&self, scope: usize, ident: &Vec<u8>) -> (r: Option<Arc<Value>>)
        ensures
            match r {
                Some(value) => self@.find(scope as int, ident@) == Some(value@),
                None => self@.find(scope as int, ident@) is None,
            },
    {
        if scope >= self.scopes.len() {
            return None;
        }
        let mut at = scope;
        loop
            invariant
                at < self.scopes@.len(),
                self@.find(scope as int, ident@) == self@.find(at as int, ident@),
            decreases at,
        {
            match self.scopes[at].get(ident) {
                Some(value) => {
                    return Some(value);
                },
                None => {},
            }
            match self.scopes[at].parent {
                Some(p) => {
                    if p >= at {
                        return None;
                    }
                    at = p;
                },
                None => {
                    return None;
                },
            }
        }
    }
}

/// A lookup right after a fork finds in the new scope what it finds in
/// the scope that was forked.
pub proof fn law_fork_keeps_bindings(c: ContextView, scope: int, name: Seq<u8>)
    requires
        c.has_scope(scope),
    ensures
        c.fork(scope).find(c.scopes.len() as int, name) == c.find(scope, name),
        c.fork(scope).find(scope, name) == c.find(scope, name),
{
    lemma_fork_keeps_old(c, scope, scope, name);
}

/// A fork changes nothing of what the scopes that were there see.
pub proof fn lemma_fork_keeps_old(c: ContextView, forked: int, scope: int, name: Seq<u8>)
    requires
        c.has_scope(scope),
    ensures
        c.fork(forked).find(scope, name) == c.find(scope, name),
    decreases scope,
{
    match c.scopes[scope].parent {
        Some(parent) => {
            if 0 <= parent < scope {
                lemma_fork_keeps_old(c, forked, parent, name);
            }
        },
        None => {},
    }
}

/// A list whose elements are being evaluated: those still to come, the
/// values of those done, the scope, and whether the list is sequential.
#[derive(Debug)]
pub struct ListFrame {
    pub pending: List<Value>,
    pub done: Vec<Arc<Value>>,
    pub scope: usize,
    pub sequential: bool,
}

/// The model of the frame of a list.
pub struct ListFrameView {
    pub pending: Seq<ValueView>,
    pub done: Seq<ValueView>,
    pub scope: int,
    pub sequential: bool,
}

impl View for ListFrame {
    type V = ListFrameView;

    open spec fn view(&self) -> ListFrameView {
        ListFrameView {
            pending: list_view(self.pending),
            done: handles_view(self.done@),
            scope: self.scope as int,
            sequential: self.sequential,
        }
    }
}

/// What waits on the stack for a value: a list for the value of its next
/// element, or the call of a function written in the language for the
/// value of its body.
#[derive(Debug)]
pub enum Frame {
    List(ListFrame),
    /// The scope that was made for the call.
    Call { scope: usize },
}

/// The model of a frame.
pub enum FrameView {
    List(ListFrameView),
    Call { scope: int },
}

impl View for Frame {
    type V = FrameView;

    open spec fn view(&self) -> FrameView {
        match self {
            Frame::List(frame) => FrameView::List(frame@),
            Frame::Call { scope } => FrameView::Call { scope: *scope as int },
        }
    }
}

/// An evaluation under way: what is to be done next, and what waits for
/// a value, innermost last.
#[derive(Debug)]
pub struct Task {
    pub control: Control,
    pub stack: Vec<Frame>,
}

/// The model of a task.
pub struct TaskView {
    pub control: ControlView,
    pub stack: Seq<FrameView>,
}

/// The models of the frames of a stack, innermost last.
pub open spec fn frames_view(stack: Seq<Frame>) -> Seq<FrameView> {
    stack.map_values(|frame: Frame| frame@)
}

impl View for Task {
    type V = TaskView;

    open spec fn view(&self) -> TaskView {
        TaskView { control: self.control@, stack: frames_view(self.stack@) }
    }
}

/// How far an evaluation has come.
#[derive(Debug)]
pub enum Progress {
    /// The value has been found.
    Finished(Arc<Value>),
    /// The host has been asked; `Task::request` says what.
    Waiting,
    /// The limit of steps was reached before either of the above.
    Running,
}

/// A count as an integer of the language.
pub open spec fn count_view(n: nat) -> i64 {
    if n <= i64::MAX {
        n as i64
    } else {
        i64::MAX
    }
}

/// The context with the arguments from `from` on bound to the parameters
/// of the same place, one after another.
pub open spec fn spec_bind_all(
    c: ContextView,
    scope: int,
    params: Seq<Seq<u8>>,
    args: Seq<ValueView>,
    from: int,
) -> ContextView
    decreases params.len() - from,
{
    if from < 0 || from >= params.len() || from >= args.len() {
        c
    } else {
        spec_bind_all(c.define(scope, params[from], args[from]), scope, params, args, from + 1)
    }
}

/// A call of a function written in the language: with as many arguments
/// as it has parameters, a fork of the function's scope gets the
/// arguments bound to the parameters, and the body is to be entered in
/// it. With more or with fewer, the count of parameters is reported.
pub open spec fn spec_call_lambda(c: ContextView, lambda: LambdaView, args: Seq<ValueView>) -> (
    ContextView,
    ControlView,
) {
    if lambda.params.len() < args.len() {
        (c, ControlView::Return { value: too_many_view(count_view(lambda.params.len())) })
    } else if lambda.params.len() > args.len() {
        (c, ControlView::Return { value: too_few_view(count_view(lambda.params.len())) })
    } else if !c.has_scope(lambda.scope) {
        (c, ControlView::Return { value: unknown_scope_view() })
    } else {
        let called = c.scopes.len() as int;
        (
            spec_bind_all(c.fork(lambda.scope), called, lambda.params, args, 0),
            ControlView::Enter { value: *lambda.body, scope: called },
        )
    }
}

/// A call of a built-in function.
pub open spec fn spec_call_builtin(c: ContextView, b: Builtin, scope: int, args: Seq<ValueView>)
    -> (ContextView, ControlView) {
    match b {
        Builtin::Def => {
            let r = lang::spec_def(c, scope, args);
            (r.0, ControlView::Return { value: r.1 })
        },
        Builtin::Defn => {
            let r = lang::spec_defn(c, scope, args);
            (r.0, ControlView::Return { value: r.1 })
        },
        Builtin::Lambda => {
            let r = lang::spec_func_literal(c, scope, args);
            (r.0, ControlView::Return { value: r.1 })
        },
        Builtin::List => (c, ControlView::Return { value: lang::spec_create_list(args) }),
        Builtin::Do => (c, ControlView::Return { value: lang::spec_do_return(args) }),
        Builtin::DoDiscard => (c, ControlView::Return { value: unit_view() }),
        Builtin::If => (c, lang::spec_if(scope, args)),
        Builtin::Atom => (c, ControlView::Return { value: lang::spec_atom(args) }),
        Builtin::Cond => (c, ControlView::Return { value: lang::spec_cond(args) }),
        Builtin::Cons => (c, ControlView::Return { value: lists::spec_cons(args) }),
        Builtin::Head => (c, ControlView::Return { value: lists::spec_head(args) }),
        Builtin::Tail => (c, ControlView::Return { value: lists::spec_tail(args) }),
        Builtin::Add => (c, math::spec_commutative_numeric(FoldOp::Add, args)),
        Builtin::Mul => (c, math::spec_commutative_numeric(FoldOp::Mul, args)),
        Builtin::Sub => (c, math::spec_noncommutative_numeric(BinaryOp::Sub, args)),
        Builtin::Div => (c, math::spec_noncommutative_numeric(BinaryOp::Div, args)),
        Builtin::Eq => (
            c,
            ControlView::Return { value: math::spec_transitive_compare(args, false, false) },
        ),
        Builtin::Ne => (
            c,
            ControlView::Return { value: math::spec_transitive_compare(args, false, true) },
        ),
        Builtin::Lt => (c, math::spec_transitive_numeric_compare(CompareOp::Lt, args)),
        Builtin::Le => (c, math::spec_transitive_numeric_compare(CompareOp::Le, args)),
        Builtin::Gt => (c, math::spec_transitive_numeric_compare(CompareOp::Gt, args)),
        Builtin::Ge => (c, math::spec_transitive_numeric_compare(CompareOp::Ge, args)),
        Builtin::Cmp => (c, math::spec_cmp(args)),
        Builtin::Debug => (c, io::spec_debug(args)),
        Builtin::Sleep => (c, io::spec_sleep(args)),
        Builtin::Time => (c, io::spec_time(args)),
    }
}

/// The application of the value `head` to arguments: a function is
/// called; anything else is reported as `not-a-function`.
pub open spec fn spec_apply(c: ContextView, head: ValueView, args: Seq<ValueView>, scope: int) -> (
    ContextView,
    ControlView,
) {
    match head.kind {
        KindView::Function(f) => match f.call {
            CallableView::Builtin(b) => spec_call_builtin(c, b, scope, args),
            CallableView::Lambda(lambda) => spec_call_lambda(c, lambda, args),
        },
        _ => (c, ControlView::Return { value: not_a_function_view(head) }),
    }
}

/// The first of the values from `from` on that is an exception.
pub open spec fn first_exception(values: Seq<ValueView>, from: int) -> Option<ValueView>
    decreases values.len() - from,
{
    if from < 0 || from >= values.len() {
        None
    } else if values[from].kind is Exception {
        Some(values[from])
    } else {
        first_exception(values, from + 1)
    }
}

/// What becomes of a list once its elements have the given values: the
/// first exception among them is the result; without one, the first
/// value is applied to the others.
pub open spec fn spec_outcome(c: ContextView, values: Seq<ValueView>, scope: int) -> (
    ContextView,
    ControlView,
) {
    match first_exception(values, 0) {
        Some(exception) => (c, ControlView::Return { value: exception }),
        None => spec_apply(c, values[0], values.subrange(1, values.len() as int), scope),
    }
}

/// The evaluation of a value in a scope, as far as one step goes:
/// - a raw value is the result as it stands;
/// - a symbol gives what it is bound to, or `undefined-ident`;
/// - the empty list is the result as it stands;
/// - of any other list the first element is to be evaluated, and the
///   list is put on the stack with the others still to come;
/// - every other value is the result as it stands.
pub open spec fn spec_evaluate(
    c: ContextView,
    stack: Seq<FrameView>,
    value: ValueView,
    scope: int,
) -> TaskView {
    if value.raw {
        TaskView { control: ControlView::Return { value }, stack }
    } else {
        match value.kind {
            KindView::Symbol(name) => TaskView {
                control: ControlView::Return {
                    value: match c.find(scope, name) {
                        Some(bound) => bound,
                        None => undefined_ident_view(name),
                    },
                },
                stack,
            },
            KindView::List(items) => {
                if items.len() == 0 {
                    TaskView { control: ControlView::Return { value }, stack }
                } else {
                    TaskView {
                        control: ControlView::Eval { value: items[0], scope },
                        stack: stack.push(
                            FrameView::List(
                                ListFrameView {
                                    pending: items.subrange(1, items.len() as int),
                                    done: Seq::empty(),
                                    scope,
                                    sequential: value.sequential,
                                },
                            ),
                        ),
                    }
                }
            },
            _ => TaskView { control: ControlView::Return { value }, stack },
        }
    }
}

/// What is done with the value of an element of a list:
/// - in a sequential list an exception ends the list at once and is its
///   result;
/// - else, where elements are still to come, the next one is to be
///   evaluated;
/// - else the list has its outcome.
pub open spec fn spec_evaluate_list(
    c: ContextView,
    below: Seq<FrameView>,
    frame: ListFrameView,
    value: ValueView,
) -> (ContextView, TaskView) {
    let done = frame.done.push(value);
    if frame.sequential && value.kind is Exception {
        (c, TaskView { control: ControlView::Return { value }, stack: below })
    } else if frame.pending.len() > 0 {
        (
            c,
            TaskView {
                control: ControlView::Eval { value: frame.pending[0], scope: frame.scope },
                stack: below.push(
                    FrameView::List(
                        ListFrameView {
                            pending: frame.pending.subrange(1, frame.pending.len() as int),
                            done,
                            scope: frame.scope,
                            sequential: frame.sequential,
                        },
                    ),
                ),
            },
        )
    } else {
        let outcome = spec_outcome(c, done, frame.scope);
        (outcome.0, TaskView { control: outcome.1, stack: below })
    }
}

/// What is done with a value that has been found while frames wait: the
/// innermost frame takes it. A list goes on as `spec_evaluate_list` says.
/// A call has its value; the scope that was made for it is given up if no
/// scope has been made since.
pub open spec fn spec_settle(c: ContextView, stack: Seq<FrameView>, value: ValueView) -> (
    ContextView,
    TaskView,
) {
    match stack.last() {
        FrameView::List(frame) => spec_evaluate_list(c, stack.drop_last(), frame, value),
        FrameView::Call { scope } => (
            c.release(scope),
            TaskView { control: ControlView::Return { value }, stack: stack.drop_last() },
        ),
    }
}

/// The elements of a list and the scope in which they are evaluated.
pub struct Parts {
    pub items: Seq<ValueView>,
    pub scope: int,
}

/// The elements of the list that a task is about to evaluate, and the
/// scope, where that list is neither raw nor empty nor sequential. The
/// elements of such a list may be evaluated in any order and at the same
/// time.
pub open spec fn spec_split(t: TaskView) -> Option<Parts> {
    match t.control {
        ControlView::Eval { value, scope } => match value.kind {
            KindView::List(items) => {
                if !value.raw && !value.sequential && items.len() > 0 {
                    Some(Parts { items, scope })
                } else {
                    None
                }
            },
            _ => None,
        },
        _ => None,
    }
}

/// The task that goes on from the values of the elements of the list that
/// it was about to evaluate: the list has its outcome for them. A task
/// that was not about to evaluate such a list, or that is given another
/// number of values than the list has elements, stays as it is.
pub open spec fn spec_join(c: ContextView, t: TaskView, values: Seq<ValueView>) -> (
    ContextView,
    TaskView,
) {
    match spec_split(t) {
        Some(parts) => {
            if values.len() == parts.items.len() {
                let outcome = spec_outcome(c, values, parts.scope);
                (outcome.0, TaskView { control: outcome.1, stack: t.stack })
            } else {
                (c, t)
            }
        },
        None => (c, t),
    }
}

/// The models of the tasks in a vector.
pub open spec fn tasks_view(tasks: Seq<Task>) -> Seq<TaskView> {
    tasks.map_values(|task: Task| task@)
}

impl TaskView {
    /// Whether nothing is left to do without the host: the value has been
    /// found, or the host has been asked.
    pub open spec fn halted(self) -> bool {
        self.control is Await || (self.control is Return && self.stack.len() == 0)
    }
}

/// One step of an evaluation. A task that has halted stays as it is.
pub open spec fn spec_step(c: ContextView, t: TaskView) -> (ContextView, TaskView) {
    match t.control {
        ControlView::Eval { value, scope } => (c, spec_evaluate(c, t.stack, value, scope)),
        ControlView::Enter { value, scope } => (
            c,
            TaskView {
                control: ControlView::Eval { value, scope },
                stack: t.stack.push(FrameView::Call { scope }),
            },
        ),
        ControlView::Return { value } => {
            if t.stack.len() == 0 {
                (c, t)
            } else {
                spec_settle(c, t.stack, value)
            }
        },
        ControlView::Await { request } => (c, t),
    }
}

/// Up to `limit` steps of an evaluation, as long as it has not halted.
pub open spec fn spec_run(c: ContextView, t: TaskView, limit: nat) -> (ContextView, TaskView)
    decreases limit,
{
    if limit == 0 || t.halted() {
        (c, t)
    } else {
        let next = spec_step(c, t);
        spec_run(next.0, next.1, (limit - 1) as nat)
    }
}

/// The task that goes on from the host's answer. A task that does not
/// wait for the host stays as it is.
pub open spec fn spec_resume(t: TaskView, answer: AnswerView) -> TaskView {
    match t.control {
        ControlView::Await { request } => TaskView {
            control: ControlView::Return { value: answer_view(request, answer) },
            stack: t.stack,
        },
        _ => t,
    }
}

/// The context with the built-ins from `from` on bound to their names.
pub open spec fn spec_bind_builtins(c: ContextView, scope: int, which: Seq<Builtin>, from: int)
    -> ContextView
    decreases which.len() - from,
{
    if from < 0 || from >= which.len() {
        c
    } else {
        spec_bind_builtins(
            c.define(
                scope,
                builtin_name(which[from]),
                simple_view(KindView::Function(builtin_view(which[from]))),
            ),
            scope,
            which,
            from + 1,
        )
    }
}

/// The context with what every program may use bound in `scope`: the
/// built-in functions under their names, and `true` and `false`.
pub open spec fn spec_add_prelude(c: ContextView, scope: int) -> ContextView {
    spec_bind_builtins(c, scope, all_builtins(), 0).define(
        scope,
        ascii("true"@),
        simple_view(KindView::Bool(true)),
    ).define(scope, ascii("false"@), simple_view(KindView::Bool(false)))
}

/// How the first of two numbers stands to the second.
fn order(args: List<Value>) -> (r: Control)
    ensures
        r@ == math::spec_cmp(list_view(args)),
{
    math::cmp(args)
}

fn count_value(n: usize) -> (r: i64)
    ensures
        r == count_view(n as nat),
{
    let wide = n as u64;
    if wide <= 0x7fff_ffff_ffff_ffff {
        wide as i64
    } else {
        i64::MAX
    }
}

impl Task {
    /// The task of evaluating `value` in `scope`.
    pub fn begin(value: Arc<Value>, scope: usize) -> (r: Task)
        ensures
            r@ == (TaskView {
                control: ControlView::Eval { value: value@, scope: scope as int },
                stack: Seq::empty(),
            }),
    {
        let r = Task { control: Control::Eval { value, scope }, stack: Vec::new() };
        assert(r@.stack =~= Seq::empty());
        r
    }

    /// The value that has been found, if the task has finished.
    pub fn result(&self) -> (r: Option<Arc<Value>>)
        ensures
            match r {
                Some(value) => self@.control == (ControlView::Return { value: value@ })
                    && self@.stack.len() == 0,
                None => !(self@.control is Return && self@.stack.len() == 0),
            },
    {
        match &self.control {
            Control::Return { value } => {
                if self.stack.len() == 0 {
                    Some(share(value))
                } else {
                    None
                }
            },
            _ => None,
        }
    }

    /// What the host has been asked, if the task waits for it.
    pub fn request(&self) -> (r: Option<&Request>)
        ensures
            match r {
                Some(request) => self@.control == (ControlView::Await { request: request@ }),
                None => !(self@.control is Await),
            },
    {
        match &self.control {
            Control::Await { request } => Some(request),
            _ => None,
        }
    }

    /// One task for each element of the list that is about to be
    /// evaluated, where that list is neither raw nor empty nor sequential.
    /// Each of them is run on its own; `Context::join` takes the values
    /// that they find.
    pub fn split(&self) -> (r: Option<Vec<Task>>)
        ensures
            match r {
                Some(tasks) => spec_split(self@) matches Some(parts) && tasks_view(tasks@)
                    == parts.items.map_values(|item: ValueView| spec_begin(item, parts.scope)),
                None => spec_split(self@) is None,
            },
    {
        match &self.control {
            Control::Eval { value, scope } => {
                if value.raw || value.sequential {
                    return None;
                }
                match &value.kind {
                    ValueKind::List(items) => {
                        let handles = handles_of(items);
                        if handles.len() == 0 {
                            return None;
                        }
                        let ghost views = list_view(*items);
                        let mut parts: Vec<Task> = Vec::new();
                        let mut i: usize = 0;
                        while i < handles.len()
                            invariant
                                i <= handles@.len(),
                                handles_view(handles@) == views,
                                parts@.len() == i,
                                forall|j: int|
                                    0 <= j < i ==> (#[trigger] parts@[j])@ == spec_begin(
                                        views[j],
                                        *scope as int,
                                    ),
                            decreases handles@.len() - i,
                        {
                            parts.push(Task::begin(share(&handles[i]), *scope));
                            i = i + 1;
                        }
                        assert(tasks_view(parts@) =~= views.map_values(
                            |item: ValueView| spec_begin(item, *scope as int),
                        ));
                        Some(parts)
                    },
                    _ => None,
                }
            },
            _ => None,
        }
    }

    /// Goes on from the host's answer.
    pub fn resume(&mut self, answer: Answer)
        ensures
            final(self)@ == spec_resume(old(self)@, answer@),
    {
        let value = match &self.control {
            Control::Await { request } => Some(answer_value(request, answer)),
            _ => None,
        };
        match value {
            Some(value) => {
                self.control = Control::Return { value };
            },
            None => {},
        }
    }
}

impl Context {
    /// Binds in `scope` what every program may use.
    pub fn add_prelude(&mut self, scope: usize)
        ensures
            final(self)@ == spec_add_prelude(old(self)@, scope as int),
    {
        let functions = builtins();
        let ghost which = all_builtins();
        let mut i: usize = 0;
        assert(functions@.len() == which.len()) by {
            assert(functions_view(functions@).len() == functions@.len());
        }
        while i < functions.len()
            invariant
                i <= functions@.len(),
                functions@.len() == which.len(),
                functions_view(functions@) == which.map_values(|b: Builtin| builtin_view(b)),
                spec_bind_builtins(old(self)@, scope as int, which, 0) == spec_bind_builtins(
                    self@,
                    scope as int,
                    which,
                    i as int,
                ),
            decreases functions@.len() - i,
        {
            let function = functions[i].clone();
            assert(function@ == functions_view(functions@)[i as int]);
            self.define(
                scope,
                clone_bytes(&function.name),
                Value::simple(ValueKind::Function(function)),
            );
            i = i + 1;
        }
        proof {
            reveal_strlit("true");
            reveal_strlit("false");
        }
        self.define(scope, literal("true"), Value::simple(ValueKind::Bool(true)));
        self.define(scope, literal("false"), Value::simple(ValueKind::Bool(false)));
    }

    fn bind_all(&mut self, scope: usize, params: &Vec<Vec<u8>>, args: &Vec<Arc<Value>>)
        ensures
            final(self)@ == spec_bind_all(
                old(self)@,
                scope as int,
                names_view(params@),
                handles_view(args@),
                0,
            ),
    {
        let mut i: usize = 0;
        while i < params.len() && i < args.len()
            invariant
                i <= params@.len(),
                i <= args@.len(),
                spec_bind_all(
                    old(self)@,
                    scope as int,
                    names_view(params@),
                    handles_view(args@),
                    0,
                ) == spec_bind_all(
                    self@,
                    scope as int,
                    names_view(params@),
                    handles_view(args@),
                    i as int,
                ),
            decreases params@.len() - i,
        {
            self.define(scope, clone_bytes(&params[i]), share(&args[i]));
            i = i + 1;
        }
    }

    fn call_lambda(&mut self, lambda: &Lambda, args: &Vec<Arc<Value>>) -> (r: Control)
        ensures
            (final(self)@, r@) == spec_call_lambda(old(self)@, lambda@, handles_view(args@)),
    {
        let needed = lambda.params.len();
        assert(names_view(lambda.params@).len() == needed);
        assert(handles_view(args@).len() == args@.len());
        if needed < args.len() {
            return Control::Return { value: too_many(count_value(needed)) };
        }
        if needed > args.len() {
            return Control::Return { value: too_few(count_value(needed)) };
        }
        if !self.is_scope(lambda.scope) {
            proof {
                reveal_strlit("unknown-scope");
                crate::text::lemma_ascii_bytes("unknown-scope");
            }
            return Control::Return { value: Exception::bare("unknown-scope").to_value() };
        }
        let called = self.fork(lambda.scope);
        self.bind_all(called, &lambda.params, args);
        Control::Enter { value: share(&lambda.body), scope: called }
    }

    fn call_builtin(&mut self, b: Builtin, scope: usize, args: List<Value>) -> (r: Control)
        ensures
            (final(self)@, r@) == spec_call_builtin(old(self)@, b, scope as int, list_view(args)),
    {
        match b {
            Builtin::Def => Control::Return { value: lang::def(self, scope, args) },
            Builtin::Defn => Control::Return { value: lang::defn(self, scope, args) },
            Builtin::Lambda => Control::Return { value: lang::func_literal(self, scope, args) },
            Builtin::List => Control::Return { value: lang::create_list(args) },
            Builtin::Do => Control::Return { value: lang::do_return(args) },
            Builtin::DoDiscard => Control::Return { value: lang::do_discard(args) },
            Builtin::If => lang::if_func(scope, args),
            Builtin::Atom => Control::Return { value: lang::atom(args) },
            Builtin::Cond => Control::Return { value: lang::cond(args) },
            Builtin::Cons => Control::Return { value: lists::cons(args) },
            Builtin::Head => Control::Return { value: lists::head(args) },
            Builtin::Tail => Control::Return { value: lists::tail(args) },
            Builtin::Add => math::add(args),
            Builtin::Mul => math::mul(args),
            Builtin::Sub => math::sub(args),
            Builtin::Div => math::div(args),
            Builtin::Eq => Control::Return { value: math::eq(args) },
            Builtin::Ne => Control::Return { value: math::ne(args) },
            Builtin::Lt => math::lt(args),
            Builtin::Le => math::le(args),
            Builtin::Gt => math::gt(args),
            Builtin::Ge => math::ge(args),
            Builtin::Cmp => order(args),
            Builtin::Debug => io::debug(args),
            Builtin::Sleep => io::sleep(args),
            Builtin::Time => io::time(args),
        }
    }

    /// Applies `head` to the arguments, in `scope`: a built-in function
    /// gives what is to be done next, a function written in the language
    /// has its body entered or reports the number of its parameters, and
    /// anything else is reported as `not-a-function`.
    pub fn apply(&mut self, head: Arc<Value>, args: List<Value>, scope: usize) -> (r: Control)
        ensures
            (final(self)@, r@) == spec_apply(old(self)@, head@, list_view(args), scope as int),
    {
        match &head.kind {
            ValueKind::Function(f) => match &f.call {
                Callable::Builtin(b) => self.call_builtin(*b, scope, args),
                Callable::Lambda(lambda) => {
                    let handles = handles_of(&args);
                    self.call_lambda(lambda, &handles)
                },
            },
            _ => Control::Return { value: Exception::not_a_function(head).to_value() },
        }
    }

    /// What becomes of a list once its elements have the given values.
    #[verifier::loop_isolation(false)]
    fn outcome(&mut self, values: &Vec<Arc<Value>>, scope: usize) -> (r: Control)
        requires
            values@.len() > 0,
        ensures
            (final(self)@, r@) == spec_outcome(old(self)@, handles_view(values@), scope as int),
    {
        let mut i: usize = 0;
        while i < values.len()
            invariant
                i <= values@.len(),
                first_exception(handles_view(values@), 0) == first_exception(
                    handles_view(values@),
                    i as int,
                ),
            decreases values@.len() - i,
        {
            if values[i].kind.is_exception() {
                return Control::Return { value: share(&values[i]) };
            }
            i = i + 1;
        }
        self.apply(share(&values[0]), list_from(values, 1), scope)
    }

    /// The evaluation of a value in a scope, as far as one step goes.
    fn evaluate_value(&self, task: &mut Task, value: Arc<Value>, scope: usize)
        ensures
            final(task)@ == spec_evaluate(self@, old(task)@.stack, value@, scope as int),
    {
        if value.raw {
            task.control = Control::Return { value };
            return ;
        }
        match &value.kind {
            ValueKind::Symbol(name) => {
                let found = match self.find_ident(scope, name) {
                    Some(bound) => bound,
                    None => Exception::undefined_ident(clone_bytes(name)).to_value(),
                };
                task.control = Control::Return { value: found };
            },
            ValueKind::List(items) => {
                let mut pending = items.clone();
                match take_first(&mut pending) {
                    None => {
                        task.control = Control::Return { value };
                    },
                    Some(first) => {
                        let frame = Frame::List(
                            ListFrame {
                                pending,
                                done: Vec::new(),
                                scope,
                                sequential: value.sequential,
                            },
                        );
                        assert(frame@->List_0.done =~= Seq::empty());
                        task.stack.push(frame);
                        assert(frames_view(task.stack@) =~= old(task)@.stack.push(frame@));
                        task.control = Control::Eval { value: first, scope };
                    },
                }
            },
            _ => {
                task.control = Control::Return { value };
            },
        }
    }

    /// What is done with the value of an element of a list whose frame
    /// has been taken off the stack.
    fn evaluate_list(&mut self, task: &mut Task, frame: ListFrame, value: Arc<Value>)
        ensures
            (final(self)@, final(task)@) == spec_evaluate_list(
                old(self)@,
                old(task)@.stack,
                frame@,
                value@,
            ),
    {
        let mut frame = frame;
        let ghost done_before = frame@.done;
        if frame.sequential && value.kind.is_exception() {
            task.control = Control::Return { value };
            return ;
        }
        frame.done.push(value);
        assert(handles_view(frame.done@) =~= done_before.push(value@));
        match take_first(&mut frame.pending) {
            Some(next) => {
                task.control = Control::Eval { value: next, scope: frame.scope };
                let ghost below = frames_view(task.stack@);
                let ghost pushed = FrameView::List(frame@);
                task.stack.push(Frame::List(frame));
                assert(frames_view(task.stack@) =~= below.push(pushed));
            },
            None => {
                task.control = self.outcome(&frame.done, frame.scope);
            },
        }
    }

    /// What is done with a value that has been found while frames wait.
    fn settle(&mut self, task: &mut Task, value: Arc<Value>)
        requires
            old(task)@.stack.len() > 0,
        ensures
            (final(self)@, final(task)@) == spec_settle(old(self)@, old(task)@.stack, value@),
    {
        let ghost stack = task@.stack;
        let frame = task.stack.pop().unwrap();
        assert(frames_view(task.stack@) =~= stack.drop_last());
        assert(frame@ == stack.last());
        match frame {
            Frame::List(frame) => {
                self.evaluate_list(task, frame, value);
            },
            Frame::Call { scope } => {
                self.release(scope);
                task.control = Control::Return { value };
            },
        }
    }

    /// Goes on from the values that the tasks of `Task::split` found, in
    /// the order of those tasks.
    pub fn join(&mut self, task: &mut Task, values: Vec<Arc<Value>>)
        ensures
            (final(self)@, final(task)@) == spec_join(
                old(self)@,
                old(task)@,
                handles_view(values@),
            ),
    {
        let (count, scope) = match &task.control {
            Control::Eval { value, scope } => {
                if value.raw || value.sequential {
                    (0, *scope)
                } else {
                    match &value.kind {
                        ValueKind::List(items) => {
                            proof {
                                crate::value::lemma_list_view(*items);
                            }
                            (items.len(), *scope)
                        },
                        _ => (0, *scope),
                    }
                }
            },
            _ => (0, 0),
        };
        if count > 0 && values.len() == count {
            task.control = self.outcome(&values, scope);
        }
    }

    /// One step of an evaluation.
    pub fn step(&mut self, task: &mut Task)
        ensures
            (final(self)@, final(task)@) == spec_step(old(self)@, old(task)@),
    {
        let found = match &task.control {
            Control::Eval { value, scope } => Some((share(value), *scope, 0u8)),
            Control::Enter { value, scope } => Some((share(value), *scope, 1u8)),
            Control::Return { value } => {
                if task.stack.len() == 0 {
                    None
                } else {
                    Some((share(value), 0, 2u8))
                }
            },
            Control::Await { request } => None,
        };
        match found {
            None => {},
            Some((value, scope, what)) => {
                if what == 0 {
                    self.evaluate_value(task, value, scope);
                } else if what == 1 {
                    let ghost below = frames_view(task.stack@);
                    task.stack.push(Frame::Call { scope });
                    assert(frames_view(task.stack@) =~= below.push(FrameView::Call {
                        scope: scope as int,
                    }));
                    task.control = Control::Eval { value, scope };
                } else {
                    self.settle(task, value);
                }
            },
        }
    }

    /// Steps until the value has been found or the host has been asked,
    /// and at most `limit` times.
    pub fn run(&mut self, task: &mut Task, limit: u64) -> (r: Progress)
        ensures
            (final(self)@, final(task)@) == spec_run(old(self)@, old(task)@, limit as nat),
            match r {
                Progress::Finished(value) => final(task)@.control == (ControlView::Return {
                    value: value@,
                }) && final(task)@.stack.len() == 0,
                Progress::Waiting => final(task)@.control is Await,
                Progress::Running => !final(task)@.halted(),
            },
    {
        let mut left = limit;
        loop
            invariant
                spec_run(old(self)@, old(task)@, limit as nat) == spec_run(
                    self@,
                    task@,
                    left as nat,
                ),
            decreases left,
        {
            match task.result() {
                Some(value) => {
                    return Progress::Finished(value);
                },
                None => {},
            }
            if task.request().is_some() {
                return Progress::Waiting;
            }
            if left == 0 {
                return Progress::Running;
            }
            self.step(task);
            left = left - 1;
        }
    }

    /// Evaluates `value` in `scope` as far as it goes without the host
    /// and within `limit` steps, and gives the value if it was found.
    pub fn evaluate(&mut self, scope: usize, value: Arc<Value>, limit: u64) -> (r: Option<
        Arc<Value>,
    >)
        ensures
            ({
                let ran = spec_run(
                    old(self)@,
                    TaskView {
                        control: ControlView::Eval { value: value@, scope: scope as int },
                        stack: Seq::empty(),
                    },
                    limit as nat,
                );
                &&& final(self)@ == ran.0
                &&& match r {
                    Some(found) => ran.1.control == (ControlView::Return { value: found@ })
                        && ran.1.stack.len() == 0,
                    None => !(ran.1.control is Return && ran.1.stack.len() == 0),
                }
            }),
    {
        let mut task = Task::begin(value, scope);
        match self.run(&mut task, limit) {
            Progress::Finished(found) => Some(found),
            _ => None,
        }
    }

    /// `evaluate`, with an exception told from other values: `Err` holds
    /// the exception.
    pub fn try_evaluate(&mut self, scope: usize, value: Arc<Value>, limit: u64) -> (r: Option<
        Result<Arc<Value>, Arc<Value>>,
    >)
        ensures
            ({
                let ran = spec_run(
                    old(self)@,
                    TaskView {
                        control: ControlView::Eval { value: value@, scope: scope as int },
                        stack: Seq::empty(),
                    },
                    limit as nat,
                );
                &&& final(self)@ == ran.0
                &&& match r {
                    Some(Ok(found)) => ran.1.control == (ControlView::Return { value: found@ })
                        && ran.1.stack.len() == 0 && !(found@.kind is Exception),
                    Some(Err(found)) => ran.1.control == (ControlView::Return { value: found@ })
                        && ran.1.stack.len() == 0 && found@.kind is Exception,
                    None => !(ran.1.control is Return && ran.1.stack.len() == 0),
                }
            }),
    {
        match self.evaluate(scope, value, limit) {
            Some(found) => {
                if found.kind.is_exception() {
                    Some(Err(found))
                } else {
                    Some(Ok(found))
                }
            },
            None => None,
        }
    }
}

/// The task of evaluating `value` in `scope`, with nothing on the stack.
pub open spec fn spec_begin(value: ValueView, scope: int) -> TaskView {
    TaskView { control: ControlView::Eval { value, scope }, stack: Seq::empty() }
}

/// The task that has found `value`, with nothing on the stack.
pub open spec fn spec_finished(value: ValueView) -> TaskView {
    TaskView { control: ControlView::Return { value }, stack: Seq::empty() }
}

/// The empty list evaluates to itself, in one step and without a change
/// to the context, whatever its flags.
pub proof fn law_empty_list_evaluates_to_itself(
    c: ContextView,
    value: ValueView,
    scope: int,
    limit: nat,
)
    requires
        value.kind == KindView::List(Seq::empty()),
        limit >= 1,
    ensures
        spec_step(c, spec_begin(value, scope)) == (c, spec_finished(value)),
        spec_run(c, spec_begin(value, scope), limit) == (c, spec_finished(value)),
{
    let first = spec_step(c, spec_begin(value, scope));
    assert(first == (c, spec_finished(value)));
    assert(spec_run(c, spec_finished(value), (limit - 1) as nat) == (c, spec_finished(value)));
}

/// A raw value evaluates to itself, in one step and without a change to
/// the context, whatever its kind.
pub proof fn law_raw_evaluates_to_itself(c: ContextView, value: ValueView, scope: int, limit: nat)
    requires
        value.raw,
        limit >= 1,
    ensures
        spec_step(c, spec_begin(value, scope)) == (c, spec_finished(value)),
        spec_run(c, spec_begin(value, scope), limit) == (c, spec_finished(value)),
{
    let first = spec_step(c, spec_begin(value, scope));
    assert(first == (c, spec_finished(value)));
    assert(spec_run(c, spec_finished(value), (limit - 1) as nat) == (c, spec_finished(value)));
}

/// A function with `n` parameters that is applied to fewer than `n`
/// arguments gives `too-few-arguments`, and applied to more than `n` it
/// gives `too-many-arguments`, both with `n` and without a change to the
/// context; applied to `n` arguments it has its body entered in a new
/// scope.
pub proof fn law_arity(
    c: ContextView,
    function: ValueView,
    lambda: LambdaView,
    args: Seq<ValueView>,
    scope: int,
)
    requires
        function.kind matches KindView::Function(f) && f.call == CallableView::Lambda(lambda),
    ensures
        args.len() < lambda.params.len() ==> spec_apply(c, function, args, scope) == (
            c,
            ControlView::Return { value: too_few_view(count_view(lambda.params.len())) },
        ),
        args.len() > lambda.params.len() ==> spec_apply(c, function, args, scope) == (
            c,
            ControlView::Return { value: too_many_view(count_view(lambda.params.len())) },
        ),
        args.len() == lambda.params.len() && c.has_scope(lambda.scope) ==> spec_apply(
            c,
            function,
            args,
            scope,
        ).1 == (ControlView::Enter { value: *lambda.body, scope: c.scopes.len() as int }),
{
}

/// Two contexts that agree on the scopes up to `scope` find the same
/// there.
proof fn lemma_find_agrees(a: ContextView, b: ContextView, scope: int, name: Seq<u8>)
    requires
        a.has_scope(scope),
        b.has_scope(scope),
        forall|k: int| 0 <= k <= scope ==> a.scopes[k] == b.scopes[k],
    ensures
        a.find(scope, name) == b.find(scope, name),
    decreases scope,
{
    match a.scopes[scope].parent {
        Some(parent) => {
            if 0 <= parent < scope {
                lemma_find_agrees(a, b, parent, name);
            }
        },
        None => {},
    }
}

/// Binding arguments in a scope leaves the other scopes, the count of
/// scopes and the scope's parent as they were.
proof fn lemma_bind_all_elsewhere(
    c: ContextView,
    scope: int,
    params: Seq<Seq<u8>>,
    args: Seq<ValueView>,
    from: int,
)
    requires
        c.has_scope(scope),
        0 <= from <= params.len(),
    ensures
        spec_bind_all(c, scope, params, args, from).scopes.len() == c.scopes.len(),
        spec_bind_all(c, scope, params, args, from).scopes[scope].parent == c.scopes[scope].parent,
        forall|k: int|
            0 <= k < c.scopes.len() && k != scope ==> spec_bind_all(
                c,
                scope,
                params,
                args,
                from,
            ).scopes[k] == #[trigger] c.scopes[k],
    decreases params.len() - from,
{
    if from < params.len() && from < args.len() {
        let next = c.define(scope, params[from], args[from]);
        let bound = spec_bind_all(c, scope, params, args, from);
        lemma_bind_all_elsewhere(next, scope, params, args, from + 1);
        assert forall|k: int| 0 <= k < c.scopes.len() && k != scope implies bound.scopes[k]
            == #[trigger] c.scopes[k] by {
            assert(next.scopes[k] == c.scopes[k]);
        }
    }
}

/// Binding arguments leaves a name that is none of the parameters as it
/// was.
proof fn lemma_bind_all_keeps(
    c: ContextView,
    scope: int,
    params: Seq<Seq<u8>>,
    args: Seq<ValueView>,
    from: int,
    name: Seq<u8>,
)
    requires
        c.has_scope(scope),
        0 <= from <= params.len(),
        forall|j: int| from <= j < params.len() ==> params[j] != name,
    ensures
        spec_bind_all(c, scope, params, args, from).scopes[scope].names.contains_key(name)
            == c.scopes[scope].names.contains_key(name),
        c.scopes[scope].names.contains_key(name) ==> spec_bind_all(
            c,
            scope,
            params,
            args,
            from,
        ).scopes[scope].names[name] == c.scopes[scope].names[name],
    decreases params.len() - from,
{
    if from < params.len() && from < args.len() {
        lemma_bind_all_keeps(
            c.define(scope, params[from], args[from]),
            scope,
            params,
            args,
            from + 1,
            name,
        );
    }
}

/// Binding arguments binds the parameter at `at` to the argument at `at`,
/// where no later parameter has its name.
proof fn lemma_bind_all_binds(
    c: ContextView,
    scope: int,
    params: Seq<Seq<u8>>,
    args: Seq<ValueView>,
    from: int,
    at: int,
)
    requires
        c.has_scope(scope),
        0 <= from <= at < params.len(),
        params.len() == args.len(),
        forall|j: int| at < j < params.len() ==> params[j] != params[at],
    ensures
        spec_bind_all(c, scope, params, args, from).scopes[scope].names.contains_key(params[at]),
        spec_bind_all(c, scope, params, args, from).scopes[scope].names[params[at]] == args[at],
    decreases params.len() - from,
{
    let next = c.define(scope, params[from], args[from]);
    if from == at {
        lemma_bind_all_keeps(next, scope, params, args, from + 1, params[at]);
    } else {
        lemma_bind_all_binds(next, scope, params, args, from + 1, at);
    }
}

/// A function that is applied to as many arguments as it has parameters
/// has its body entered in a scope in which each parameter is bound to
/// the argument of its place. Where two parameters have one name, the
/// later of them has it.
pub proof fn law_call_binds_parameters(
    c: ContextView,
    function: ValueView,
    lambda: LambdaView,
    args: Seq<ValueView>,
    scope: int,
    at: int,
)
    requires
        function.kind matches KindView::Function(f) && f.call == CallableView::Lambda(lambda),
        args.len() == lambda.params.len(),
        c.has_scope(lambda.scope),
        0 <= at < args.len(),
        forall|j: int| at < j < lambda.params.len() ==> lambda.params[j] != lambda.params[at],
    ensures
        spec_apply(c, function, args, scope).1 == (ControlView::Enter {
            value: *lambda.body,
            scope: c.scopes.len() as int,
        }),
        spec_apply(c, function, args, scope).0.find(c.scopes.len() as int, lambda.params[at])
            == Some(args[at]),
{
    let called = c.scopes.len() as int;
    let forked = c.fork(lambda.scope);
    lemma_bind_all_elsewhere(forked, called, lambda.params, args, 0);
    lemma_bind_all_binds(forked, called, lambda.params, args, 0, at);
}

/// In the scope that a call makes, a name that is no parameter is what it
/// was for the function when the function was made, as far as the scope of
/// the function has not changed since.
pub proof fn law_call_sees_scope_of_function(
    c: ContextView,
    function: ValueView,
    lambda: LambdaView,
    args: Seq<ValueView>,
    scope: int,
    name: Seq<u8>,
)
    requires
        function.kind matches KindView::Function(f) && f.call == CallableView::Lambda(lambda),
        args.len() == lambda.params.len(),
        c.has_scope(lambda.scope),
        forall|j: int| 0 <= j < lambda.params.len() ==> lambda.params[j] != name,
    ensures
        spec_apply(c, function, args, scope).0.find(c.scopes.len() as int, name) == c.find(
            lambda.scope,
            name,
        ),
{
    let called = c.scopes.len() as int;
    let forked = c.fork(lambda.scope);
    let after = spec_bind_all(forked, called, lambda.params, args, 0);
    lemma_bind_all_elsewhere(forked, called, lambda.params, args, 0);
    lemma_bind_all_keeps(forked, called, lambda.params, args, 0, name);
    assert forall|k: int| 0 <= k <= lambda.scope implies after.scopes[k] == c.scopes[k] by {
        assert(forked.scopes[k] == c.scopes[k]);
    }
    lemma_find_agrees(after, c, lambda.scope, name);
}

/// A call changes no binding of a scope that was there before it,
/// whatever the count of arguments: neither the caller's scope nor the
/// scope of the function gains or loses a name.
pub proof fn law_call_keeps_bindings(
    c: ContextView,
    function: ValueView,
    lambda: LambdaView,
    args: Seq<ValueView>,
    scope: int,
    seen: int,
    name: Seq<u8>,
)
    requires
        function.kind matches KindView::Function(f) && f.call == CallableView::Lambda(lambda),
        c.has_scope(seen),
    ensures
        spec_apply(c, function, args, scope).0.scopes.subrange(0, c.scopes.len() as int)
            == c.scopes,
        spec_apply(c, function, args, scope).0.find(seen, name) == c.find(seen, name),
{
    let after = spec_apply(c, function, args, scope).0;
    if args.len() == lambda.params.len() && c.has_scope(lambda.scope) {
        let called = c.scopes.len() as int;
        let forked = c.fork(lambda.scope);
        lemma_bind_all_elsewhere(forked, called, lambda.params, args, 0);
        assert forall|k: int| 0 <= k < called implies after.scopes[k] == c.scopes[k] by {
            assert(forked.scopes[k] == c.scopes[k]);
        }
        assert(after.scopes.subrange(0, called) =~= c.scopes);
        lemma_find_agrees(after, c, seen, name);
    } else {
        assert(after == c);
        assert(after.scopes.subrange(0, c.scopes.len() as int) =~= c.scopes);
    }
}

} // verus!
