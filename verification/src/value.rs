//! The values of the language and their mathematical models.
//!
//! A value is a kind together with two flags. Text (symbol names, strings,
//! exception tags) is held as bytes. A float is held as the bit pattern of
//! a 64-bit IEEE number together with the text that stands for it: the
//! library itself never computes with floats.

use crate::list::{share, Link, List};
use std::sync::Arc;
use vstd::prelude::*;

verus! {

/// The functions that every root context knows by name.
#[derive(Debug, Clone, Copy, PartialEq, Eq, Structural)]
pub enum Builtin {
    Def,
    Defn,
    Lambda,
    List,
    Do,
    DoDiscard,
    If,
    Atom,
    Cond,
    Cons,
    Head,
    Tail,
    Add,
    Mul,
    Sub,
    Div,
    Eq,
    Ne,
    Lt,
    Le,
    Gt,
    Ge,
    Cmp,
    Debug,
    Sleep,
    Time,
}

/// A float: the text that stands for it and, once the host has read that
/// text, the bit pattern of the number.
#[derive(Debug)]
pub struct Float {
    pub bits: Option<u64>,
    pub text: Vec<u8>,
}

/// A function written in the language: its parameter names, its body and
/// the scope that was forked off when it was defined. That scope is made
/// for this function alone, so it also tells one function from another.
#[derive(Debug)]
pub struct Lambda {
    pub params: Vec<Vec<u8>>,
    pub body: Arc<Value>,
    pub scope: usize,
}

/// What is called: a built-in function, or one written in the language.
#[derive(Debug)]
pub enum Callable {
    Builtin(Builtin),
    Lambda(Lambda),
}

/// A callable with the name it is shown under.
#[derive(Debug)]
pub struct Function {
    pub name: Vec<u8>,
    pub call: Callable,
}

/// An error that evaluation hands on as a value: a tag and arguments.
#[derive(Debug)]
pub struct Exception {
    pub ident: Vec<u8>,
    pub args: List<Value>,
}

/// The kinds of values.
#[derive(Debug)]
pub enum ValueKind {
    Symbol(Vec<u8>),
    Bool(bool),
    Integer(i64),
    Float(Float),
    String(Vec<u8>),
    List(List<Value>),
    Function(Function),
    Exception(Exception),
}

/// A value: a kind, and whether it is raw and whether it is sequential. A
/// raw value evaluates to itself. A sequential list has its elements
/// evaluated from left to right, one after another.
#[derive(Debug)]
pub struct Value {
    pub raw: bool,
    pub sequential: bool,
    pub kind: ValueKind,
}

/// The model of a float.
pub struct FloatView {
    pub bits: Option<u64>,
    pub text: Seq<u8>,
}

/// The model of a function written in the language.
pub struct LambdaView {
    pub params: Seq<Seq<u8>>,
    pub body: Box<ValueView>,
    pub scope: int,
}

/// The model of a callable.
pub enum CallableView {
    Builtin(Builtin),
    Lambda(LambdaView),
}

/// The model of a function.
pub struct FunctionView {
    pub name: Seq<u8>,
    pub call: CallableView,
}

/// The model of an exception.
pub struct ExceptionView {
    pub ident: Seq<u8>,
    pub args: Seq<ValueView>,
}

/// The model of a kind.
pub enum KindView {
    Symbol(Seq<u8>),
    Bool(bool),
    Integer(i64),
    Float(FloatView),
    String(Seq<u8>),
    List(Seq<ValueView>),
    Function(FunctionView),
    Exception(ExceptionView),
}

/// The model of a value.
pub struct ValueView {
    pub raw: bool,
    pub sequential: bool,
    pub kind: KindView,
}

/// The names in a vector, as bytes.
pub open spec fn names_view(names: Seq<Vec<u8>>) -> Seq<Seq<u8>> {
    names.map_values(|name: Vec<u8>| name@)
}

/// The model of a float.
pub open spec fn float_view(f: Float) -> FloatView {
    FloatView { bits: f.bits, text: f.text@ }
}

/// The model of a value.
pub open spec fn value_view(v: Value) -> ValueView
    decreases v,
{
    ValueView {
        raw: v.raw,
        sequential: v.sequential,
        kind: match v.kind {
            ValueKind::Symbol(name) => KindView::Symbol(name@),
            ValueKind::Bool(b) => KindView::Bool(b),
            ValueKind::Integer(n) => KindView::Integer(n),
            ValueKind::Float(f) => KindView::Float(float_view(f)),
            ValueKind::String(text) => KindView::String(text@),
            ValueKind::List(items) => {
                proof {
                    items.lemma_nodes_decrease();
                }
                KindView::List(items_view(items.nodes()))
            },
            ValueKind::Function(f) => KindView::Function(
                FunctionView {
                    name: f.name@,
                    call: match f.call {
                        Callable::Builtin(b) => CallableView::Builtin(b),
                        Callable::Lambda(l) => CallableView::Lambda(
                            LambdaView {
                                params: names_view(l.params@),
                                body: Box::new(value_view(*l.body)),
                                scope: l.scope as int,
                            },
                        ),
                    },
                },
            ),
            ValueKind::Exception(e) => {
                proof {
                    e.args.lemma_nodes_decrease();
                }
                KindView::Exception(
                    ExceptionView { ident: e.ident@, args: items_view(e.args.nodes()) },
                )
            },
        },
    }
}

/// The models of the values in a chain of list nodes, in order.
pub open spec fn items_view(link: Link<Value>) -> Seq<ValueView>
    decreases link,
{
    match link {
        None => Seq::empty(),
        Some(node) => seq![value_view(*node.val)] + items_view(node.next),
    }
}

/// The models of the elements of a list of values, in order.
pub open spec fn list_view(items: List<Value>) -> Seq<ValueView> {
    items_view(items.nodes())
}

/// The models of the values behind a sequence of shared handles.
pub open spec fn handles_view(items: Seq<Arc<Value>>) -> Seq<ValueView> {
    items.map_values(|item: Arc<Value>| value_view(*item))
}

impl View for Float {
    type V = FloatView;

    open spec fn view(&self) -> FloatView {
        float_view(*self)
    }
}

impl View for Value {
    type V = ValueView;

    open spec fn view(&self) -> ValueView {
        value_view(*self)
    }
}

impl View for ValueKind {
    type V = KindView;

    open spec fn view(&self) -> KindView {
        value_view(Value { raw: false, sequential: false, kind: *self }).kind
    }
}

impl View for Exception {
    type V = ExceptionView;

    open spec fn view(&self) -> ExceptionView {
        ExceptionView { ident: self.ident@, args: list_view(self.args) }
    }
}

impl View for Lambda {
    type V = LambdaView;

    open spec fn view(&self) -> LambdaView {
        LambdaView {
            params: names_view(self.params@),
            body: Box::new(value_view(*self.body)),
            scope: self.scope as int,
        }
    }
}

impl View for Function {
    type V = FunctionView;

    open spec fn view(&self) -> FunctionView {
        FunctionView {
            name: self.name@,
            call: match self.call {
                Callable::Builtin(b) => CallableView::Builtin(b),
                Callable::Lambda(l) => CallableView::Lambda(l@),
            },
        }
    }
}

proof fn lemma_items_view_link(link: Link<Value>)
    ensures
        items_view(link) == crate::list::link_seq(link).map_values(|v: Value| v@),
    decreases link,
{
    if link is Some {
        let next = link->0.next;
        lemma_items_view_link(next);
    }
    assert(items_view(link) =~= crate::list::link_seq(link).map_values(|v: Value| v@));
}

/// The model of a list of values is the models of its elements.
pub proof fn lemma_list_view(items: List<Value>)
    ensures
        list_view(items) == items@.map_values(|v: Value| v@),
        list_view(items).len() == items@.len(),
{
    items.lemma_view_is_nodes();
    lemma_items_view_link(items.nodes());
}

/// The value with both flags clear.
pub open spec fn simple_view(kind: KindView) -> ValueView {
    ValueView { raw: false, sequential: false, kind }
}

/// The value with the raw flag set.
pub open spec fn raw_view(kind: KindView) -> ValueView {
    ValueView { raw: true, sequential: false, kind }
}

/// The value with the sequential flag set.
pub open spec fn sequential_view(kind: KindView) -> ValueView {
    ValueView { raw: false, sequential: true, kind }
}

/// The empty list with both flags clear: what a form without a result
/// evaluates to.
pub open spec fn unit_view() -> ValueView {
    simple_view(KindView::List(Seq::empty()))
}

impl KindView {
    /// Whether this is the kind of exceptions.
    pub open spec fn is_exception(self) -> bool {
        self is Exception
    }
}

/// A copy of the bytes.
pub fn clone_bytes(bytes: &Vec<u8>) -> (r: Vec<u8>)
    ensures
        r@ == bytes@,
{
    let r = bytes.clone();
    assert(r@ =~= bytes@);
    r
}

/// A copy of the names.
pub fn clone_names(names: &Vec<Vec<u8>>) -> (r: Vec<Vec<u8>>)
    ensures
        names_view(r@) == names_view(names@),
{
    let mut r: Vec<Vec<u8>> = Vec::new();
    let mut i: usize = 0;
    while i < names.len()
        invariant
            i <= names.len(),
            r@.len() == i,
            forall|j: int| 0 <= j < i ==> r@[j]@ == names@[j]@,
        decreases names.len() - i,
    {
        r.push(clone_bytes(&names[i]));
        i = i + 1;
    }
    assert(names_view(r@) =~= names_view(names@));
    r
}

impl Clone for Float {
    fn clone(&self) -> (r: Self)
        ensures
            r@ == self@,
    {
        Float { bits: self.bits, text: clone_bytes(&self.text) }
    }
}

impl Clone for Lambda {
    fn clone(&self) -> (r: Self)
        ensures
            r@ == self@,
    {
        Lambda {
            params: clone_names(&self.params),
            body: share(&self.body),
            scope: self.scope,
        }
    }
}

impl Clone for Function {
    fn clone(&self) -> (r: Self)
        ensures
            r@ == self@,
    {
        Function {
            name: clone_bytes(&self.name),
            call: match &self.call {
                Callable::Builtin(b) => Callable::Builtin(*b),
                Callable::Lambda(l) => Callable::Lambda(l.clone()),
            },
        }
    }
}

impl Clone for Exception {
    fn clone(&self) -> (r: Self)
        ensures
            r@ == self@,
    {
        Exception { ident: clone_bytes(&self.ident), args: self.args.clone() }
    }
}

impl Clone for ValueKind {
    fn clone(&self) -> (r: Self)
        ensures
            r@ == self@,
    {
        match self {
            ValueKind::Symbol(name) => ValueKind::Symbol(clone_bytes(name)),
            ValueKind::Bool(b) => ValueKind::Bool(*b),
            ValueKind::Integer(n) => ValueKind::Integer(*n),
            ValueKind::Float(f) => ValueKind::Float(f.clone()),
            ValueKind::String(text) => ValueKind::String(clone_bytes(text)),
            ValueKind::List(items) => ValueKind::List(items.clone()),
            ValueKind::Function(f) => ValueKind::Function(f.clone()),
            ValueKind::Exception(e) => ValueKind::Exception(e.clone()),
        }
    }
}

impl Clone for Value {
    fn clone(&self) -> (r: Self)
        ensures
            r@ == self@,
    {
        Value { raw: self.raw, sequential: self.sequential, kind: self.kind.clone() }
    }
}

impl ValueKind {
    /// The name of the kind, as the language shows it.
    pub open spec fn spec_kind_name(kind: KindView) -> Seq<char> {
        match kind {
            KindView::Symbol(_) => "symbol"@,
            KindView::Bool(_) => "bool"@,
            KindView::Integer(_) => "integer"@,
            KindView::Float(_) => "float"@,
            KindView::String(_) => "string"@,
            KindView::List(_) => "list"@,
            KindView::Function(_) => "function"@,
            KindView::Exception(_) => "exception"@,
        }
    }

    /// The name of the kind, as the language shows it.
    pub fn kind_name(&self) -> (r: &'static str)
        ensures
            r@ == Self::spec_kind_name(self@),
    {
        match self {
            ValueKind::Symbol(_) => "symbol",
            ValueKind::Bool(_) => "bool",
            ValueKind::Integer(_) => "integer",
            ValueKind::Float(_) => "float",
            ValueKind::String(_) => "string",
            ValueKind::List(_) => "list",
            ValueKind::Function(_) => "function",
            ValueKind::Exception(_) => "exception",
        }
    }

    /// Whether this is the kind of exceptions.
    pub fn is_exception(&self) -> (r: bool)
        ensures
            r == self@.is_exception(),
    {
        match self {
            ValueKind::Exception(_) => true,
            _ => false,
        }
    }
}

impl Value {
    /// The value of this kind with both flags clear.
    pub fn simple(kind: ValueKind) -> (r: Arc<Self>)
        ensures
            r@ == simple_view(kind@),
    {
        Arc::new(Value { kind, raw: false, sequential: false })
    }

    /// The value of this kind with the raw flag set.
    pub fn raw(kind: ValueKind) -> (r: Arc<Self>)
        ensures
            r@ == raw_view(kind@),
    {
        Arc::new(Value { kind, raw: true, sequential: false })
    }

    /// The value of this kind with the sequential flag set.
    pub fn sequential(kind: ValueKind) -> (r: Arc<Self>)
        ensures
            r@ == sequential_view(kind@),
    {
        Arc::new(Value { kind, raw: false, sequential: true })
    }

    /// The empty list with both flags clear.
    pub fn unit() -> (r: Arc<Self>)
        ensures
            r@ == unit_view(),
    {
        let items: List<Value> = List::new();
        proof {
            lemma_list_view(items);
            assert(list_view(items) =~= Seq::empty());
        }
        Self::simple(ValueKind::List(items))
    }
}

/// The handles of a list of values; their models are the list's.
pub fn handles_of(items: &List<Value>) -> (r: Vec<Arc<Value>>)
    ensures
        handles_view(r@) == list_view(*items),
        r@.len() == items@.len(),
        forall|i: int| 0 <= i < r@.len() ==> *(#[trigger] r@[i]) == items@[i],
{
    let r = items.to_vec();
    proof {
        lemma_list_view(*items);
        assert(handles_view(r@) =~= list_view(*items));
    }
    r
}

/// Takes the first value off a list of values.
pub fn take_first(items: &mut List<Value>) -> (r: Option<Arc<Value>>)
    ensures
        match r {
            Some(first) => list_view(*old(items)).len() > 0 && first@ == list_view(*old(items))[0]
                && list_view(*final(items)) == list_view(*old(items)).subrange(
                1,
                list_view(*old(items)).len() as int,
            ),
            None => list_view(*old(items)).len() == 0 && list_view(*final(items)) == list_view(
                *old(items),
            ),
        },
{
    proof {
        lemma_list_view(*items);
    }
    let r = items.pop();
    proof {
        lemma_list_view(*items);
        if r is Some {
            assert(list_view(*items) =~= list_view(*old(items)).subrange(
                1,
                list_view(*old(items)).len() as int,
            ));
        }
    }
    r
}

/// The list of the values behind the handles from `from` on.
pub fn list_from(items: &Vec<Arc<Value>>, from: usize) -> (r: List<Value>)
    requires
        from <= items@.len(),
    ensures
        list_view(r) == handles_view(items@).subrange(from as int, items@.len() as int),
{
    let mut r: List<Value> = List::new();
    let count = items.len();
    let mut i = count;
    proof {
        lemma_list_view(r);
        assert(list_view(r) =~= handles_view(items@).subrange(i as int, items@.len() as int));
    }
    while i > from
        invariant
            from <= i <= items@.len(),
            items@.len() == count,
            list_view(r) == handles_view(items@).subrange(i as int, items@.len() as int),
            r@.len() == items@.len() - i,
        decreases i,
    {
        i = i - 1;
        let ghost before = r;
        r = r.cons_arc(share(&items[i]));
        proof {
            lemma_list_view(before);
            lemma_list_view(r);
            let target = handles_view(items@).subrange(i as int, items@.len() as int);
            assert(r@ =~= seq![*items@[i as int]] + before@);
            assert forall|k: int| 0 <= k < target.len() implies list_view(r)[k] == target[k] by {
                if k > 0 {
                    assert(list_view(r)[k] == list_view(before)[k - 1]);
                }
            }
            assert(list_view(r) =~= target);
        }
    }
    r
}

/// The digits that write `n` in base ten.
pub open spec fn digits_text(n: nat) -> Seq<u8>
    decreases n,
{
    if n < 10 {
        seq![(48 + n) as u8]
    } else {
        digits_text(n / 10).push((48 + n % 10) as u8)
    }
}

/// An integer in base ten, with `-` in front where it is negative.
pub open spec fn integer_text(n: i64) -> Seq<u8> {
    if n < 0 {
        seq![45u8] + digits_text((-(n as int)) as nat)
    } else {
        digits_text(n as nat)
    }
}

/// What stands for a byte of a string between the quotes: line feed,
/// tab, `"` and `\` are written as escapes.
pub open spec fn escaped_byte(b: u8) -> Seq<u8> {
    if b == 10 {
        seq![92u8, 110u8]
    } else if b == 9 {
        seq![92u8, 116u8]
    } else if b == 34 {
        seq![92u8, 34u8]
    } else if b == 92 {
        seq![92u8, 92u8]
    } else {
        seq![b]
    }
}

/// What stands for the bytes of a string between the quotes.
pub open spec fn escaped_text(text: Seq<u8>) -> Seq<u8>
    decreases text.len(),
{
    if text.len() == 0 {
        Seq::empty()
    } else {
        escaped_text(text.drop_last()) + escaped_byte(text.last())
    }
}

/// How a value is shown: `'` where it is raw, `!` where it is sequential,
/// then its kind. Symbols and floats are shown by their text, strings
/// between quotes, lists in parentheses with one space between the
/// elements, functions as `{function NAME}` and exceptions as
/// `{exception IDENT}`.
pub open spec fn render(v: ValueView) -> Seq<u8>
    decreases v, 0int,
{
    let raw: Seq<u8> = if v.raw {
        seq![39u8]
    } else {
        Seq::empty()
    };
    let sequential: Seq<u8> = if v.sequential {
        seq![33u8]
    } else {
        Seq::empty()
    };
    raw + sequential + match v.kind {
        KindView::Symbol(name) => name,
        KindView::Bool(b) => if b {
            crate::text::ascii("true"@)
        } else {
            crate::text::ascii("false"@)
        },
        KindView::Integer(n) => integer_text(n),
        KindView::Float(f) => f.text,
        KindView::String(text) => seq![34u8] + escaped_text(text) + seq![34u8],
        KindView::List(items) => seq![40u8] + render_items(items, items.len() as int) + seq![41u8],
        KindView::Function(f) => crate::text::ascii("{function "@) + f.name + seq![125u8],
        KindView::Exception(e) => crate::text::ascii("{exception "@) + e.ident + seq![125u8],
    }
}

/// The first `count` of the items, shown with one space between them.
pub open spec fn render_items(items: Seq<ValueView>, count: int) -> Seq<u8>
    decreases items, count,
{
    if count <= 0 || count > items.len() {
        Seq::empty()
    } else if count == 1 {
        render(items[0])
    } else {
        render_items(items, count - 1) + seq![32u8] + render(items[count - 1])
    }
}

fn push_all(out: &mut Vec<u8>, bytes: &Vec<u8>)
    ensures
        final(out)@ == old(out)@ + bytes@,
{
    let mut i: usize = 0;
    while i < bytes.len()
        invariant
            i <= bytes.len(),
            out@ == old(out)@ + bytes@.subrange(0, i as int),
        decreases bytes.len() - i,
    {
        out.push(bytes[i]);
        i = i + 1;
        assert(out@ =~= old(out)@ + bytes@.subrange(0, i as int));
    }
    assert(bytes@.subrange(0, bytes@.len() as int) =~= bytes@);
}

fn push_digits(out: &mut Vec<u8>, n: u64)
    ensures
        final(out)@ == old(out)@ + digits_text(n as nat),
    decreases n,
{
    if n < 10 {
        out.push((48 + n) as u8);
        assert(out@ =~= old(out)@ + digits_text(n as nat));
    } else {
        push_digits(out, n / 10);
        out.push((48 + n % 10) as u8);
        assert(out@ =~= old(out)@ + digits_text(n as nat));
    }
}

fn push_integer(out: &mut Vec<u8>, n: i64)
    ensures
        final(out)@ == old(out)@ + integer_text(n),
{
    if n < 0 {
        out.push(45);
        let magnitude: u64 = if n == i64::MIN {
            0x8000_0000_0000_0000
        } else {
            (-n) as u64
        };
        push_digits(out, magnitude);
        assert(out@ =~= old(out)@ + integer_text(n));
    } else {
        push_digits(out, n as u64);
    }
}

fn push_escaped(out: &mut Vec<u8>, text: &Vec<u8>)
    ensures
        final(out)@ == old(out)@ + escaped_text(text@),
{
    let mut i: usize = 0;
    assert(text@.subrange(0, 0) =~= Seq::<u8>::empty());
    while i < text.len()
        invariant
            i <= text.len(),
            out@ == old(out)@ + escaped_text(text@.subrange(0, i as int)),
        decreases text.len() - i,
    {
        let b = text[i];
        let ghost before = out@;
        if b == 10 {
            out.push(92);
            out.push(110);
        } else if b == 9 {
            out.push(92);
            out.push(116);
        } else if b == 34 {
            out.push(92);
            out.push(34);
        } else if b == 92 {
            out.push(92);
            out.push(92);
        } else {
            out.push(b);
        }
        assert(out@ =~= before + escaped_byte(b));
        i = i + 1;
        proof {
            let next = text@.subrange(0, i as int);
            assert(next.drop_last() =~= text@.subrange(0, i - 1));
            assert(out@ =~= old(out)@ + escaped_text(next));
        }
    }
    assert(text@.subrange(0, text@.len() as int) =~= text@);
}

impl Value {
    /// Appends to `out` how this value is shown.
    pub fn write_to(&self, out: &mut Vec<u8>)
        ensures
            final(out)@ == old(out)@ + render(self@),
        decreases *self,
    {
        let ghost start = out@;
        if self.raw {
            out.push(39);
        }
        if self.sequential {
            out.push(33);
        }
        match &self.kind {
            ValueKind::Symbol(name) => {
                push_all(out, name);
            },
            ValueKind::Bool(b) => {
                proof {
                    reveal_strlit("true");
                    reveal_strlit("false");
                }
                if *b {
                    push_all(out, &crate::text::literal("true"));
                } else {
                    push_all(out, &crate::text::literal("false"));
                }
            },
            ValueKind::Integer(n) => {
                push_integer(out, *n);
            },
            ValueKind::Float(f) => {
                push_all(out, &f.text);
            },
            ValueKind::String(text) => {
                out.push(34);
                push_escaped(out, text);
                out.push(34);
            },
            ValueKind::List(items) => {
                out.push(40);
                let handles = handles_of(items);
                let ghost views = list_view(*items);
                let ghost opened = out@;
                let mut i: usize = 0;
                while i < handles.len()
                    invariant
                        i <= handles@.len(),
                        handles@.len() == items@.len(),
                        forall|j: int|
                            0 <= j < handles@.len() ==> *(#[trigger] handles@[j]) == items@[j],
                        views == handles_view(handles@),
                        out@ == opened + render_items(views, i as int),
                        self.kind == ValueKind::List(*items),
                    decreases handles@.len() - i,
                {
                    if i > 0 {
                        out.push(32);
                    }
                    proof {
                        items.lemma_element_decreases(i as int);
                        assert(self.kind->List_0 == *items);
                    }
                    handles[i].write_to(out);
                    i = i + 1;
                    assert(out@ =~= opened + render_items(views, i as int));
                }
                out.push(41);
            },
            ValueKind::Function(f) => {
                proof {
                    reveal_strlit("{function ");
                }
                push_all(out, &crate::text::literal("{function "));
                push_all(out, &f.name);
                out.push(125);
            },
            ValueKind::Exception(e) => {
                proof {
                    reveal_strlit("{exception ");
                }
                push_all(out, &crate::text::literal("{exception "));
                push_all(out, &e.ident);
                out.push(125);
            },
        }
        assert(out@ =~= start + render(self@));
    }

    /// How this value is shown, as a string.
    pub fn to_string(&self) -> (r: String)
        ensures
            vstd::utf8::valid_utf8(render(self@)) ==> r@ == vstd::utf8::decode_utf8(
                render(self@),
            ),
    {
        crate::text::string_of(&self.to_text())
    }

    /// How this value is shown.
    pub fn to_text(&self) -> (r: Vec<u8>)
        ensures
            r@ == render(self@),
    {
        let mut out: Vec<u8> = Vec::new();
        self.write_to(&mut out);
        assert(out@ =~= render(self@));
        out
    }
}

/// Whether the bits are those of a number that is not a number.
pub open spec fn bits_nan(bits: u64) -> bool {
    (bits & 0x7ff0_0000_0000_0000) == 0x7ff0_0000_0000_0000 && (bits & 0x000f_ffff_ffff_ffff) != 0
}

/// Whether the bits are those of zero, of either sign.
pub open spec fn bits_zero(bits: u64) -> bool {
    (bits & 0x7fff_ffff_ffff_ffff) == 0
}

/// Whether two floats are equal as numbers: no number equals one that is
/// not a number, and the two zeros are equal. Floats that the host has
/// not read yet are compared by their text.
pub open spec fn float_eq(a: FloatView, b: FloatView) -> bool {
    match (a.bits, b.bits) {
        (Some(x), Some(y)) => !bits_nan(x) && !bits_nan(y) && (x == y || (bits_zero(x)
            && bits_zero(y))),
        _ => a.text == b.text,
    }
}

/// Whether two callables are the same one: the names do not count.
pub open spec fn callable_eq(a: CallableView, b: CallableView) -> bool {
    match (a, b) {
        (CallableView::Builtin(x), CallableView::Builtin(y)) => x == y,
        (CallableView::Lambda(x), CallableView::Lambda(y)) => x.scope == y.scope,
        _ => false,
    }
}

/// Whether two values are equal: the flags, the kinds and what the kinds
/// hold, lists and exceptions element by element.
pub open spec fn value_eq(a: ValueView, b: ValueView) -> bool
    decreases a, 0int,
{
    a.raw == b.raw && a.sequential == b.sequential && match (a.kind, b.kind) {
        (KindView::Symbol(x), KindView::Symbol(y)) => x == y,
        (KindView::Bool(x), KindView::Bool(y)) => x == y,
        (KindView::Integer(x), KindView::Integer(y)) => x == y,
        (KindView::Float(x), KindView::Float(y)) => float_eq(x, y),
        (KindView::String(x), KindView::String(y)) => x == y,
        (KindView::List(xs), KindView::List(ys)) => xs.len() == ys.len() && items_eq(
            xs,
            ys,
            xs.len() as int,
        ),
        (KindView::Function(f), KindView::Function(g)) => callable_eq(f.call, g.call),
        (KindView::Exception(e), KindView::Exception(f)) => e.ident == f.ident && e.args.len()
            == f.args.len() && items_eq(e.args, f.args, e.args.len() as int),
        _ => false,
    }
}

/// Whether the first `count` values of `xs` and of `ys` are equal one by
/// one.
pub open spec fn items_eq(xs: Seq<ValueView>, ys: Seq<ValueView>, count: int) -> bool
    decreases xs, count,
{
    if count <= 0 || count > xs.len() || count > ys.len() {
        true
    } else {
        items_eq(xs, ys, count - 1) && value_eq(xs[count - 1], ys[count - 1])
    }
}

fn is_nan(bits: u64) -> (r: bool)
    ensures
        r == bits_nan(bits),
{
    (bits & 0x7ff0_0000_0000_0000) == 0x7ff0_0000_0000_0000 && (bits & 0x000f_ffff_ffff_ffff) != 0
}

fn is_zero(bits: u64) -> (r: bool)
    ensures
        r == bits_zero(bits),
{
    (bits & 0x7fff_ffff_ffff_ffff) == 0
}

/// Whether the two hold the same bytes.
pub fn same_bytes(a: &Vec<u8>, b: &Vec<u8>) -> (r: bool)
    ensures
        r == (a@ == b@),
{
    if a.len() != b.len() {
        return false;
    }
    let mut i: usize = 0;
    while i < a.len()
        invariant
            i <= a@.len(),
            a@.len() == b@.len(),
            forall|j: int| 0 <= j < i ==> a@[j] == b@[j],
        decreases a@.len() - i,
    {
        if a[i] != b[i] {
            return false;
        }
        i = i + 1;
    }
    assert(a@ =~= b@);
    true
}

fn same_float(a: &Float, b: &Float) -> (r: bool)
    ensures
        r == float_eq(a@, b@),
{
    match a.bits {
        Some(x) => match b.bits {
            Some(y) => !is_nan(x) && !is_nan(y) && (x == y || (is_zero(x) && is_zero(y))),
            None => same_bytes(&a.text, &b.text),
        },
        None => same_bytes(&a.text, &b.text),
    }
}

fn same_items(xs: &List<Value>, ys: &List<Value>, Ghost(owner): Ghost<Value>) -> (r: bool)
    requires
        decreases_to!(owner => *xs),
    ensures
        r == (list_view(*xs).len() == list_view(*ys).len() && items_eq(
            list_view(*xs),
            list_view(*ys),
            list_view(*xs).len() as int,
        )),
    decreases owner, 0int,
{
    let left = handles_of(xs);
    let right = handles_of(ys);
    if left.len() != right.len() {
        return false;
    }
    let mut i: usize = 0;
    while i < left.len()
        invariant
            i <= left@.len(),
            left@.len() == right@.len(),
            left@.len() == xs@.len(),
            forall|j: int| 0 <= j < left@.len() ==> *(#[trigger] left@[j]) == xs@[j],
            handles_view(left@) == list_view(*xs),
            handles_view(right@) == list_view(*ys),
            items_eq(list_view(*xs), list_view(*ys), i as int),
            decreases_to!(owner => *xs),
        decreases left@.len() - i,
    {
        proof {
            xs.lemma_element_decreases(i as int);
        }
        if !left[i].same(&right[i]) {
            proof {
                lemma_items_eq_fails(list_view(*xs), list_view(*ys), i as int, left@.len() as int);
            }
            return false;
        }
        i = i + 1;
    }
    true
}

proof fn lemma_items_eq_fails(xs: Seq<ValueView>, ys: Seq<ValueView>, at: int, count: int)
    requires
        0 <= at < count <= xs.len(),
        count <= ys.len(),
        !value_eq(xs[at], ys[at]),
    ensures
        !items_eq(xs, ys, count),
    decreases count,
{
    if at < count - 1 {
        lemma_items_eq_fails(xs, ys, at, count - 1);
    }
}

impl Value {
    /// Whether this value equals the other.
    pub fn same(&self, other: &Value) -> (r: bool)
        ensures
            r == value_eq(self@, other@),
        decreases *self, 2int,
    {
        if self.raw != other.raw || self.sequential != other.sequential {
            return false;
        }
        match (&self.kind, &other.kind) {
            (ValueKind::Symbol(x), ValueKind::Symbol(y)) => same_bytes(x, y),
            (ValueKind::Bool(x), ValueKind::Bool(y)) => *x == *y,
            (ValueKind::Integer(x), ValueKind::Integer(y)) => *x == *y,
            (ValueKind::Float(x), ValueKind::Float(y)) => same_float(x, y),
            (ValueKind::String(x), ValueKind::String(y)) => same_bytes(x, y),
            (ValueKind::List(xs), ValueKind::List(ys)) => {
                proof {
                    assert(self.kind->List_0 == *xs);
                }
                same_items(xs, ys, Ghost(*self))
            },
            (ValueKind::Function(f), ValueKind::Function(g)) => match (&f.call, &g.call) {
                (Callable::Builtin(x), Callable::Builtin(y)) => *x == *y,
                (Callable::Lambda(x), Callable::Lambda(y)) => x.scope == y.scope,
                _ => false,
            },
            (ValueKind::Exception(e), ValueKind::Exception(f)) => {
                proof {
                    assert(self.kind->Exception_0 == *e);
                }
                same_bytes(&e.ident, &f.ident) && same_items(&e.args, &f.args, Ghost(*self))
            },
            _ => false,
        }
    }
}

impl PartialEq for Value {
    fn eq(&self, other: &Self) -> (r: bool) {
        self.same(other)
    }
}

impl vstd::std_specs::cmp::PartialEqSpecImpl for Value {
    open spec fn obeys_eq_spec() -> bool {
        true
    }

    open spec fn eq_spec(&self, other: &Self) -> bool {
        value_eq(self@, other@)
    }
}

/// Whether `after` is `before` with every float that stands in it, or
/// in a list in it, replaced by what `reads` allows for its text, and
/// nothing else changed.
pub open spec fn floats_read(
    before: ValueView,
    after: ValueView,
    reads: spec_fn(Seq<u8>, FloatView) -> bool,
) -> bool
    decreases before, 0int,
{
    before.raw == after.raw && before.sequential == after.sequential && match before.kind {
        KindView::Float(f) => after.kind matches KindView::Float(g) && reads(f.text, g),
        KindView::List(xs) => after.kind matches KindView::List(ys) && xs.len() == ys.len()
            && items_read(xs, ys, reads, xs.len() as int),
        kind => after.kind == kind,
    }
}

/// `floats_read` for the first `count` values, one by one.
pub open spec fn items_read(
    xs: Seq<ValueView>,
    ys: Seq<ValueView>,
    reads: spec_fn(Seq<u8>, FloatView) -> bool,
    count: int,
) -> bool
    decreases xs, count,
{
    if count <= 0 || count > xs.len() || count > ys.len() {
        true
    } else {
        items_read(xs, ys, reads, count - 1) && floats_read(xs[count - 1], ys[count - 1], reads)
    }
}

/// What a reader of floats may give for a text.
pub open spec fn reader_gives<F: Fn(&Vec<u8>) -> Float>(read: F) -> spec_fn(
    Seq<u8>,
    FloatView,
) -> bool {
    |text: Seq<u8>, float: FloatView|
        exists|t: Vec<u8>, r: Float| t@ == text && r@ == float && call_ensures(read, (&t,), r)
}

impl Value {
    /// This value with every float in it read: `read` is called on the
    /// text of each float, and what it gives takes the float's place.
    /// What a parser gives holds floats as text alone; the host reads
    /// them before the value is evaluated.
    pub fn with_floats_read<F: Fn(&Vec<u8>) -> Float>(&self, read: &F) -> (r: Value)
        requires
            forall|text: &Vec<u8>| call_requires(*read, (text,)),
        ensures
            floats_read(self@, r@, reader_gives(*read)),
        decreases *self,
    {
        let kind = match &self.kind {
            ValueKind::Float(f) => {
                let float = read(&f.text);
                assert(reader_gives(*read)(f.text@, float@));
                ValueKind::Float(float)
            },
            ValueKind::List(items) => {
                let handles = handles_of(items);
                let ghost views = list_view(*items);
                let mut results: Vec<Value> = Vec::new();
                let mut i: usize = 0;
                while i < handles.len()
                    invariant
                        i <= handles@.len(),
                        handles@.len() == items@.len(),
                        forall|j: int|
                            0 <= j < handles@.len() ==> *(#[trigger] handles@[j]) == items@[j],
                        views == handles_view(handles@),
                        results@.len() == i,
                        items_read(
                            views,
                            results@.map_values(|v: Value| v@),
                            reader_gives(*read),
                            i as int,
                        ),
                        self.kind == ValueKind::List(*items),
                        forall|text: &Vec<u8>| call_requires(*read, (text,)),
                    decreases handles@.len() - i,
                {
                    proof {
                        items.lemma_element_decreases(i as int);
                        assert(self.kind->List_0 == *items);
                    }
                    let ghost before = results@.map_values(|v: Value| v@);
                    let result = handles[i].with_floats_read(read);
                    results.push(result);
                    proof {
                        let now = results@.map_values(|v: Value| v@);
                        assert(now =~= before.push(result@));
                        lemma_items_read_extends(
                            views,
                            before,
                            now,
                            reader_gives(*read),
                            i as int,
                        );
                    }
                    i = i + 1;
                }
                let list = List::from_double_ended_iter(results);
                proof {
                    lemma_list_view(list);
                }
                ValueKind::List(list)
            },
            other => other.clone(),
        };
        Value { raw: self.raw, sequential: self.sequential, kind }
    }
}

proof fn lemma_items_read_extends(
    xs: Seq<ValueView>,
    ys: Seq<ValueView>,
    longer: Seq<ValueView>,
    reads: spec_fn(Seq<u8>, FloatView) -> bool,
    count: int,
)
    requires
        0 <= count <= ys.len(),
        ys.len() <= longer.len(),
        forall|i: int| 0 <= i < ys.len() ==> ys[i] == longer[i],
        items_read(xs, ys, reads, count),
    ensures
        items_read(xs, longer, reads, count),
    decreases count,
{
    if count > 0 && count <= xs.len() {
        lemma_items_read_extends(xs, ys, longer, reads, count - 1);
    }
}

} // verus!
