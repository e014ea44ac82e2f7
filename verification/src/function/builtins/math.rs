//! Arithmetic and comparison: `+`, `*`, `-`, `/`, `==`, `/=`, `<`, `<=`,
//! `>`, `>=` and `cmp`.
//!
//! Integers are computed here, with wrapping. As soon as a float takes
//! part the host is asked.

use super::functions_for;
use super::lang::{expected_number, too_few, too_many};
use crate::exception::{
    division_by_zero_view, too_few_view, too_many_view, wrong_type_view, Exception,
};
use crate::executor::{Control, ControlView};
use crate::function::{Builtin, Function};
use crate::host::{
    nums_view, pairs_view, sign_value, sign_view, BinaryOp, CompareOp, FoldOp, Num, NumView,
    Pair, PairView, Request, RequestView, Sign,
};
use crate::list::{share, List};
use crate::text::ascii;
use crate::value::{
    handles_of, handles_view, list_view, simple_view, value_eq, KindView, Value, ValueKind,
    ValueView,
};
use std::sync::Arc;
use vstd::prelude::*;

verus! {

/// The functions of this file, in the order in which they are bound.
pub open spec fn math_builtins() -> Seq<Builtin> {
    seq![
        Builtin::Add,
        Builtin::Mul,
        Builtin::Sub,
        Builtin::Div,
        Builtin::Eq,
        Builtin::Ne,
        Builtin::Lt,
        Builtin::Le,
        Builtin::Gt,
        Builtin::Ge,
        Builtin::Cmp,
    ]
}

/// The functions of this file, each under its own name.
pub fn builtins() -> (r: Vec<Function>)
    ensures
        super::functions_view(r@) == math_builtins().map_values(
            |b: Builtin| crate::function::builtin_view(b),
        ),
{
    let which = vec![
        Builtin::Add,
        Builtin::Mul,
        Builtin::Sub,
        Builtin::Div,
        Builtin::Eq,
        Builtin::Ne,
        Builtin::Lt,
        Builtin::Le,
        Builtin::Gt,
        Builtin::Ge,
        Builtin::Cmp,
    ];
    assert(which@ =~= math_builtins());
    functions_for(&which)
}

/// Whether a value is a number.
pub open spec fn is_number(v: ValueView) -> bool {
    v.kind is Integer || v.kind is Float
}

/// A value as a number; what is no number counts as the integer 0.
pub open spec fn num_of(v: ValueView) -> NumView {
    match v.kind {
        KindView::Integer(n) => NumView::Int(n),
        KindView::Float(f) => NumView::Float(f),
        _ => NumView::Int(0),
    }
}

/// The values as numbers.
pub open spec fn nums_of(args: Seq<ValueView>) -> Seq<NumView> {
    args.map_values(|v: ValueView| num_of(v))
}

/// The first of the values from `from` on that is no number.
pub open spec fn first_non_number(args: Seq<ValueView>, from: int) -> Option<ValueView>
    decreases args.len() - from,
{
    if from < 0 || from >= args.len() {
        None
    } else if is_number(args[from]) {
        first_non_number(args, from + 1)
    } else {
        Some(args[from])
    }
}

/// Where a fold starts: at 0 for a sum and at 1 for a product.
pub open spec fn fold_start(op: FoldOp) -> i64 {
    match op {
        FoldOp::Add => 0,
        FoldOp::Mul => 1,
    }
}

/// One step of a fold on integers; the result wraps.
pub open spec fn fold_step(op: FoldOp, acc: i64, next: i64) -> i64 {
    match op {
        FoldOp::Add => acc.wrapping_add(next),
        FoldOp::Mul => acc.wrapping_mul(next),
    }
}

/// The first `count` values, which are integers, folded from the left.
pub open spec fn fold_integers(op: FoldOp, args: Seq<ValueView>, count: int) -> i64
    decreases count,
{
    if count <= 0 || count > args.len() {
        fold_start(op)
    } else {
        fold_step(op, fold_integers(op, args, count - 1), args[count - 1].kind->Integer_0)
    }
}

/// The place of the first float among the values from `from` on, or the
/// number of values where none is among them.
pub open spec fn first_float(args: Seq<ValueView>, from: int) -> int
    decreases args.len() - from,
{
    if from < 0 || from >= args.len() {
        args.len() as int
    } else if args[from].kind is Float {
        from
    } else {
        first_float(args, from + 1)
    }
}

/// `+` and `*`: a value that is no number is reported. The integers that
/// come before the first float are folded here. Where no float follows,
/// what they came to is the result; else the host goes on from there, with
/// that integer as the first number and the float and all after it as the
/// others.
pub open spec fn spec_commutative_numeric(op: FoldOp, args: Seq<ValueView>) -> ControlView {
    match first_non_number(args, 0) {
        Some(val) => ControlView::Return { value: wrong_type_view(ascii("number"@), val) },
        None => {
            let float = first_float(args, 0);
            let folded = fold_integers(op, args, float);
            if float == args.len() {
                ControlView::Return { value: simple_view(KindView::Integer(folded)) }
            } else {
                ControlView::Await {
                    request: RequestView::Fold(
                        op,
                        seq![NumView::Int(folded)] + nums_of(
                            args.subrange(float, args.len() as int),
                        ),
                    ),
                }
            }
        },
    }
}

fn number_of(val: &Value) -> (r: Option<Num>)
    ensures
        r is Some <==> is_number(val@),
        r matches Some(n) ==> n@ == num_of(val@),
{
    match &val.kind {
        ValueKind::Integer(n) => Some(Num::Int(*n)),
        ValueKind::Float(f) => Some(Num::Float(f.clone())),
        _ => None,
    }
}

/// The first of the values that is no number, if there is one.
#[verifier::loop_isolation(false)]
fn non_number(items: &Vec<Arc<Value>>) -> (r: Option<Arc<Value>>)
    ensures
        match r {
            Some(val) => first_non_number(handles_view(items@), 0) == Some(val@),
            None => first_non_number(handles_view(items@), 0) is None,
        },
{
    let ghost args = handles_view(items@);
    let mut i: usize = 0;
    while i < items.len()
        invariant
            i <= items@.len(),
            first_non_number(args, 0) == first_non_number(args, i as int),
        decreases items@.len() - i,
    {
        assert(args[i as int] == items@[i as int]@);
        match &items[i].kind {
            ValueKind::Integer(_) => {},
            ValueKind::Float(_) => {},
            _ => {
                return Some(share(&items[i]));
            },
        }
        i = i + 1;
    }
    None
}

/// A value that is a number, as a number.
fn as_number(val: &Value) -> (r: Num)
    requires
        is_number(val@),
    ensures
        r@ == num_of(val@),
{
    match &val.kind {
        ValueKind::Integer(n) => Num::Int(*n),
        ValueKind::Float(f) => Num::Float(f.clone()),
        _ => Num::Int(0),
    }
}

/// Where there is no value that is no number, every value is one.
pub proof fn lemma_numbers(args: Seq<ValueView>, from: int, at: int)
    requires
        0 <= from <= at < args.len(),
        first_non_number(args, from) is None,
    ensures
        is_number(args[at]),
    decreases at - from,
{
    if from < at {
        lemma_numbers(args, from + 1, at);
    }
}

/// A fold of numbers: a sum or a product.
#[verifier::loop_isolation(false)]
pub fn commutative_numeric(args: List<Value>, op: FoldOp) -> (r: Control)
    ensures
        r@ == spec_commutative_numeric(op, list_view(args)),
{
    let items = handles_of(&args);
    let ghost views = list_view(args);
    match non_number(&items) {
        Some(val) => {
            return Control::Return { value: expected_number(val) };
        },
        None => {},
    }
    let mut acc: i64 = match op {
        FoldOp::Add => 0,
        FoldOp::Mul => 1,
    };
    let mut i: usize = 0;
    while i < items.len()
        invariant
            i <= items@.len(),
            first_float(views, 0) == first_float(views, i as int),
            acc == fold_integers(op, views, i as int),
        decreases items@.len() - i,
    {
        assert(views[i as int] == items@[i as int]@);
        match &items[i].kind {
            ValueKind::Integer(n) => {
                acc = match op {
                    FoldOp::Add => acc.wrapping_add(*n),
                    FoldOp::Mul => acc.wrapping_mul(*n),
                };
            },
            _ => {
                proof {
                    lemma_numbers(views, 0, i as int);
                }
                let ghost float = i as int;
                let mut nums: Vec<Num> = Vec::new();
                nums.push(Num::Int(acc));
                let mut j: usize = i;
                while j < items.len()
                    invariant
                        i <= j <= items@.len(),
                        nums@.len() == 1 + j - i,
                        nums@[0]@ == NumView::Int(acc),
                        forall|k: int|
                            0 <= k < j - i ==> (#[trigger] nums@[1 + k])@ == num_of(views[i + k]),
                    decreases items@.len() - j,
                {
                    assert(views[j as int] == items@[j as int]@);
                    proof {
                        lemma_numbers(views, 0, j as int);
                    }
                    nums.push(as_number(&items[j]));
                    j = j + 1;
                }
                proof {
                    let rest = views.subrange(float, views.len() as int);
                    let target = seq![NumView::Int(acc)] + nums_of(rest);
                    assert(nums_view(nums@).len() == target.len());
                    assert forall|k: int| 0 <= k < target.len() implies nums_view(nums@)[k]
                        == target[k] by {
                        if k > 0 {
                            assert(nums@[1 + (k - 1)]@ == num_of(views[i + (k - 1)]));
                            assert(rest[k - 1] == views[float + k - 1]);
                        }
                    }
                    assert(nums_view(nums@) =~= target);
                }
                return Control::Await { request: Request::Fold(op, nums) };
            },
        }
        i = i + 1;
    }
    Control::Return { value: Value::simple(ValueKind::Integer(acc)) }
}

/// `+ a…`
pub fn add(args: List<Value>) -> (r: Control)
    ensures
        r@ == spec_commutative_numeric(FoldOp::Add, list_view(args)),
{
    commutative_numeric(args, FoldOp::Add)
}

/// `* a…`
pub fn mul(args: List<Value>) -> (r: Control)
    ensures
        r@ == spec_commutative_numeric(FoldOp::Mul, list_view(args)),
{
    commutative_numeric(args, FoldOp::Mul)
}

/// The difference of two integers, which wraps, or their quotient, which
/// is rounded towards zero; a division by zero is reported.
pub open spec fn integer_binary(op: BinaryOp, left: i64, right: i64) -> ValueView {
    match op {
        BinaryOp::Sub => simple_view(KindView::Integer(left.wrapping_sub(right))),
        BinaryOp::Div => {
            if right == 0 {
                division_by_zero_view()
            } else {
                match left.checked_div(right) {
                    Some(quotient) => simple_view(KindView::Integer(quotient)),
                    None => simple_view(KindView::Integer(i64::MIN)),
                }
            }
        },
    }
}

/// What is done with two values that should be numbers: the second is
/// reported if it is none while the first is one, else the first if it is
/// none; two integers are computed with here, and for two numbers of
/// which one is a float the host is asked.
pub open spec fn spec_apply_to_numbers(
    left: ValueView,
    right: ValueView,
    integers: spec_fn(i64, i64) -> ValueView,
    floats: spec_fn(NumView, NumView) -> RequestView,
) -> ControlView {
    if !is_number(left) {
        ControlView::Return { value: wrong_type_view(ascii("number"@), left) }
    } else if !is_number(right) {
        ControlView::Return { value: wrong_type_view(ascii("number"@), right) }
    } else if left.kind is Integer && right.kind is Integer {
        ControlView::Return { value: integers(left.kind->Integer_0, right.kind->Integer_0) }
    } else {
        ControlView::Await { request: floats(num_of(left), num_of(right)) }
    }
}

/// `-` and `/` take two numbers.
pub open spec fn spec_noncommutative_numeric(op: BinaryOp, args: Seq<ValueView>) -> ControlView {
    if args.len() < 2 {
        ControlView::Return { value: too_few_view(2) }
    } else if args.len() > 2 {
        ControlView::Return { value: too_many_view(2) }
    } else {
        spec_apply_to_numbers(
            args[0],
            args[1],
            |a: i64, b: i64| integer_binary(op, a, b),
            |a: NumView, b: NumView| RequestView::Binary(op, a, b),
        )
    }
}

/// The two values as numbers, or the exception for the one that is
/// none.
fn apply_to_numbers(left: &Arc<Value>, right: &Arc<Value>) -> (r: Result<(Num, Num), Arc<Value>>)
    ensures
        match r {
            Ok((a, b)) => is_number(left@) && is_number(right@) && a@ == num_of(left@) && b@
                == num_of(right@),
            Err(exception) => if !is_number(left@) {
                exception@ == wrong_type_view(ascii("number"@), left@)
            } else {
                !is_number(right@) && exception@ == wrong_type_view(ascii("number"@), right@)
            },
        },
{
    match number_of(left) {
        None => Err(expected_number(share(left))),
        Some(a) => match number_of(right) {
            None => Err(expected_number(share(right))),
            Some(b) => Ok((a, b)),
        },
    }
}

fn integer_result(op: BinaryOp, left: i64, right: i64) -> (r: Arc<Value>)
    ensures
        r@ == integer_binary(op, left, right),
{
    match op {
        BinaryOp::Sub => Value::simple(ValueKind::Integer(left.wrapping_sub(right))),
        BinaryOp::Div => {
            if right == 0 {
                proof {
                    reveal_strlit("division-by-zero");
                    crate::text::lemma_ascii_bytes("division-by-zero");
                }
                Exception::bare("division-by-zero").to_value()
            } else {
                match left.checked_div(right) {
                    Some(quotient) => Value::simple(ValueKind::Integer(quotient)),
                    None => Value::simple(ValueKind::Integer(i64::MIN)),
                }
            }
        },
    }
}

/// An operation on two numbers: a difference or a quotient.
pub fn noncommutative_numeric(args: List<Value>, op: BinaryOp) -> (r: Control)
    ensures
        r@ == spec_noncommutative_numeric(op, list_view(args)),
{
    let items = handles_of(&args);
    if items.len() < 2 {
        return Control::Return { value: too_few(2) };
    }
    if items.len() > 2 {
        return Control::Return { value: too_many(2) };
    }
    match apply_to_numbers(&items[0], &items[1]) {
        Err(exception) => Control::Return { value: exception },
        Ok((Num::Int(a), Num::Int(b))) => Control::Return { value: integer_result(op, a, b) },
        Ok((a, b)) => Control::Await { request: Request::Binary(op, a, b) },
    }
}

/// `- a b`
pub fn sub(args: List<Value>) -> (r: Control)
    ensures
        r@ == spec_noncommutative_numeric(BinaryOp::Sub, list_view(args)),
{
    noncommutative_numeric(args, BinaryOp::Sub)
}

/// `/ a b`
pub fn div(args: List<Value>) -> (r: Control)
    ensures
        r@ == spec_noncommutative_numeric(BinaryOp::Div, list_view(args)),
{
    noncommutative_numeric(args, BinaryOp::Div)
}

/// Whether the value at `i` stands to the next one as asked: equal, or,
/// where `different` is set, not equal.
pub open spec fn equality_step(args: Seq<ValueView>, different: bool, i: int) -> bool {
    value_eq(args[i], args[i + 1]) != different
}

/// A chain of comparisons of each value with the next: it holds where
/// every one of them holds. A chain of fewer than two values compares
/// nothing and gives `default`.
pub open spec fn spec_transitive_compare(args: Seq<ValueView>, default: bool, different: bool)
    -> ValueView {
    simple_view(
        KindView::Bool(
            if args.len() < 2 {
                default
            } else {
                forall|i: int| 0 <= i < args.len() - 1 ==> equality_step(args, different, i)
            },
        ),
    )
}

/// A chain of comparisons for equality, or, where `different` is set, for
/// inequality.
pub fn transitive_compare(args: List<Value>, default: bool, different: bool) -> (r: Arc<Value>)
    ensures
        r@ == spec_transitive_compare(list_view(args), default, different),
{
    let items = handles_of(&args);
    let ghost views = list_view(args);
    if items.len() < 2 {
        return Value::simple(ValueKind::Bool(default));
    }
    let mut acc = true;
    let mut i: usize = 0;
    while i < items.len() - 1
        invariant
            i <= items@.len() - 1,
            items@.len() >= 2,
            views == handles_view(items@),
            acc <==> forall|j: int| 0 <= j < i ==> equality_step(views, different, j),
        decreases items@.len() - i,
    {
        let step = items[i].same(&items[i + 1]) != different;
        assert(step == equality_step(views, different, i as int));
        acc = acc && step;
        i = i + 1;
    }
    Value::simple(ValueKind::Bool(acc))
}

/// `== a…`: whether every value equals the next; `false` for fewer than
/// two values.
pub fn eq(args: List<Value>) -> (r: Arc<Value>)
    ensures
        r@ == spec_transitive_compare(list_view(args), false, false),
{
    transitive_compare(args, false, false)
}

/// `/= a…`: whether every value differs from the next; `false` for fewer
/// than two values.
pub fn ne(args: List<Value>) -> (r: Arc<Value>)
    ensures
        r@ == spec_transitive_compare(list_view(args), false, true),
{
    transitive_compare(args, false, true)
}

/// Whether two integers stand to each other as the operation asks.
pub open spec fn integers_compare(op: CompareOp, left: i64, right: i64) -> bool {
    match op {
        CompareOp::Lt => left < right,
        CompareOp::Le => left <= right,
        CompareOp::Gt => left > right,
        CompareOp::Ge => left >= right,
    }
}

/// Whether the values at `i` and after it are both integers.
pub open spec fn integer_pair(args: Seq<ValueView>, i: int) -> bool {
    args[i].kind is Integer && args[i + 1].kind is Integer
}

/// Whether every pair of two integers among the first `count` pairs of
/// neighbours stands as the operation asks.
pub open spec fn integer_pairs_hold(op: CompareOp, args: Seq<ValueView>, count: int) -> bool {
    forall|i: int|
        0 <= i < count && #[trigger] integer_pair(args, i) ==> integers_compare(
            op,
            args[i].kind->Integer_0,
            args[i + 1].kind->Integer_0,
        )
}

/// The pairs with a float among the first `count` pairs of neighbours, in
/// order.
pub open spec fn float_pairs(args: Seq<ValueView>, count: int) -> Seq<PairView>
    decreases count,
{
    if count <= 0 || count >= args.len() {
        Seq::empty()
    } else if integer_pair(args, count - 1) {
        float_pairs(args, count - 1)
    } else {
        float_pairs(args, count - 1).push(
            PairView { left: num_of(args[count - 1]), right: num_of(args[count]) },
        )
    }
}

/// A chain of comparisons of numbers: each must stand to the next as the
/// operation asks. Fewer than two values are not looked at and give
/// `true`. A value that is no number is reported. Two integers are
/// compared here, as integers. Where one such pair fails, the chain
/// fails; else the host is asked about the pairs with a float, if there
/// are any.
pub open spec fn spec_transitive_numeric_compare(op: CompareOp, args: Seq<ValueView>)
    -> ControlView {
    if args.len() < 2 {
        ControlView::Return { value: simple_view(KindView::Bool(true)) }
    } else {
        match first_non_number(args, 0) {
            Some(val) => ControlView::Return { value: wrong_type_view(ascii("number"@), val) },
            None => {
                let pairs = float_pairs(args, args.len() - 1);
                if !integer_pairs_hold(op, args, args.len() - 1) {
                    ControlView::Return { value: simple_view(KindView::Bool(false)) }
                } else if pairs.len() == 0 {
                    ControlView::Return { value: simple_view(KindView::Bool(true)) }
                } else {
                    ControlView::Await { request: RequestView::Compare(op, pairs) }
                }
            },
        }
    }
}

fn compare_integers(op: CompareOp, left: i64, right: i64) -> (r: bool)
    ensures
        r == integers_compare(op, left, right),
{
    match op {
        CompareOp::Lt => left < right,
        CompareOp::Le => left <= right,
        CompareOp::Gt => left > right,
        CompareOp::Ge => left >= right,
    }
}

/// A chain of comparisons of numbers.
#[verifier::loop_isolation(false)]
pub fn transitive_numeric_compare(args: List<Value>, op: CompareOp) -> (r: Control)
    ensures
        r@ == spec_transitive_numeric_compare(op, list_view(args)),
{
    let items = handles_of(&args);
    let ghost views = list_view(args);
    if items.len() < 2 {
        return Control::Return { value: Value::simple(ValueKind::Bool(true)) };
    }
    match non_number(&items) {
        Some(val) => {
            return Control::Return { value: expected_number(val) };
        },
        None => {},
    }
    let mut holds = true;
    let mut pairs: Vec<Pair> = Vec::new();
    let mut i: usize = 0;
    while i < items.len() - 1
        invariant
            i <= items@.len() - 1,
            holds == integer_pairs_hold(op, views, i as int),
            pairs_view(pairs@) == float_pairs(views, i as int),
        decreases items@.len() - i,
    {
        assert(views[i as int] == items@[i as int]@);
        assert(views[i + 1] == items@[i + 1]@);
        proof {
            lemma_numbers(views, 0, i as int);
            lemma_numbers(views, 0, i + 1);
        }
        let ghost before = pairs_view(pairs@);
        match (&items[i].kind, &items[i + 1].kind) {
            (ValueKind::Integer(a), ValueKind::Integer(b)) => {
                let step = compare_integers(op, *a, *b);
                assert(integer_pair(views, i as int));
                holds = holds && step;
            },
            _ => {
                assert(!integer_pair(views, i as int));
                let pair = Pair { left: as_number(&items[i]), right: as_number(&items[i + 1]) };
                pairs.push(pair);
                assert(pairs_view(pairs@) =~= before.push(pair@));
            },
        }
        i = i + 1;
    }
    if !holds {
        Control::Return { value: Value::simple(ValueKind::Bool(false)) }
    } else if pairs.len() == 0 {
        assert(pairs_view(pairs@).len() == 0);
        Control::Return { value: Value::simple(ValueKind::Bool(true)) }
    } else {
        assert(pairs_view(pairs@).len() == pairs@.len());
        Control::Await { request: Request::Compare(op, pairs) }
    }
}

/// `< a…`
pub fn lt(args: List<Value>) -> (r: Control)
    ensures
        r@ == spec_transitive_numeric_compare(CompareOp::Lt, list_view(args)),
{
    transitive_numeric_compare(args, CompareOp::Lt)
}

/// `<= a…`
pub fn le(args: List<Value>) -> (r: Control)
    ensures
        r@ == spec_transitive_numeric_compare(CompareOp::Le, list_view(args)),
{
    transitive_numeric_compare(args, CompareOp::Le)
}

/// `> a…`
pub fn gt(args: List<Value>) -> (r: Control)
    ensures
        r@ == spec_transitive_numeric_compare(CompareOp::Gt, list_view(args)),
{
    transitive_numeric_compare(args, CompareOp::Gt)
}

/// `>= a…`
pub fn ge(args: List<Value>) -> (r: Control)
    ensures
        r@ == spec_transitive_numeric_compare(CompareOp::Ge, list_view(args)),
{
    transitive_numeric_compare(args, CompareOp::Ge)
}

/// How one integer stands to another.
pub open spec fn integers_order(left: i64, right: i64) -> Sign {
    if left < right {
        Sign::Less
    } else if left == right {
        Sign::Equal
    } else {
        Sign::Greater
    }
}

/// `cmp a b` names how `a` stands to `b` with a raw symbol: `less`,
/// `equal`, `greater` or, for floats that cannot be compared,
/// `uncomparable`.
pub open spec fn spec_cmp(args: Seq<ValueView>) -> ControlView {
    if args.len() < 2 {
        ControlView::Return { value: too_few_view(2) }
    } else if args.len() > 2 {
        ControlView::Return { value: too_many_view(2) }
    } else {
        spec_apply_to_numbers(
            args[0],
            args[1],
            |a: i64, b: i64| sign_view(integers_order(a, b)),
            |a: NumView, b: NumView| RequestView::Order(a, b),
        )
    }
}

/// `cmp a b`
pub fn cmp(args: List<Value>) -> (r: Control)
    ensures
        r@ == spec_cmp(list_view(args)),
{
    let items = handles_of(&args);
    if items.len() < 2 {
        return Control::Return { value: too_few(2) };
    }
    if items.len() > 2 {
        return Control::Return { value: too_many(2) };
    }
    match apply_to_numbers(&items[0], &items[1]) {
        Err(exception) => Control::Return { value: exception },
        Ok((Num::Int(a), Num::Int(b))) => {
            let sign = if a < b {
                Sign::Less
            } else if a == b {
                Sign::Equal
            } else {
                Sign::Greater
            };
            Control::Return { value: sign_value(sign) }
        },
        Ok((a, b)) => Control::Await { request: Request::Order(a, b) },
    }
}

} // verus!
