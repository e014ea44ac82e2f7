use spli::exception::Exception;
use spli::executor::{Context, Control};
use spli::function::builtins::{io, lang, list, math};
use spli::host::{BinaryOp, CompareOp, FoldOp, Num, Request};
use spli::list::List;
use spli::value::{Callable, Float};
use spli::{Value, ValueKind};
use std::sync::Arc;

fn simple(kind: ValueKind) -> Value {
    Value { raw: false, sequential: false, kind }
}

fn integer(n: i64) -> Value {
    simple(ValueKind::Integer(n))
}

fn boolean(b: bool) -> Value {
    simple(ValueKind::Bool(b))
}

fn symbol(name: &str) -> Value {
    simple(ValueKind::Symbol(name.as_bytes().to_vec()))
}

fn string(text: &str) -> Value {
    simple(ValueKind::String(text.as_bytes().to_vec()))
}

fn float(text: &str, bits: u64) -> Value {
    simple(ValueKind::Float(Float { bits: Some(bits), text: text.as_bytes().to_vec() }))
}

fn list_of(items: Vec<Value>) -> Value {
    simple(ValueKind::List(args(items)))
}

fn args(items: Vec<Value>) -> List<Value> {
    List::from_double_ended_iter(items)
}

fn exception(ident: &str, items: Vec<Value>) -> Arc<Value> {
    Exception { ident: ident.as_bytes().to_vec(), args: args(items) }.to_value()
}

fn too_few(n: i64) -> Arc<Value> {
    exception("too-few-arguments", vec![integer(n)])
}

fn too_many(n: i64) -> Arc<Value> {
    exception("too-many-arguments", vec![integer(n)])
}

fn wrong_type(expected: &str, found: Value) -> Arc<Value> {
    exception("wrong-type", vec![symbol(expected), found])
}

fn returned(control: Control) -> Arc<Value> {
    match control {
        Control::Return { value } => value,
        other => panic!("{:?} is no value", other),
    }
}

fn asked(control: Control) -> Request {
    match control {
        Control::Await { request } => request,
        other => panic!("{:?} is no request", other),
    }
}

#[test]
fn def_checks_its_arguments_in_order() {
    let mut ctx = Context::new();
    assert_eq!(lang::def(&mut ctx, 0, args(vec![])), too_few(2));
    assert_eq!(lang::def(&mut ctx, 0, args(vec![integer(1)])), wrong_type("ident", integer(1)));
    assert_eq!(lang::def(&mut ctx, 0, args(vec![integer(1), integer(2), integer(3)])), wrong_type("ident", integer(1)));
    assert_eq!(lang::def(&mut ctx, 0, args(vec![symbol("x")])), too_few(2));
    assert_eq!(lang::def(&mut ctx, 0, args(vec![symbol("x"), integer(2), integer(3)])), too_many(2));
    assert_eq!(ctx.find_ident(0, &b"x".to_vec()), None);
    assert_eq!(*lang::def(&mut ctx, 0, args(vec![symbol("x"), integer(2)])), integer(2));
    assert_eq!(ctx.find_ident(0, &b"x".to_vec()), Some(Arc::new(integer(2))));
    assert_eq!(*lang::def(&mut ctx, 0, args(vec![symbol("x"), integer(3)])), integer(3));
    assert_eq!(ctx.find_ident(0, &b"x".to_vec()), Some(Arc::new(integer(3))));
    assert_eq!(ctx.bindings(0).len(), 1);
}

#[test]
fn fn_checks_its_arguments_in_order() {
    let mut ctx = Context::new();
    assert_eq!(lang::func_literal(&mut ctx, 0, args(vec![])), too_few(2));
    assert_eq!(lang::func_literal(&mut ctx, 0, args(vec![integer(1)])), wrong_type("list", integer(1)));
    assert_eq!(lang::func_literal(&mut ctx, 0, args(vec![list_of(vec![])])), too_few(2));
    assert_eq!(
        lang::func_literal(&mut ctx, 0, args(vec![list_of(vec![]), integer(1), integer(2)])),
        too_many(2)
    );
    assert_eq!(
        lang::func_literal(
            &mut ctx,
            0,
            args(vec![list_of(vec![symbol("a"), integer(5), string("b")]), integer(1)])
        ),
        wrong_type("ident", integer(5))
    );
    assert_eq!(ctx.scope_count(), 1);
    let made = lang::func_literal(
        &mut ctx,
        0,
        args(vec![
            list_of(vec![symbol("a"), symbol("b")]),
            Value { raw: true, sequential: true, kind: ValueKind::Integer(1) },
        ]),
    );
    assert_eq!(ctx.scope_count(), 2);
    match &made.kind {
        ValueKind::Function(function) => {
            assert_eq!(function.name, b"<lambda>");
            match &function.call {
                Callable::Lambda(lambda) => {
                    assert_eq!(lambda.params, vec![b"a".to_vec(), b"b".to_vec()]);
                    assert_eq!(*lambda.body, integer(1));
                    assert_eq!(lambda.scope, 1);
                }
                _ => panic!("a function of the language was made"),
            }
        }
        _ => panic!("a function was made"),
    }
}

#[test]
fn defn_checks_its_arguments_in_order() {
    let mut ctx = Context::new();
    assert_eq!(lang::defn(&mut ctx, 0, args(vec![])), too_few(2));
    assert_eq!(lang::defn(&mut ctx, 0, args(vec![integer(1)])), wrong_type("ident", integer(1)));
    assert_eq!(lang::defn(&mut ctx, 0, args(vec![symbol("f")])), too_few(2));
    assert_eq!(lang::defn(&mut ctx, 0, args(vec![symbol("g"), list_of(vec![])])), too_few(2));
    assert_eq!(
        lang::defn(&mut ctx, 0, args(vec![symbol("h"), list_of(vec![]), integer(1), integer(2)])),
        too_many(2)
    );
    assert_eq!(ctx.find_ident(0, &b"f".to_vec()), Some(too_few(2)));
    assert_eq!(ctx.bindings(0).len(), 3);
    let made = lang::defn(&mut ctx, 0, args(vec![symbol("k"), list_of(vec![]), integer(1)]));
    assert_eq!(ctx.find_ident(0, &b"k".to_vec()), Some(made.clone()));
    assert_eq!(made.to_text(), b"{function k}");
}

#[test]
fn if_checks_its_arguments_in_order() {
    assert_eq!(returned(lang::if_func(0, args(vec![]))), too_few(2));
    assert_eq!(returned(lang::if_func(0, args(vec![integer(1)]))), wrong_type("bool", integer(1)));
    assert_eq!(returned(lang::if_func(0, args(vec![boolean(true)]))), too_few(2));
    assert_eq!(
        returned(lang::if_func(0, args(vec![boolean(true), integer(1), integer(2), integer(3)]))),
        too_many(1)
    );
    match lang::if_func(4, args(vec![boolean(false), integer(1)])) {
        Control::Eval { value, scope } => {
            assert_eq!(value, Value::unit());
            assert_eq!(scope, 4);
        }
        other => panic!("{:?} should be evaluated", other),
    }
    match lang::if_func(
        2,
        args(vec![boolean(true), Value { raw: true, sequential: false, kind: ValueKind::Integer(7) }]),
    ) {
        Control::Eval { value, scope } => {
            assert_eq!(*value, integer(7));
            assert_eq!(scope, 2);
        }
        other => panic!("{:?} should be evaluated", other),
    }
}

#[test]
fn list_functions_check_their_arguments() {
    assert_eq!(lang::atom(args(vec![])), too_few(1));
    assert_eq!(lang::atom(args(vec![integer(1), integer(2)])), too_many(1));
    assert_eq!(list::cons(args(vec![integer(1)])), too_few(2));
    assert_eq!(list::cons(args(vec![integer(1), integer(2), integer(3)])), too_many(2));
    assert_eq!(list::head(args(vec![])), too_few(1));
    assert_eq!(list::head(args(vec![integer(1), integer(2)])), wrong_type("list", integer(1)));
    assert_eq!(list::head(args(vec![list_of(vec![]), integer(2)])), too_many(1));
    assert_eq!(list::head(args(vec![list_of(vec![])])), exception("list-is-empty", vec![]));
    assert_eq!(list::tail(args(vec![string("x")])), wrong_type("list", string("x")));
    assert_eq!(list::tail(args(vec![list_of(vec![integer(1)])])), Arc::new(list_of(vec![])));
    assert_eq!(*lang::create_list(args(vec![integer(1), integer(2)])), list_of(vec![integer(1), integer(2)]));
    assert_eq!(lang::do_return(args(vec![integer(1), integer(2)])), Arc::new(integer(2)));
    assert_eq!(lang::do_return(args(vec![])), Value::unit());
    assert_eq!(lang::do_discard(args(vec![integer(1)])), Value::unit());
}

#[test]
fn arithmetic_asks_the_host_as_soon_as_a_float_takes_part() {
    assert_eq!(returned(math::add(args(vec![integer(1), integer(2)]))), Arc::new(integer(3)));
    assert_eq!(returned(math::mul(args(vec![integer(4), integer(5)]))), Arc::new(integer(20)));
    assert_eq!(returned(math::mul(args(vec![integer(i64::MAX), integer(2)]))), Arc::new(integer(-2)));
    match asked(math::add(args(vec![
        integer(1),
        integer(4),
        float("2", 2f64.to_bits()),
        integer(3),
    ]))) {
        Request::Fold(FoldOp::Add, nums) => {
            assert_eq!(nums.len(), 3);
            assert!(matches!(nums[0], Num::Int(5)));
            assert!(matches!(&nums[1], Num::Float(f) if f.bits == Some(2f64.to_bits())));
            assert!(matches!(nums[2], Num::Int(3)));
        }
        other => panic!("{:?} is not asked", other),
    }
    match asked(math::mul(args(vec![float("2", 2f64.to_bits()), integer(3)]))) {
        Request::Fold(FoldOp::Mul, nums) => {
            assert_eq!(nums.len(), 3);
            assert!(matches!(nums[0], Num::Int(1)));
            assert!(matches!(nums[2], Num::Int(3)));
        }
        other => panic!("{:?} is not asked", other),
    }
    match asked(math::mul(args(vec![integer(i64::MAX), integer(2), float("2", 2f64.to_bits())]))) {
        Request::Fold(FoldOp::Mul, nums) => assert!(matches!(nums[0], Num::Int(-2))),
        other => panic!("{:?} is not asked", other),
    }
    assert_eq!(
        returned(math::add(args(vec![float("2", 2f64.to_bits()), string("x"), symbol("y")]))),
        wrong_type("number", string("x"))
    );
    assert_eq!(returned(math::sub(args(vec![integer(i64::MIN), integer(1)]))), Arc::new(integer(i64::MAX)));
    assert_eq!(returned(math::div(args(vec![integer(i64::MIN), integer(-1)]))), Arc::new(integer(i64::MIN)));
    assert_eq!(returned(math::div(args(vec![integer(-7), integer(2)]))), Arc::new(integer(-3)));
    assert_eq!(returned(math::div(args(vec![integer(7), integer(-2)]))), Arc::new(integer(-3)));
    assert_eq!(
        returned(math::div(args(vec![integer(7), integer(0)]))),
        exception("division-by-zero", vec![])
    );
    assert_eq!(
        returned(math::sub(args(vec![string("a"), string("b")]))),
        wrong_type("number", string("a"))
    );
    assert_eq!(
        returned(math::sub(args(vec![integer(1), string("b")]))),
        wrong_type("number", string("b"))
    );
    assert!(matches!(
        asked(math::div(args(vec![integer(1), float("2", 2f64.to_bits())]))),
        Request::Binary(BinaryOp::Div, Num::Int(1), Num::Float(_))
    ));
    assert!(matches!(
        asked(math::cmp(args(vec![float("2", 2f64.to_bits()), integer(1)]))),
        Request::Order(Num::Float(_), Num::Int(1))
    ));
    match asked(math::ge(args(vec![
        integer(5),
        integer(3),
        float("2", 2f64.to_bits()),
        integer(1),
        integer(1),
    ]))) {
        Request::Compare(CompareOp::Ge, pairs) => {
            assert_eq!(pairs.len(), 2);
            assert!(matches!(pairs[0].left, Num::Int(3)));
            assert!(matches!(pairs[0].right, Num::Float(_)));
            assert!(matches!(pairs[1].left, Num::Float(_)));
            assert!(matches!(pairs[1].right, Num::Int(1)));
        }
        other => panic!("{:?} is not asked", other),
    }
    assert_eq!(
        returned(math::ge(args(vec![integer(3), integer(5), float("2", 2f64.to_bits())]))),
        Arc::new(boolean(false))
    );
    assert_eq!(
        returned(math::lt(args(vec![integer(1), float("2", 2f64.to_bits()), string("x")]))),
        wrong_type("number", string("x"))
    );
    assert_eq!(returned(math::cmp(args(vec![integer(1)]))), too_few(2));
    assert_eq!(returned(math::cmp(args(vec![integer(1), integer(2), integer(3)]))), too_many(2));
}

#[test]
fn comparisons_of_integers() {
    let chain = |items: Vec<i64>| args(items.into_iter().map(integer).collect());
    assert_eq!(returned(math::lt(chain(vec![1, 2, 3]))), Arc::new(boolean(true)));
    assert_eq!(returned(math::lt(chain(vec![1, 2, 2]))), Arc::new(boolean(false)));
    assert_eq!(returned(math::le(chain(vec![1, 2, 2]))), Arc::new(boolean(true)));
    assert_eq!(returned(math::gt(chain(vec![3, 2, 1]))), Arc::new(boolean(true)));
    assert_eq!(returned(math::gt(chain(vec![3, 1, 2]))), Arc::new(boolean(false)));
    assert_eq!(returned(math::ge(chain(vec![3, 3, 1]))), Arc::new(boolean(true)));
    assert_eq!(returned(math::ge(chain(vec![]))), Arc::new(boolean(true)));
    assert_eq!(returned(math::lt(args(vec![string("x")]))), Arc::new(boolean(true)));
    assert_eq!(
        returned(math::lt(args(vec![integer(2), integer(1), string("x")]))),
        wrong_type("number", string("x"))
    );
    assert_eq!(math::eq(chain(vec![1, 2, 3])), Arc::new(boolean(false)));
    assert_eq!(math::eq(chain(vec![1, 1, 2])), Arc::new(boolean(false)));
    assert_eq!(math::eq(chain(vec![1, 2, 2])), Arc::new(boolean(false)));
    assert_eq!(math::eq(chain(vec![2, 2, 2])), Arc::new(boolean(true)));
    assert_eq!(math::eq(chain(vec![2, 2])), Arc::new(boolean(true)));
    assert_eq!(math::eq(chain(vec![2])), Arc::new(boolean(false)));
    assert_eq!(math::eq(chain(vec![])), Arc::new(boolean(false)));
    assert_eq!(math::ne(chain(vec![1, 1, 1])), Arc::new(boolean(false)));
    assert_eq!(math::ne(chain(vec![1, 1, 2])), Arc::new(boolean(false)));
    assert_eq!(math::ne(chain(vec![1, 2, 1])), Arc::new(boolean(true)));
    assert_eq!(math::ne(chain(vec![1, 2])), Arc::new(boolean(true)));
    assert_eq!(math::ne(chain(vec![1])), Arc::new(boolean(false)));
    assert_eq!(math::ne(chain(vec![])), Arc::new(boolean(false)));
    assert_eq!(math::transitive_compare(chain(vec![1, 1, 2]), true, false), Arc::new(boolean(false)));
    assert_eq!(math::transitive_compare(chain(vec![1, 1, 1]), true, false), Arc::new(boolean(true)));
    assert_eq!(math::transitive_compare(chain(vec![]), true, true), Arc::new(boolean(true)));
}

#[test]
fn host_functions_check_their_arguments() {
    assert!(matches!(asked(io::sleep(args(vec![integer(-3)]))), Request::Sleep(Num::Int(0))));
    assert!(matches!(asked(io::sleep(args(vec![integer(3)]))), Request::Sleep(Num::Int(3))));
    assert!(matches!(
        asked(io::sleep(args(vec![float("-1", (-1f64).to_bits())]))),
        Request::Sleep(Num::Float(_))
    ));
    assert_eq!(returned(io::sleep(args(vec![]))), too_few(1));
    assert_eq!(returned(io::sleep(args(vec![integer(1), integer(2)]))), too_many(1));
    assert_eq!(returned(io::sleep(args(vec![string("x")]))), wrong_type("number", string("x")));
    assert!(matches!(asked(io::time(args(vec![]))), Request::Time));
    assert_eq!(returned(io::time(args(vec![integer(1)]))), too_many(0));
    match asked(io::debug(args(vec![integer(1), string("a b"), list_of(vec![symbol("x")])]))) {
        Request::Print(lines) => {
            assert_eq!(lines, vec![b"1".to_vec(), b"\"a b\"".to_vec(), b"(x)".to_vec()])
        }
        other => panic!("{:?} is not asked", other),
    }
}

#[test]
fn cond_counts_a_list_by_its_first_element() {
    assert_eq!(lang::cond(args(vec![])), Value::unit());
    assert_eq!(
        lang::cond(args(vec![
            boolean(false),
            list_of(vec![]),
            list_of(vec![boolean(false), integer(1)]),
            list_of(vec![list_of(vec![]), integer(2)]),
            list_of(vec![integer(0), integer(3), integer(4)]),
            integer(5),
        ])),
        Arc::new(integer(4))
    );
    assert_eq!(lang::cond(args(vec![list_of(vec![string("only")])])), Arc::new(string("only")));
    assert_eq!(lang::cond(args(vec![boolean(false), string("x")])), Arc::new(string("x")));
}
