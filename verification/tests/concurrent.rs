//! The elements of a list that is not sequential may be evaluated at the
//! same time: a task is split, its parts are run on the workers of a pool
//! of mappers, and it is joined with what they found.

use spli::executor::{Context, Progress, Task};
use spli::host::{Answer, FoldOp, Num, Request};
use spli::mapper_pool::{MapperPool, MapperPoolBuilder};
use spli::parser::token;
use spli::value::Float;
use spli::{Value, ValueKind};
use std::sync::atomic::{AtomicUsize, Ordering};
use std::sync::{Arc, Condvar, Mutex};
use std::time::Duration;

fn float_of(x: f64) -> Float {
    Float { bits: Some(x.to_bits()), text: format!("{}", x).into_bytes() }
}

fn read_float(text: &Vec<u8>) -> Float {
    float_of(std::str::from_utf8(text).unwrap().parse().unwrap())
}

fn number(num: &Num) -> f64 {
    match num {
        Num::Int(n) => *n as f64,
        Num::Float(f) => f64::from_bits(f.bits.unwrap()),
    }
}

/// What the workers share: the context and what the host keeps.
struct Shared {
    ctx: Mutex<Context>,
    printed: Mutex<Vec<String>>,
    clock: Mutex<()>,
    nobody: Condvar,
    asleep: AtomicUsize,
    most_asleep: AtomicUsize,
}

/// What is shared, and the mappers, which stay on the thread that made
/// them.
struct Session {
    shared: Shared,
    pool: MapperPool<Arc<Value>>,
}

impl Shared {
    fn perform(&self, request: &Request) -> Answer {
        match request {
            Request::Print(lines) => {
                for line in lines {
                    self.printed.lock().unwrap().push(String::from_utf8(line.clone()).unwrap());
                }
                Answer::Done
            }
            Request::Sleep(num) => {
                let now = self.asleep.fetch_add(1, Ordering::SeqCst) + 1;
                self.most_asleep.fetch_max(now, Ordering::SeqCst);
                let time = Duration::from_secs_f64(number(num).max(0.0));
                let (guard, _) = self.nobody.wait_timeout(self.clock.lock().unwrap(), time).unwrap();
                drop(guard);
                self.asleep.fetch_sub(1, Ordering::SeqCst);
                Answer::Done
            }
            Request::Fold(FoldOp::Add, nums) => {
                Answer::Number(float_of(nums.iter().map(number).sum()))
            }
            _ => panic!("the host is not asked for this here"),
        }
    }

    fn finish_in_order(&self, mut task: Task) -> Arc<Value> {
        loop {
            let progress = self.ctx.lock().unwrap().run(&mut task, 100_000);
            match progress {
                Progress::Finished(found) => return found,
                Progress::Waiting => {
                    let answer = self.perform(task.request().unwrap());
                    task.resume(answer);
                }
                Progress::Running => panic!("the evaluation does not end"),
            }
        }
    }
}

impl Session {
    fn new(workers: usize) -> Session {
        let mut ctx = Context::new();
        ctx.add_prelude(0);
        Session {
            shared: Shared {
                ctx: Mutex::new(ctx),
                printed: Mutex::new(Vec::new()),
                clock: Mutex::new(()),
                nobody: Condvar::new(),
                asleep: AtomicUsize::new(0),
                most_asleep: AtomicUsize::new(0),
            },
            pool: MapperPoolBuilder::new().pool_size(1).workers_count(workers).build(),
        }
    }

    fn finish_in_order(&self, task: Task) -> Arc<Value> {
        self.shared.finish_in_order(task)
    }

    fn concurrently(&mut self, parts: Vec<Task>) -> Vec<Arc<Value>> {
        let shared = &self.shared;
        if self.pool.workers_count() == 0 {
            return parts.into_iter().map(|part| shared.finish_in_order(part)).collect();
        }
        self.pool.map(|part| shared.finish_in_order(part), parts)
    }

    fn finish(&mut self, mut task: Task) -> Arc<Value> {
        loop {
            if let Some(parts) = task.split() {
                let values = self.concurrently(parts);
                self.shared.ctx.lock().unwrap().join(&mut task, values);
            } else if let Some(found) = task.result() {
                return found;
            } else if task.request().is_some() {
                let answer = self.shared.perform(task.request().unwrap());
                task.resume(answer);
            } else {
                self.shared.ctx.lock().unwrap().step(&mut task);
            }
        }
    }
}

fn read(src: &str) -> Arc<Value> {
    let (rest, value) = token(src.as_bytes(), 0).unwrap();
    assert_eq!(rest, src.len());
    Arc::new(value.with_floats_read(&read_float))
}

fn shown(value: &Value) -> String {
    String::from_utf8(value.to_text()).unwrap()
}

const PROGRAMS: [&str; 12] = [
    "(+ 1 2 3)",
    "(+ (* 2 3) (- 10 4) (/ 9 3))",
    "(list (head '(1 2)) (tail '(1 2)) (cons 0 '(1)))",
    "(+ 1 (head '()) (foo) 2)",
    "!(+ 1 (head '()) (foo) 2)",
    "(if true '(+ (* 2 2) (* 3 3)) 0)",
    "((fn '(a b) '(list (+ a b) (* a b))) (+ 1 2) (+ 3 4))",
    "(do (def 'x 5) (+ 1 2))",
    "(foo)",
    "()",
    "'(+ 1 2)",
    "(+ 1.5 (* 2 3))",
];

#[test]
fn concurrent_evaluation_gives_what_evaluation_in_order_gives() {
    for workers in [0, 1, 4] {
        for program in PROGRAMS {
            let mut concurrent = Session::new(workers);
            let in_order = Session::new(workers);
            let a = concurrent.finish(Task::begin(read(program), 0));
            let b = in_order.finish_in_order(Task::begin(read(program), 0));
            assert_eq!(shown(&a), shown(&b), "{} with {} workers", program, workers);
        }
    }
}

#[test]
fn split_gives_a_task_for_each_element() {
    let task = Task::begin(read("(+ 1 (* 2 3))"), 0);
    let parts = task.split().unwrap();
    assert_eq!(parts.len(), 3);
    assert!(Task::begin(read("!(+ 1 2)"), 0).split().is_none());
    assert!(Task::begin(read("'(+ 1 2)"), 0).split().is_none());
    assert!(Task::begin(read("()"), 0).split().is_none());
    assert!(Task::begin(read("x"), 0).split().is_none());
    let mut ctx = Context::new();
    ctx.add_prelude(0);
    let mut done = Task::begin(read("1"), 0);
    ctx.step(&mut done);
    assert!(done.split().is_none());
}

#[test]
fn join_applies_the_first_value_to_the_others() {
    let mut ctx = Context::new();
    ctx.add_prelude(0);
    let mut task = Task::begin(read("(+ 1 (* 2 3))"), 0);
    let values: Vec<Arc<Value>> = task
        .split()
        .unwrap()
        .into_iter()
        .map(|part| {
            let mut part = part;
            match ctx.run(&mut part, 1000) {
                Progress::Finished(value) => value,
                _ => panic!("the part should have ended"),
            }
        })
        .collect();
    ctx.join(&mut task, values);
    assert_eq!(task.result(), Some(Value::simple(ValueKind::Integer(7))));
}

#[test]
fn join_with_the_wrong_number_of_values_changes_nothing() {
    let mut ctx = Context::new();
    ctx.add_prelude(0);
    let mut task = Task::begin(read("(+ 1 2)"), 0);
    ctx.join(&mut task, vec![Value::simple(ValueKind::Integer(1))]);
    assert_eq!(task.split().unwrap().len(), 3);
    let mut other = Task::begin(read("!(+ 1 2)"), 0);
    ctx.join(&mut other, vec![Value::unit(), Value::unit(), Value::unit()]);
    assert!(matches!(ctx.run(&mut other, 100), Progress::Finished(_)));
    assert_eq!(other.result(), Some(Value::simple(ValueKind::Integer(3))));
}

#[test]
fn join_gives_the_first_exception_in_order() {
    let mut ctx = Context::new();
    ctx.add_prelude(0);
    let mut task = Task::begin(read("(+ 1 2)"), 0);
    let first = spli::exception::Exception::list_is_empty().to_value();
    let second = spli::exception::Exception::too_few_arguments(1).to_value();
    ctx.join(&mut task, vec![Value::unit(), first.clone(), second]);
    assert_eq!(task.result(), Some(first));
}

#[test]
fn elements_sleep_at_the_same_time() {
    let mut session = Session::new(3);
    let value = session.finish(Task::begin(
        read("(list (sleep 0.3) (sleep 0.3) (sleep 0.3))"),
        0,
    ));
    assert_eq!(shown(&value), "(() () ())");
    assert!(session.shared.most_asleep.load(Ordering::SeqCst) >= 2);
    let mut session = Session::new(3);
    let value = session.finish(Task::begin(
        read("!(list (sleep 0.05) (sleep 0.05) (sleep 0.05))"),
        0,
    ));
    assert_eq!(shown(&value), "(() () ())");
    assert_eq!(session.shared.most_asleep.load(Ordering::SeqCst), 1);
}

#[test]
fn what_is_printed_by_a_sequential_list_is_in_order() {
    let mut session = Session::new(4);
    session.finish(Task::begin(read("!(list (debug 1) (debug 2) (debug 3) (debug 4))"), 0));
    assert_eq!(*session.shared.printed.lock().unwrap(), vec!["1", "2", "3", "4"]);
    let mut session = Session::new(4);
    session.finish(Task::begin(read("(list (debug 1) (debug 2) (debug 3) (debug 4))"), 0));
    let mut printed = session.shared.printed.lock().unwrap().clone();
    printed.sort();
    assert_eq!(printed, vec!["1", "2", "3", "4"]);
}
