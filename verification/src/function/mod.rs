//! Functions as values.
//!
//! A function value is a callable and the name it is shown under. Two
//! function values are equal where their callables are the same one,
//! whatever their names.

pub mod builtins;

use crate::text::{ascii, literal};
pub use crate::value::{Builtin, Callable, Function, Lambda};
use crate::value::{CallableView, FunctionView, KindView, ValueView};
use vstd::prelude::*;

verus! {

/// The name that a root context binds a built-in function to.
pub open spec fn builtin_name(b: Builtin) -> Seq<u8> {
    match b {
        Builtin::Def => ascii("def"@),
        Builtin::Defn => ascii("defn"@),
        Builtin::Lambda => ascii("fn"@),
        Builtin::List => ascii("list"@),
        Builtin::Do => ascii("do"@),
        Builtin::DoDiscard => ascii("do_"@),
        Builtin::If => ascii("if"@),
        Builtin::Atom => ascii("atom"@),
        Builtin::Cond => ascii("cond"@),
        Builtin::Cons => ascii("cons"@),
        Builtin::Head => ascii("head"@),
        Builtin::Tail => ascii("tail"@),
        Builtin::Add => ascii("+"@),
        Builtin::Mul => ascii("*"@),
        Builtin::Sub => ascii("-"@),
        Builtin::Div => ascii("/"@),
        Builtin::Eq => ascii("=="@),
        Builtin::Ne => ascii("/="@),
        Builtin::Lt => ascii("<"@),
        Builtin::Le => ascii("<="@),
        Builtin::Gt => ascii(">"@),
        Builtin::Ge => ascii(">="@),
        Builtin::Cmp => ascii("cmp"@),
        Builtin::Debug => ascii("debug"@),
        Builtin::Sleep => ascii("sleep"@),
        Builtin::Time => ascii("time"@),
    }
}

/// A built-in function under its own name.
pub open spec fn builtin_view(b: Builtin) -> FunctionView {
    FunctionView { name: builtin_name(b), call: CallableView::Builtin(b) }
}

impl Function {
    /// The built-in function under its own name.
    pub fn builtin(b: Builtin) -> (r: Function)
        ensures
            r@ == builtin_view(b),
    {
        proof {
            reveal_strlit("def");
            reveal_strlit("defn");
            reveal_strlit("fn");
            reveal_strlit("list");
            reveal_strlit("do");
            reveal_strlit("do_");
            reveal_strlit("if");
            reveal_strlit("atom");
            reveal_strlit("cond");
            reveal_strlit("cons");
            reveal_strlit("head");
            reveal_strlit("tail");
            reveal_strlit("+");
            reveal_strlit("*");
            reveal_strlit("-");
            reveal_strlit("/");
            reveal_strlit("==");
            reveal_strlit("/=");
            reveal_strlit("<");
            reveal_strlit("<=");
            reveal_strlit(">");
            reveal_strlit(">=");
            reveal_strlit("cmp");
            reveal_strlit("debug");
            reveal_strlit("sleep");
            reveal_strlit("time");
        }
        let name = match b {
            Builtin::Def => literal("def"),
            Builtin::Defn => literal("defn"),
            Builtin::Lambda => literal("fn"),
            Builtin::List => literal("list"),
            Builtin::Do => literal("do"),
            Builtin::DoDiscard => literal("do_"),
            Builtin::If => literal("if"),
            Builtin::Atom => literal("atom"),
            Builtin::Cond => literal("cond"),
            Builtin::Cons => literal("cons"),
            Builtin::Head => literal("head"),
            Builtin::Tail => literal("tail"),
            Builtin::Add => literal("+"),
            Builtin::Mul => literal("*"),
            Builtin::Sub => literal("-"),
            Builtin::Div => literal("/"),
            Builtin::Eq => literal("=="),
            Builtin::Ne => literal("/="),
            Builtin::Lt => literal("<"),
            Builtin::Le => literal("<="),
            Builtin::Gt => literal(">"),
            Builtin::Ge => literal(">="),
            Builtin::Cmp => literal("cmp"),
            Builtin::Debug => literal("debug"),
            Builtin::Sleep => literal("sleep"),
            Builtin::Time => literal("time"),
        };
        Function { name, call: Callable::Builtin(b) }
    }
}

} // verus!
