//! The built-in functions.
//!
//! Every one of them is an ordinary function: its arguments have been
//! evaluated before it is entered. What it gives is stated over the
//! models of its arguments.

pub mod io;
pub mod lang;
pub mod list;
pub mod math;

use super::{builtin_view, Builtin, Function};
use crate::value::FunctionView;
use vstd::prelude::*;

verus! {

/// The models of the functions in a vector.
pub open spec fn functions_view(functions: Seq<Function>) -> Seq<FunctionView> {
    functions.map_values(|f: Function| f@)
}

/// The built-in functions in the order in which a root context binds
/// them.
pub open spec fn all_builtins() -> Seq<Builtin> {
    lang::lang_builtins() + list::list_builtins() + math::math_builtins() + io::io_builtins()
}

/// The functions for the built-ins named, each under its own name.
pub fn functions_for(which: &Vec<Builtin>) -> (r: Vec<Function>)
    ensures
        functions_view(r@) == which@.map_values(|b: Builtin| builtin_view(b)),
{
    let mut r: Vec<Function> = Vec::new();
    let mut i: usize = 0;
    while i < which.len()
        invariant
            i <= which@.len(),
            r@.len() == i,
            forall|j: int| 0 <= j < i ==> (#[trigger] r@[j])@ == builtin_view(which@[j]),
        decreases which@.len() - i,
    {
        r.push(Function::builtin(which[i]));
        i = i + 1;
    }
    assert(functions_view(r@) =~= which@.map_values(|b: Builtin| builtin_view(b)));
    r
}

/// All built-in functions, each under its own name.
pub fn builtins() -> (r: Vec<Function>)
    ensures
        functions_view(r@) == all_builtins().map_values(|b: Builtin| builtin_view(b)),
{
    let mut r = lang::builtins();
    let ghost first = r@;
    let mut part = list::builtins();
    let ghost second = part@;
    r.append(&mut part);
    assert(functions_view(first + second) =~= functions_view(first) + functions_view(second));
    let mut part = math::builtins();
    let ghost third = part@;
    r.append(&mut part);
    assert(functions_view(first + second + third) =~= functions_view(first + second)
        + functions_view(third));
    let mut part = io::builtins();
    let ghost fourth = part@;
    r.append(&mut part);
    assert(functions_view(first + second + third + fourth) =~= functions_view(
        first + second + third,
    ) + functions_view(fourth));
    assert(functions_view(r@) =~= all_builtins().map_values(|b: Builtin| builtin_view(b)));
    r
}

} // verus!
