//! An interpreter for a small language of parenthesized expressions.
//!
//! Values are atoms or lists, a program is a list of forms, and what is
//! evaluated is the same data that is read.
//!
//! - `list`: the persistent list that holds programs and data.
//! - `value`, `exception`, `function`: the values of the language.
//! - `parser`: from source bytes to values, and from the trace of a failed
//!   parse to an annotation of the source.
//! - `executor`: contexts, and evaluation step by step.
//! - `semantics`: what the steps of an evaluation amount to.
//! - `host`: what evaluation asks of its host.
//! - `mapper_pool`: a pool of workers for evaluating at the same time.

pub mod exception;
pub mod executor;
pub mod function;
pub mod host;
pub mod list;
pub mod mapper_pool;
pub mod parser;
pub mod semantics;
pub mod text;
pub mod value;

pub use value::{Exception, Function, Value, ValueKind};
