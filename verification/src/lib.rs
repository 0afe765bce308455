//! A small interpreted language: integer arithmetic, mutable and immutable
//! variables, first-class closures and structured control flow, run by an
//! evaluator over a fixed arena of value cells.
//!
//! - [`ast`] turns text into tokens and tokens into a syntax tree.
//! - [`vm`] is the runtime state: the arena, the registers and the chains of
//!   scopes, with the operations on them.
//! - [`interpreter`] walks a tree and runs it against the runtime.
//!   [`interpreter::semantics`] says what a program means; the evaluator does
//!   exactly that.
//! - [`solve`] and [`repl`] hold what an equation solver and an interactive
//!   front end need to know of a tree and of a text.
//!
//! Every type has a mathematical model, its view, and every function says in
//! its contract what it returns and changes in terms of those models. What
//! holds of every scope, every state and every program is proved in
//! [`vm::properties`], [`interpreter::scoping`], [`interpreter::soundness`],
//! [`interpreter::isolation`], [`interpreter::control`] and
//! [`interpreter::bounds`].
//!
//! A program cannot loop or recurse without end: an interpreter bounds the
//! depth to which calls nest and the number of rounds of every loop, and
//! fails where a bound is passed. The bounds change nothing else.

pub mod ast;
pub mod error;
pub mod interpreter;
pub mod repl;
pub mod solve;
pub mod vm;
