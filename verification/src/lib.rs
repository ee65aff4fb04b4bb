//! A small Lisp: s-expressions over integers, floats, strings and symbols, with
//! `define`, `lambda`, `begin`, `let`, `cond`, `if` and a few list primitives.
//!
//! Text becomes tokens in [`lexer`] and a tree in [`parser`]. The tree is evaluated by
//! a machine that takes small steps: [`eval`] holds the rules and [`machine`] the
//! state they work on, and [`laws`] what follows from the rules for whole
//! evaluations. Names are bound in the scopes of an [`env::Env`], an arena in which a
//! closure names the scope of its definition by a handle.
//!
//! The machine terminates: it is given a budget of steps, and hands itself back when
//! the budget is used up. It holds no floating-point code. A float is carried as its
//! decimal text, and where a program computes with floats the machine stops with a
//! request to its host, to go on when the host has answered.
//!
//! The scopes that an evaluation makes are discarded when it is finished, not form
//! by form: the youngest go, down to the youngest that a closure which has escaped
//! still holds.

pub mod env;
pub mod error;
pub mod eval;
pub mod laws;
pub mod lexer;
pub mod machine;
pub mod object;
pub mod operator;
pub mod parser;
pub mod text;
