//! A small Lisp: a reader from text to values, and an evaluator over an arena
//! of environment frames and atom cells, with tail calls run in a loop.
//!
//! `parser::read_form` reads one form; `eval::eval` evaluates it in a frame of
//! a `root_env::Heap`, within a budget of reduction steps. The heap also holds
//! what the host exchanges with the program: the files `slurp` may read, which
//! the host supplies when evaluation stops with `ReplError::FileNeeded`, and
//! the lines `prn` prints, which the host takes and writes out.
pub mod ast;
pub mod text;
pub mod parser;
pub mod errors;
pub mod printer;
pub mod root_env;
pub mod eval;
