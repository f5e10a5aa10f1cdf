//! A small Lisp: a reader, an evaluator with global definitions, and a printer.
pub mod sexpr;
pub mod eval;
pub mod text;
pub mod reader;
pub mod printer;
pub mod repl;
pub mod laws;
pub mod fuel;
pub mod roundtrip;
pub mod bindings;
pub mod isolation;
pub mod untouched;
pub mod forms;
