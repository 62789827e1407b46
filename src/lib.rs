//! A verified core for a small Lisp interpreter (MAL, "Make-A-Lisp").
pub mod builtins;
pub mod env;
pub mod eval;
pub mod laws;
pub mod printer;
pub mod reader;
pub mod repl;
pub mod round_trip;
pub mod text;
pub mod types;
