//! A tree-walking interpreter for a small expression language: a scanner,
//! a recursive-descent parser and an evaluator over a flat environment.
//!
//! Numbers are IEEE-754 doubles held as their bit patterns. Work that needs
//! floating-point hardware (reading a decimal literal, turning an integer
//! into a double, `+ - * /`, rendering) is handed in by the caller as
//! closures; everything else is decided here.
pub mod environment;
pub mod expr;
pub mod interpreter;
pub mod lexer;
pub mod parser;
pub mod stmt;
pub mod text;
