//! Lexical analysis: a scanner that turns source text into tokens and two
//! symbol tables, an open-addressing symbol table with stable ids, and a
//! deterministic finite automaton engine that validates lexemes.

pub mod output;
pub mod scanner;
pub mod state_machine;
pub mod symbols;
pub mod text;
pub mod utils;
