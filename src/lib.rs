//! Building blocks for the front end of a language implementation: a
//! character source reader with newline folding, a deterministic automaton,
//! a greedy longest-match lexer, a diagnostic buffer, and parser combinators.

pub mod domain;
pub mod lexing;
pub mod messaging;
pub mod parsing;
pub mod sourcing;
