//! A proof engine for first-order natural deduction.
//!
//! The crate models terms and formulas of first-order logic, sequents,
//! a natural-deduction rule set, proofs as goal stacks, and an engine
//! that couples a symbol context with an active proof. A lexer, a parser
//! and a script executor turn command text into engine runs.

pub mod command;
pub mod context;
pub mod engine;
pub mod error;
pub mod exec;
pub mod formula;
pub mod laws;
pub mod lexer;
pub mod parser;
pub mod proofs;
pub mod rule;
pub mod sequent;
pub mod term;
pub mod tools;
