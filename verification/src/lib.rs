//! Core of a small dynamically-typed scripting language: the runtime value
//! model, the scope-chain environment, the expression evaluator, and the
//! statement executor with explicit control-flow signals and closures.
//!
//! Scanning, parsing and the command-line front end are external
//! collaborators: the core only consumes an already-built syntax tree.
pub mod environment;
pub mod expr;
pub mod interpreter;
pub mod printer;
pub mod props;
pub mod semantics;
pub mod strings;
pub mod stmt;

