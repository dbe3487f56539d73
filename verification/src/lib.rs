//! Compiler core for declarative grammars.
//!
//! A grammar is held as a model of rules, ordered alternatives and pattern
//! trees ([`model`]). It is validated ([`validator`]) and analysed
//! ([`analysis`], [`recursion`], [`shadowing`], [`tokens`], [`lexicon`],
//! [`keywords`]), and then compiled to a plan of backtracking recursive
//! descent with priority dispatch, commit points, left-recursion loops and
//! error recovery ([`plan`], [`codegen`]). Parsers made from a plan share a
//! context while they run ([`runtime`], [`scopes`]). What a plan means on an
//! input of characters is laid down in [`engine`] and carried out by
//! [`machine`]; [`laws`] holds what follows for every run.

pub mod span;
pub mod model;
pub mod text;
pub mod error;
pub mod calls;
pub mod validator;
pub mod graph;
pub mod recursion;
pub mod shadowing;
pub mod analysis;
pub mod tokens;
pub mod lexicon;
pub mod keywords;
pub mod plan;
pub mod codegen;
pub mod scopes;
pub mod runtime;
pub mod backend;
pub mod scan;
pub mod engine;
pub mod machine;
pub mod laws;
