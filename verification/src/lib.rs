//! RIES-RS: find algebraic equations given their solution.
//!
//! This crate holds the symbolic core of the equation searcher: the symbol
//! alphabet, postfix expressions and their renderings, structural checks on
//! expressions, solving an equation for `x`, and the command-line helpers
//! that only manipulate text and integers.

pub mod symbol;
pub mod text;
pub mod tree;
pub mod buffer;
pub mod expr;
pub mod classes;
pub mod infix;
pub mod named;
pub mod infix_read;
pub mod constraints;
pub mod solve;
pub mod canon;
pub mod diagnostics;
pub mod output;
pub mod manifest;
pub mod args;
pub mod gen;
pub mod dedupe;
pub mod expand;
pub mod config;
pub mod fast_match;
pub mod presets;
pub mod pool;
pub mod report;
pub mod search;
pub mod runtime;
pub mod options;
pub mod post_process;
pub mod metrics;
pub mod pslq;
pub mod relation_text;
pub mod profile;
pub mod summary;
