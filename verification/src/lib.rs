//! Core pieces of a buildfile-driven command runner: recipes — named groups
//! of shell commands with parameters, dependencies, and interpolated
//! expressions — are planned in dependency order, their expressions
//! evaluated, and their commands handed to a shell.
//!
//! The crate holds the runner's logic: the expression evaluator and the
//! table of built-in functions, dependency planning with cycle detection,
//! command-line grouping, overrides and argument binding, parameter rules,
//! shebang handling for script recipes, the recipe listing, and the exact
//! messages of configuration, analysis, and run-time errors. Reading the
//! buildfile, the environment, and child processes live outside it and hand
//! it plain values.

pub mod analysis;
pub mod binding;
pub mod config_error;
pub mod diagnostic;
pub mod dotenv;
pub mod escape;
pub mod evaluator;
pub mod function;
pub mod graph;
pub mod invoke;
pub mod listing;
pub mod outside;
pub mod runtime;
pub mod search;
pub mod shebang;
pub mod text;
