//! An emulation of early-exit `try` blocks, in two parts: a small runtime
//! trait that generalises "short-circuit on failure, wrap on success" over a
//! closed set of container types, and a tree transformer that lowers
//! `try`-block and early-exit nodes of a syntax tree into labelled loops,
//! breaks and matches that call into that runtime.
//!
//! The transformer works on this crate's own syntax-tree model; a front end
//! that parses and prints concrete source text converts its trees to and from
//! this model and renders each numeric scope label as a concrete loop label.

pub mod _rt;
pub mod ast;
pub mod expand;
pub mod laws;
mod sealed;
