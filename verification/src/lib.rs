//! Causal-flow preserving rewriting of ZX-diagrams.
//!
//! A rule set pairs a left-hand side, a diagram to look for, with
//! replacements for it. Compiling a list of rule sets gives a rewriter and the
//! patterns to match. For what a matcher finds of those patterns in a target
//! diagram, the rewriter lists the candidate rewrites, and applies the one
//! that is chosen to a copy of the diagram.
//!
//! Diagrams are quizx graphs. Whether a diagram has a causal flow, and where
//! a pattern occurs in it, is found out elsewhere and handed in.
//!
//! - [`diagram`]: the graph and its mathematical model.
//! - [`document`]: diagram documents and their decoding.
//! - [`rewrite_sets`]: decoded graphs, rule sets and their two sides.
//! - [`surgery`]: what a rewrite does to a diagram, and the laws of it.
//! - [`rewriter`]: compiling rule sets, listing candidates, applying one.
//! - [`faults`]: the first thing wrong in a list.

pub mod diagram;
pub mod document;
pub mod faults;
pub mod rewrite_sets;
pub mod rewriter;
pub mod surgery;
