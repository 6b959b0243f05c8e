//! Scalar reverse-mode automatic differentiation.
//!
//! An expression is built as a directed acyclic graph of scalar nodes: each
//! node is either a leaf (an input) or the result of one arithmetic operation
//! on earlier nodes.  The backward engine walks the graph from a chosen root
//! and produces, in a dependency-respecting order, the exact sequence of
//! gradient contributions that the chain rule demands — one contribution per
//! edge reachable from the root, each tagged with the derivative rule to
//! apply.  The accumulation theorem in `chain` proves that replaying that
//! sequence with `+=` semantics yields, for every node, the adjoint defined by
//! the chain-rule recurrence, for any assignment of local derivative factors.
//!
//! The numeric evaluation itself (floating point) is left to the caller: a
//! contribution names its consumer node, its target operand and the
//! derivative rule, and the caller multiplies and accumulates.

pub mod chain;
pub mod engine;
pub mod graph;
pub mod laws;
pub mod op;
