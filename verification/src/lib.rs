//! Reverse-mode automatic differentiation over scalars.
//!
//! A [`scalar::ScalarGraph`] owns the nodes of a computation in an
//! append-only [`arena::Arena`]; a [`scalar::Scalar`] names one node by its
//! index. Arithmetic on handles ([`ops`]) appends nodes and never changes
//! one. [`scalar::Scalar::backward`] walks the nodes that a root depends on
//! in topological order ([`order`]) and adds to every gradient what the
//! chain rule assigns to it ([`backward`]). [`nn`] builds perceptrons,
//! layers and networks from such nodes.
//!
//! The values are of any type with the arithmetic of [`number::Number`];
//! the wrapping 64-bit integers are one.

pub mod arena;
pub mod backward;
pub mod graph;
pub mod nn;
pub mod number;
pub mod ops;
pub mod order;
pub mod scalar;
