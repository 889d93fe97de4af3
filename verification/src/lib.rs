//! A minimal reverse-mode automatic-differentiation engine over scalar
//! values, together with a gradient-descent optimizer and a small
//! feed-forward network built on top of it.
//!
//! Scalars are IEEE 754 binary32 values carried as `u32` bit patterns; the
//! computational graph is an arena of nodes addressed by index, so that an
//! index order is a topological order and the backward pass can process
//! every reachable node exactly once, in reverse topological order.

pub mod laws;
pub mod nn;
pub mod node;
pub mod optimizer;
pub mod scalar;
pub mod transcend;
