//! Verified core of a low-rank MAX-CUT SDP solver.
//!
//! The floating-point kernels (objective, gradient, projection, rounding)
//! live beside this library; what is proved here is the integer and text
//! logic that drives them: the graph file format and the symmetric triplet
//! encoding of Q, the factor-rank policy, step-rule selection, the
//! iteration control of the optimizer and the sign assignment produced by
//! hyperplane rounding.
pub mod driver;
pub mod graph;
pub mod rank;
pub mod rounding;
pub mod step_rules;
