//! Reverse-mode automatic differentiation: graph traversal and gradients.
pub mod graph;
pub mod grads;
pub mod tensor;
