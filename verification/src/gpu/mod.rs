//! Intermediate representation of compute kernels and the passes over it.
pub mod dialect;
pub mod algorithm;
pub mod processing;
