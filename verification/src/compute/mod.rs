//! Compute backends: the backend abstraction and its CPU implementation.

pub mod backend;
pub mod cpu;
