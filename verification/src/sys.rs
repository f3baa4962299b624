//! The system layer: what to ask of the operating system, and what its answers mean.

pub mod coroutine;
pub mod error;
pub mod io_uring;
pub mod mman;
pub mod numbers;
pub mod page;
