//! Helpers that the workers are built on.
pub mod ringbuffer;
