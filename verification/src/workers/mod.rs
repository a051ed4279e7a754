//! What is done with the bytes of each window.
pub mod entropy_processor;
pub mod native_processor;
pub mod processors;
