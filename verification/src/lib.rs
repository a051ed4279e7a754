//! A forensic scanner for binary data: it looks, at every byte offset of a
//! byte source, for a number of a chosen width, signedness and byte order
//! that passes a filter, and reports where it found one.
pub mod common;
pub mod filebuffer;
pub mod filters;
pub mod hex;
pub mod printers;
pub mod scanner;
pub mod types;
pub mod utils;
pub mod workers;
