//! The numeric types a scan can look for, and what a scan needs of them.
pub mod bit_type;
pub mod compare;
pub mod endian;
pub mod float;
