//! Predicates over candidate values, and how to build them.
pub mod and;
pub mod configuration;
pub mod entropy;
pub mod equal;
pub mod filter;
pub mod max;
pub mod min;
pub mod notequal;
pub mod notequal_exact;
