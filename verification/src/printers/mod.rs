//! What a scan reports, and to whom.
pub mod output;
pub mod printer;
