//! Reading the output of Rust's built-in benchmark harness.
pub mod grammar;
pub mod laws;
pub mod scan;
pub mod units;
pub mod rust;
