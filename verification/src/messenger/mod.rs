//! Bodies of the messages that Bencher sends.
pub mod button;
