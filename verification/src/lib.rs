//! Verified pieces of the Bencher continuous-benchmarking tool: the parser for
//! the text that `cargo bench` prints, the e-mail bodies, the organization
//! model, the branch selection of a benchmark run and the alert paths.
use vstd::prelude::*;

pub mod adapter;
pub mod alert;
pub mod boundary;
pub mod branch;
pub mod messenger;
pub mod organization;
pub mod resource;
pub mod text;

verus! {

} // verus!
