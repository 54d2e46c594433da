//! The integer part of a threshold test: whether there is enough history.
use vstd::prelude::*;

verus! {

/// Whether the history of `len` data points is too small to test a new
/// value against: a minimum sample size is given and `len` is below it, the
/// minimum being read as a `usize` (so that a negative one wraps around to a
/// very large size).
pub fn below_min_sample_size(len: usize, min_sample_size: Option<i64>) -> (res: bool)
    ensures
        res == match min_sample_size {
            Some(m) => len < (m as usize),
            None => false,
        },
        min_sample_size matches Some(m) ==> (0 <= m <= usize::MAX ==> (res <==> len < m)),
{
    match min_sample_size {
        Some(m) => len < m as usize,
        None => false,
    }
}

} // verus!
