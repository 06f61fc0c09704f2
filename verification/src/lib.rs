#![verifier::loop_isolation(false)]
//! Benchmark-report-to-CSV library.
//!
//! A report is a byte string of benchmark-name lines and indented
//! `parameter: value` lines. The parser turns one report into a column of
//! (benchmark, parameter, value) entries; a table aligns several such columns
//! into one CSV grid keyed by the (benchmark, parameter) pairs seen anywhere.

use vstd::prelude::*;

pub mod column;
pub mod report;
pub mod table;
pub mod csv_out;
pub mod revs;
pub mod laws;

verus! {

/// A byte-wise equality test on slices.
pub(crate) fn bytes_eq(a: &[u8], b: &[u8]) -> (r: bool)
    ensures
        r == (a@ == b@),
{
    if a.len() != b.len() {
        return false;
    }
    let mut i: usize = 0;
    while i < a.len()
        invariant
            i <= a.len(),
            a.len() == b.len(),
            forall|k: int| 0 <= k < i ==> a@[k] == b@[k],
        decreases a.len() - i,
    {
        if a[i] != b[i] {
            return false;
        }
        i = i + 1;
    }
    proof {
        assert(a@ =~= b@);
    }
    true
}

} // verus!
