//! A binary-to-hexadecimal codec with a verified wide-lane fast path and a
//! scalar fallback, plus a few small utility functions.

use vstd::prelude::*;

pub mod hex;

verus! {

/// Adds two machine-sized integers; the caller guarantees the sum fits.
pub fn add(left: usize, right: usize) -> (sum: usize)
    requires
        left + right <= usize::MAX,
    ensures
        sum == left + right,
{
    left + right
}

/// Anchor for a rendered flow-chart example in the documentation; does nothing
/// at run time.
pub fn mermaid_test() {
}

/// Anchor for a rendered sketch example in the documentation; does nothing at
/// run time.
pub fn p5doc_test() {
}

} // verus!
