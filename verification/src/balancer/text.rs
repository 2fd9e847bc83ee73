//! Comparing texts.
use vstd::prelude::*;

verus! {

/// `==` on string slices: whether two texts consist of the same characters.
#[verifier::external_body]
pub(crate) fn same_text(a: &str, b: &str) -> (same: bool)
    ensures
        same == (a@ == b@),
{
    a == b
}

} // verus!
