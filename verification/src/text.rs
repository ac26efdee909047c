//! Comparing strings.
use vstd::prelude::*;

verus! {

/// `==` on `str`, of std: whether the two strings hold the same characters.
#[verifier::external_body]
pub(crate) fn same_text(a: &str, b: &str) -> (r: bool)
    ensures
        r == (a@ == b@),
{
    a == b
}

} // verus!
