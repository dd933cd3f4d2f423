//! Constant-time byte-string equality, from the `subtle` crate.
use vstd::prelude::*;
use subtle::ConstantTimeEq;

verus! {

/// Relies on `<[u8] as subtle::ConstantTimeEq>::ct_eq` and `From<Choice> for bool`:
/// the choice is 1 exactly when the slices have equal length and equal bytes.
#[verifier::external_body]
pub(crate) fn ct_eq_bytes(a: &[u8], b: &[u8]) -> (r: bool)
    ensures
        r == (a@ == b@),
{
    a.ct_eq(b).into()
}

} // verus!
