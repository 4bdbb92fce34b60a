//! Trusted access to the few `Vec` capacity operations that vstd leaves
//! unspecified.  Contents are all that the contracts here speak of: `Vec`'s
//! view does not model capacity, so capacity itself stays an executable
//! quantity, bounded below by the length.

use vstd::prelude::*;

verus! {

/// Relies on `Vec::capacity`: the capacity of a vector is always at least
/// its length.
#[verifier::external_body]
pub(crate) fn vec_capacity<T>(v: &Vec<T>) -> (r: usize)
    ensures
        r >= v@.len(),
{
    v.capacity()
}

/// Relies on `Vec::shrink_to`: it only sheds unused capacity, never the
/// contents.
#[verifier::external_body]
pub(crate) fn vec_shrink_to<T>(v: &mut Vec<T>, min_capacity: usize)
    ensures
        final(v)@ == old(v)@,
{
    v.shrink_to(min_capacity)
}

/// Relies on `Vec::shrink_to_fit`: it only sheds unused capacity, never the
/// contents.
#[verifier::external_body]
pub(crate) fn vec_shrink_to_fit<T>(v: &mut Vec<T>)
    ensures
        final(v)@ == old(v)@,
{
    v.shrink_to_fit()
}

/// Relies on the `Debug` formatting of the borrowed value's type.  The
/// `Debug` output of an arbitrary type is unspecified, so the text itself
/// cannot be promised; everything the containers build around these texts
/// — braces, separators, one text per entry in order — is verified.
#[verifier::external_body]
pub(crate) fn debug_of<T: core::fmt::Debug>(x: &T) -> String {
    format!("{:?}", x)
}

} // verus!
