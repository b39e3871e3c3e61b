//! The filter's bit array: the `bit_vec` crate's `BitVec`, held behind a
//! small set of trusted declarations. Verified code sees the array only as
//! the sequence of booleans `bits_of` gives.

use vstd::prelude::*;

verus! {

/// The `bit_vec` crate's packed bit array, declared so that verified code
/// can hold one; a value of it is opaque here.
#[verifier::external_type_specification]
#[verifier::external_body]
#[verifier::reject_recursive_types(B)]
pub struct ExBitVec<B>(bit_vec::BitVec<B>);

/// The boolean flags a `BitVec` holds, in index order.
pub uninterp spec fn bits_of(v: bit_vec::BitVec) -> Seq<bool>;

/// Relies on `bit_vec::BitVec::from_elem`: a vector that holds `len`
/// elements, each set to `bit`.
#[verifier::external_body]
pub(crate) fn bits_new(len: usize, bit: bool) -> (r: bit_vec::BitVec)
    ensures
        bits_of(r) == Seq::new(len as nat, |i: int| bit),
{
    bit_vec::BitVec::from_elem(len, bit)
}

/// Relies on `bit_vec::BitVec::len`: the total number of bits in the vector.
#[verifier::external_body]
pub(crate) fn bits_len(v: &bit_vec::BitVec) -> (r: usize)
    ensures
        r as nat == bits_of(*v).len(),
{
    v.len()
}

/// Relies on `bit_vec::BitVec::get`: the value at index `i`, or `None` if
/// `i` is out of bounds.
#[verifier::external_body]
pub(crate) fn bits_get(v: &bit_vec::BitVec, i: usize) -> (r: Option<bool>)
    ensures
        r == (if (i as nat) < bits_of(*v).len() {
            Some(bits_of(*v)[i as int])
        } else {
            None::<bool>
        }),
{
    v.get(i)
}

/// Relies on `bit_vec::BitVec::set`: writes `x` at index `i`, leaving every
/// other bit as it was; it panics on an out-of-bounds index, which the
/// precondition rules out.
#[verifier::external_body]
pub(crate) fn bits_set(v: &mut bit_vec::BitVec, i: usize, x: bool)
    requires
        (i as nat) < bits_of(*old(v)).len(),
    ensures
        bits_of(*final(v)) == bits_of(*old(v)).update(i as int, x),
{
    v.set(i, x)
}

} // verus!
