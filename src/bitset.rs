//! The bit array of a filter, held in `bit_vec::BitVec`.
use vstd::prelude::*;

verus! {

#[verifier::external_type_specification]
#[verifier::external_body]
#[verifier::reject_recursive_types(B)]
pub struct ExBitVec<B>(bit_vec::BitVec<B>);

/// The flags that a bit vector holds, in order.
pub uninterp spec fn bits_of(v: bit_vec::BitVec) -> Seq<bool>;

/// Relies on `BitVec::from_elem`: `n` flags, each set to `false`.
#[verifier::external_body]
pub(crate) fn cleared_bits(n: usize) -> (r: bit_vec::BitVec)
    ensures
        bits_of(r) == Seq::new(n as nat, |_i: int| false),
{
    bit_vec::BitVec::from_elem(n, false)
}

/// Relies on `BitVec::set`: flag `i` becomes `x`, the others stay; it
/// panics when `i` is out of bounds.
#[verifier::external_body]
pub(crate) fn set_bit(v: &mut bit_vec::BitVec, i: usize, x: bool)
    requires
        i < bits_of(*old(v)).len(),
    ensures
        bits_of(*final(v)) == bits_of(*old(v)).update(i as int, x),
{
    v.set(i, x)
}

/// Relies on `BitVec`'s `Index`: flag `i`; it panics when `i` is out of
/// bounds.
#[verifier::external_body]
pub(crate) fn get_bit(v: &bit_vec::BitVec, i: usize) -> (r: bool)
    requires
        i < bits_of(*v).len(),
    ensures
        r == bits_of(*v)[i as int],
{
    v[i]
}

} // verus!
