use crate::bitmath::{lemma_mask_from_max, low_mask};
use crate::buffer::Buffer;
use vstd::prelude::*;

verus! {

/// The buffer value with the lowest `size` bits set and no other.
pub(crate) fn mask<B: Buffer>(size: u32) -> (r: B)
    requires
        0 < size <= B::BITS,
    ensures
        r.value() == low_mask(size as nat),
{
    proof {
        B::lemma_buffer_facts(B::MAX);
        lemma_mask_from_max(B::BITS as nat, size as nat);
    }
    B::MAX.shift_right(B::BITS - size)
}

} // verus!
