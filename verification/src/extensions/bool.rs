use crate::buffer::Buffer;
use crate::packable::{round_trips, Packable};
use vstd::arithmetic::power2::*;
use vstd::prelude::*;

verus! {

/// A `bool` takes one bit: `1` for `true`, `0` for `false`.
impl<B: Buffer> Packable<B> for bool {
    const SIZE: u32 = 1;

    open spec fn well_sized() -> bool {
        true
    }

    open spec fn encode(&self) -> nat {
        if *self {
            1
        } else {
            0
        }
    }

    open spec fn decode(bits: nat) -> bool {
        bits == 1
    }

    fn pack(&self) -> (r: B) {
        proof {
            B::lemma_buffer_facts(B::ZERO);
            lemma2_to64();
        }
        if *self {
            B::ONE
        } else {
            B::ZERO
        }
    }

    fn unpack(buffer: B) -> (r: bool) {
        proof {
            B::lemma_buffer_facts(B::ZERO);
        }
        buffer.equals(B::ONE)
    }
}

/// A `bool` takes one bit.
pub proof fn lemma_bool_size<B: Buffer>()
    ensures
        <bool as Packable<B>>::SIZE == 1,
        <bool as Packable<B>>::well_sized(),
{
}

/// Every `bool` comes back from its packed bit.
pub proof fn lemma_bool_round_trips<B: Buffer>(b: bool)
    ensures
        round_trips::<B, bool>(b),
{
    lemma2_to64();
    assert(<bool as Packable<B>>::encode(&b) < 2);
    assert(<bool as Packable<B>>::encode(&b) % pow2(1) == <bool as Packable<B>>::encode(&b));
}

/// `true` packs to the bit `1` and `false` to `0`, and unpacking gives
/// `true` exactly for the bits `1`.
pub proof fn lemma_bool_layout<B: Buffer>(bits: nat)
    ensures
        <bool as Packable<B>>::encode(&true) == 1,
        <bool as Packable<B>>::encode(&false) == 0,
        <bool as Packable<B>>::decode(bits) == (bits == 1),
{
}

} // verus!
