use super::bool::lemma_bool_size;
use crate::buffer::Buffer;
use crate::packable::{round_trips, Packable};
use crate::packer::Packer;
use crate::unpacker::Unpacker;
use vstd::arithmetic::div_mod::*;
use vstd::arithmetic::power2::*;
use vstd::prelude::*;

verus! {

/// An `Option<T>` takes one bit more than `T`: the lowest bit says whether
/// a value is present, and the value, if any, sits above it.
impl<B: Buffer, T: Packable<B>> Packable<B> for Option<T> {
    const SIZE: u32 = 1 + T::SIZE;

    open spec fn well_sized() -> bool {
        T::well_sized() && T::SIZE < B::BITS
    }

    open spec fn encode(&self) -> nat {
        match self {
            None => 0,
            Some(value) => 2 * value.encode() + 1,
        }
    }

    open spec fn decode(bits: nat) -> Option<T> {
        if bits % 2 == 1 {
            Some(T::decode((bits / 2) % pow2(T::SIZE as nat)))
        } else {
            None
        }
    }

    fn pack(&self) -> (r: B) {
        proof {
            B::lemma_buffer_facts(B::ZERO);
            lemma2_to64();
            lemma_pow2_unfold(1 + (T::SIZE as nat));
            assert(Self::SIZE == 1 + T::SIZE);
            lemma_bool_size::<B>();
        }
        let mut packer = Packer::<B>::new();
        match self {
            None => {
                packer.pack(&false);
                proof {
                    lemma_pow2_pos(T::SIZE as nat);
                }
            },
            Some(value) => {
                packer.pack(value);
                packer.pack(&true);
                proof {
                    lemma_small_mod(value.encode(), pow2(T::SIZE as nat));
                    lemma_small_mod(1, 2);
                }
                assert(packer.bits_packed() == 1 + (T::SIZE as nat));
            },
        }
        packer.into_inner()
    }

    fn unpack(buffer: B) -> (r: Option<T>) {
        proof {
            B::lemma_buffer_facts(B::ZERO);
            lemma2_to64();
            lemma_bool_size::<B>();
        }
        let mut unpacker = Unpacker::<B>::new(buffer);
        if unpacker.unpack::<bool>() {
            Some(unpacker.unpack())
        } else {
            None
        }
    }
}

/// The size of an `Option<T>` is one more than that of `T`, when that fits
/// in a `u32`.
pub proof fn lemma_option_size<B: Buffer, T: Packable<B>>()
    requires
        T::SIZE < u32::MAX,
    ensures
        <Option<T> as Packable<B>>::SIZE == T::SIZE + 1,
{
}

/// `None` comes back from its packed bits, and so does `Some(value)` when
/// `value` does.
pub proof fn lemma_option_round_trips<B: Buffer, T: Packable<B>>(v: Option<T>)
    requires
        T::SIZE < u32::MAX,
        v matches Some(value) ==> round_trips::<B, T>(value),
    ensures
        round_trips::<B, Option<T>>(v),
{
    let w = T::SIZE as nat;
    assert(<Option<T> as Packable<B>>::SIZE == 1 + T::SIZE);
    lemma_pow2_pos(w);
    lemma_pow2_unfold(1 + w);
    match v {
        None => {
            lemma_small_mod(0, pow2(1 + w));
        },
        Some(value) => {
            let x = 2 * value.encode() + 1;
            lemma_mod_breakdown(x as int, 2, pow2(w) as int);
            assert(x / 2 == value.encode());
            assert(x % 2 == 1);
            lemma_mod_bound(value.encode() as int, pow2(w) as int);
            let bits = x % pow2(1 + w);
            assert(bits == 2 * (value.encode() % pow2(w)) + 1);
            assert(bits / 2 == value.encode() % pow2(w));
            lemma_mod_twice(value.encode() as int, pow2(w) as int);
        },
    }
}

/// Packing an `Option` puts the presence bit in the lowest bit and the
/// value just above it: `None` packs to `0`, and `Some(value)` to twice the
/// value's packed bits plus one, whatever the size of `T`.
pub proof fn lemma_option_layout<B: Buffer, T: Packable<B>>(v: Option<T>)
    ensures
        v is None ==> <Option<T> as Packable<B>>::encode(&v) == 0,
        v matches Some(value) ==> <Option<T> as Packable<B>>::encode(&v) == 2 * value.encode() + 1,
        v matches Some(value) ==> <Option<T> as Packable<B>>::encode(&v) % 2 == 1
            && <Option<T> as Packable<B>>::encode(&v) / 2 == value.encode(),
{
}

/// Unpacking an `Option` reads the presence bit from the lowest bit and,
/// when it is set, the value from the `T::SIZE` bits just above it.
pub proof fn lemma_option_decode<B: Buffer, T: Packable<B>>(bits: nat)
    ensures
        bits % 2 == 1 ==> <Option<T> as Packable<B>>::decode(bits) == Some(
            T::decode((bits / 2) % pow2(T::SIZE as nat)),
        ),
        bits % 2 == 0 ==> <Option<T> as Packable<B>>::decode(bits) is None,
{
}

} // verus!
