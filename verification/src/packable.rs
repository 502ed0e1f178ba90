use crate::buffer::Buffer;
use crate::layout::{lemma_read_field, pack_fields, widths_after};
use vstd::arithmetic::power2::pow2;
use vstd::prelude::*;

verus! {

/// A type whose values can be packed into, and unpacked from, the lowest
/// `SIZE` bits of a buffer `B`.
///
/// `pack` must return a value that fits in `SIZE` bits; `unpack` rebuilds a
/// value from such bits.
///
/// Three specification functions describe an implementation, and an
/// implementation states them where it can: `well_sized` says when `pack`
/// and `unpack` can run (by default, when `SIZE` fits in the buffer),
/// `encode` is the number that `pack` returns and `decode` the value that
/// `unpack` returns (by default each is some fixed function, of the value and
/// of the bits, of which nothing more is known).
pub trait Packable<B: Buffer>: Sized {
    /// The number of bits a packed value occupies.
    const SIZE: u32;

    /// `pack` and `unpack` can run on this type with buffer `B`.
    open spec fn well_sized() -> bool {
        Self::SIZE <= B::BITS
    }

    /// The bits that `pack` returns for this value.
    open spec fn encode(&self) -> nat {
        vstd::pervasive::arbitrary::<spec_fn(Self) -> nat>()(*self)
    }

    /// The value that `unpack` returns for these bits.
    open spec fn decode(bits: nat) -> Self {
        vstd::pervasive::arbitrary::<spec_fn(nat) -> Self>()(bits)
    }

    /// Packs this value into the lowest `SIZE` bits of a buffer.
    fn pack(&self) -> (r: B)
        requires
            Self::well_sized(),
        ensures
            r.value() == self.encode(),
            r.value() < pow2(Self::SIZE as nat),
    ;

    /// Rebuilds a value from the bits of `buffer`.
    fn unpack(buffer: B) -> (r: Self)
        requires
            Self::well_sized(),
        ensures
            r == Self::decode(buffer.value()),
    ;
}

/// Unpacking the packed bits of `v` gives `v` back.
pub open spec fn round_trips<B: Buffer, P: Packable<B>>(v: P) -> bool {
    P::decode(v.encode() % pow2(P::SIZE as nat)) == v
}

/// Values of any `Packable` types packed one after another come back in
/// reverse order: in a buffer packed from `fields`, where field `j` is the
/// packing of `v`, shifting out the fields packed after it and unpacking
/// the next `P::SIZE` bits gives `v` back, when `v` round-trips.
pub proof fn lemma_unpack_packed_value<B: Buffer, P: Packable<B>>(
    fields: Seq<(nat, nat)>,
    j: int,
    v: P,
)
    requires
        0 <= j < fields.len(),
        fields[j] == (v.encode(), P::SIZE as nat),
        round_trips::<B, P>(v),
    ensures
        P::decode((pack_fields(fields) / pow2(widths_after(fields, j))) % pow2(P::SIZE as nat)) == v,
{
    lemma_read_field(fields, j);
}

} // verus!
