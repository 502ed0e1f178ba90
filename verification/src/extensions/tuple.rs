//! [`Packable`](crate::Packable) for tuples of up to twelve components.
//!
//! A tuple packs its components in order, so the first lands in the highest
//! bits; unpacking reads them back from the lowest bits, last component
//! first.
use crate::buffer::Buffer;
use crate::layout::{
    lemma_div_pow2_split, lemma_packed_after_bound, lemma_unpack_undoes_pack, low_bits,
    packed_after,
};
use crate::packable::{round_trips, Packable};
use crate::packer::Packer;
use crate::unpacker::Unpacker;
use vstd::arithmetic::div_mod::lemma_small_mod;
use vstd::arithmetic::power2::*;
use vstd::prelude::*;

verus! {

impl<B: Buffer, O: Packable<B>> Packable<B> for (O,) {
    const SIZE: u32 = 0 + O::SIZE;

    open spec fn well_sized() -> bool {
        &&& O::well_sized() && O::SIZE < B::BITS
    }

    open spec fn encode(&self) -> nat {
        packed_after(0, self.0.encode(), O::SIZE as nat)
    }

    open spec fn decode(bits: nat) -> (O,) {
        let o = O::decode(bits % pow2(O::SIZE as nat));
        (o,)
    }

    fn pack(&self) -> (r: B) {
        proof {
            B::lemma_buffer_facts(B::ZERO);
        }
        let mut packer = Packer::<B>::new();
        let (o,) = self;
        packer.pack(o);
        packer.into_inner()
    }

    fn unpack(buffer: B) -> (r: (O,)) {
        let mut unpacker = Unpacker::<B>::new(buffer);
        let o: O = unpacker.unpack();
        (o,)
    }
}

/// The size of a 1-tuple is the size of its component.
pub proof fn lemma_tuple1_size<B: Buffer, O: Packable<B>>()
    ensures
        <(O,) as Packable<B>>::SIZE == O::SIZE,
{
}

/// A 1-tuple comes back from its packed bits when its component does.
pub proof fn lemma_tuple1_round_trips<B: Buffer, O: Packable<B>>(t: (O,))
    requires
        round_trips::<B, O>(t.0),
    ensures
        round_trips::<B, (O,)>(t),
{
    lemma2_to64();
    let e0 = packed_after(0, t.0.encode(), O::SIZE as nat);
    lemma_packed_after_bound(0, t.0.encode(), 0, O::SIZE as nat);
    lemma_unpack_undoes_pack(0, t.0.encode(), O::SIZE as nat);
    assert(<(O,) as Packable<B>>::SIZE as nat == O::SIZE as nat);
    lemma_small_mod(e0, pow2(O::SIZE as nat));
}

/// Packing a 1-tuple packs its component.
pub proof fn lemma_tuple1_layout<B: Buffer, O: Packable<B>>(t: (O,))
    ensures
        <(O,) as Packable<B>>::encode(&t) < pow2(O::SIZE as nat),
        <(O,) as Packable<B>>::encode(&t) % pow2(O::SIZE as nat) == low_bits(t.0.encode(), O::SIZE as nat),
{
    lemma2_to64();
    let e0 = packed_after(0, t.0.encode(), O::SIZE as nat);
    lemma_packed_after_bound(0, t.0.encode(), 0, O::SIZE as nat);
    lemma_unpack_undoes_pack(0, t.0.encode(), O::SIZE as nat);
}

/// Unpacking a 1-tuple unpacks its component from the lowest bits.
pub proof fn lemma_tuple1_decode<B: Buffer, O: Packable<B>>(bits: nat)
    ensures
        <(O,) as Packable<B>>::decode(bits) == (O::decode(bits % pow2(O::SIZE as nat)),),
{
}

impl<B: Buffer, O: Packable<B>, P: Packable<B>> Packable<B> for (O, P) {
    const SIZE: u32 = 0 + O::SIZE + P::SIZE;

    open spec fn well_sized() -> bool {
        &&& O::well_sized() && O::SIZE < B::BITS
        &&& P::well_sized() && P::SIZE < B::BITS
        &&& O::SIZE + P::SIZE <= B::BITS
    }

    open spec fn encode(&self) -> nat {
        packed_after(packed_after(0, self.0.encode(), O::SIZE as nat), self.1.encode(), P::SIZE as nat)
    }

    open spec fn decode(bits: nat) -> (O, P) {
        let p = P::decode(bits % pow2(P::SIZE as nat));
        let rest1 = bits / pow2(P::SIZE as nat);
        let o = O::decode(rest1 % pow2(O::SIZE as nat));
        (o, p)
    }

    fn pack(&self) -> (r: B) {
        proof {
            B::lemma_buffer_facts(B::ZERO);
        }
        let mut packer = Packer::<B>::new();
        let (o, p) = self;
        packer.pack(o);
        packer.pack(p);
        packer.into_inner()
    }

    fn unpack(buffer: B) -> (r: (O, P)) {
        let mut unpacker = Unpacker::<B>::new(buffer);
        let p: P = unpacker.unpack();
        let o: O = unpacker.unpack();
        (o, p)
    }
}

/// The size of a 2-tuple is the sum of its components' sizes, when that
/// sum fits in a `u32`.
pub proof fn lemma_tuple2_size<B: Buffer, O: Packable<B>, P: Packable<B>>()
    requires
        O::SIZE + P::SIZE <= u32::MAX,
    ensures
        <(O, P) as Packable<B>>::SIZE == O::SIZE + P::SIZE,
{
}

/// A 2-tuple comes back from its packed bits when each component does.
pub proof fn lemma_tuple2_round_trips<B: Buffer, O: Packable<B>, P: Packable<B>>(t: (O, P))
    requires
        round_trips::<B, O>(t.0),
        round_trips::<B, P>(t.1),
        O::SIZE + P::SIZE <= u32::MAX,
    ensures
        round_trips::<B, (O, P)>(t),
{
    lemma2_to64();
    let e0 = packed_after(0, t.0.encode(), O::SIZE as nat);
    lemma_packed_after_bound(0, t.0.encode(), 0, O::SIZE as nat);
    lemma_unpack_undoes_pack(0, t.0.encode(), O::SIZE as nat);
    let e1 = packed_after(e0, t.1.encode(), P::SIZE as nat);
    lemma_packed_after_bound(e0, t.1.encode(), O::SIZE as nat, P::SIZE as nat);
    lemma_unpack_undoes_pack(e0, t.1.encode(), P::SIZE as nat);
    assert(<(O, P) as Packable<B>>::SIZE as nat == O::SIZE as nat + P::SIZE as nat);
    lemma_small_mod(e1, pow2(O::SIZE as nat + P::SIZE as nat));
}

/// Packing a 2-tuple puts its components in declaration order, each above
/// all the components after it: component `k` is found, with its
/// packed bits, just above the sizes of the later components, the first
/// component highest and the last in the lowest bits.
pub proof fn lemma_tuple2_layout<B: Buffer, O: Packable<B>, P: Packable<B>>(t: (O, P))
    ensures
        <(O, P) as Packable<B>>::encode(&t) < pow2(O::SIZE as nat + P::SIZE as nat),
        (<(O, P) as Packable<B>>::encode(&t) / pow2(P::SIZE as nat)) % pow2(O::SIZE as nat) == low_bits(t.0.encode(), O::SIZE as nat),
        <(O, P) as Packable<B>>::encode(&t) % pow2(P::SIZE as nat) == low_bits(t.1.encode(), P::SIZE as nat),
{
    lemma2_to64();
    let e0 = packed_after(0, t.0.encode(), O::SIZE as nat);
    lemma_packed_after_bound(0, t.0.encode(), 0, O::SIZE as nat);
    lemma_unpack_undoes_pack(0, t.0.encode(), O::SIZE as nat);
    let e1 = packed_after(e0, t.1.encode(), P::SIZE as nat);
    lemma_packed_after_bound(e0, t.1.encode(), O::SIZE as nat, P::SIZE as nat);
    lemma_unpack_undoes_pack(e0, t.1.encode(), P::SIZE as nat);
}

/// Unpacking a 2-tuple reads its components back from the positions where
/// packing puts them: component `k` from the bits just above the sizes of
/// the later components, the last from the lowest bits.
pub proof fn lemma_tuple2_decode<B: Buffer, O: Packable<B>, P: Packable<B>>(bits: nat)
    ensures
        <(O, P) as Packable<B>>::decode(bits) == (O::decode((bits / pow2(P::SIZE as nat)) % pow2(O::SIZE as nat)), P::decode(bits % pow2(P::SIZE as nat))),
{
}

impl<B: Buffer, O: Packable<B>, P: Packable<B>, Q: Packable<B>> Packable<B> for (O, P, Q) {
    const SIZE: u32 = 0 + O::SIZE + P::SIZE + Q::SIZE;

    open spec fn well_sized() -> bool {
        &&& O::well_sized() && O::SIZE < B::BITS
        &&& P::well_sized() && P::SIZE < B::BITS
        &&& Q::well_sized() && Q::SIZE < B::BITS
        &&& O::SIZE + P::SIZE + Q::SIZE <= B::BITS
    }

    open spec fn encode(&self) -> nat {
        packed_after(packed_after(packed_after(0, self.0.encode(), O::SIZE as nat), self.1.encode(), P::SIZE as nat), self.2.encode(), Q::SIZE as nat)
    }

    open spec fn decode(bits: nat) -> (O, P, Q) {
        let q = Q::decode(bits % pow2(Q::SIZE as nat));
        let rest1 = bits / pow2(Q::SIZE as nat);
        let p = P::decode(rest1 % pow2(P::SIZE as nat));
        let rest2 = rest1 / pow2(P::SIZE as nat);
        let o = O::decode(rest2 % pow2(O::SIZE as nat));
        (o, p, q)
    }

    fn pack(&self) -> (r: B) {
        proof {
            B::lemma_buffer_facts(B::ZERO);
        }
        let mut packer = Packer::<B>::new();
        let (o, p, q) = self;
        packer.pack(o);
        packer.pack(p);
        packer.pack(q);
        packer.into_inner()
    }

    fn unpack(buffer: B) -> (r: (O, P, Q)) {
        let mut unpacker = Unpacker::<B>::new(buffer);
        let q: Q = unpacker.unpack();
        let p: P = unpacker.unpack();
        let o: O = unpacker.unpack();
        (o, p, q)
    }
}

/// The size of a 3-tuple is the sum of its components' sizes, when that
/// sum fits in a `u32`.
pub proof fn lemma_tuple3_size<B: Buffer, O: Packable<B>, P: Packable<B>, Q: Packable<B>>()
    requires
        O::SIZE + P::SIZE + Q::SIZE <= u32::MAX,
    ensures
        <(O, P, Q) as Packable<B>>::SIZE == O::SIZE + P::SIZE + Q::SIZE,
{
}

/// A 3-tuple comes back from its packed bits when each component does.
pub proof fn lemma_tuple3_round_trips<B: Buffer, O: Packable<B>, P: Packable<B>, Q: Packable<B>>(t: (O, P, Q))
    requires
        round_trips::<B, O>(t.0),
        round_trips::<B, P>(t.1),
        round_trips::<B, Q>(t.2),
        O::SIZE + P::SIZE + Q::SIZE <= u32::MAX,
    ensures
        round_trips::<B, (O, P, Q)>(t),
{
    lemma2_to64();
    let e0 = packed_after(0, t.0.encode(), O::SIZE as nat);
    lemma_packed_after_bound(0, t.0.encode(), 0, O::SIZE as nat);
    lemma_unpack_undoes_pack(0, t.0.encode(), O::SIZE as nat);
    let e1 = packed_after(e0, t.1.encode(), P::SIZE as nat);
    lemma_packed_after_bound(e0, t.1.encode(), O::SIZE as nat, P::SIZE as nat);
    lemma_unpack_undoes_pack(e0, t.1.encode(), P::SIZE as nat);
    let e2 = packed_after(e1, t.2.encode(), Q::SIZE as nat);
    lemma_packed_after_bound(e1, t.2.encode(), O::SIZE as nat + P::SIZE as nat, Q::SIZE as nat);
    lemma_unpack_undoes_pack(e1, t.2.encode(), Q::SIZE as nat);
    assert(<(O, P, Q) as Packable<B>>::SIZE as nat == O::SIZE as nat + P::SIZE as nat + Q::SIZE as nat);
    lemma_small_mod(e2, pow2(O::SIZE as nat + P::SIZE as nat + Q::SIZE as nat));
}

/// Packing a 3-tuple puts its components in declaration order, each above
/// all the components after it: component `k` is found, with its
/// packed bits, just above the sizes of the later components, the first
/// component highest and the last in the lowest bits.
pub proof fn lemma_tuple3_layout<B: Buffer, O: Packable<B>, P: Packable<B>, Q: Packable<B>>(t: (O, P, Q))
    ensures
        <(O, P, Q) as Packable<B>>::encode(&t) < pow2(O::SIZE as nat + P::SIZE as nat + Q::SIZE as nat),
        (<(O, P, Q) as Packable<B>>::encode(&t) / pow2(Q::SIZE as nat + P::SIZE as nat)) % pow2(O::SIZE as nat) == low_bits(t.0.encode(), O::SIZE as nat),
        (<(O, P, Q) as Packable<B>>::encode(&t) / pow2(Q::SIZE as nat)) % pow2(P::SIZE as nat) == low_bits(t.1.encode(), P::SIZE as nat),
        <(O, P, Q) as Packable<B>>::encode(&t) % pow2(Q::SIZE as nat) == low_bits(t.2.encode(), Q::SIZE as nat),
{
    lemma2_to64();
    let e0 = packed_after(0, t.0.encode(), O::SIZE as nat);
    lemma_packed_after_bound(0, t.0.encode(), 0, O::SIZE as nat);
    lemma_unpack_undoes_pack(0, t.0.encode(), O::SIZE as nat);
    let e1 = packed_after(e0, t.1.encode(), P::SIZE as nat);
    lemma_packed_after_bound(e0, t.1.encode(), O::SIZE as nat, P::SIZE as nat);
    lemma_unpack_undoes_pack(e0, t.1.encode(), P::SIZE as nat);
    let e2 = packed_after(e1, t.2.encode(), Q::SIZE as nat);
    lemma_packed_after_bound(e1, t.2.encode(), O::SIZE as nat + P::SIZE as nat, Q::SIZE as nat);
    lemma_unpack_undoes_pack(e1, t.2.encode(), Q::SIZE as nat);
    lemma_div_pow2_split(e2, Q::SIZE as nat, P::SIZE as nat);
}

/// Unpacking a 3-tuple reads its components back from the positions where
/// packing puts them: component `k` from the bits just above the sizes of
/// the later components, the last from the lowest bits.
pub proof fn lemma_tuple3_decode<B: Buffer, O: Packable<B>, P: Packable<B>, Q: Packable<B>>(bits: nat)
    ensures
        <(O, P, Q) as Packable<B>>::decode(bits) == (O::decode((bits / pow2(Q::SIZE as nat + P::SIZE as nat)) % pow2(O::SIZE as nat)), P::decode((bits / pow2(Q::SIZE as nat)) % pow2(P::SIZE as nat)), Q::decode(bits % pow2(Q::SIZE as nat))),
{
    lemma_div_pow2_split(bits, Q::SIZE as nat, P::SIZE as nat);
}

impl<B: Buffer, O: Packable<B>, P: Packable<B>, Q: Packable<B>, R: Packable<B>> Packable<B> for (O, P, Q, R) {
    const SIZE: u32 = 0 + O::SIZE + P::SIZE + Q::SIZE + R::SIZE;

    open spec fn well_sized() -> bool {
        &&& O::well_sized() && O::SIZE < B::BITS
        &&& P::well_sized() && P::SIZE < B::BITS
        &&& Q::well_sized() && Q::SIZE < B::BITS
        &&& R::well_sized() && R::SIZE < B::BITS
        &&& O::SIZE + P::SIZE + Q::SIZE + R::SIZE <= B::BITS
    }

    open spec fn encode(&self) -> nat {
        packed_after(packed_after(packed_after(packed_after(0, self.0.encode(), O::SIZE as nat), self.1.encode(), P::SIZE as nat), self.2.encode(), Q::SIZE as nat), self.3.encode(), R::SIZE as nat)
    }

    open spec fn decode(bits: nat) -> (O, P, Q, R) {
        let r = R::decode(bits % pow2(R::SIZE as nat));
        let rest1 = bits / pow2(R::SIZE as nat);
        let q = Q::decode(rest1 % pow2(Q::SIZE as nat));
        let rest2 = rest1 / pow2(Q::SIZE as nat);
        let p = P::decode(rest2 % pow2(P::SIZE as nat));
        let rest3 = rest2 / pow2(P::SIZE as nat);
        let o = O::decode(rest3 % pow2(O::SIZE as nat));
        (o, p, q, r)
    }

    fn pack(&self) -> (r: B) {
        proof {
            B::lemma_buffer_facts(B::ZERO);
        }
        let mut packer = Packer::<B>::new();
        let (o, p, q, r) = self;
        packer.pack(o);
        packer.pack(p);
        packer.pack(q);
        packer.pack(r);
        packer.into_inner()
    }

    fn unpack(buffer: B) -> (r: (O, P, Q, R)) {
        let mut unpacker = Unpacker::<B>::new(buffer);
        let r: R = unpacker.unpack();
        let q: Q = unpacker.unpack();
        let p: P = unpacker.unpack();
        let o: O = unpacker.unpack();
        (o, p, q, r)
    }
}

/// The size of a 4-tuple is the sum of its components' sizes, when that
/// sum fits in a `u32`.
pub proof fn lemma_tuple4_size<B: Buffer, O: Packable<B>, P: Packable<B>, Q: Packable<B>, R: Packable<B>>()
    requires
        O::SIZE + P::SIZE + Q::SIZE + R::SIZE <= u32::MAX,
    ensures
        <(O, P, Q, R) as Packable<B>>::SIZE == O::SIZE + P::SIZE + Q::SIZE + R::SIZE,
{
}

/// A 4-tuple comes back from its packed bits when each component does.
pub proof fn lemma_tuple4_round_trips<B: Buffer, O: Packable<B>, P: Packable<B>, Q: Packable<B>, R: Packable<B>>(t: (O, P, Q, R))
    requires
        round_trips::<B, O>(t.0),
        round_trips::<B, P>(t.1),
        round_trips::<B, Q>(t.2),
        round_trips::<B, R>(t.3),
        O::SIZE + P::SIZE + Q::SIZE + R::SIZE <= u32::MAX,
    ensures
        round_trips::<B, (O, P, Q, R)>(t),
{
    lemma2_to64();
    let e0 = packed_after(0, t.0.encode(), O::SIZE as nat);
    lemma_packed_after_bound(0, t.0.encode(), 0, O::SIZE as nat);
    lemma_unpack_undoes_pack(0, t.0.encode(), O::SIZE as nat);
    let e1 = packed_after(e0, t.1.encode(), P::SIZE as nat);
    lemma_packed_after_bound(e0, t.1.encode(), O::SIZE as nat, P::SIZE as nat);
    lemma_unpack_undoes_pack(e0, t.1.encode(), P::SIZE as nat);
    let e2 = packed_after(e1, t.2.encode(), Q::SIZE as nat);
    lemma_packed_after_bound(e1, t.2.encode(), O::SIZE as nat + P::SIZE as nat, Q::SIZE as nat);
    lemma_unpack_undoes_pack(e1, t.2.encode(), Q::SIZE as nat);
    let e3 = packed_after(e2, t.3.encode(), R::SIZE as nat);
    lemma_packed_after_bound(e2, t.3.encode(), O::SIZE as nat + P::SIZE as nat + Q::SIZE as nat, R::SIZE as nat);
    lemma_unpack_undoes_pack(e2, t.3.encode(), R::SIZE as nat);
    assert(<(O, P, Q, R) as Packable<B>>::SIZE as nat == O::SIZE as nat + P::SIZE as nat + Q::SIZE as nat + R::SIZE as nat);
    lemma_small_mod(e3, pow2(O::SIZE as nat + P::SIZE as nat + Q::SIZE as nat + R::SIZE as nat));
}

/// Packing a 4-tuple puts its components in declaration order, each above
/// all the components after it: component `k` is found, with its
/// packed bits, just above the sizes of the later components, the first
/// component highest and the last in the lowest bits.
pub proof fn lemma_tuple4_layout<B: Buffer, O: Packable<B>, P: Packable<B>, Q: Packable<B>, R: Packable<B>>(t: (O, P, Q, R))
    ensures
        <(O, P, Q, R) as Packable<B>>::encode(&t) < pow2(O::SIZE as nat + P::SIZE as nat + Q::SIZE as nat + R::SIZE as nat),
        (<(O, P, Q, R) as Packable<B>>::encode(&t) / pow2(R::SIZE as nat + Q::SIZE as nat + P::SIZE as nat)) % pow2(O::SIZE as nat) == low_bits(t.0.encode(), O::SIZE as nat),
        (<(O, P, Q, R) as Packable<B>>::encode(&t) / pow2(R::SIZE as nat + Q::SIZE as nat)) % pow2(P::SIZE as nat) == low_bits(t.1.encode(), P::SIZE as nat),
        (<(O, P, Q, R) as Packable<B>>::encode(&t) / pow2(R::SIZE as nat)) % pow2(Q::SIZE as nat) == low_bits(t.2.encode(), Q::SIZE as nat),
        <(O, P, Q, R) as Packable<B>>::encode(&t) % pow2(R::SIZE as nat) == low_bits(t.3.encode(), R::SIZE as nat),
{
    lemma2_to64();
    let e0 = packed_after(0, t.0.encode(), O::SIZE as nat);
    lemma_packed_after_bound(0, t.0.encode(), 0, O::SIZE as nat);
    lemma_unpack_undoes_pack(0, t.0.encode(), O::SIZE as nat);
    let e1 = packed_after(e0, t.1.encode(), P::SIZE as nat);
    lemma_packed_after_bound(e0, t.1.encode(), O::SIZE as nat, P::SIZE as nat);
    lemma_unpack_undoes_pack(e0, t.1.encode(), P::SIZE as nat);
    let e2 = packed_after(e1, t.2.encode(), Q::SIZE as nat);
    lemma_packed_after_bound(e1, t.2.encode(), O::SIZE as nat + P::SIZE as nat, Q::SIZE as nat);
    lemma_unpack_undoes_pack(e1, t.2.encode(), Q::SIZE as nat);
    let e3 = packed_after(e2, t.3.encode(), R::SIZE as nat);
    lemma_packed_after_bound(e2, t.3.encode(), O::SIZE as nat + P::SIZE as nat + Q::SIZE as nat, R::SIZE as nat);
    lemma_unpack_undoes_pack(e2, t.3.encode(), R::SIZE as nat);
    lemma_div_pow2_split(e3, R::SIZE as nat, Q::SIZE as nat);
    lemma_div_pow2_split(e3, R::SIZE as nat + Q::SIZE as nat, P::SIZE as nat);
}

/// Unpacking a 4-tuple reads its components back from the positions where
/// packing puts them: component `k` from the bits just above the sizes of
/// the later components, the last from the lowest bits.
pub proof fn lemma_tuple4_decode<B: Buffer, O: Packable<B>, P: Packable<B>, Q: Packable<B>, R: Packable<B>>(bits: nat)
    ensures
        <(O, P, Q, R) as Packable<B>>::decode(bits) == (O::decode((bits / pow2(R::SIZE as nat + Q::SIZE as nat + P::SIZE as nat)) % pow2(O::SIZE as nat)), P::decode((bits / pow2(R::SIZE as nat + Q::SIZE as nat)) % pow2(P::SIZE as nat)), Q::decode((bits / pow2(R::SIZE as nat)) % pow2(Q::SIZE as nat)), R::decode(bits % pow2(R::SIZE as nat))),
{
    lemma_div_pow2_split(bits, R::SIZE as nat, Q::SIZE as nat);
    lemma_div_pow2_split(bits, R::SIZE as nat + Q::SIZE as nat, P::SIZE as nat);
}

impl<B: Buffer, O: Packable<B>, P: Packable<B>, Q: Packable<B>, R: Packable<B>, S: Packable<B>> Packable<B> for (O, P, Q, R, S) {
    const SIZE: u32 = 0 + O::SIZE + P::SIZE + Q::SIZE + R::SIZE + S::SIZE;

    open spec fn well_sized() -> bool {
        &&& O::well_sized() && O::SIZE < B::BITS
        &&& P::well_sized() && P::SIZE < B::BITS
        &&& Q::well_sized() && Q::SIZE < B::BITS
        &&& R::well_sized() && R::SIZE < B::BITS
        &&& S::well_sized() && S::SIZE < B::BITS
        &&& O::SIZE + P::SIZE + Q::SIZE + R::SIZE + S::SIZE <= B::BITS
    }

    open spec fn encode(&self) -> nat {
        packed_after(packed_after(packed_after(packed_after(packed_after(0, self.0.encode(), O::SIZE as nat), self.1.encode(), P::SIZE as nat), self.2.encode(), Q::SIZE as nat), self.3.encode(), R::SIZE as nat), self.4.encode(), S::SIZE as nat)
    }

    open spec fn decode(bits: nat) -> (O, P, Q, R, S) {
        let s = S::decode(bits % pow2(S::SIZE as nat));
        let rest1 = bits / pow2(S::SIZE as nat);
        let r = R::decode(rest1 % pow2(R::SIZE as nat));
        let rest2 = rest1 / pow2(R::SIZE as nat);
        let q = Q::decode(rest2 % pow2(Q::SIZE as nat));
        let rest3 = rest2 / pow2(Q::SIZE as nat);
        let p = P::decode(rest3 % pow2(P::SIZE as nat));
        let rest4 = rest3 / pow2(P::SIZE as nat);
        let o = O::decode(rest4 % pow2(O::SIZE as nat));
        (o, p, q, r, s)
    }

    fn pack(&self) -> (r: B) {
        proof {
            B::lemma_buffer_facts(B::ZERO);
        }
        let mut packer = Packer::<B>::new();
        let (o, p, q, r, s) = self;
        packer.pack(o);
        packer.pack(p);
        packer.pack(q);
        packer.pack(r);
        packer.pack(s);
        packer.into_inner()
    }

    fn unpack(buffer: B) -> (r: (O, P, Q, R, S)) {
        let mut unpacker = Unpacker::<B>::new(buffer);
        let s: S = unpacker.unpack();
        let r: R = unpacker.unpack();
        let q: Q = unpacker.unpack();
        let p: P = unpacker.unpack();
        let o: O = unpacker.unpack();
        (o, p, q, r, s)
    }
}

/// The size of a 5-tuple is the sum of its components' sizes, when that
/// sum fits in a `u32`.
pub proof fn lemma_tuple5_size<B: Buffer, O: Packable<B>, P: Packable<B>, Q: Packable<B>, R: Packable<B>, S: Packable<B>>()
    requires
        O::SIZE + P::SIZE + Q::SIZE + R::SIZE + S::SIZE <= u32::MAX,
    ensures
        <(O, P, Q, R, S) as Packable<B>>::SIZE == O::SIZE + P::SIZE + Q::SIZE + R::SIZE + S::SIZE,
{
}

/// A 5-tuple comes back from its packed bits when each component does.
pub proof fn lemma_tuple5_round_trips<B: Buffer, O: Packable<B>, P: Packable<B>, Q: Packable<B>, R: Packable<B>, S: Packable<B>>(t: (O, P, Q, R, S))
    requires
        round_trips::<B, O>(t.0),
        round_trips::<B, P>(t.1),
        round_trips::<B, Q>(t.2),
        round_trips::<B, R>(t.3),
        round_trips::<B, S>(t.4),
        O::SIZE + P::SIZE + Q::SIZE + R::SIZE + S::SIZE <= u32::MAX,
    ensures
        round_trips::<B, (O, P, Q, R, S)>(t),
{
    lemma2_to64();
    let e0 = packed_after(0, t.0.encode(), O::SIZE as nat);
    lemma_packed_after_bound(0, t.0.encode(), 0, O::SIZE as nat);
    lemma_unpack_undoes_pack(0, t.0.encode(), O::SIZE as nat);
    let e1 = packed_after(e0, t.1.encode(), P::SIZE as nat);
    lemma_packed_after_bound(e0, t.1.encode(), O::SIZE as nat, P::SIZE as nat);
    lemma_unpack_undoes_pack(e0, t.1.encode(), P::SIZE as nat);
    let e2 = packed_after(e1, t.2.encode(), Q::SIZE as nat);
    lemma_packed_after_bound(e1, t.2.encode(), O::SIZE as nat + P::SIZE as nat, Q::SIZE as nat);
    lemma_unpack_undoes_pack(e1, t.2.encode(), Q::SIZE as nat);
    let e3 = packed_after(e2, t.3.encode(), R::SIZE as nat);
    lemma_packed_after_bound(e2, t.3.encode(), O::SIZE as nat + P::SIZE as nat + Q::SIZE as nat, R::SIZE as nat);
    lemma_unpack_undoes_pack(e2, t.3.encode(), R::SIZE as nat);
    let e4 = packed_after(e3, t.4.encode(), S::SIZE as nat);
    lemma_packed_after_bound(e3, t.4.encode(), O::SIZE as nat + P::SIZE as nat + Q::SIZE as nat + R::SIZE as nat, S::SIZE as nat);
    lemma_unpack_undoes_pack(e3, t.4.encode(), S::SIZE as nat);
    assert(<(O, P, Q, R, S) as Packable<B>>::SIZE as nat == O::SIZE as nat + P::SIZE as nat + Q::SIZE as nat + R::SIZE as nat + S::SIZE as nat);
    lemma_small_mod(e4, pow2(O::SIZE as nat + P::SIZE as nat + Q::SIZE as nat + R::SIZE as nat + S::SIZE as nat));
}

/// Packing a 5-tuple puts its components in declaration order, each above
/// all the components after it: component `k` is found, with its
/// packed bits, just above the sizes of the later components, the first
/// component highest and the last in the lowest bits.
pub proof fn lemma_tuple5_layout<B: Buffer, O: Packable<B>, P: Packable<B>, Q: Packable<B>, R: Packable<B>, S: Packable<B>>(t: (O, P, Q, R, S))
    ensures
        <(O, P, Q, R, S) as Packable<B>>::encode(&t) < pow2(O::SIZE as nat + P::SIZE as nat + Q::SIZE as nat + R::SIZE as nat + S::SIZE as nat),
        (<(O, P, Q, R, S) as Packable<B>>::encode(&t) / pow2(S::SIZE as nat + R::SIZE as nat + Q::SIZE as nat + P::SIZE as nat)) % pow2(O::SIZE as nat) == low_bits(t.0.encode(), O::SIZE as nat),
        (<(O, P, Q, R, S) as Packable<B>>::encode(&t) / pow2(S::SIZE as nat + R::SIZE as nat + Q::SIZE as nat)) % pow2(P::SIZE as nat) == low_bits(t.1.encode(), P::SIZE as nat),
        (<(O, P, Q, R, S) as Packable<B>>::encode(&t) / pow2(S::SIZE as nat + R::SIZE as nat)) % pow2(Q::SIZE as nat) == low_bits(t.2.encode(), Q::SIZE as nat),
        (<(O, P, Q, R, S) as Packable<B>>::encode(&t) / pow2(S::SIZE as nat)) % pow2(R::SIZE as nat) == low_bits(t.3.encode(), R::SIZE as nat),
        <(O, P, Q, R, S) as Packable<B>>::encode(&t) % pow2(S::SIZE as nat) == low_bits(t.4.encode(), S::SIZE as nat),
{
    lemma2_to64();
    let e0 = packed_after(0, t.0.encode(), O::SIZE as nat);
    lemma_packed_after_bound(0, t.0.encode(), 0, O::SIZE as nat);
    lemma_unpack_undoes_pack(0, t.0.encode(), O::SIZE as nat);
    let e1 = packed_after(e0, t.1.encode(), P::SIZE as nat);
    lemma_packed_after_bound(e0, t.1.encode(), O::SIZE as nat, P::SIZE as nat);
    lemma_unpack_undoes_pack(e0, t.1.encode(), P::SIZE as nat);
    let e2 = packed_after(e1, t.2.encode(), Q::SIZE as nat);
    lemma_packed_after_bound(e1, t.2.encode(), O::SIZE as nat + P::SIZE as nat, Q::SIZE as nat);
    lemma_unpack_undoes_pack(e1, t.2.encode(), Q::SIZE as nat);
    let e3 = packed_after(e2, t.3.encode(), R::SIZE as nat);
    lemma_packed_after_bound(e2, t.3.encode(), O::SIZE as nat + P::SIZE as nat + Q::SIZE as nat, R::SIZE as nat);
    lemma_unpack_undoes_pack(e2, t.3.encode(), R::SIZE as nat);
    let e4 = packed_after(e3, t.4.encode(), S::SIZE as nat);
    lemma_packed_after_bound(e3, t.4.encode(), O::SIZE as nat + P::SIZE as nat + Q::SIZE as nat + R::SIZE as nat, S::SIZE as nat);
    lemma_unpack_undoes_pack(e3, t.4.encode(), S::SIZE as nat);
    lemma_div_pow2_split(e4, S::SIZE as nat, R::SIZE as nat);
    lemma_div_pow2_split(e4, S::SIZE as nat + R::SIZE as nat, Q::SIZE as nat);
    lemma_div_pow2_split(e4, S::SIZE as nat + R::SIZE as nat + Q::SIZE as nat, P::SIZE as nat);
}

/// Unpacking a 5-tuple reads its components back from the positions where
/// packing puts them: component `k` from the bits just above the sizes of
/// the later components, the last from the lowest bits.
pub proof fn lemma_tuple5_decode<B: Buffer, O: Packable<B>, P: Packable<B>, Q: Packable<B>, R: Packable<B>, S: Packable<B>>(bits: nat)
    ensures
        <(O, P, Q, R, S) as Packable<B>>::decode(bits) == (O::decode((bits / pow2(S::SIZE as nat + R::SIZE as nat + Q::SIZE as nat + P::SIZE as nat)) % pow2(O::SIZE as nat)), P::decode((bits / pow2(S::SIZE as nat + R::SIZE as nat + Q::SIZE as nat)) % pow2(P::SIZE as nat)), Q::decode((bits / pow2(S::SIZE as nat + R::SIZE as nat)) % pow2(Q::SIZE as nat)), R::decode((bits / pow2(S::SIZE as nat)) % pow2(R::SIZE as nat)), S::decode(bits % pow2(S::SIZE as nat))),
{
    lemma_div_pow2_split(bits, S::SIZE as nat, R::SIZE as nat);
    lemma_div_pow2_split(bits, S::SIZE as nat + R::SIZE as nat, Q::SIZE as nat);
    lemma_div_pow2_split(bits, S::SIZE as nat + R::SIZE as nat + Q::SIZE as nat, P::SIZE as nat);
}

impl<B: Buffer, O: Packable<B>, P: Packable<B>, Q: Packable<B>, R: Packable<B>, S: Packable<B>, T: Packable<B>> Packable<B> for (O, P, Q, R, S, T) {
    const SIZE: u32 = 0 + O::SIZE + P::SIZE + Q::SIZE + R::SIZE + S::SIZE + T::SIZE;

    open spec fn well_sized() -> bool {
        &&& O::well_sized() && O::SIZE < B::BITS
        &&& P::well_sized() && P::SIZE < B::BITS
        &&& Q::well_sized() && Q::SIZE < B::BITS
        &&& R::well_sized() && R::SIZE < B::BITS
        &&& S::well_sized() && S::SIZE < B::BITS
        &&& T::well_sized() && T::SIZE < B::BITS
        &&& O::SIZE + P::SIZE + Q::SIZE + R::SIZE + S::SIZE + T::SIZE <= B::BITS
    }

    open spec fn encode(&self) -> nat {
        packed_after(packed_after(packed_after(packed_after(packed_after(packed_after(0, self.0.encode(), O::SIZE as nat), self.1.encode(), P::SIZE as nat), self.2.encode(), Q::SIZE as nat), self.3.encode(), R::SIZE as nat), self.4.encode(), S::SIZE as nat), self.5.encode(), T::SIZE as nat)
    }

    open spec fn decode(bits: nat) -> (O, P, Q, R, S, T) {
        let t = T::decode(bits % pow2(T::SIZE as nat));
        let rest1 = bits / pow2(T::SIZE as nat);
        let s = S::decode(rest1 % pow2(S::SIZE as nat));
        let rest2 = rest1 / pow2(S::SIZE as nat);
        let r = R::decode(rest2 % pow2(R::SIZE as nat));
        let rest3 = rest2 / pow2(R::SIZE as nat);
        let q = Q::decode(rest3 % pow2(Q::SIZE as nat));
        let rest4 = rest3 / pow2(Q::SIZE as nat);
        let p = P::decode(rest4 % pow2(P::SIZE as nat));
        let rest5 = rest4 / pow2(P::SIZE as nat);
        let o = O::decode(rest5 % pow2(O::SIZE as nat));
        (o, p, q, r, s, t)
    }

    fn pack(&self) -> (r: B) {
        proof {
            B::lemma_buffer_facts(B::ZERO);
        }
        let mut packer = Packer::<B>::new();
        let (o, p, q, r, s, t) = self;
        packer.pack(o);
        packer.pack(p);
        packer.pack(q);
        packer.pack(r);
        packer.pack(s);
        packer.pack(t);
        packer.into_inner()
    }

    fn unpack(buffer: B) -> (r: (O, P, Q, R, S, T)) {
        let mut unpacker = Unpacker::<B>::new(buffer);
        let t: T = unpacker.unpack();
        let s: S = unpacker.unpack();
        let r: R = unpacker.unpack();
        let q: Q = unpacker.unpack();
        let p: P = unpacker.unpack();
        let o: O = unpacker.unpack();
        (o, p, q, r, s, t)
    }
}

/// The size of a 6-tuple is the sum of its components' sizes, when that
/// sum fits in a `u32`.
pub proof fn lemma_tuple6_size<B: Buffer, O: Packable<B>, P: Packable<B>, Q: Packable<B>, R: Packable<B>, S: Packable<B>, T: Packable<B>>()
    requires
        O::SIZE + P::SIZE + Q::SIZE + R::SIZE + S::SIZE + T::SIZE <= u32::MAX,
    ensures
        <(O, P, Q, R, S, T) as Packable<B>>::SIZE == O::SIZE + P::SIZE + Q::SIZE + R::SIZE + S::SIZE + T::SIZE,
{
}

/// A 6-tuple comes back from its packed bits when each component does.
pub proof fn lemma_tuple6_round_trips<B: Buffer, O: Packable<B>, P: Packable<B>, Q: Packable<B>, R: Packable<B>, S: Packable<B>, T: Packable<B>>(t: (O, P, Q, R, S, T))
    requires
        round_trips::<B, O>(t.0),
        round_trips::<B, P>(t.1),
        round_trips::<B, Q>(t.2),
        round_trips::<B, R>(t.3),
        round_trips::<B, S>(t.4),
        round_trips::<B, T>(t.5),
        O::SIZE + P::SIZE + Q::SIZE + R::SIZE + S::SIZE + T::SIZE <= u32::MAX,
    ensures
        round_trips::<B, (O, P, Q, R, S, T)>(t),
{
    lemma2_to64();
    let e0 = packed_after(0, t.0.encode(), O::SIZE as nat);
    lemma_packed_after_bound(0, t.0.encode(), 0, O::SIZE as nat);
    lemma_unpack_undoes_pack(0, t.0.encode(), O::SIZE as nat);
    let e1 = packed_after(e0, t.1.encode(), P::SIZE as nat);
    lemma_packed_after_bound(e0, t.1.encode(), O::SIZE as nat, P::SIZE as nat);
    lemma_unpack_undoes_pack(e0, t.1.encode(), P::SIZE as nat);
    let e2 = packed_after(e1, t.2.encode(), Q::SIZE as nat);
    lemma_packed_after_bound(e1, t.2.encode(), O::SIZE as nat + P::SIZE as nat, Q::SIZE as nat);
    lemma_unpack_undoes_pack(e1, t.2.encode(), Q::SIZE as nat);
    let e3 = packed_after(e2, t.3.encode(), R::SIZE as nat);
    lemma_packed_after_bound(e2, t.3.encode(), O::SIZE as nat + P::SIZE as nat + Q::SIZE as nat, R::SIZE as nat);
    lemma_unpack_undoes_pack(e2, t.3.encode(), R::SIZE as nat);
    let e4 = packed_after(e3, t.4.encode(), S::SIZE as nat);
    lemma_packed_after_bound(e3, t.4.encode(), O::SIZE as nat + P::SIZE as nat + Q::SIZE as nat + R::SIZE as nat, S::SIZE as nat);
    lemma_unpack_undoes_pack(e3, t.4.encode(), S::SIZE as nat);
    let e5 = packed_after(e4, t.5.encode(), T::SIZE as nat);
    lemma_packed_after_bound(e4, t.5.encode(), O::SIZE as nat + P::SIZE as nat + Q::SIZE as nat + R::SIZE as nat + S::SIZE as nat, T::SIZE as nat);
    lemma_unpack_undoes_pack(e4, t.5.encode(), T::SIZE as nat);
    assert(<(O, P, Q, R, S, T) as Packable<B>>::SIZE as nat == O::SIZE as nat + P::SIZE as nat + Q::SIZE as nat + R::SIZE as nat + S::SIZE as nat + T::SIZE as nat);
    lemma_small_mod(e5, pow2(O::SIZE as nat + P::SIZE as nat + Q::SIZE as nat + R::SIZE as nat + S::SIZE as nat + T::SIZE as nat));
}

/// Packing a 6-tuple puts its components in declaration order, each above
/// all the components after it: component `k` is found, with its
/// packed bits, just above the sizes of the later components, the first
/// component highest and the last in the lowest bits.
pub proof fn lemma_tuple6_layout<B: Buffer, O: Packable<B>, P: Packable<B>, Q: Packable<B>, R: Packable<B>, S: Packable<B>, T: Packable<B>>(t: (O, P, Q, R, S, T))
    ensures
        <(O, P, Q, R, S, T) as Packable<B>>::encode(&t) < pow2(O::SIZE as nat + P::SIZE as nat + Q::SIZE as nat + R::SIZE as nat + S::SIZE as nat + T::SIZE as nat),
        (<(O, P, Q, R, S, T) as Packable<B>>::encode(&t) / pow2(T::SIZE as nat + S::SIZE as nat + R::SIZE as nat + Q::SIZE as nat + P::SIZE as nat)) % pow2(O::SIZE as nat) == low_bits(t.0.encode(), O::SIZE as nat),
        (<(O, P, Q, R, S, T) as Packable<B>>::encode(&t) / pow2(T::SIZE as nat + S::SIZE as nat + R::SIZE as nat + Q::SIZE as nat)) % pow2(P::SIZE as nat) == low_bits(t.1.encode(), P::SIZE as nat),
        (<(O, P, Q, R, S, T) as Packable<B>>::encode(&t) / pow2(T::SIZE as nat + S::SIZE as nat + R::SIZE as nat)) % pow2(Q::SIZE as nat) == low_bits(t.2.encode(), Q::SIZE as nat),
        (<(O, P, Q, R, S, T) as Packable<B>>::encode(&t) / pow2(T::SIZE as nat + S::SIZE as nat)) % pow2(R::SIZE as nat) == low_bits(t.3.encode(), R::SIZE as nat),
        (<(O, P, Q, R, S, T) as Packable<B>>::encode(&t) / pow2(T::SIZE as nat)) % pow2(S::SIZE as nat) == low_bits(t.4.encode(), S::SIZE as nat),
        <(O, P, Q, R, S, T) as Packable<B>>::encode(&t) % pow2(T::SIZE as nat) == low_bits(t.5.encode(), T::SIZE as nat),
{
    lemma2_to64();
    let e0 = packed_after(0, t.0.encode(), O::SIZE as nat);
    lemma_packed_after_bound(0, t.0.encode(), 0, O::SIZE as nat);
    lemma_unpack_undoes_pack(0, t.0.encode(), O::SIZE as nat);
    let e1 = packed_after(e0, t.1.encode(), P::SIZE as nat);
    lemma_packed_after_bound(e0, t.1.encode(), O::SIZE as nat, P::SIZE as nat);
    lemma_unpack_undoes_pack(e0, t.1.encode(), P::SIZE as nat);
    let e2 = packed_after(e1, t.2.encode(), Q::SIZE as nat);
    lemma_packed_after_bound(e1, t.2.encode(), O::SIZE as nat + P::SIZE as nat, Q::SIZE as nat);
    lemma_unpack_undoes_pack(e1, t.2.encode(), Q::SIZE as nat);
    let e3 = packed_after(e2, t.3.encode(), R::SIZE as nat);
    lemma_packed_after_bound(e2, t.3.encode(), O::SIZE as nat + P::SIZE as nat + Q::SIZE as nat, R::SIZE as nat);
    lemma_unpack_undoes_pack(e2, t.3.encode(), R::SIZE as nat);
    let e4 = packed_after(e3, t.4.encode(), S::SIZE as nat);
    lemma_packed_after_bound(e3, t.4.encode(), O::SIZE as nat + P::SIZE as nat + Q::SIZE as nat + R::SIZE as nat, S::SIZE as nat);
    lemma_unpack_undoes_pack(e3, t.4.encode(), S::SIZE as nat);
    let e5 = packed_after(e4, t.5.encode(), T::SIZE as nat);
    lemma_packed_after_bound(e4, t.5.encode(), O::SIZE as nat + P::SIZE as nat + Q::SIZE as nat + R::SIZE as nat + S::SIZE as nat, T::SIZE as nat);
    lemma_unpack_undoes_pack(e4, t.5.encode(), T::SIZE as nat);
    lemma_div_pow2_split(e5, T::SIZE as nat, S::SIZE as nat);
    lemma_div_pow2_split(e5, T::SIZE as nat + S::SIZE as nat, R::SIZE as nat);
    lemma_div_pow2_split(e5, T::SIZE as nat + S::SIZE as nat + R::SIZE as nat, Q::SIZE as nat);
    lemma_div_pow2_split(e5, T::SIZE as nat + S::SIZE as nat + R::SIZE as nat + Q::SIZE as nat, P::SIZE as nat);
}

/// Unpacking a 6-tuple reads its components back from the positions where
/// packing puts them: component `k` from the bits just above the sizes of
/// the later components, the last from the lowest bits.
pub proof fn lemma_tuple6_decode<B: Buffer, O: Packable<B>, P: Packable<B>, Q: Packable<B>, R: Packable<B>, S: Packable<B>, T: Packable<B>>(bits: nat)
    ensures
        <(O, P, Q, R, S, T) as Packable<B>>::decode(bits) == (O::decode((bits / pow2(T::SIZE as nat + S::SIZE as nat + R::SIZE as nat + Q::SIZE as nat + P::SIZE as nat)) % pow2(O::SIZE as nat)), P::decode((bits / pow2(T::SIZE as nat + S::SIZE as nat + R::SIZE as nat + Q::SIZE as nat)) % pow2(P::SIZE as nat)), Q::decode((bits / pow2(T::SIZE as nat + S::SIZE as nat + R::SIZE as nat)) % pow2(Q::SIZE as nat)), R::decode((bits / pow2(T::SIZE as nat + S::SIZE as nat)) % pow2(R::SIZE as nat)), S::decode((bits / pow2(T::SIZE as nat)) % pow2(S::SIZE as nat)), T::decode(bits % pow2(T::SIZE as nat))),
{
    lemma_div_pow2_split(bits, T::SIZE as nat, S::SIZE as nat);
    lemma_div_pow2_split(bits, T::SIZE as nat + S::SIZE as nat, R::SIZE as nat);
    lemma_div_pow2_split(bits, T::SIZE as nat + S::SIZE as nat + R::SIZE as nat, Q::SIZE as nat);
    lemma_div_pow2_split(bits, T::SIZE as nat + S::SIZE as nat + R::SIZE as nat + Q::SIZE as nat, P::SIZE as nat);
}

impl<B: Buffer, O: Packable<B>, P: Packable<B>, Q: Packable<B>, R: Packable<B>, S: Packable<B>, T: Packable<B>, U: Packable<B>> Packable<B> for (O, P, Q, R, S, T, U) {
    const SIZE: u32 = 0 + O::SIZE + P::SIZE + Q::SIZE + R::SIZE + S::SIZE + T::SIZE + U::SIZE;

    open spec fn well_sized() -> bool {
        &&& O::well_sized() && O::SIZE < B::BITS
        &&& P::well_sized() && P::SIZE < B::BITS
        &&& Q::well_sized() && Q::SIZE < B::BITS
        &&& R::well_sized() && R::SIZE < B::BITS
        &&& S::well_sized() && S::SIZE < B::BITS
        &&& T::well_sized() && T::SIZE < B::BITS
        &&& U::well_sized() && U::SIZE < B::BITS
        &&& O::SIZE + P::SIZE + Q::SIZE + R::SIZE + S::SIZE + T::SIZE + U::SIZE <= B::BITS
    }

    open spec fn encode(&self) -> nat {
        packed_after(packed_after(packed_after(packed_after(packed_after(packed_after(packed_after(0, self.0.encode(), O::SIZE as nat), self.1.encode(), P::SIZE as nat), self.2.encode(), Q::SIZE as nat), self.3.encode(), R::SIZE as nat), self.4.encode(), S::SIZE as nat), self.5.encode(), T::SIZE as nat), self.6.encode(), U::SIZE as nat)
    }

    open spec fn decode(bits: nat) -> (O, P, Q, R, S, T, U) {
        let u = U::decode(bits % pow2(U::SIZE as nat));
        let rest1 = bits / pow2(U::SIZE as nat);
        let t = T::decode(rest1 % pow2(T::SIZE as nat));
        let rest2 = rest1 / pow2(T::SIZE as nat);
        let s = S::decode(rest2 % pow2(S::SIZE as nat));
        let rest3 = rest2 / pow2(S::SIZE as nat);
        let r = R::decode(rest3 % pow2(R::SIZE as nat));
        let rest4 = rest3 / pow2(R::SIZE as nat);
        let q = Q::decode(rest4 % pow2(Q::SIZE as nat));
        let rest5 = rest4 / pow2(Q::SIZE as nat);
        let p = P::decode(rest5 % pow2(P::SIZE as nat));
        let rest6 = rest5 / pow2(P::SIZE as nat);
        let o = O::decode(rest6 % pow2(O::SIZE as nat));
        (o, p, q, r, s, t, u)
    }

    fn pack(&self) -> (r: B) {
        proof {
            B::lemma_buffer_facts(B::ZERO);
        }
        let mut packer = Packer::<B>::new();
        let (o, p, q, r, s, t, u) = self;
        packer.pack(o);
        packer.pack(p);
        packer.pack(q);
        packer.pack(r);
        packer.pack(s);
        packer.pack(t);
        packer.pack(u);
        packer.into_inner()
    }

    fn unpack(buffer: B) -> (r: (O, P, Q, R, S, T, U)) {
        let mut unpacker = Unpacker::<B>::new(buffer);
        let u: U = unpacker.unpack();
        let t: T = unpacker.unpack();
        let s: S = unpacker.unpack();
        let r: R = unpacker.unpack();
        let q: Q = unpacker.unpack();
        let p: P = unpacker.unpack();
        let o: O = unpacker.unpack();
        (o, p, q, r, s, t, u)
    }
}

/// The size of a 7-tuple is the sum of its components' sizes, when that
/// sum fits in a `u32`.
pub proof fn lemma_tuple7_size<B: Buffer, O: Packable<B>, P: Packable<B>, Q: Packable<B>, R: Packable<B>, S: Packable<B>, T: Packable<B>, U: Packable<B>>()
    requires
        O::SIZE + P::SIZE + Q::SIZE + R::SIZE + S::SIZE + T::SIZE + U::SIZE <= u32::MAX,
    ensures
        <(O, P, Q, R, S, T, U) as Packable<B>>::SIZE == O::SIZE + P::SIZE + Q::SIZE + R::SIZE + S::SIZE + T::SIZE + U::SIZE,
{
}

/// A 7-tuple comes back from its packed bits when each component does.
pub proof fn lemma_tuple7_round_trips<B: Buffer, O: Packable<B>, P: Packable<B>, Q: Packable<B>, R: Packable<B>, S: Packable<B>, T: Packable<B>, U: Packable<B>>(t: (O, P, Q, R, S, T, U))
    requires
        round_trips::<B, O>(t.0),
        round_trips::<B, P>(t.1),
        round_trips::<B, Q>(t.2),
        round_trips::<B, R>(t.3),
        round_trips::<B, S>(t.4),
        round_trips::<B, T>(t.5),
        round_trips::<B, U>(t.6),
        O::SIZE + P::SIZE + Q::SIZE + R::SIZE + S::SIZE + T::SIZE + U::SIZE <= u32::MAX,
    ensures
        round_trips::<B, (O, P, Q, R, S, T, U)>(t),
{
    lemma2_to64();
    let e0 = packed_after(0, t.0.encode(), O::SIZE as nat);
    lemma_packed_after_bound(0, t.0.encode(), 0, O::SIZE as nat);
    lemma_unpack_undoes_pack(0, t.0.encode(), O::SIZE as nat);
    let e1 = packed_after(e0, t.1.encode(), P::SIZE as nat);
    lemma_packed_after_bound(e0, t.1.encode(), O::SIZE as nat, P::SIZE as nat);
    lemma_unpack_undoes_pack(e0, t.1.encode(), P::SIZE as nat);
    let e2 = packed_after(e1, t.2.encode(), Q::SIZE as nat);
    lemma_packed_after_bound(e1, t.2.encode(), O::SIZE as nat + P::SIZE as nat, Q::SIZE as nat);
    lemma_unpack_undoes_pack(e1, t.2.encode(), Q::SIZE as nat);
    let e3 = packed_after(e2, t.3.encode(), R::SIZE as nat);
    lemma_packed_after_bound(e2, t.3.encode(), O::SIZE as nat + P::SIZE as nat + Q::SIZE as nat, R::SIZE as nat);
    lemma_unpack_undoes_pack(e2, t.3.encode(), R::SIZE as nat);
    let e4 = packed_after(e3, t.4.encode(), S::SIZE as nat);
    lemma_packed_after_bound(e3, t.4.encode(), O::SIZE as nat + P::SIZE as nat + Q::SIZE as nat + R::SIZE as nat, S::SIZE as nat);
    lemma_unpack_undoes_pack(e3, t.4.encode(), S::SIZE as nat);
    let e5 = packed_after(e4, t.5.encode(), T::SIZE as nat);
    lemma_packed_after_bound(e4, t.5.encode(), O::SIZE as nat + P::SIZE as nat + Q::SIZE as nat + R::SIZE as nat + S::SIZE as nat, T::SIZE as nat);
    lemma_unpack_undoes_pack(e4, t.5.encode(), T::SIZE as nat);
    let e6 = packed_after(e5, t.6.encode(), U::SIZE as nat);
    lemma_packed_after_bound(e5, t.6.encode(), O::SIZE as nat + P::SIZE as nat + Q::SIZE as nat + R::SIZE as nat + S::SIZE as nat + T::SIZE as nat, U::SIZE as nat);
    lemma_unpack_undoes_pack(e5, t.6.encode(), U::SIZE as nat);
    assert(<(O, P, Q, R, S, T, U) as Packable<B>>::SIZE as nat == O::SIZE as nat + P::SIZE as nat + Q::SIZE as nat + R::SIZE as nat + S::SIZE as nat + T::SIZE as nat + U::SIZE as nat);
    lemma_small_mod(e6, pow2(O::SIZE as nat + P::SIZE as nat + Q::SIZE as nat + R::SIZE as nat + S::SIZE as nat + T::SIZE as nat + U::SIZE as nat));
}

/// Packing a 7-tuple puts its components in declaration order, each above
/// all the components after it: component `k` is found, with its
/// packed bits, just above the sizes of the later components, the first
/// component highest and the last in the lowest bits.
pub proof fn lemma_tuple7_layout<B: Buffer, O: Packable<B>, P: Packable<B>, Q: Packable<B>, R: Packable<B>, S: Packable<B>, T: Packable<B>, U: Packable<B>>(t: (O, P, Q, R, S, T, U))
    ensures
        <(O, P, Q, R, S, T, U) as Packable<B>>::encode(&t) < pow2(O::SIZE as nat + P::SIZE as nat + Q::SIZE as nat + R::SIZE as nat + S::SIZE as nat + T::SIZE as nat + U::SIZE as nat),
        (<(O, P, Q, R, S, T, U) as Packable<B>>::encode(&t) / pow2(U::SIZE as nat + T::SIZE as nat + S::SIZE as nat + R::SIZE as nat + Q::SIZE as nat + P::SIZE as nat)) % pow2(O::SIZE as nat) == low_bits(t.0.encode(), O::SIZE as nat),
        (<(O, P, Q, R, S, T, U) as Packable<B>>::encode(&t) / pow2(U::SIZE as nat + T::SIZE as nat + S::SIZE as nat + R::SIZE as nat + Q::SIZE as nat)) % pow2(P::SIZE as nat) == low_bits(t.1.encode(), P::SIZE as nat),
        (<(O, P, Q, R, S, T, U) as Packable<B>>::encode(&t) / pow2(U::SIZE as nat + T::SIZE as nat + S::SIZE as nat + R::SIZE as nat)) % pow2(Q::SIZE as nat) == low_bits(t.2.encode(), Q::SIZE as nat),
        (<(O, P, Q, R, S, T, U) as Packable<B>>::encode(&t) / pow2(U::SIZE as nat + T::SIZE as nat + S::SIZE as nat)) % pow2(R::SIZE as nat) == low_bits(t.3.encode(), R::SIZE as nat),
        (<(O, P, Q, R, S, T, U) as Packable<B>>::encode(&t) / pow2(U::SIZE as nat + T::SIZE as nat)) % pow2(S::SIZE as nat) == low_bits(t.4.encode(), S::SIZE as nat),
        (<(O, P, Q, R, S, T, U) as Packable<B>>::encode(&t) / pow2(U::SIZE as nat)) % pow2(T::SIZE as nat) == low_bits(t.5.encode(), T::SIZE as nat),
        <(O, P, Q, R, S, T, U) as Packable<B>>::encode(&t) % pow2(U::SIZE as nat) == low_bits(t.6.encode(), U::SIZE as nat),
{
    lemma2_to64();
    let e0 = packed_after(0, t.0.encode(), O::SIZE as nat);
    lemma_packed_after_bound(0, t.0.encode(), 0, O::SIZE as nat);
    lemma_unpack_undoes_pack(0, t.0.encode(), O::SIZE as nat);
    let e1 = packed_after(e0, t.1.encode(), P::SIZE as nat);
    lemma_packed_after_bound(e0, t.1.encode(), O::SIZE as nat, P::SIZE as nat);
    lemma_unpack_undoes_pack(e0, t.1.encode(), P::SIZE as nat);
    let e2 = packed_after(e1, t.2.encode(), Q::SIZE as nat);
    lemma_packed_after_bound(e1, t.2.encode(), O::SIZE as nat + P::SIZE as nat, Q::SIZE as nat);
    lemma_unpack_undoes_pack(e1, t.2.encode(), Q::SIZE as nat);
    let e3 = packed_after(e2, t.3.encode(), R::SIZE as nat);
    lemma_packed_after_bound(e2, t.3.encode(), O::SIZE as nat + P::SIZE as nat + Q::SIZE as nat, R::SIZE as nat);
    lemma_unpack_undoes_pack(e2, t.3.encode(), R::SIZE as nat);
    let e4 = packed_after(e3, t.4.encode(), S::SIZE as nat);
    lemma_packed_after_bound(e3, t.4.encode(), O::SIZE as nat + P::SIZE as nat + Q::SIZE as nat + R::SIZE as nat, S::SIZE as nat);
    lemma_unpack_undoes_pack(e3, t.4.encode(), S::SIZE as nat);
    let e5 = packed_after(e4, t.5.encode(), T::SIZE as nat);
    lemma_packed_after_bound(e4, t.5.encode(), O::SIZE as nat + P::SIZE as nat + Q::SIZE as nat + R::SIZE as nat + S::SIZE as nat, T::SIZE as nat);
    lemma_unpack_undoes_pack(e4, t.5.encode(), T::SIZE as nat);
    let e6 = packed_after(e5, t.6.encode(), U::SIZE as nat);
    lemma_packed_after_bound(e5, t.6.encode(), O::SIZE as nat + P::SIZE as nat + Q::SIZE as nat + R::SIZE as nat + S::SIZE as nat + T::SIZE as nat, U::SIZE as nat);
    lemma_unpack_undoes_pack(e5, t.6.encode(), U::SIZE as nat);
    lemma_div_pow2_split(e6, U::SIZE as nat, T::SIZE as nat);
    lemma_div_pow2_split(e6, U::SIZE as nat + T::SIZE as nat, S::SIZE as nat);
    lemma_div_pow2_split(e6, U::SIZE as nat + T::SIZE as nat + S::SIZE as nat, R::SIZE as nat);
    lemma_div_pow2_split(e6, U::SIZE as nat + T::SIZE as nat + S::SIZE as nat + R::SIZE as nat, Q::SIZE as nat);
    lemma_div_pow2_split(e6, U::SIZE as nat + T::SIZE as nat + S::SIZE as nat + R::SIZE as nat + Q::SIZE as nat, P::SIZE as nat);
}

/// Unpacking a 7-tuple reads its components back from the positions where
/// packing puts them: component `k` from the bits just above the sizes of
/// the later components, the last from the lowest bits.
pub proof fn lemma_tuple7_decode<B: Buffer, O: Packable<B>, P: Packable<B>, Q: Packable<B>, R: Packable<B>, S: Packable<B>, T: Packable<B>, U: Packable<B>>(bits: nat)
    ensures
        <(O, P, Q, R, S, T, U) as Packable<B>>::decode(bits) == (O::decode((bits / pow2(U::SIZE as nat + T::SIZE as nat + S::SIZE as nat + R::SIZE as nat + Q::SIZE as nat + P::SIZE as nat)) % pow2(O::SIZE as nat)), P::decode((bits / pow2(U::SIZE as nat + T::SIZE as nat + S::SIZE as nat + R::SIZE as nat + Q::SIZE as nat)) % pow2(P::SIZE as nat)), Q::decode((bits / pow2(U::SIZE as nat + T::SIZE as nat + S::SIZE as nat + R::SIZE as nat)) % pow2(Q::SIZE as nat)), R::decode((bits / pow2(U::SIZE as nat + T::SIZE as nat + S::SIZE as nat)) % pow2(R::SIZE as nat)), S::decode((bits / pow2(U::SIZE as nat + T::SIZE as nat)) % pow2(S::SIZE as nat)), T::decode((bits / pow2(U::SIZE as nat)) % pow2(T::SIZE as nat)), U::decode(bits % pow2(U::SIZE as nat))),
{
    lemma_div_pow2_split(bits, U::SIZE as nat, T::SIZE as nat);
    lemma_div_pow2_split(bits, U::SIZE as nat + T::SIZE as nat, S::SIZE as nat);
    lemma_div_pow2_split(bits, U::SIZE as nat + T::SIZE as nat + S::SIZE as nat, R::SIZE as nat);
    lemma_div_pow2_split(bits, U::SIZE as nat + T::SIZE as nat + S::SIZE as nat + R::SIZE as nat, Q::SIZE as nat);
    lemma_div_pow2_split(bits, U::SIZE as nat + T::SIZE as nat + S::SIZE as nat + R::SIZE as nat + Q::SIZE as nat, P::SIZE as nat);
}

impl<B: Buffer, O: Packable<B>, P: Packable<B>, Q: Packable<B>, R: Packable<B>, S: Packable<B>, T: Packable<B>, U: Packable<B>, V: Packable<B>> Packable<B> for (O, P, Q, R, S, T, U, V) {
    const SIZE: u32 = 0 + O::SIZE + P::SIZE + Q::SIZE + R::SIZE + S::SIZE + T::SIZE + U::SIZE + V::SIZE;

    open spec fn well_sized() -> bool {
        &&& O::well_sized() && O::SIZE < B::BITS
        &&& P::well_sized() && P::SIZE < B::BITS
        &&& Q::well_sized() && Q::SIZE < B::BITS
        &&& R::well_sized() && R::SIZE < B::BITS
        &&& S::well_sized() && S::SIZE < B::BITS
        &&& T::well_sized() && T::SIZE < B::BITS
        &&& U::well_sized() && U::SIZE < B::BITS
        &&& V::well_sized() && V::SIZE < B::BITS
        &&& O::SIZE + P::SIZE + Q::SIZE + R::SIZE + S::SIZE + T::SIZE + U::SIZE + V::SIZE <= B::BITS
    }

    open spec fn encode(&self) -> nat {
        packed_after(packed_after(packed_after(packed_after(packed_after(packed_after(packed_after(packed_after(0, self.0.encode(), O::SIZE as nat), self.1.encode(), P::SIZE as nat), self.2.encode(), Q::SIZE as nat), self.3.encode(), R::SIZE as nat), self.4.encode(), S::SIZE as nat), self.5.encode(), T::SIZE as nat), self.6.encode(), U::SIZE as nat), self.7.encode(), V::SIZE as nat)
    }

    open spec fn decode(bits: nat) -> (O, P, Q, R, S, T, U, V) {
        let v = V::decode(bits % pow2(V::SIZE as nat));
        let rest1 = bits / pow2(V::SIZE as nat);
        let u = U::decode(rest1 % pow2(U::SIZE as nat));
        let rest2 = rest1 / pow2(U::SIZE as nat);
        let t = T::decode(rest2 % pow2(T::SIZE as nat));
        let rest3 = rest2 / pow2(T::SIZE as nat);
        let s = S::decode(rest3 % pow2(S::SIZE as nat));
        let rest4 = rest3 / pow2(S::SIZE as nat);
        let r = R::decode(rest4 % pow2(R::SIZE as nat));
        let rest5 = rest4 / pow2(R::SIZE as nat);
        let q = Q::decode(rest5 % pow2(Q::SIZE as nat));
        let rest6 = rest5 / pow2(Q::SIZE as nat);
        let p = P::decode(rest6 % pow2(P::SIZE as nat));
        let rest7 = rest6 / pow2(P::SIZE as nat);
        let o = O::decode(rest7 % pow2(O::SIZE as nat));
        (o, p, q, r, s, t, u, v)
    }

    fn pack(&self) -> (r: B) {
        proof {
            B::lemma_buffer_facts(B::ZERO);
        }
        let mut packer = Packer::<B>::new();
        let (o, p, q, r, s, t, u, v) = self;
        packer.pack(o);
        packer.pack(p);
        packer.pack(q);
        packer.pack(r);
        packer.pack(s);
        packer.pack(t);
        packer.pack(u);
        packer.pack(v);
        packer.into_inner()
    }

    fn unpack(buffer: B) -> (r: (O, P, Q, R, S, T, U, V)) {
        let mut unpacker = Unpacker::<B>::new(buffer);
        let v: V = unpacker.unpack();
        let u: U = unpacker.unpack();
        let t: T = unpacker.unpack();
        let s: S = unpacker.unpack();
        let r: R = unpacker.unpack();
        let q: Q = unpacker.unpack();
        let p: P = unpacker.unpack();
        let o: O = unpacker.unpack();
        (o, p, q, r, s, t, u, v)
    }
}

/// The size of a 8-tuple is the sum of its components' sizes, when that
/// sum fits in a `u32`.
pub proof fn lemma_tuple8_size<B: Buffer, O: Packable<B>, P: Packable<B>, Q: Packable<B>, R: Packable<B>, S: Packable<B>, T: Packable<B>, U: Packable<B>, V: Packable<B>>()
    requires
        O::SIZE + P::SIZE + Q::SIZE + R::SIZE + S::SIZE + T::SIZE + U::SIZE + V::SIZE <= u32::MAX,
    ensures
        <(O, P, Q, R, S, T, U, V) as Packable<B>>::SIZE == O::SIZE + P::SIZE + Q::SIZE + R::SIZE + S::SIZE + T::SIZE + U::SIZE + V::SIZE,
{
}

/// A 8-tuple comes back from its packed bits when each component does.
pub proof fn lemma_tuple8_round_trips<B: Buffer, O: Packable<B>, P: Packable<B>, Q: Packable<B>, R: Packable<B>, S: Packable<B>, T: Packable<B>, U: Packable<B>, V: Packable<B>>(t: (O, P, Q, R, S, T, U, V))
    requires
        round_trips::<B, O>(t.0),
        round_trips::<B, P>(t.1),
        round_trips::<B, Q>(t.2),
        round_trips::<B, R>(t.3),
        round_trips::<B, S>(t.4),
        round_trips::<B, T>(t.5),
        round_trips::<B, U>(t.6),
        round_trips::<B, V>(t.7),
        O::SIZE + P::SIZE + Q::SIZE + R::SIZE + S::SIZE + T::SIZE + U::SIZE + V::SIZE <= u32::MAX,
    ensures
        round_trips::<B, (O, P, Q, R, S, T, U, V)>(t),
{
    lemma2_to64();
    let e0 = packed_after(0, t.0.encode(), O::SIZE as nat);
    lemma_packed_after_bound(0, t.0.encode(), 0, O::SIZE as nat);
    lemma_unpack_undoes_pack(0, t.0.encode(), O::SIZE as nat);
    let e1 = packed_after(e0, t.1.encode(), P::SIZE as nat);
    lemma_packed_after_bound(e0, t.1.encode(), O::SIZE as nat, P::SIZE as nat);
    lemma_unpack_undoes_pack(e0, t.1.encode(), P::SIZE as nat);
    let e2 = packed_after(e1, t.2.encode(), Q::SIZE as nat);
    lemma_packed_after_bound(e1, t.2.encode(), O::SIZE as nat + P::SIZE as nat, Q::SIZE as nat);
    lemma_unpack_undoes_pack(e1, t.2.encode(), Q::SIZE as nat);
    let e3 = packed_after(e2, t.3.encode(), R::SIZE as nat);
    lemma_packed_after_bound(e2, t.3.encode(), O::SIZE as nat + P::SIZE as nat + Q::SIZE as nat, R::SIZE as nat);
    lemma_unpack_undoes_pack(e2, t.3.encode(), R::SIZE as nat);
    let e4 = packed_after(e3, t.4.encode(), S::SIZE as nat);
    lemma_packed_after_bound(e3, t.4.encode(), O::SIZE as nat + P::SIZE as nat + Q::SIZE as nat + R::SIZE as nat, S::SIZE as nat);
    lemma_unpack_undoes_pack(e3, t.4.encode(), S::SIZE as nat);
    let e5 = packed_after(e4, t.5.encode(), T::SIZE as nat);
    lemma_packed_after_bound(e4, t.5.encode(), O::SIZE as nat + P::SIZE as nat + Q::SIZE as nat + R::SIZE as nat + S::SIZE as nat, T::SIZE as nat);
    lemma_unpack_undoes_pack(e4, t.5.encode(), T::SIZE as nat);
    let e6 = packed_after(e5, t.6.encode(), U::SIZE as nat);
    lemma_packed_after_bound(e5, t.6.encode(), O::SIZE as nat + P::SIZE as nat + Q::SIZE as nat + R::SIZE as nat + S::SIZE as nat + T::SIZE as nat, U::SIZE as nat);
    lemma_unpack_undoes_pack(e5, t.6.encode(), U::SIZE as nat);
    let e7 = packed_after(e6, t.7.encode(), V::SIZE as nat);
    lemma_packed_after_bound(e6, t.7.encode(), O::SIZE as nat + P::SIZE as nat + Q::SIZE as nat + R::SIZE as nat + S::SIZE as nat + T::SIZE as nat + U::SIZE as nat, V::SIZE as nat);
    lemma_unpack_undoes_pack(e6, t.7.encode(), V::SIZE as nat);
    assert(<(O, P, Q, R, S, T, U, V) as Packable<B>>::SIZE as nat == O::SIZE as nat + P::SIZE as nat + Q::SIZE as nat + R::SIZE as nat + S::SIZE as nat + T::SIZE as nat + U::SIZE as nat + V::SIZE as nat);
    lemma_small_mod(e7, pow2(O::SIZE as nat + P::SIZE as nat + Q::SIZE as nat + R::SIZE as nat + S::SIZE as nat + T::SIZE as nat + U::SIZE as nat + V::SIZE as nat));
}

/// Packing a 8-tuple puts its components in declaration order, each above
/// all the components after it: component `k` is found, with its
/// packed bits, just above the sizes of the later components, the first
/// component highest and the last in the lowest bits.
pub proof fn lemma_tuple8_layout<B: Buffer, O: Packable<B>, P: Packable<B>, Q: Packable<B>, R: Packable<B>, S: Packable<B>, T: Packable<B>, U: Packable<B>, V: Packable<B>>(t: (O, P, Q, R, S, T, U, V))
    ensures
        <(O, P, Q, R, S, T, U, V) as Packable<B>>::encode(&t) < pow2(O::SIZE as nat + P::SIZE as nat + Q::SIZE as nat + R::SIZE as nat + S::SIZE as nat + T::SIZE as nat + U::SIZE as nat + V::SIZE as nat),
        (<(O, P, Q, R, S, T, U, V) as Packable<B>>::encode(&t) / pow2(V::SIZE as nat + U::SIZE as nat + T::SIZE as nat + S::SIZE as nat + R::SIZE as nat + Q::SIZE as nat + P::SIZE as nat)) % pow2(O::SIZE as nat) == low_bits(t.0.encode(), O::SIZE as nat),
        (<(O, P, Q, R, S, T, U, V) as Packable<B>>::encode(&t) / pow2(V::SIZE as nat + U::SIZE as nat + T::SIZE as nat + S::SIZE as nat + R::SIZE as nat + Q::SIZE as nat)) % pow2(P::SIZE as nat) == low_bits(t.1.encode(), P::SIZE as nat),
        (<(O, P, Q, R, S, T, U, V) as Packable<B>>::encode(&t) / pow2(V::SIZE as nat + U::SIZE as nat + T::SIZE as nat + S::SIZE as nat + R::SIZE as nat)) % pow2(Q::SIZE as nat) == low_bits(t.2.encode(), Q::SIZE as nat),
        (<(O, P, Q, R, S, T, U, V) as Packable<B>>::encode(&t) / pow2(V::SIZE as nat + U::SIZE as nat + T::SIZE as nat + S::SIZE as nat)) % pow2(R::SIZE as nat) == low_bits(t.3.encode(), R::SIZE as nat),
        (<(O, P, Q, R, S, T, U, V) as Packable<B>>::encode(&t) / pow2(V::SIZE as nat + U::SIZE as nat + T::SIZE as nat)) % pow2(S::SIZE as nat) == low_bits(t.4.encode(), S::SIZE as nat),
        (<(O, P, Q, R, S, T, U, V) as Packable<B>>::encode(&t) / pow2(V::SIZE as nat + U::SIZE as nat)) % pow2(T::SIZE as nat) == low_bits(t.5.encode(), T::SIZE as nat),
        (<(O, P, Q, R, S, T, U, V) as Packable<B>>::encode(&t) / pow2(V::SIZE as nat)) % pow2(U::SIZE as nat) == low_bits(t.6.encode(), U::SIZE as nat),
        <(O, P, Q, R, S, T, U, V) as Packable<B>>::encode(&t) % pow2(V::SIZE as nat) == low_bits(t.7.encode(), V::SIZE as nat),
{
    lemma2_to64();
    let e0 = packed_after(0, t.0.encode(), O::SIZE as nat);
    lemma_packed_after_bound(0, t.0.encode(), 0, O::SIZE as nat);
    lemma_unpack_undoes_pack(0, t.0.encode(), O::SIZE as nat);
    let e1 = packed_after(e0, t.1.encode(), P::SIZE as nat);
    lemma_packed_after_bound(e0, t.1.encode(), O::SIZE as nat, P::SIZE as nat);
    lemma_unpack_undoes_pack(e0, t.1.encode(), P::SIZE as nat);
    let e2 = packed_after(e1, t.2.encode(), Q::SIZE as nat);
    lemma_packed_after_bound(e1, t.2.encode(), O::SIZE as nat + P::SIZE as nat, Q::SIZE as nat);
    lemma_unpack_undoes_pack(e1, t.2.encode(), Q::SIZE as nat);
    let e3 = packed_after(e2, t.3.encode(), R::SIZE as nat);
    lemma_packed_after_bound(e2, t.3.encode(), O::SIZE as nat + P::SIZE as nat + Q::SIZE as nat, R::SIZE as nat);
    lemma_unpack_undoes_pack(e2, t.3.encode(), R::SIZE as nat);
    let e4 = packed_after(e3, t.4.encode(), S::SIZE as nat);
    lemma_packed_after_bound(e3, t.4.encode(), O::SIZE as nat + P::SIZE as nat + Q::SIZE as nat + R::SIZE as nat, S::SIZE as nat);
    lemma_unpack_undoes_pack(e3, t.4.encode(), S::SIZE as nat);
    let e5 = packed_after(e4, t.5.encode(), T::SIZE as nat);
    lemma_packed_after_bound(e4, t.5.encode(), O::SIZE as nat + P::SIZE as nat + Q::SIZE as nat + R::SIZE as nat + S::SIZE as nat, T::SIZE as nat);
    lemma_unpack_undoes_pack(e4, t.5.encode(), T::SIZE as nat);
    let e6 = packed_after(e5, t.6.encode(), U::SIZE as nat);
    lemma_packed_after_bound(e5, t.6.encode(), O::SIZE as nat + P::SIZE as nat + Q::SIZE as nat + R::SIZE as nat + S::SIZE as nat + T::SIZE as nat, U::SIZE as nat);
    lemma_unpack_undoes_pack(e5, t.6.encode(), U::SIZE as nat);
    let e7 = packed_after(e6, t.7.encode(), V::SIZE as nat);
    lemma_packed_after_bound(e6, t.7.encode(), O::SIZE as nat + P::SIZE as nat + Q::SIZE as nat + R::SIZE as nat + S::SIZE as nat + T::SIZE as nat + U::SIZE as nat, V::SIZE as nat);
    lemma_unpack_undoes_pack(e6, t.7.encode(), V::SIZE as nat);
    lemma_div_pow2_split(e7, V::SIZE as nat, U::SIZE as nat);
    lemma_div_pow2_split(e7, V::SIZE as nat + U::SIZE as nat, T::SIZE as nat);
    lemma_div_pow2_split(e7, V::SIZE as nat + U::SIZE as nat + T::SIZE as nat, S::SIZE as nat);
    lemma_div_pow2_split(e7, V::SIZE as nat + U::SIZE as nat + T::SIZE as nat + S::SIZE as nat, R::SIZE as nat);
    lemma_div_pow2_split(e7, V::SIZE as nat + U::SIZE as nat + T::SIZE as nat + S::SIZE as nat + R::SIZE as nat, Q::SIZE as nat);
    lemma_div_pow2_split(e7, V::SIZE as nat + U::SIZE as nat + T::SIZE as nat + S::SIZE as nat + R::SIZE as nat + Q::SIZE as nat, P::SIZE as nat);
}

/// Unpacking a 8-tuple reads its components back from the positions where
/// packing puts them: component `k` from the bits just above the sizes of
/// the later components, the last from the lowest bits.
pub proof fn lemma_tuple8_decode<B: Buffer, O: Packable<B>, P: Packable<B>, Q: Packable<B>, R: Packable<B>, S: Packable<B>, T: Packable<B>, U: Packable<B>, V: Packable<B>>(bits: nat)
    ensures
        <(O, P, Q, R, S, T, U, V) as Packable<B>>::decode(bits) == (O::decode((bits / pow2(V::SIZE as nat + U::SIZE as nat + T::SIZE as nat + S::SIZE as nat + R::SIZE as nat + Q::SIZE as nat + P::SIZE as nat)) % pow2(O::SIZE as nat)), P::decode((bits / pow2(V::SIZE as nat + U::SIZE as nat + T::SIZE as nat + S::SIZE as nat + R::SIZE as nat + Q::SIZE as nat)) % pow2(P::SIZE as nat)), Q::decode((bits / pow2(V::SIZE as nat + U::SIZE as nat + T::SIZE as nat + S::SIZE as nat + R::SIZE as nat)) % pow2(Q::SIZE as nat)), R::decode((bits / pow2(V::SIZE as nat + U::SIZE as nat + T::SIZE as nat + S::SIZE as nat)) % pow2(R::SIZE as nat)), S::decode((bits / pow2(V::SIZE as nat + U::SIZE as nat + T::SIZE as nat)) % pow2(S::SIZE as nat)), T::decode((bits / pow2(V::SIZE as nat + U::SIZE as nat)) % pow2(T::SIZE as nat)), U::decode((bits / pow2(V::SIZE as nat)) % pow2(U::SIZE as nat)), V::decode(bits % pow2(V::SIZE as nat))),
{
    lemma_div_pow2_split(bits, V::SIZE as nat, U::SIZE as nat);
    lemma_div_pow2_split(bits, V::SIZE as nat + U::SIZE as nat, T::SIZE as nat);
    lemma_div_pow2_split(bits, V::SIZE as nat + U::SIZE as nat + T::SIZE as nat, S::SIZE as nat);
    lemma_div_pow2_split(bits, V::SIZE as nat + U::SIZE as nat + T::SIZE as nat + S::SIZE as nat, R::SIZE as nat);
    lemma_div_pow2_split(bits, V::SIZE as nat + U::SIZE as nat + T::SIZE as nat + S::SIZE as nat + R::SIZE as nat, Q::SIZE as nat);
    lemma_div_pow2_split(bits, V::SIZE as nat + U::SIZE as nat + T::SIZE as nat + S::SIZE as nat + R::SIZE as nat + Q::SIZE as nat, P::SIZE as nat);
}

impl<B: Buffer, O: Packable<B>, P: Packable<B>, Q: Packable<B>, R: Packable<B>, S: Packable<B>, T: Packable<B>, U: Packable<B>, V: Packable<B>, W: Packable<B>> Packable<B> for (O, P, Q, R, S, T, U, V, W) {
    const SIZE: u32 = 0 + O::SIZE + P::SIZE + Q::SIZE + R::SIZE + S::SIZE + T::SIZE + U::SIZE + V::SIZE + W::SIZE;

    open spec fn well_sized() -> bool {
        &&& O::well_sized() && O::SIZE < B::BITS
        &&& P::well_sized() && P::SIZE < B::BITS
        &&& Q::well_sized() && Q::SIZE < B::BITS
        &&& R::well_sized() && R::SIZE < B::BITS
        &&& S::well_sized() && S::SIZE < B::BITS
        &&& T::well_sized() && T::SIZE < B::BITS
        &&& U::well_sized() && U::SIZE < B::BITS
        &&& V::well_sized() && V::SIZE < B::BITS
        &&& W::well_sized() && W::SIZE < B::BITS
        &&& O::SIZE + P::SIZE + Q::SIZE + R::SIZE + S::SIZE + T::SIZE + U::SIZE + V::SIZE + W::SIZE <= B::BITS
    }

    open spec fn encode(&self) -> nat {
        packed_after(packed_after(packed_after(packed_after(packed_after(packed_after(packed_after(packed_after(packed_after(0, self.0.encode(), O::SIZE as nat), self.1.encode(), P::SIZE as nat), self.2.encode(), Q::SIZE as nat), self.3.encode(), R::SIZE as nat), self.4.encode(), S::SIZE as nat), self.5.encode(), T::SIZE as nat), self.6.encode(), U::SIZE as nat), self.7.encode(), V::SIZE as nat), self.8.encode(), W::SIZE as nat)
    }

    open spec fn decode(bits: nat) -> (O, P, Q, R, S, T, U, V, W) {
        let w = W::decode(bits % pow2(W::SIZE as nat));
        let rest1 = bits / pow2(W::SIZE as nat);
        let v = V::decode(rest1 % pow2(V::SIZE as nat));
        let rest2 = rest1 / pow2(V::SIZE as nat);
        let u = U::decode(rest2 % pow2(U::SIZE as nat));
        let rest3 = rest2 / pow2(U::SIZE as nat);
        let t = T::decode(rest3 % pow2(T::SIZE as nat));
        let rest4 = rest3 / pow2(T::SIZE as nat);
        let s = S::decode(rest4 % pow2(S::SIZE as nat));
        let rest5 = rest4 / pow2(S::SIZE as nat);
        let r = R::decode(rest5 % pow2(R::SIZE as nat));
        let rest6 = rest5 / pow2(R::SIZE as nat);
        let q = Q::decode(rest6 % pow2(Q::SIZE as nat));
        let rest7 = rest6 / pow2(Q::SIZE as nat);
        let p = P::decode(rest7 % pow2(P::SIZE as nat));
        let rest8 = rest7 / pow2(P::SIZE as nat);
        let o = O::decode(rest8 % pow2(O::SIZE as nat));
        (o, p, q, r, s, t, u, v, w)
    }

    fn pack(&self) -> (r: B) {
        proof {
            B::lemma_buffer_facts(B::ZERO);
        }
        let mut packer = Packer::<B>::new();
        let (o, p, q, r, s, t, u, v, w) = self;
        packer.pack(o);
        packer.pack(p);
        packer.pack(q);
        packer.pack(r);
        packer.pack(s);
        packer.pack(t);
        packer.pack(u);
        packer.pack(v);
        packer.pack(w);
        packer.into_inner()
    }

    fn unpack(buffer: B) -> (r: (O, P, Q, R, S, T, U, V, W)) {
        let mut unpacker = Unpacker::<B>::new(buffer);
        let w: W = unpacker.unpack();
        let v: V = unpacker.unpack();
        let u: U = unpacker.unpack();
        let t: T = unpacker.unpack();
        let s: S = unpacker.unpack();
        let r: R = unpacker.unpack();
        let q: Q = unpacker.unpack();
        let p: P = unpacker.unpack();
        let o: O = unpacker.unpack();
        (o, p, q, r, s, t, u, v, w)
    }
}

/// The size of a 9-tuple is the sum of its components' sizes, when that
/// sum fits in a `u32`.
pub proof fn lemma_tuple9_size<B: Buffer, O: Packable<B>, P: Packable<B>, Q: Packable<B>, R: Packable<B>, S: Packable<B>, T: Packable<B>, U: Packable<B>, V: Packable<B>, W: Packable<B>>()
    requires
        O::SIZE + P::SIZE + Q::SIZE + R::SIZE + S::SIZE + T::SIZE + U::SIZE + V::SIZE + W::SIZE <= u32::MAX,
    ensures
        <(O, P, Q, R, S, T, U, V, W) as Packable<B>>::SIZE == O::SIZE + P::SIZE + Q::SIZE + R::SIZE + S::SIZE + T::SIZE + U::SIZE + V::SIZE + W::SIZE,
{
}

/// A 9-tuple comes back from its packed bits when each component does.
pub proof fn lemma_tuple9_round_trips<B: Buffer, O: Packable<B>, P: Packable<B>, Q: Packable<B>, R: Packable<B>, S: Packable<B>, T: Packable<B>, U: Packable<B>, V: Packable<B>, W: Packable<B>>(t: (O, P, Q, R, S, T, U, V, W))
    requires
        round_trips::<B, O>(t.0),
        round_trips::<B, P>(t.1),
        round_trips::<B, Q>(t.2),
        round_trips::<B, R>(t.3),
        round_trips::<B, S>(t.4),
        round_trips::<B, T>(t.5),
        round_trips::<B, U>(t.6),
        round_trips::<B, V>(t.7),
        round_trips::<B, W>(t.8),
        O::SIZE + P::SIZE + Q::SIZE + R::SIZE + S::SIZE + T::SIZE + U::SIZE + V::SIZE + W::SIZE <= u32::MAX,
    ensures
        round_trips::<B, (O, P, Q, R, S, T, U, V, W)>(t),
{
    lemma2_to64();
    let e0 = packed_after(0, t.0.encode(), O::SIZE as nat);
    lemma_packed_after_bound(0, t.0.encode(), 0, O::SIZE as nat);
    lemma_unpack_undoes_pack(0, t.0.encode(), O::SIZE as nat);
    let e1 = packed_after(e0, t.1.encode(), P::SIZE as nat);
    lemma_packed_after_bound(e0, t.1.encode(), O::SIZE as nat, P::SIZE as nat);
    lemma_unpack_undoes_pack(e0, t.1.encode(), P::SIZE as nat);
    let e2 = packed_after(e1, t.2.encode(), Q::SIZE as nat);
    lemma_packed_after_bound(e1, t.2.encode(), O::SIZE as nat + P::SIZE as nat, Q::SIZE as nat);
    lemma_unpack_undoes_pack(e1, t.2.encode(), Q::SIZE as nat);
    let e3 = packed_after(e2, t.3.encode(), R::SIZE as nat);
    lemma_packed_after_bound(e2, t.3.encode(), O::SIZE as nat + P::SIZE as nat + Q::SIZE as nat, R::SIZE as nat);
    lemma_unpack_undoes_pack(e2, t.3.encode(), R::SIZE as nat);
    let e4 = packed_after(e3, t.4.encode(), S::SIZE as nat);
    lemma_packed_after_bound(e3, t.4.encode(), O::SIZE as nat + P::SIZE as nat + Q::SIZE as nat + R::SIZE as nat, S::SIZE as nat);
    lemma_unpack_undoes_pack(e3, t.4.encode(), S::SIZE as nat);
    let e5 = packed_after(e4, t.5.encode(), T::SIZE as nat);
    lemma_packed_after_bound(e4, t.5.encode(), O::SIZE as nat + P::SIZE as nat + Q::SIZE as nat + R::SIZE as nat + S::SIZE as nat, T::SIZE as nat);
    lemma_unpack_undoes_pack(e4, t.5.encode(), T::SIZE as nat);
    let e6 = packed_after(e5, t.6.encode(), U::SIZE as nat);
    lemma_packed_after_bound(e5, t.6.encode(), O::SIZE as nat + P::SIZE as nat + Q::SIZE as nat + R::SIZE as nat + S::SIZE as nat + T::SIZE as nat, U::SIZE as nat);
    lemma_unpack_undoes_pack(e5, t.6.encode(), U::SIZE as nat);
    let e7 = packed_after(e6, t.7.encode(), V::SIZE as nat);
    lemma_packed_after_bound(e6, t.7.encode(), O::SIZE as nat + P::SIZE as nat + Q::SIZE as nat + R::SIZE as nat + S::SIZE as nat + T::SIZE as nat + U::SIZE as nat, V::SIZE as nat);
    lemma_unpack_undoes_pack(e6, t.7.encode(), V::SIZE as nat);
    let e8 = packed_after(e7, t.8.encode(), W::SIZE as nat);
    lemma_packed_after_bound(e7, t.8.encode(), O::SIZE as nat + P::SIZE as nat + Q::SIZE as nat + R::SIZE as nat + S::SIZE as nat + T::SIZE as nat + U::SIZE as nat + V::SIZE as nat, W::SIZE as nat);
    lemma_unpack_undoes_pack(e7, t.8.encode(), W::SIZE as nat);
    assert(<(O, P, Q, R, S, T, U, V, W) as Packable<B>>::SIZE as nat == O::SIZE as nat + P::SIZE as nat + Q::SIZE as nat + R::SIZE as nat + S::SIZE as nat + T::SIZE as nat + U::SIZE as nat + V::SIZE as nat + W::SIZE as nat);
    lemma_small_mod(e8, pow2(O::SIZE as nat + P::SIZE as nat + Q::SIZE as nat + R::SIZE as nat + S::SIZE as nat + T::SIZE as nat + U::SIZE as nat + V::SIZE as nat + W::SIZE as nat));
}

/// Packing a 9-tuple puts its components in declaration order, each above
/// all the components after it: component `k` is found, with its
/// packed bits, just above the sizes of the later components, the first
/// component highest and the last in the lowest bits.
pub proof fn lemma_tuple9_layout<B: Buffer, O: Packable<B>, P: Packable<B>, Q: Packable<B>, R: Packable<B>, S: Packable<B>, T: Packable<B>, U: Packable<B>, V: Packable<B>, W: Packable<B>>(t: (O, P, Q, R, S, T, U, V, W))
    ensures
        <(O, P, Q, R, S, T, U, V, W) as Packable<B>>::encode(&t) < pow2(O::SIZE as nat + P::SIZE as nat + Q::SIZE as nat + R::SIZE as nat + S::SIZE as nat + T::SIZE as nat + U::SIZE as nat + V::SIZE as nat + W::SIZE as nat),
        (<(O, P, Q, R, S, T, U, V, W) as Packable<B>>::encode(&t) / pow2(W::SIZE as nat + V::SIZE as nat + U::SIZE as nat + T::SIZE as nat + S::SIZE as nat + R::SIZE as nat + Q::SIZE as nat + P::SIZE as nat)) % pow2(O::SIZE as nat) == low_bits(t.0.encode(), O::SIZE as nat),
        (<(O, P, Q, R, S, T, U, V, W) as Packable<B>>::encode(&t) / pow2(W::SIZE as nat + V::SIZE as nat + U::SIZE as nat + T::SIZE as nat + S::SIZE as nat + R::SIZE as nat + Q::SIZE as nat)) % pow2(P::SIZE as nat) == low_bits(t.1.encode(), P::SIZE as nat),
        (<(O, P, Q, R, S, T, U, V, W) as Packable<B>>::encode(&t) / pow2(W::SIZE as nat + V::SIZE as nat + U::SIZE as nat + T::SIZE as nat + S::SIZE as nat + R::SIZE as nat)) % pow2(Q::SIZE as nat) == low_bits(t.2.encode(), Q::SIZE as nat),
        (<(O, P, Q, R, S, T, U, V, W) as Packable<B>>::encode(&t) / pow2(W::SIZE as nat + V::SIZE as nat + U::SIZE as nat + T::SIZE as nat + S::SIZE as nat)) % pow2(R::SIZE as nat) == low_bits(t.3.encode(), R::SIZE as nat),
        (<(O, P, Q, R, S, T, U, V, W) as Packable<B>>::encode(&t) / pow2(W::SIZE as nat + V::SIZE as nat + U::SIZE as nat + T::SIZE as nat)) % pow2(S::SIZE as nat) == low_bits(t.4.encode(), S::SIZE as nat),
        (<(O, P, Q, R, S, T, U, V, W) as Packable<B>>::encode(&t) / pow2(W::SIZE as nat + V::SIZE as nat + U::SIZE as nat)) % pow2(T::SIZE as nat) == low_bits(t.5.encode(), T::SIZE as nat),
        (<(O, P, Q, R, S, T, U, V, W) as Packable<B>>::encode(&t) / pow2(W::SIZE as nat + V::SIZE as nat)) % pow2(U::SIZE as nat) == low_bits(t.6.encode(), U::SIZE as nat),
        (<(O, P, Q, R, S, T, U, V, W) as Packable<B>>::encode(&t) / pow2(W::SIZE as nat)) % pow2(V::SIZE as nat) == low_bits(t.7.encode(), V::SIZE as nat),
        <(O, P, Q, R, S, T, U, V, W) as Packable<B>>::encode(&t) % pow2(W::SIZE as nat) == low_bits(t.8.encode(), W::SIZE as nat),
{
    lemma2_to64();
    let e0 = packed_after(0, t.0.encode(), O::SIZE as nat);
    lemma_packed_after_bound(0, t.0.encode(), 0, O::SIZE as nat);
    lemma_unpack_undoes_pack(0, t.0.encode(), O::SIZE as nat);
    let e1 = packed_after(e0, t.1.encode(), P::SIZE as nat);
    lemma_packed_after_bound(e0, t.1.encode(), O::SIZE as nat, P::SIZE as nat);
    lemma_unpack_undoes_pack(e0, t.1.encode(), P::SIZE as nat);
    let e2 = packed_after(e1, t.2.encode(), Q::SIZE as nat);
    lemma_packed_after_bound(e1, t.2.encode(), O::SIZE as nat + P::SIZE as nat, Q::SIZE as nat);
    lemma_unpack_undoes_pack(e1, t.2.encode(), Q::SIZE as nat);
    let e3 = packed_after(e2, t.3.encode(), R::SIZE as nat);
    lemma_packed_after_bound(e2, t.3.encode(), O::SIZE as nat + P::SIZE as nat + Q::SIZE as nat, R::SIZE as nat);
    lemma_unpack_undoes_pack(e2, t.3.encode(), R::SIZE as nat);
    let e4 = packed_after(e3, t.4.encode(), S::SIZE as nat);
    lemma_packed_after_bound(e3, t.4.encode(), O::SIZE as nat + P::SIZE as nat + Q::SIZE as nat + R::SIZE as nat, S::SIZE as nat);
    lemma_unpack_undoes_pack(e3, t.4.encode(), S::SIZE as nat);
    let e5 = packed_after(e4, t.5.encode(), T::SIZE as nat);
    lemma_packed_after_bound(e4, t.5.encode(), O::SIZE as nat + P::SIZE as nat + Q::SIZE as nat + R::SIZE as nat + S::SIZE as nat, T::SIZE as nat);
    lemma_unpack_undoes_pack(e4, t.5.encode(), T::SIZE as nat);
    let e6 = packed_after(e5, t.6.encode(), U::SIZE as nat);
    lemma_packed_after_bound(e5, t.6.encode(), O::SIZE as nat + P::SIZE as nat + Q::SIZE as nat + R::SIZE as nat + S::SIZE as nat + T::SIZE as nat, U::SIZE as nat);
    lemma_unpack_undoes_pack(e5, t.6.encode(), U::SIZE as nat);
    let e7 = packed_after(e6, t.7.encode(), V::SIZE as nat);
    lemma_packed_after_bound(e6, t.7.encode(), O::SIZE as nat + P::SIZE as nat + Q::SIZE as nat + R::SIZE as nat + S::SIZE as nat + T::SIZE as nat + U::SIZE as nat, V::SIZE as nat);
    lemma_unpack_undoes_pack(e6, t.7.encode(), V::SIZE as nat);
    let e8 = packed_after(e7, t.8.encode(), W::SIZE as nat);
    lemma_packed_after_bound(e7, t.8.encode(), O::SIZE as nat + P::SIZE as nat + Q::SIZE as nat + R::SIZE as nat + S::SIZE as nat + T::SIZE as nat + U::SIZE as nat + V::SIZE as nat, W::SIZE as nat);
    lemma_unpack_undoes_pack(e7, t.8.encode(), W::SIZE as nat);
    lemma_div_pow2_split(e8, W::SIZE as nat, V::SIZE as nat);
    lemma_div_pow2_split(e8, W::SIZE as nat + V::SIZE as nat, U::SIZE as nat);
    lemma_div_pow2_split(e8, W::SIZE as nat + V::SIZE as nat + U::SIZE as nat, T::SIZE as nat);
    lemma_div_pow2_split(e8, W::SIZE as nat + V::SIZE as nat + U::SIZE as nat + T::SIZE as nat, S::SIZE as nat);
    lemma_div_pow2_split(e8, W::SIZE as nat + V::SIZE as nat + U::SIZE as nat + T::SIZE as nat + S::SIZE as nat, R::SIZE as nat);
    lemma_div_pow2_split(e8, W::SIZE as nat + V::SIZE as nat + U::SIZE as nat + T::SIZE as nat + S::SIZE as nat + R::SIZE as nat, Q::SIZE as nat);
    lemma_div_pow2_split(e8, W::SIZE as nat + V::SIZE as nat + U::SIZE as nat + T::SIZE as nat + S::SIZE as nat + R::SIZE as nat + Q::SIZE as nat, P::SIZE as nat);
}

/// Unpacking a 9-tuple reads its components back from the positions where
/// packing puts them: component `k` from the bits just above the sizes of
/// the later components, the last from the lowest bits.
pub proof fn lemma_tuple9_decode<B: Buffer, O: Packable<B>, P: Packable<B>, Q: Packable<B>, R: Packable<B>, S: Packable<B>, T: Packable<B>, U: Packable<B>, V: Packable<B>, W: Packable<B>>(bits: nat)
    ensures
        <(O, P, Q, R, S, T, U, V, W) as Packable<B>>::decode(bits) == (O::decode((bits / pow2(W::SIZE as nat + V::SIZE as nat + U::SIZE as nat + T::SIZE as nat + S::SIZE as nat + R::SIZE as nat + Q::SIZE as nat + P::SIZE as nat)) % pow2(O::SIZE as nat)), P::decode((bits / pow2(W::SIZE as nat + V::SIZE as nat + U::SIZE as nat + T::SIZE as nat + S::SIZE as nat + R::SIZE as nat + Q::SIZE as nat)) % pow2(P::SIZE as nat)), Q::decode((bits / pow2(W::SIZE as nat + V::SIZE as nat + U::SIZE as nat + T::SIZE as nat + S::SIZE as nat + R::SIZE as nat)) % pow2(Q::SIZE as nat)), R::decode((bits / pow2(W::SIZE as nat + V::SIZE as nat + U::SIZE as nat + T::SIZE as nat + S::SIZE as nat)) % pow2(R::SIZE as nat)), S::decode((bits / pow2(W::SIZE as nat + V::SIZE as nat + U::SIZE as nat + T::SIZE as nat)) % pow2(S::SIZE as nat)), T::decode((bits / pow2(W::SIZE as nat + V::SIZE as nat + U::SIZE as nat)) % pow2(T::SIZE as nat)), U::decode((bits / pow2(W::SIZE as nat + V::SIZE as nat)) % pow2(U::SIZE as nat)), V::decode((bits / pow2(W::SIZE as nat)) % pow2(V::SIZE as nat)), W::decode(bits % pow2(W::SIZE as nat))),
{
    lemma_div_pow2_split(bits, W::SIZE as nat, V::SIZE as nat);
    lemma_div_pow2_split(bits, W::SIZE as nat + V::SIZE as nat, U::SIZE as nat);
    lemma_div_pow2_split(bits, W::SIZE as nat + V::SIZE as nat + U::SIZE as nat, T::SIZE as nat);
    lemma_div_pow2_split(bits, W::SIZE as nat + V::SIZE as nat + U::SIZE as nat + T::SIZE as nat, S::SIZE as nat);
    lemma_div_pow2_split(bits, W::SIZE as nat + V::SIZE as nat + U::SIZE as nat + T::SIZE as nat + S::SIZE as nat, R::SIZE as nat);
    lemma_div_pow2_split(bits, W::SIZE as nat + V::SIZE as nat + U::SIZE as nat + T::SIZE as nat + S::SIZE as nat + R::SIZE as nat, Q::SIZE as nat);
    lemma_div_pow2_split(bits, W::SIZE as nat + V::SIZE as nat + U::SIZE as nat + T::SIZE as nat + S::SIZE as nat + R::SIZE as nat + Q::SIZE as nat, P::SIZE as nat);
}

impl<B: Buffer, O: Packable<B>, P: Packable<B>, Q: Packable<B>, R: Packable<B>, S: Packable<B>, T: Packable<B>, U: Packable<B>, V: Packable<B>, W: Packable<B>, X: Packable<B>> Packable<B> for (O, P, Q, R, S, T, U, V, W, X) {
    const SIZE: u32 = 0 + O::SIZE + P::SIZE + Q::SIZE + R::SIZE + S::SIZE + T::SIZE + U::SIZE + V::SIZE + W::SIZE + X::SIZE;

    open spec fn well_sized() -> bool {
        &&& O::well_sized() && O::SIZE < B::BITS
        &&& P::well_sized() && P::SIZE < B::BITS
        &&& Q::well_sized() && Q::SIZE < B::BITS
        &&& R::well_sized() && R::SIZE < B::BITS
        &&& S::well_sized() && S::SIZE < B::BITS
        &&& T::well_sized() && T::SIZE < B::BITS
        &&& U::well_sized() && U::SIZE < B::BITS
        &&& V::well_sized() && V::SIZE < B::BITS
        &&& W::well_sized() && W::SIZE < B::BITS
        &&& X::well_sized() && X::SIZE < B::BITS
        &&& O::SIZE + P::SIZE + Q::SIZE + R::SIZE + S::SIZE + T::SIZE + U::SIZE + V::SIZE + W::SIZE + X::SIZE <= B::BITS
    }

    open spec fn encode(&self) -> nat {
        packed_after(packed_after(packed_after(packed_after(packed_after(packed_after(packed_after(packed_after(packed_after(packed_after(0, self.0.encode(), O::SIZE as nat), self.1.encode(), P::SIZE as nat), self.2.encode(), Q::SIZE as nat), self.3.encode(), R::SIZE as nat), self.4.encode(), S::SIZE as nat), self.5.encode(), T::SIZE as nat), self.6.encode(), U::SIZE as nat), self.7.encode(), V::SIZE as nat), self.8.encode(), W::SIZE as nat), self.9.encode(), X::SIZE as nat)
    }

    open spec fn decode(bits: nat) -> (O, P, Q, R, S, T, U, V, W, X) {
        let x = X::decode(bits % pow2(X::SIZE as nat));
        let rest1 = bits / pow2(X::SIZE as nat);
        let w = W::decode(rest1 % pow2(W::SIZE as nat));
        let rest2 = rest1 / pow2(W::SIZE as nat);
        let v = V::decode(rest2 % pow2(V::SIZE as nat));
        let rest3 = rest2 / pow2(V::SIZE as nat);
        let u = U::decode(rest3 % pow2(U::SIZE as nat));
        let rest4 = rest3 / pow2(U::SIZE as nat);
        let t = T::decode(rest4 % pow2(T::SIZE as nat));
        let rest5 = rest4 / pow2(T::SIZE as nat);
        let s = S::decode(rest5 % pow2(S::SIZE as nat));
        let rest6 = rest5 / pow2(S::SIZE as nat);
        let r = R::decode(rest6 % pow2(R::SIZE as nat));
        let rest7 = rest6 / pow2(R::SIZE as nat);
        let q = Q::decode(rest7 % pow2(Q::SIZE as nat));
        let rest8 = rest7 / pow2(Q::SIZE as nat);
        let p = P::decode(rest8 % pow2(P::SIZE as nat));
        let rest9 = rest8 / pow2(P::SIZE as nat);
        let o = O::decode(rest9 % pow2(O::SIZE as nat));
        (o, p, q, r, s, t, u, v, w, x)
    }

    fn pack(&self) -> (r: B) {
        proof {
            B::lemma_buffer_facts(B::ZERO);
        }
        let mut packer = Packer::<B>::new();
        let (o, p, q, r, s, t, u, v, w, x) = self;
        packer.pack(o);
        packer.pack(p);
        packer.pack(q);
        packer.pack(r);
        packer.pack(s);
        packer.pack(t);
        packer.pack(u);
        packer.pack(v);
        packer.pack(w);
        packer.pack(x);
        packer.into_inner()
    }

    fn unpack(buffer: B) -> (r: (O, P, Q, R, S, T, U, V, W, X)) {
        let mut unpacker = Unpacker::<B>::new(buffer);
        let x: X = unpacker.unpack();
        let w: W = unpacker.unpack();
        let v: V = unpacker.unpack();
        let u: U = unpacker.unpack();
        let t: T = unpacker.unpack();
        let s: S = unpacker.unpack();
        let r: R = unpacker.unpack();
        let q: Q = unpacker.unpack();
        let p: P = unpacker.unpack();
        let o: O = unpacker.unpack();
        (o, p, q, r, s, t, u, v, w, x)
    }
}

/// The size of a 10-tuple is the sum of its components' sizes, when that
/// sum fits in a `u32`.
pub proof fn lemma_tuple10_size<B: Buffer, O: Packable<B>, P: Packable<B>, Q: Packable<B>, R: Packable<B>, S: Packable<B>, T: Packable<B>, U: Packable<B>, V: Packable<B>, W: Packable<B>, X: Packable<B>>()
    requires
        O::SIZE + P::SIZE + Q::SIZE + R::SIZE + S::SIZE + T::SIZE + U::SIZE + V::SIZE + W::SIZE + X::SIZE <= u32::MAX,
    ensures
        <(O, P, Q, R, S, T, U, V, W, X) as Packable<B>>::SIZE == O::SIZE + P::SIZE + Q::SIZE + R::SIZE + S::SIZE + T::SIZE + U::SIZE + V::SIZE + W::SIZE + X::SIZE,
{
}

/// A 10-tuple comes back from its packed bits when each component does.
pub proof fn lemma_tuple10_round_trips<B: Buffer, O: Packable<B>, P: Packable<B>, Q: Packable<B>, R: Packable<B>, S: Packable<B>, T: Packable<B>, U: Packable<B>, V: Packable<B>, W: Packable<B>, X: Packable<B>>(t: (O, P, Q, R, S, T, U, V, W, X))
    requires
        round_trips::<B, O>(t.0),
        round_trips::<B, P>(t.1),
        round_trips::<B, Q>(t.2),
        round_trips::<B, R>(t.3),
        round_trips::<B, S>(t.4),
        round_trips::<B, T>(t.5),
        round_trips::<B, U>(t.6),
        round_trips::<B, V>(t.7),
        round_trips::<B, W>(t.8),
        round_trips::<B, X>(t.9),
        O::SIZE + P::SIZE + Q::SIZE + R::SIZE + S::SIZE + T::SIZE + U::SIZE + V::SIZE + W::SIZE + X::SIZE <= u32::MAX,
    ensures
        round_trips::<B, (O, P, Q, R, S, T, U, V, W, X)>(t),
{
    lemma2_to64();
    let e0 = packed_after(0, t.0.encode(), O::SIZE as nat);
    lemma_packed_after_bound(0, t.0.encode(), 0, O::SIZE as nat);
    lemma_unpack_undoes_pack(0, t.0.encode(), O::SIZE as nat);
    let e1 = packed_after(e0, t.1.encode(), P::SIZE as nat);
    lemma_packed_after_bound(e0, t.1.encode(), O::SIZE as nat, P::SIZE as nat);
    lemma_unpack_undoes_pack(e0, t.1.encode(), P::SIZE as nat);
    let e2 = packed_after(e1, t.2.encode(), Q::SIZE as nat);
    lemma_packed_after_bound(e1, t.2.encode(), O::SIZE as nat + P::SIZE as nat, Q::SIZE as nat);
    lemma_unpack_undoes_pack(e1, t.2.encode(), Q::SIZE as nat);
    let e3 = packed_after(e2, t.3.encode(), R::SIZE as nat);
    lemma_packed_after_bound(e2, t.3.encode(), O::SIZE as nat + P::SIZE as nat + Q::SIZE as nat, R::SIZE as nat);
    lemma_unpack_undoes_pack(e2, t.3.encode(), R::SIZE as nat);
    let e4 = packed_after(e3, t.4.encode(), S::SIZE as nat);
    lemma_packed_after_bound(e3, t.4.encode(), O::SIZE as nat + P::SIZE as nat + Q::SIZE as nat + R::SIZE as nat, S::SIZE as nat);
    lemma_unpack_undoes_pack(e3, t.4.encode(), S::SIZE as nat);
    let e5 = packed_after(e4, t.5.encode(), T::SIZE as nat);
    lemma_packed_after_bound(e4, t.5.encode(), O::SIZE as nat + P::SIZE as nat + Q::SIZE as nat + R::SIZE as nat + S::SIZE as nat, T::SIZE as nat);
    lemma_unpack_undoes_pack(e4, t.5.encode(), T::SIZE as nat);
    let e6 = packed_after(e5, t.6.encode(), U::SIZE as nat);
    lemma_packed_after_bound(e5, t.6.encode(), O::SIZE as nat + P::SIZE as nat + Q::SIZE as nat + R::SIZE as nat + S::SIZE as nat + T::SIZE as nat, U::SIZE as nat);
    lemma_unpack_undoes_pack(e5, t.6.encode(), U::SIZE as nat);
    let e7 = packed_after(e6, t.7.encode(), V::SIZE as nat);
    lemma_packed_after_bound(e6, t.7.encode(), O::SIZE as nat + P::SIZE as nat + Q::SIZE as nat + R::SIZE as nat + S::SIZE as nat + T::SIZE as nat + U::SIZE as nat, V::SIZE as nat);
    lemma_unpack_undoes_pack(e6, t.7.encode(), V::SIZE as nat);
    let e8 = packed_after(e7, t.8.encode(), W::SIZE as nat);
    lemma_packed_after_bound(e7, t.8.encode(), O::SIZE as nat + P::SIZE as nat + Q::SIZE as nat + R::SIZE as nat + S::SIZE as nat + T::SIZE as nat + U::SIZE as nat + V::SIZE as nat, W::SIZE as nat);
    lemma_unpack_undoes_pack(e7, t.8.encode(), W::SIZE as nat);
    let e9 = packed_after(e8, t.9.encode(), X::SIZE as nat);
    lemma_packed_after_bound(e8, t.9.encode(), O::SIZE as nat + P::SIZE as nat + Q::SIZE as nat + R::SIZE as nat + S::SIZE as nat + T::SIZE as nat + U::SIZE as nat + V::SIZE as nat + W::SIZE as nat, X::SIZE as nat);
    lemma_unpack_undoes_pack(e8, t.9.encode(), X::SIZE as nat);
    assert(<(O, P, Q, R, S, T, U, V, W, X) as Packable<B>>::SIZE as nat == O::SIZE as nat + P::SIZE as nat + Q::SIZE as nat + R::SIZE as nat + S::SIZE as nat + T::SIZE as nat + U::SIZE as nat + V::SIZE as nat + W::SIZE as nat + X::SIZE as nat);
    lemma_small_mod(e9, pow2(O::SIZE as nat + P::SIZE as nat + Q::SIZE as nat + R::SIZE as nat + S::SIZE as nat + T::SIZE as nat + U::SIZE as nat + V::SIZE as nat + W::SIZE as nat + X::SIZE as nat));
}

/// Packing a 10-tuple puts its components in declaration order, each above
/// all the components after it: component `k` is found, with its
/// packed bits, just above the sizes of the later components, the first
/// component highest and the last in the lowest bits.
pub proof fn lemma_tuple10_layout<B: Buffer, O: Packable<B>, P: Packable<B>, Q: Packable<B>, R: Packable<B>, S: Packable<B>, T: Packable<B>, U: Packable<B>, V: Packable<B>, W: Packable<B>, X: Packable<B>>(t: (O, P, Q, R, S, T, U, V, W, X))
    ensures
        <(O, P, Q, R, S, T, U, V, W, X) as Packable<B>>::encode(&t) < pow2(O::SIZE as nat + P::SIZE as nat + Q::SIZE as nat + R::SIZE as nat + S::SIZE as nat + T::SIZE as nat + U::SIZE as nat + V::SIZE as nat + W::SIZE as nat + X::SIZE as nat),
        (<(O, P, Q, R, S, T, U, V, W, X) as Packable<B>>::encode(&t) / pow2(X::SIZE as nat + W::SIZE as nat + V::SIZE as nat + U::SIZE as nat + T::SIZE as nat + S::SIZE as nat + R::SIZE as nat + Q::SIZE as nat + P::SIZE as nat)) % pow2(O::SIZE as nat) == low_bits(t.0.encode(), O::SIZE as nat),
        (<(O, P, Q, R, S, T, U, V, W, X) as Packable<B>>::encode(&t) / pow2(X::SIZE as nat + W::SIZE as nat + V::SIZE as nat + U::SIZE as nat + T::SIZE as nat + S::SIZE as nat + R::SIZE as nat + Q::SIZE as nat)) % pow2(P::SIZE as nat) == low_bits(t.1.encode(), P::SIZE as nat),
        (<(O, P, Q, R, S, T, U, V, W, X) as Packable<B>>::encode(&t) / pow2(X::SIZE as nat + W::SIZE as nat + V::SIZE as nat + U::SIZE as nat + T::SIZE as nat + S::SIZE as nat + R::SIZE as nat)) % pow2(Q::SIZE as nat) == low_bits(t.2.encode(), Q::SIZE as nat),
        (<(O, P, Q, R, S, T, U, V, W, X) as Packable<B>>::encode(&t) / pow2(X::SIZE as nat + W::SIZE as nat + V::SIZE as nat + U::SIZE as nat + T::SIZE as nat + S::SIZE as nat)) % pow2(R::SIZE as nat) == low_bits(t.3.encode(), R::SIZE as nat),
        (<(O, P, Q, R, S, T, U, V, W, X) as Packable<B>>::encode(&t) / pow2(X::SIZE as nat + W::SIZE as nat + V::SIZE as nat + U::SIZE as nat + T::SIZE as nat)) % pow2(S::SIZE as nat) == low_bits(t.4.encode(), S::SIZE as nat),
        (<(O, P, Q, R, S, T, U, V, W, X) as Packable<B>>::encode(&t) / pow2(X::SIZE as nat + W::SIZE as nat + V::SIZE as nat + U::SIZE as nat)) % pow2(T::SIZE as nat) == low_bits(t.5.encode(), T::SIZE as nat),
        (<(O, P, Q, R, S, T, U, V, W, X) as Packable<B>>::encode(&t) / pow2(X::SIZE as nat + W::SIZE as nat + V::SIZE as nat)) % pow2(U::SIZE as nat) == low_bits(t.6.encode(), U::SIZE as nat),
        (<(O, P, Q, R, S, T, U, V, W, X) as Packable<B>>::encode(&t) / pow2(X::SIZE as nat + W::SIZE as nat)) % pow2(V::SIZE as nat) == low_bits(t.7.encode(), V::SIZE as nat),
        (<(O, P, Q, R, S, T, U, V, W, X) as Packable<B>>::encode(&t) / pow2(X::SIZE as nat)) % pow2(W::SIZE as nat) == low_bits(t.8.encode(), W::SIZE as nat),
        <(O, P, Q, R, S, T, U, V, W, X) as Packable<B>>::encode(&t) % pow2(X::SIZE as nat) == low_bits(t.9.encode(), X::SIZE as nat),
{
    lemma2_to64();
    let e0 = packed_after(0, t.0.encode(), O::SIZE as nat);
    lemma_packed_after_bound(0, t.0.encode(), 0, O::SIZE as nat);
    lemma_unpack_undoes_pack(0, t.0.encode(), O::SIZE as nat);
    let e1 = packed_after(e0, t.1.encode(), P::SIZE as nat);
    lemma_packed_after_bound(e0, t.1.encode(), O::SIZE as nat, P::SIZE as nat);
    lemma_unpack_undoes_pack(e0, t.1.encode(), P::SIZE as nat);
    let e2 = packed_after(e1, t.2.encode(), Q::SIZE as nat);
    lemma_packed_after_bound(e1, t.2.encode(), O::SIZE as nat + P::SIZE as nat, Q::SIZE as nat);
    lemma_unpack_undoes_pack(e1, t.2.encode(), Q::SIZE as nat);
    let e3 = packed_after(e2, t.3.encode(), R::SIZE as nat);
    lemma_packed_after_bound(e2, t.3.encode(), O::SIZE as nat + P::SIZE as nat + Q::SIZE as nat, R::SIZE as nat);
    lemma_unpack_undoes_pack(e2, t.3.encode(), R::SIZE as nat);
    let e4 = packed_after(e3, t.4.encode(), S::SIZE as nat);
    lemma_packed_after_bound(e3, t.4.encode(), O::SIZE as nat + P::SIZE as nat + Q::SIZE as nat + R::SIZE as nat, S::SIZE as nat);
    lemma_unpack_undoes_pack(e3, t.4.encode(), S::SIZE as nat);
    let e5 = packed_after(e4, t.5.encode(), T::SIZE as nat);
    lemma_packed_after_bound(e4, t.5.encode(), O::SIZE as nat + P::SIZE as nat + Q::SIZE as nat + R::SIZE as nat + S::SIZE as nat, T::SIZE as nat);
    lemma_unpack_undoes_pack(e4, t.5.encode(), T::SIZE as nat);
    let e6 = packed_after(e5, t.6.encode(), U::SIZE as nat);
    lemma_packed_after_bound(e5, t.6.encode(), O::SIZE as nat + P::SIZE as nat + Q::SIZE as nat + R::SIZE as nat + S::SIZE as nat + T::SIZE as nat, U::SIZE as nat);
    lemma_unpack_undoes_pack(e5, t.6.encode(), U::SIZE as nat);
    let e7 = packed_after(e6, t.7.encode(), V::SIZE as nat);
    lemma_packed_after_bound(e6, t.7.encode(), O::SIZE as nat + P::SIZE as nat + Q::SIZE as nat + R::SIZE as nat + S::SIZE as nat + T::SIZE as nat + U::SIZE as nat, V::SIZE as nat);
    lemma_unpack_undoes_pack(e6, t.7.encode(), V::SIZE as nat);
    let e8 = packed_after(e7, t.8.encode(), W::SIZE as nat);
    lemma_packed_after_bound(e7, t.8.encode(), O::SIZE as nat + P::SIZE as nat + Q::SIZE as nat + R::SIZE as nat + S::SIZE as nat + T::SIZE as nat + U::SIZE as nat + V::SIZE as nat, W::SIZE as nat);
    lemma_unpack_undoes_pack(e7, t.8.encode(), W::SIZE as nat);
    let e9 = packed_after(e8, t.9.encode(), X::SIZE as nat);
    lemma_packed_after_bound(e8, t.9.encode(), O::SIZE as nat + P::SIZE as nat + Q::SIZE as nat + R::SIZE as nat + S::SIZE as nat + T::SIZE as nat + U::SIZE as nat + V::SIZE as nat + W::SIZE as nat, X::SIZE as nat);
    lemma_unpack_undoes_pack(e8, t.9.encode(), X::SIZE as nat);
    lemma_div_pow2_split(e9, X::SIZE as nat, W::SIZE as nat);
    lemma_div_pow2_split(e9, X::SIZE as nat + W::SIZE as nat, V::SIZE as nat);
    lemma_div_pow2_split(e9, X::SIZE as nat + W::SIZE as nat + V::SIZE as nat, U::SIZE as nat);
    lemma_div_pow2_split(e9, X::SIZE as nat + W::SIZE as nat + V::SIZE as nat + U::SIZE as nat, T::SIZE as nat);
    lemma_div_pow2_split(e9, X::SIZE as nat + W::SIZE as nat + V::SIZE as nat + U::SIZE as nat + T::SIZE as nat, S::SIZE as nat);
    lemma_div_pow2_split(e9, X::SIZE as nat + W::SIZE as nat + V::SIZE as nat + U::SIZE as nat + T::SIZE as nat + S::SIZE as nat, R::SIZE as nat);
    lemma_div_pow2_split(e9, X::SIZE as nat + W::SIZE as nat + V::SIZE as nat + U::SIZE as nat + T::SIZE as nat + S::SIZE as nat + R::SIZE as nat, Q::SIZE as nat);
    lemma_div_pow2_split(e9, X::SIZE as nat + W::SIZE as nat + V::SIZE as nat + U::SIZE as nat + T::SIZE as nat + S::SIZE as nat + R::SIZE as nat + Q::SIZE as nat, P::SIZE as nat);
}

/// Unpacking a 10-tuple reads its components back from the positions where
/// packing puts them: component `k` from the bits just above the sizes of
/// the later components, the last from the lowest bits.
pub proof fn lemma_tuple10_decode<B: Buffer, O: Packable<B>, P: Packable<B>, Q: Packable<B>, R: Packable<B>, S: Packable<B>, T: Packable<B>, U: Packable<B>, V: Packable<B>, W: Packable<B>, X: Packable<B>>(bits: nat)
    ensures
        <(O, P, Q, R, S, T, U, V, W, X) as Packable<B>>::decode(bits) == (O::decode((bits / pow2(X::SIZE as nat + W::SIZE as nat + V::SIZE as nat + U::SIZE as nat + T::SIZE as nat + S::SIZE as nat + R::SIZE as nat + Q::SIZE as nat + P::SIZE as nat)) % pow2(O::SIZE as nat)), P::decode((bits / pow2(X::SIZE as nat + W::SIZE as nat + V::SIZE as nat + U::SIZE as nat + T::SIZE as nat + S::SIZE as nat + R::SIZE as nat + Q::SIZE as nat)) % pow2(P::SIZE as nat)), Q::decode((bits / pow2(X::SIZE as nat + W::SIZE as nat + V::SIZE as nat + U::SIZE as nat + T::SIZE as nat + S::SIZE as nat + R::SIZE as nat)) % pow2(Q::SIZE as nat)), R::decode((bits / pow2(X::SIZE as nat + W::SIZE as nat + V::SIZE as nat + U::SIZE as nat + T::SIZE as nat + S::SIZE as nat)) % pow2(R::SIZE as nat)), S::decode((bits / pow2(X::SIZE as nat + W::SIZE as nat + V::SIZE as nat + U::SIZE as nat + T::SIZE as nat)) % pow2(S::SIZE as nat)), T::decode((bits / pow2(X::SIZE as nat + W::SIZE as nat + V::SIZE as nat + U::SIZE as nat)) % pow2(T::SIZE as nat)), U::decode((bits / pow2(X::SIZE as nat + W::SIZE as nat + V::SIZE as nat)) % pow2(U::SIZE as nat)), V::decode((bits / pow2(X::SIZE as nat + W::SIZE as nat)) % pow2(V::SIZE as nat)), W::decode((bits / pow2(X::SIZE as nat)) % pow2(W::SIZE as nat)), X::decode(bits % pow2(X::SIZE as nat))),
{
    lemma_div_pow2_split(bits, X::SIZE as nat, W::SIZE as nat);
    lemma_div_pow2_split(bits, X::SIZE as nat + W::SIZE as nat, V::SIZE as nat);
    lemma_div_pow2_split(bits, X::SIZE as nat + W::SIZE as nat + V::SIZE as nat, U::SIZE as nat);
    lemma_div_pow2_split(bits, X::SIZE as nat + W::SIZE as nat + V::SIZE as nat + U::SIZE as nat, T::SIZE as nat);
    lemma_div_pow2_split(bits, X::SIZE as nat + W::SIZE as nat + V::SIZE as nat + U::SIZE as nat + T::SIZE as nat, S::SIZE as nat);
    lemma_div_pow2_split(bits, X::SIZE as nat + W::SIZE as nat + V::SIZE as nat + U::SIZE as nat + T::SIZE as nat + S::SIZE as nat, R::SIZE as nat);
    lemma_div_pow2_split(bits, X::SIZE as nat + W::SIZE as nat + V::SIZE as nat + U::SIZE as nat + T::SIZE as nat + S::SIZE as nat + R::SIZE as nat, Q::SIZE as nat);
    lemma_div_pow2_split(bits, X::SIZE as nat + W::SIZE as nat + V::SIZE as nat + U::SIZE as nat + T::SIZE as nat + S::SIZE as nat + R::SIZE as nat + Q::SIZE as nat, P::SIZE as nat);
}

impl<B: Buffer, O: Packable<B>, P: Packable<B>, Q: Packable<B>, R: Packable<B>, S: Packable<B>, T: Packable<B>, U: Packable<B>, V: Packable<B>, W: Packable<B>, X: Packable<B>, Y: Packable<B>> Packable<B> for (O, P, Q, R, S, T, U, V, W, X, Y) {
    const SIZE: u32 = 0 + O::SIZE + P::SIZE + Q::SIZE + R::SIZE + S::SIZE + T::SIZE + U::SIZE + V::SIZE + W::SIZE + X::SIZE + Y::SIZE;

    open spec fn well_sized() -> bool {
        &&& O::well_sized() && O::SIZE < B::BITS
        &&& P::well_sized() && P::SIZE < B::BITS
        &&& Q::well_sized() && Q::SIZE < B::BITS
        &&& R::well_sized() && R::SIZE < B::BITS
        &&& S::well_sized() && S::SIZE < B::BITS
        &&& T::well_sized() && T::SIZE < B::BITS
        &&& U::well_sized() && U::SIZE < B::BITS
        &&& V::well_sized() && V::SIZE < B::BITS
        &&& W::well_sized() && W::SIZE < B::BITS
        &&& X::well_sized() && X::SIZE < B::BITS
        &&& Y::well_sized() && Y::SIZE < B::BITS
        &&& O::SIZE + P::SIZE + Q::SIZE + R::SIZE + S::SIZE + T::SIZE + U::SIZE + V::SIZE + W::SIZE + X::SIZE + Y::SIZE <= B::BITS
    }

    open spec fn encode(&self) -> nat {
        packed_after(packed_after(packed_after(packed_after(packed_after(packed_after(packed_after(packed_after(packed_after(packed_after(packed_after(0, self.0.encode(), O::SIZE as nat), self.1.encode(), P::SIZE as nat), self.2.encode(), Q::SIZE as nat), self.3.encode(), R::SIZE as nat), self.4.encode(), S::SIZE as nat), self.5.encode(), T::SIZE as nat), self.6.encode(), U::SIZE as nat), self.7.encode(), V::SIZE as nat), self.8.encode(), W::SIZE as nat), self.9.encode(), X::SIZE as nat), self.10.encode(), Y::SIZE as nat)
    }

    open spec fn decode(bits: nat) -> (O, P, Q, R, S, T, U, V, W, X, Y) {
        let y = Y::decode(bits % pow2(Y::SIZE as nat));
        let rest1 = bits / pow2(Y::SIZE as nat);
        let x = X::decode(rest1 % pow2(X::SIZE as nat));
        let rest2 = rest1 / pow2(X::SIZE as nat);
        let w = W::decode(rest2 % pow2(W::SIZE as nat));
        let rest3 = rest2 / pow2(W::SIZE as nat);
        let v = V::decode(rest3 % pow2(V::SIZE as nat));
        let rest4 = rest3 / pow2(V::SIZE as nat);
        let u = U::decode(rest4 % pow2(U::SIZE as nat));
        let rest5 = rest4 / pow2(U::SIZE as nat);
        let t = T::decode(rest5 % pow2(T::SIZE as nat));
        let rest6 = rest5 / pow2(T::SIZE as nat);
        let s = S::decode(rest6 % pow2(S::SIZE as nat));
        let rest7 = rest6 / pow2(S::SIZE as nat);
        let r = R::decode(rest7 % pow2(R::SIZE as nat));
        let rest8 = rest7 / pow2(R::SIZE as nat);
        let q = Q::decode(rest8 % pow2(Q::SIZE as nat));
        let rest9 = rest8 / pow2(Q::SIZE as nat);
        let p = P::decode(rest9 % pow2(P::SIZE as nat));
        let rest10 = rest9 / pow2(P::SIZE as nat);
        let o = O::decode(rest10 % pow2(O::SIZE as nat));
        (o, p, q, r, s, t, u, v, w, x, y)
    }

    fn pack(&self) -> (r: B) {
        proof {
            B::lemma_buffer_facts(B::ZERO);
        }
        let mut packer = Packer::<B>::new();
        let (o, p, q, r, s, t, u, v, w, x, y) = self;
        packer.pack(o);
        packer.pack(p);
        packer.pack(q);
        packer.pack(r);
        packer.pack(s);
        packer.pack(t);
        packer.pack(u);
        packer.pack(v);
        packer.pack(w);
        packer.pack(x);
        packer.pack(y);
        packer.into_inner()
    }

    fn unpack(buffer: B) -> (r: (O, P, Q, R, S, T, U, V, W, X, Y)) {
        let mut unpacker = Unpacker::<B>::new(buffer);
        let y: Y = unpacker.unpack();
        let x: X = unpacker.unpack();
        let w: W = unpacker.unpack();
        let v: V = unpacker.unpack();
        let u: U = unpacker.unpack();
        let t: T = unpacker.unpack();
        let s: S = unpacker.unpack();
        let r: R = unpacker.unpack();
        let q: Q = unpacker.unpack();
        let p: P = unpacker.unpack();
        let o: O = unpacker.unpack();
        (o, p, q, r, s, t, u, v, w, x, y)
    }
}

/// The size of a 11-tuple is the sum of its components' sizes, when that
/// sum fits in a `u32`.
pub proof fn lemma_tuple11_size<B: Buffer, O: Packable<B>, P: Packable<B>, Q: Packable<B>, R: Packable<B>, S: Packable<B>, T: Packable<B>, U: Packable<B>, V: Packable<B>, W: Packable<B>, X: Packable<B>, Y: Packable<B>>()
    requires
        O::SIZE + P::SIZE + Q::SIZE + R::SIZE + S::SIZE + T::SIZE + U::SIZE + V::SIZE + W::SIZE + X::SIZE + Y::SIZE <= u32::MAX,
    ensures
        <(O, P, Q, R, S, T, U, V, W, X, Y) as Packable<B>>::SIZE == O::SIZE + P::SIZE + Q::SIZE + R::SIZE + S::SIZE + T::SIZE + U::SIZE + V::SIZE + W::SIZE + X::SIZE + Y::SIZE,
{
}

/// A 11-tuple comes back from its packed bits when each component does.
pub proof fn lemma_tuple11_round_trips<B: Buffer, O: Packable<B>, P: Packable<B>, Q: Packable<B>, R: Packable<B>, S: Packable<B>, T: Packable<B>, U: Packable<B>, V: Packable<B>, W: Packable<B>, X: Packable<B>, Y: Packable<B>>(t: (O, P, Q, R, S, T, U, V, W, X, Y))
    requires
        round_trips::<B, O>(t.0),
        round_trips::<B, P>(t.1),
        round_trips::<B, Q>(t.2),
        round_trips::<B, R>(t.3),
        round_trips::<B, S>(t.4),
        round_trips::<B, T>(t.5),
        round_trips::<B, U>(t.6),
        round_trips::<B, V>(t.7),
        round_trips::<B, W>(t.8),
        round_trips::<B, X>(t.9),
        round_trips::<B, Y>(t.10),
        O::SIZE + P::SIZE + Q::SIZE + R::SIZE + S::SIZE + T::SIZE + U::SIZE + V::SIZE + W::SIZE + X::SIZE + Y::SIZE <= u32::MAX,
    ensures
        round_trips::<B, (O, P, Q, R, S, T, U, V, W, X, Y)>(t),
{
    lemma2_to64();
    let e0 = packed_after(0, t.0.encode(), O::SIZE as nat);
    lemma_packed_after_bound(0, t.0.encode(), 0, O::SIZE as nat);
    lemma_unpack_undoes_pack(0, t.0.encode(), O::SIZE as nat);
    let e1 = packed_after(e0, t.1.encode(), P::SIZE as nat);
    lemma_packed_after_bound(e0, t.1.encode(), O::SIZE as nat, P::SIZE as nat);
    lemma_unpack_undoes_pack(e0, t.1.encode(), P::SIZE as nat);
    let e2 = packed_after(e1, t.2.encode(), Q::SIZE as nat);
    lemma_packed_after_bound(e1, t.2.encode(), O::SIZE as nat + P::SIZE as nat, Q::SIZE as nat);
    lemma_unpack_undoes_pack(e1, t.2.encode(), Q::SIZE as nat);
    let e3 = packed_after(e2, t.3.encode(), R::SIZE as nat);
    lemma_packed_after_bound(e2, t.3.encode(), O::SIZE as nat + P::SIZE as nat + Q::SIZE as nat, R::SIZE as nat);
    lemma_unpack_undoes_pack(e2, t.3.encode(), R::SIZE as nat);
    let e4 = packed_after(e3, t.4.encode(), S::SIZE as nat);
    lemma_packed_after_bound(e3, t.4.encode(), O::SIZE as nat + P::SIZE as nat + Q::SIZE as nat + R::SIZE as nat, S::SIZE as nat);
    lemma_unpack_undoes_pack(e3, t.4.encode(), S::SIZE as nat);
    let e5 = packed_after(e4, t.5.encode(), T::SIZE as nat);
    lemma_packed_after_bound(e4, t.5.encode(), O::SIZE as nat + P::SIZE as nat + Q::SIZE as nat + R::SIZE as nat + S::SIZE as nat, T::SIZE as nat);
    lemma_unpack_undoes_pack(e4, t.5.encode(), T::SIZE as nat);
    let e6 = packed_after(e5, t.6.encode(), U::SIZE as nat);
    lemma_packed_after_bound(e5, t.6.encode(), O::SIZE as nat + P::SIZE as nat + Q::SIZE as nat + R::SIZE as nat + S::SIZE as nat + T::SIZE as nat, U::SIZE as nat);
    lemma_unpack_undoes_pack(e5, t.6.encode(), U::SIZE as nat);
    let e7 = packed_after(e6, t.7.encode(), V::SIZE as nat);
    lemma_packed_after_bound(e6, t.7.encode(), O::SIZE as nat + P::SIZE as nat + Q::SIZE as nat + R::SIZE as nat + S::SIZE as nat + T::SIZE as nat + U::SIZE as nat, V::SIZE as nat);
    lemma_unpack_undoes_pack(e6, t.7.encode(), V::SIZE as nat);
    let e8 = packed_after(e7, t.8.encode(), W::SIZE as nat);
    lemma_packed_after_bound(e7, t.8.encode(), O::SIZE as nat + P::SIZE as nat + Q::SIZE as nat + R::SIZE as nat + S::SIZE as nat + T::SIZE as nat + U::SIZE as nat + V::SIZE as nat, W::SIZE as nat);
    lemma_unpack_undoes_pack(e7, t.8.encode(), W::SIZE as nat);
    let e9 = packed_after(e8, t.9.encode(), X::SIZE as nat);
    lemma_packed_after_bound(e8, t.9.encode(), O::SIZE as nat + P::SIZE as nat + Q::SIZE as nat + R::SIZE as nat + S::SIZE as nat + T::SIZE as nat + U::SIZE as nat + V::SIZE as nat + W::SIZE as nat, X::SIZE as nat);
    lemma_unpack_undoes_pack(e8, t.9.encode(), X::SIZE as nat);
    let e10 = packed_after(e9, t.10.encode(), Y::SIZE as nat);
    lemma_packed_after_bound(e9, t.10.encode(), O::SIZE as nat + P::SIZE as nat + Q::SIZE as nat + R::SIZE as nat + S::SIZE as nat + T::SIZE as nat + U::SIZE as nat + V::SIZE as nat + W::SIZE as nat + X::SIZE as nat, Y::SIZE as nat);
    lemma_unpack_undoes_pack(e9, t.10.encode(), Y::SIZE as nat);
    assert(<(O, P, Q, R, S, T, U, V, W, X, Y) as Packable<B>>::SIZE as nat == O::SIZE as nat + P::SIZE as nat + Q::SIZE as nat + R::SIZE as nat + S::SIZE as nat + T::SIZE as nat + U::SIZE as nat + V::SIZE as nat + W::SIZE as nat + X::SIZE as nat + Y::SIZE as nat);
    lemma_small_mod(e10, pow2(O::SIZE as nat + P::SIZE as nat + Q::SIZE as nat + R::SIZE as nat + S::SIZE as nat + T::SIZE as nat + U::SIZE as nat + V::SIZE as nat + W::SIZE as nat + X::SIZE as nat + Y::SIZE as nat));
}

/// Packing a 11-tuple puts its components in declaration order, each above
/// all the components after it: component `k` is found, with its
/// packed bits, just above the sizes of the later components, the first
/// component highest and the last in the lowest bits.
pub proof fn lemma_tuple11_layout<B: Buffer, O: Packable<B>, P: Packable<B>, Q: Packable<B>, R: Packable<B>, S: Packable<B>, T: Packable<B>, U: Packable<B>, V: Packable<B>, W: Packable<B>, X: Packable<B>, Y: Packable<B>>(t: (O, P, Q, R, S, T, U, V, W, X, Y))
    ensures
        <(O, P, Q, R, S, T, U, V, W, X, Y) as Packable<B>>::encode(&t) < pow2(O::SIZE as nat + P::SIZE as nat + Q::SIZE as nat + R::SIZE as nat + S::SIZE as nat + T::SIZE as nat + U::SIZE as nat + V::SIZE as nat + W::SIZE as nat + X::SIZE as nat + Y::SIZE as nat),
        (<(O, P, Q, R, S, T, U, V, W, X, Y) as Packable<B>>::encode(&t) / pow2(Y::SIZE as nat + X::SIZE as nat + W::SIZE as nat + V::SIZE as nat + U::SIZE as nat + T::SIZE as nat + S::SIZE as nat + R::SIZE as nat + Q::SIZE as nat + P::SIZE as nat)) % pow2(O::SIZE as nat) == low_bits(t.0.encode(), O::SIZE as nat),
        (<(O, P, Q, R, S, T, U, V, W, X, Y) as Packable<B>>::encode(&t) / pow2(Y::SIZE as nat + X::SIZE as nat + W::SIZE as nat + V::SIZE as nat + U::SIZE as nat + T::SIZE as nat + S::SIZE as nat + R::SIZE as nat + Q::SIZE as nat)) % pow2(P::SIZE as nat) == low_bits(t.1.encode(), P::SIZE as nat),
        (<(O, P, Q, R, S, T, U, V, W, X, Y) as Packable<B>>::encode(&t) / pow2(Y::SIZE as nat + X::SIZE as nat + W::SIZE as nat + V::SIZE as nat + U::SIZE as nat + T::SIZE as nat + S::SIZE as nat + R::SIZE as nat)) % pow2(Q::SIZE as nat) == low_bits(t.2.encode(), Q::SIZE as nat),
        (<(O, P, Q, R, S, T, U, V, W, X, Y) as Packable<B>>::encode(&t) / pow2(Y::SIZE as nat + X::SIZE as nat + W::SIZE as nat + V::SIZE as nat + U::SIZE as nat + T::SIZE as nat + S::SIZE as nat)) % pow2(R::SIZE as nat) == low_bits(t.3.encode(), R::SIZE as nat),
        (<(O, P, Q, R, S, T, U, V, W, X, Y) as Packable<B>>::encode(&t) / pow2(Y::SIZE as nat + X::SIZE as nat + W::SIZE as nat + V::SIZE as nat + U::SIZE as nat + T::SIZE as nat)) % pow2(S::SIZE as nat) == low_bits(t.4.encode(), S::SIZE as nat),
        (<(O, P, Q, R, S, T, U, V, W, X, Y) as Packable<B>>::encode(&t) / pow2(Y::SIZE as nat + X::SIZE as nat + W::SIZE as nat + V::SIZE as nat + U::SIZE as nat)) % pow2(T::SIZE as nat) == low_bits(t.5.encode(), T::SIZE as nat),
        (<(O, P, Q, R, S, T, U, V, W, X, Y) as Packable<B>>::encode(&t) / pow2(Y::SIZE as nat + X::SIZE as nat + W::SIZE as nat + V::SIZE as nat)) % pow2(U::SIZE as nat) == low_bits(t.6.encode(), U::SIZE as nat),
        (<(O, P, Q, R, S, T, U, V, W, X, Y) as Packable<B>>::encode(&t) / pow2(Y::SIZE as nat + X::SIZE as nat + W::SIZE as nat)) % pow2(V::SIZE as nat) == low_bits(t.7.encode(), V::SIZE as nat),
        (<(O, P, Q, R, S, T, U, V, W, X, Y) as Packable<B>>::encode(&t) / pow2(Y::SIZE as nat + X::SIZE as nat)) % pow2(W::SIZE as nat) == low_bits(t.8.encode(), W::SIZE as nat),
        (<(O, P, Q, R, S, T, U, V, W, X, Y) as Packable<B>>::encode(&t) / pow2(Y::SIZE as nat)) % pow2(X::SIZE as nat) == low_bits(t.9.encode(), X::SIZE as nat),
        <(O, P, Q, R, S, T, U, V, W, X, Y) as Packable<B>>::encode(&t) % pow2(Y::SIZE as nat) == low_bits(t.10.encode(), Y::SIZE as nat),
{
    lemma2_to64();
    let e0 = packed_after(0, t.0.encode(), O::SIZE as nat);
    lemma_packed_after_bound(0, t.0.encode(), 0, O::SIZE as nat);
    lemma_unpack_undoes_pack(0, t.0.encode(), O::SIZE as nat);
    let e1 = packed_after(e0, t.1.encode(), P::SIZE as nat);
    lemma_packed_after_bound(e0, t.1.encode(), O::SIZE as nat, P::SIZE as nat);
    lemma_unpack_undoes_pack(e0, t.1.encode(), P::SIZE as nat);
    let e2 = packed_after(e1, t.2.encode(), Q::SIZE as nat);
    lemma_packed_after_bound(e1, t.2.encode(), O::SIZE as nat + P::SIZE as nat, Q::SIZE as nat);
    lemma_unpack_undoes_pack(e1, t.2.encode(), Q::SIZE as nat);
    let e3 = packed_after(e2, t.3.encode(), R::SIZE as nat);
    lemma_packed_after_bound(e2, t.3.encode(), O::SIZE as nat + P::SIZE as nat + Q::SIZE as nat, R::SIZE as nat);
    lemma_unpack_undoes_pack(e2, t.3.encode(), R::SIZE as nat);
    let e4 = packed_after(e3, t.4.encode(), S::SIZE as nat);
    lemma_packed_after_bound(e3, t.4.encode(), O::SIZE as nat + P::SIZE as nat + Q::SIZE as nat + R::SIZE as nat, S::SIZE as nat);
    lemma_unpack_undoes_pack(e3, t.4.encode(), S::SIZE as nat);
    let e5 = packed_after(e4, t.5.encode(), T::SIZE as nat);
    lemma_packed_after_bound(e4, t.5.encode(), O::SIZE as nat + P::SIZE as nat + Q::SIZE as nat + R::SIZE as nat + S::SIZE as nat, T::SIZE as nat);
    lemma_unpack_undoes_pack(e4, t.5.encode(), T::SIZE as nat);
    let e6 = packed_after(e5, t.6.encode(), U::SIZE as nat);
    lemma_packed_after_bound(e5, t.6.encode(), O::SIZE as nat + P::SIZE as nat + Q::SIZE as nat + R::SIZE as nat + S::SIZE as nat + T::SIZE as nat, U::SIZE as nat);
    lemma_unpack_undoes_pack(e5, t.6.encode(), U::SIZE as nat);
    let e7 = packed_after(e6, t.7.encode(), V::SIZE as nat);
    lemma_packed_after_bound(e6, t.7.encode(), O::SIZE as nat + P::SIZE as nat + Q::SIZE as nat + R::SIZE as nat + S::SIZE as nat + T::SIZE as nat + U::SIZE as nat, V::SIZE as nat);
    lemma_unpack_undoes_pack(e6, t.7.encode(), V::SIZE as nat);
    let e8 = packed_after(e7, t.8.encode(), W::SIZE as nat);
    lemma_packed_after_bound(e7, t.8.encode(), O::SIZE as nat + P::SIZE as nat + Q::SIZE as nat + R::SIZE as nat + S::SIZE as nat + T::SIZE as nat + U::SIZE as nat + V::SIZE as nat, W::SIZE as nat);
    lemma_unpack_undoes_pack(e7, t.8.encode(), W::SIZE as nat);
    let e9 = packed_after(e8, t.9.encode(), X::SIZE as nat);
    lemma_packed_after_bound(e8, t.9.encode(), O::SIZE as nat + P::SIZE as nat + Q::SIZE as nat + R::SIZE as nat + S::SIZE as nat + T::SIZE as nat + U::SIZE as nat + V::SIZE as nat + W::SIZE as nat, X::SIZE as nat);
    lemma_unpack_undoes_pack(e8, t.9.encode(), X::SIZE as nat);
    let e10 = packed_after(e9, t.10.encode(), Y::SIZE as nat);
    lemma_packed_after_bound(e9, t.10.encode(), O::SIZE as nat + P::SIZE as nat + Q::SIZE as nat + R::SIZE as nat + S::SIZE as nat + T::SIZE as nat + U::SIZE as nat + V::SIZE as nat + W::SIZE as nat + X::SIZE as nat, Y::SIZE as nat);
    lemma_unpack_undoes_pack(e9, t.10.encode(), Y::SIZE as nat);
    lemma_div_pow2_split(e10, Y::SIZE as nat, X::SIZE as nat);
    lemma_div_pow2_split(e10, Y::SIZE as nat + X::SIZE as nat, W::SIZE as nat);
    lemma_div_pow2_split(e10, Y::SIZE as nat + X::SIZE as nat + W::SIZE as nat, V::SIZE as nat);
    lemma_div_pow2_split(e10, Y::SIZE as nat + X::SIZE as nat + W::SIZE as nat + V::SIZE as nat, U::SIZE as nat);
    lemma_div_pow2_split(e10, Y::SIZE as nat + X::SIZE as nat + W::SIZE as nat + V::SIZE as nat + U::SIZE as nat, T::SIZE as nat);
    lemma_div_pow2_split(e10, Y::SIZE as nat + X::SIZE as nat + W::SIZE as nat + V::SIZE as nat + U::SIZE as nat + T::SIZE as nat, S::SIZE as nat);
    lemma_div_pow2_split(e10, Y::SIZE as nat + X::SIZE as nat + W::SIZE as nat + V::SIZE as nat + U::SIZE as nat + T::SIZE as nat + S::SIZE as nat, R::SIZE as nat);
    lemma_div_pow2_split(e10, Y::SIZE as nat + X::SIZE as nat + W::SIZE as nat + V::SIZE as nat + U::SIZE as nat + T::SIZE as nat + S::SIZE as nat + R::SIZE as nat, Q::SIZE as nat);
    lemma_div_pow2_split(e10, Y::SIZE as nat + X::SIZE as nat + W::SIZE as nat + V::SIZE as nat + U::SIZE as nat + T::SIZE as nat + S::SIZE as nat + R::SIZE as nat + Q::SIZE as nat, P::SIZE as nat);
}

/// Unpacking a 11-tuple reads its components back from the positions where
/// packing puts them: component `k` from the bits just above the sizes of
/// the later components, the last from the lowest bits.
pub proof fn lemma_tuple11_decode<B: Buffer, O: Packable<B>, P: Packable<B>, Q: Packable<B>, R: Packable<B>, S: Packable<B>, T: Packable<B>, U: Packable<B>, V: Packable<B>, W: Packable<B>, X: Packable<B>, Y: Packable<B>>(bits: nat)
    ensures
        <(O, P, Q, R, S, T, U, V, W, X, Y) as Packable<B>>::decode(bits) == (O::decode((bits / pow2(Y::SIZE as nat + X::SIZE as nat + W::SIZE as nat + V::SIZE as nat + U::SIZE as nat + T::SIZE as nat + S::SIZE as nat + R::SIZE as nat + Q::SIZE as nat + P::SIZE as nat)) % pow2(O::SIZE as nat)), P::decode((bits / pow2(Y::SIZE as nat + X::SIZE as nat + W::SIZE as nat + V::SIZE as nat + U::SIZE as nat + T::SIZE as nat + S::SIZE as nat + R::SIZE as nat + Q::SIZE as nat)) % pow2(P::SIZE as nat)), Q::decode((bits / pow2(Y::SIZE as nat + X::SIZE as nat + W::SIZE as nat + V::SIZE as nat + U::SIZE as nat + T::SIZE as nat + S::SIZE as nat + R::SIZE as nat)) % pow2(Q::SIZE as nat)), R::decode((bits / pow2(Y::SIZE as nat + X::SIZE as nat + W::SIZE as nat + V::SIZE as nat + U::SIZE as nat + T::SIZE as nat + S::SIZE as nat)) % pow2(R::SIZE as nat)), S::decode((bits / pow2(Y::SIZE as nat + X::SIZE as nat + W::SIZE as nat + V::SIZE as nat + U::SIZE as nat + T::SIZE as nat)) % pow2(S::SIZE as nat)), T::decode((bits / pow2(Y::SIZE as nat + X::SIZE as nat + W::SIZE as nat + V::SIZE as nat + U::SIZE as nat)) % pow2(T::SIZE as nat)), U::decode((bits / pow2(Y::SIZE as nat + X::SIZE as nat + W::SIZE as nat + V::SIZE as nat)) % pow2(U::SIZE as nat)), V::decode((bits / pow2(Y::SIZE as nat + X::SIZE as nat + W::SIZE as nat)) % pow2(V::SIZE as nat)), W::decode((bits / pow2(Y::SIZE as nat + X::SIZE as nat)) % pow2(W::SIZE as nat)), X::decode((bits / pow2(Y::SIZE as nat)) % pow2(X::SIZE as nat)), Y::decode(bits % pow2(Y::SIZE as nat))),
{
    lemma_div_pow2_split(bits, Y::SIZE as nat, X::SIZE as nat);
    lemma_div_pow2_split(bits, Y::SIZE as nat + X::SIZE as nat, W::SIZE as nat);
    lemma_div_pow2_split(bits, Y::SIZE as nat + X::SIZE as nat + W::SIZE as nat, V::SIZE as nat);
    lemma_div_pow2_split(bits, Y::SIZE as nat + X::SIZE as nat + W::SIZE as nat + V::SIZE as nat, U::SIZE as nat);
    lemma_div_pow2_split(bits, Y::SIZE as nat + X::SIZE as nat + W::SIZE as nat + V::SIZE as nat + U::SIZE as nat, T::SIZE as nat);
    lemma_div_pow2_split(bits, Y::SIZE as nat + X::SIZE as nat + W::SIZE as nat + V::SIZE as nat + U::SIZE as nat + T::SIZE as nat, S::SIZE as nat);
    lemma_div_pow2_split(bits, Y::SIZE as nat + X::SIZE as nat + W::SIZE as nat + V::SIZE as nat + U::SIZE as nat + T::SIZE as nat + S::SIZE as nat, R::SIZE as nat);
    lemma_div_pow2_split(bits, Y::SIZE as nat + X::SIZE as nat + W::SIZE as nat + V::SIZE as nat + U::SIZE as nat + T::SIZE as nat + S::SIZE as nat + R::SIZE as nat, Q::SIZE as nat);
    lemma_div_pow2_split(bits, Y::SIZE as nat + X::SIZE as nat + W::SIZE as nat + V::SIZE as nat + U::SIZE as nat + T::SIZE as nat + S::SIZE as nat + R::SIZE as nat + Q::SIZE as nat, P::SIZE as nat);
}

impl<B: Buffer, O: Packable<B>, P: Packable<B>, Q: Packable<B>, R: Packable<B>, S: Packable<B>, T: Packable<B>, U: Packable<B>, V: Packable<B>, W: Packable<B>, X: Packable<B>, Y: Packable<B>, Z: Packable<B>> Packable<B> for (O, P, Q, R, S, T, U, V, W, X, Y, Z) {
    const SIZE: u32 = 0 + O::SIZE + P::SIZE + Q::SIZE + R::SIZE + S::SIZE + T::SIZE + U::SIZE + V::SIZE + W::SIZE + X::SIZE + Y::SIZE + Z::SIZE;

    open spec fn well_sized() -> bool {
        &&& O::well_sized() && O::SIZE < B::BITS
        &&& P::well_sized() && P::SIZE < B::BITS
        &&& Q::well_sized() && Q::SIZE < B::BITS
        &&& R::well_sized() && R::SIZE < B::BITS
        &&& S::well_sized() && S::SIZE < B::BITS
        &&& T::well_sized() && T::SIZE < B::BITS
        &&& U::well_sized() && U::SIZE < B::BITS
        &&& V::well_sized() && V::SIZE < B::BITS
        &&& W::well_sized() && W::SIZE < B::BITS
        &&& X::well_sized() && X::SIZE < B::BITS
        &&& Y::well_sized() && Y::SIZE < B::BITS
        &&& Z::well_sized() && Z::SIZE < B::BITS
        &&& O::SIZE + P::SIZE + Q::SIZE + R::SIZE + S::SIZE + T::SIZE + U::SIZE + V::SIZE + W::SIZE + X::SIZE + Y::SIZE + Z::SIZE <= B::BITS
    }

    open spec fn encode(&self) -> nat {
        packed_after(packed_after(packed_after(packed_after(packed_after(packed_after(packed_after(packed_after(packed_after(packed_after(packed_after(packed_after(0, self.0.encode(), O::SIZE as nat), self.1.encode(), P::SIZE as nat), self.2.encode(), Q::SIZE as nat), self.3.encode(), R::SIZE as nat), self.4.encode(), S::SIZE as nat), self.5.encode(), T::SIZE as nat), self.6.encode(), U::SIZE as nat), self.7.encode(), V::SIZE as nat), self.8.encode(), W::SIZE as nat), self.9.encode(), X::SIZE as nat), self.10.encode(), Y::SIZE as nat), self.11.encode(), Z::SIZE as nat)
    }

    open spec fn decode(bits: nat) -> (O, P, Q, R, S, T, U, V, W, X, Y, Z) {
        let z = Z::decode(bits % pow2(Z::SIZE as nat));
        let rest1 = bits / pow2(Z::SIZE as nat);
        let y = Y::decode(rest1 % pow2(Y::SIZE as nat));
        let rest2 = rest1 / pow2(Y::SIZE as nat);
        let x = X::decode(rest2 % pow2(X::SIZE as nat));
        let rest3 = rest2 / pow2(X::SIZE as nat);
        let w = W::decode(rest3 % pow2(W::SIZE as nat));
        let rest4 = rest3 / pow2(W::SIZE as nat);
        let v = V::decode(rest4 % pow2(V::SIZE as nat));
        let rest5 = rest4 / pow2(V::SIZE as nat);
        let u = U::decode(rest5 % pow2(U::SIZE as nat));
        let rest6 = rest5 / pow2(U::SIZE as nat);
        let t = T::decode(rest6 % pow2(T::SIZE as nat));
        let rest7 = rest6 / pow2(T::SIZE as nat);
        let s = S::decode(rest7 % pow2(S::SIZE as nat));
        let rest8 = rest7 / pow2(S::SIZE as nat);
        let r = R::decode(rest8 % pow2(R::SIZE as nat));
        let rest9 = rest8 / pow2(R::SIZE as nat);
        let q = Q::decode(rest9 % pow2(Q::SIZE as nat));
        let rest10 = rest9 / pow2(Q::SIZE as nat);
        let p = P::decode(rest10 % pow2(P::SIZE as nat));
        let rest11 = rest10 / pow2(P::SIZE as nat);
        let o = O::decode(rest11 % pow2(O::SIZE as nat));
        (o, p, q, r, s, t, u, v, w, x, y, z)
    }

    fn pack(&self) -> (r: B) {
        proof {
            B::lemma_buffer_facts(B::ZERO);
        }
        let mut packer = Packer::<B>::new();
        let (o, p, q, r, s, t, u, v, w, x, y, z) = self;
        packer.pack(o);
        packer.pack(p);
        packer.pack(q);
        packer.pack(r);
        packer.pack(s);
        packer.pack(t);
        packer.pack(u);
        packer.pack(v);
        packer.pack(w);
        packer.pack(x);
        packer.pack(y);
        packer.pack(z);
        packer.into_inner()
    }

    fn unpack(buffer: B) -> (r: (O, P, Q, R, S, T, U, V, W, X, Y, Z)) {
        let mut unpacker = Unpacker::<B>::new(buffer);
        let z: Z = unpacker.unpack();
        let y: Y = unpacker.unpack();
        let x: X = unpacker.unpack();
        let w: W = unpacker.unpack();
        let v: V = unpacker.unpack();
        let u: U = unpacker.unpack();
        let t: T = unpacker.unpack();
        let s: S = unpacker.unpack();
        let r: R = unpacker.unpack();
        let q: Q = unpacker.unpack();
        let p: P = unpacker.unpack();
        let o: O = unpacker.unpack();
        (o, p, q, r, s, t, u, v, w, x, y, z)
    }
}

/// The size of a 12-tuple is the sum of its components' sizes, when that
/// sum fits in a `u32`.
pub proof fn lemma_tuple12_size<B: Buffer, O: Packable<B>, P: Packable<B>, Q: Packable<B>, R: Packable<B>, S: Packable<B>, T: Packable<B>, U: Packable<B>, V: Packable<B>, W: Packable<B>, X: Packable<B>, Y: Packable<B>, Z: Packable<B>>()
    requires
        O::SIZE + P::SIZE + Q::SIZE + R::SIZE + S::SIZE + T::SIZE + U::SIZE + V::SIZE + W::SIZE + X::SIZE + Y::SIZE + Z::SIZE <= u32::MAX,
    ensures
        <(O, P, Q, R, S, T, U, V, W, X, Y, Z) as Packable<B>>::SIZE == O::SIZE + P::SIZE + Q::SIZE + R::SIZE + S::SIZE + T::SIZE + U::SIZE + V::SIZE + W::SIZE + X::SIZE + Y::SIZE + Z::SIZE,
{
}

/// A 12-tuple comes back from its packed bits when each component does.
pub proof fn lemma_tuple12_round_trips<B: Buffer, O: Packable<B>, P: Packable<B>, Q: Packable<B>, R: Packable<B>, S: Packable<B>, T: Packable<B>, U: Packable<B>, V: Packable<B>, W: Packable<B>, X: Packable<B>, Y: Packable<B>, Z: Packable<B>>(t: (O, P, Q, R, S, T, U, V, W, X, Y, Z))
    requires
        round_trips::<B, O>(t.0),
        round_trips::<B, P>(t.1),
        round_trips::<B, Q>(t.2),
        round_trips::<B, R>(t.3),
        round_trips::<B, S>(t.4),
        round_trips::<B, T>(t.5),
        round_trips::<B, U>(t.6),
        round_trips::<B, V>(t.7),
        round_trips::<B, W>(t.8),
        round_trips::<B, X>(t.9),
        round_trips::<B, Y>(t.10),
        round_trips::<B, Z>(t.11),
        O::SIZE + P::SIZE + Q::SIZE + R::SIZE + S::SIZE + T::SIZE + U::SIZE + V::SIZE + W::SIZE + X::SIZE + Y::SIZE + Z::SIZE <= u32::MAX,
    ensures
        round_trips::<B, (O, P, Q, R, S, T, U, V, W, X, Y, Z)>(t),
{
    lemma2_to64();
    let e0 = packed_after(0, t.0.encode(), O::SIZE as nat);
    lemma_packed_after_bound(0, t.0.encode(), 0, O::SIZE as nat);
    lemma_unpack_undoes_pack(0, t.0.encode(), O::SIZE as nat);
    let e1 = packed_after(e0, t.1.encode(), P::SIZE as nat);
    lemma_packed_after_bound(e0, t.1.encode(), O::SIZE as nat, P::SIZE as nat);
    lemma_unpack_undoes_pack(e0, t.1.encode(), P::SIZE as nat);
    let e2 = packed_after(e1, t.2.encode(), Q::SIZE as nat);
    lemma_packed_after_bound(e1, t.2.encode(), O::SIZE as nat + P::SIZE as nat, Q::SIZE as nat);
    lemma_unpack_undoes_pack(e1, t.2.encode(), Q::SIZE as nat);
    let e3 = packed_after(e2, t.3.encode(), R::SIZE as nat);
    lemma_packed_after_bound(e2, t.3.encode(), O::SIZE as nat + P::SIZE as nat + Q::SIZE as nat, R::SIZE as nat);
    lemma_unpack_undoes_pack(e2, t.3.encode(), R::SIZE as nat);
    let e4 = packed_after(e3, t.4.encode(), S::SIZE as nat);
    lemma_packed_after_bound(e3, t.4.encode(), O::SIZE as nat + P::SIZE as nat + Q::SIZE as nat + R::SIZE as nat, S::SIZE as nat);
    lemma_unpack_undoes_pack(e3, t.4.encode(), S::SIZE as nat);
    let e5 = packed_after(e4, t.5.encode(), T::SIZE as nat);
    lemma_packed_after_bound(e4, t.5.encode(), O::SIZE as nat + P::SIZE as nat + Q::SIZE as nat + R::SIZE as nat + S::SIZE as nat, T::SIZE as nat);
    lemma_unpack_undoes_pack(e4, t.5.encode(), T::SIZE as nat);
    let e6 = packed_after(e5, t.6.encode(), U::SIZE as nat);
    lemma_packed_after_bound(e5, t.6.encode(), O::SIZE as nat + P::SIZE as nat + Q::SIZE as nat + R::SIZE as nat + S::SIZE as nat + T::SIZE as nat, U::SIZE as nat);
    lemma_unpack_undoes_pack(e5, t.6.encode(), U::SIZE as nat);
    let e7 = packed_after(e6, t.7.encode(), V::SIZE as nat);
    lemma_packed_after_bound(e6, t.7.encode(), O::SIZE as nat + P::SIZE as nat + Q::SIZE as nat + R::SIZE as nat + S::SIZE as nat + T::SIZE as nat + U::SIZE as nat, V::SIZE as nat);
    lemma_unpack_undoes_pack(e6, t.7.encode(), V::SIZE as nat);
    let e8 = packed_after(e7, t.8.encode(), W::SIZE as nat);
    lemma_packed_after_bound(e7, t.8.encode(), O::SIZE as nat + P::SIZE as nat + Q::SIZE as nat + R::SIZE as nat + S::SIZE as nat + T::SIZE as nat + U::SIZE as nat + V::SIZE as nat, W::SIZE as nat);
    lemma_unpack_undoes_pack(e7, t.8.encode(), W::SIZE as nat);
    let e9 = packed_after(e8, t.9.encode(), X::SIZE as nat);
    lemma_packed_after_bound(e8, t.9.encode(), O::SIZE as nat + P::SIZE as nat + Q::SIZE as nat + R::SIZE as nat + S::SIZE as nat + T::SIZE as nat + U::SIZE as nat + V::SIZE as nat + W::SIZE as nat, X::SIZE as nat);
    lemma_unpack_undoes_pack(e8, t.9.encode(), X::SIZE as nat);
    let e10 = packed_after(e9, t.10.encode(), Y::SIZE as nat);
    lemma_packed_after_bound(e9, t.10.encode(), O::SIZE as nat + P::SIZE as nat + Q::SIZE as nat + R::SIZE as nat + S::SIZE as nat + T::SIZE as nat + U::SIZE as nat + V::SIZE as nat + W::SIZE as nat + X::SIZE as nat, Y::SIZE as nat);
    lemma_unpack_undoes_pack(e9, t.10.encode(), Y::SIZE as nat);
    let e11 = packed_after(e10, t.11.encode(), Z::SIZE as nat);
    lemma_packed_after_bound(e10, t.11.encode(), O::SIZE as nat + P::SIZE as nat + Q::SIZE as nat + R::SIZE as nat + S::SIZE as nat + T::SIZE as nat + U::SIZE as nat + V::SIZE as nat + W::SIZE as nat + X::SIZE as nat + Y::SIZE as nat, Z::SIZE as nat);
    lemma_unpack_undoes_pack(e10, t.11.encode(), Z::SIZE as nat);
    assert(<(O, P, Q, R, S, T, U, V, W, X, Y, Z) as Packable<B>>::SIZE as nat == O::SIZE as nat + P::SIZE as nat + Q::SIZE as nat + R::SIZE as nat + S::SIZE as nat + T::SIZE as nat + U::SIZE as nat + V::SIZE as nat + W::SIZE as nat + X::SIZE as nat + Y::SIZE as nat + Z::SIZE as nat);
    lemma_small_mod(e11, pow2(O::SIZE as nat + P::SIZE as nat + Q::SIZE as nat + R::SIZE as nat + S::SIZE as nat + T::SIZE as nat + U::SIZE as nat + V::SIZE as nat + W::SIZE as nat + X::SIZE as nat + Y::SIZE as nat + Z::SIZE as nat));
}

/// Packing a 12-tuple puts its components in declaration order, each above
/// all the components after it: component `k` is found, with its
/// packed bits, just above the sizes of the later components, the first
/// component highest and the last in the lowest bits.
pub proof fn lemma_tuple12_layout<B: Buffer, O: Packable<B>, P: Packable<B>, Q: Packable<B>, R: Packable<B>, S: Packable<B>, T: Packable<B>, U: Packable<B>, V: Packable<B>, W: Packable<B>, X: Packable<B>, Y: Packable<B>, Z: Packable<B>>(t: (O, P, Q, R, S, T, U, V, W, X, Y, Z))
    ensures
        <(O, P, Q, R, S, T, U, V, W, X, Y, Z) as Packable<B>>::encode(&t) < pow2(O::SIZE as nat + P::SIZE as nat + Q::SIZE as nat + R::SIZE as nat + S::SIZE as nat + T::SIZE as nat + U::SIZE as nat + V::SIZE as nat + W::SIZE as nat + X::SIZE as nat + Y::SIZE as nat + Z::SIZE as nat),
        (<(O, P, Q, R, S, T, U, V, W, X, Y, Z) as Packable<B>>::encode(&t) / pow2(Z::SIZE as nat + Y::SIZE as nat + X::SIZE as nat + W::SIZE as nat + V::SIZE as nat + U::SIZE as nat + T::SIZE as nat + S::SIZE as nat + R::SIZE as nat + Q::SIZE as nat + P::SIZE as nat)) % pow2(O::SIZE as nat) == low_bits(t.0.encode(), O::SIZE as nat),
        (<(O, P, Q, R, S, T, U, V, W, X, Y, Z) as Packable<B>>::encode(&t) / pow2(Z::SIZE as nat + Y::SIZE as nat + X::SIZE as nat + W::SIZE as nat + V::SIZE as nat + U::SIZE as nat + T::SIZE as nat + S::SIZE as nat + R::SIZE as nat + Q::SIZE as nat)) % pow2(P::SIZE as nat) == low_bits(t.1.encode(), P::SIZE as nat),
        (<(O, P, Q, R, S, T, U, V, W, X, Y, Z) as Packable<B>>::encode(&t) / pow2(Z::SIZE as nat + Y::SIZE as nat + X::SIZE as nat + W::SIZE as nat + V::SIZE as nat + U::SIZE as nat + T::SIZE as nat + S::SIZE as nat + R::SIZE as nat)) % pow2(Q::SIZE as nat) == low_bits(t.2.encode(), Q::SIZE as nat),
        (<(O, P, Q, R, S, T, U, V, W, X, Y, Z) as Packable<B>>::encode(&t) / pow2(Z::SIZE as nat + Y::SIZE as nat + X::SIZE as nat + W::SIZE as nat + V::SIZE as nat + U::SIZE as nat + T::SIZE as nat + S::SIZE as nat)) % pow2(R::SIZE as nat) == low_bits(t.3.encode(), R::SIZE as nat),
        (<(O, P, Q, R, S, T, U, V, W, X, Y, Z) as Packable<B>>::encode(&t) / pow2(Z::SIZE as nat + Y::SIZE as nat + X::SIZE as nat + W::SIZE as nat + V::SIZE as nat + U::SIZE as nat + T::SIZE as nat)) % pow2(S::SIZE as nat) == low_bits(t.4.encode(), S::SIZE as nat),
        (<(O, P, Q, R, S, T, U, V, W, X, Y, Z) as Packable<B>>::encode(&t) / pow2(Z::SIZE as nat + Y::SIZE as nat + X::SIZE as nat + W::SIZE as nat + V::SIZE as nat + U::SIZE as nat)) % pow2(T::SIZE as nat) == low_bits(t.5.encode(), T::SIZE as nat),
        (<(O, P, Q, R, S, T, U, V, W, X, Y, Z) as Packable<B>>::encode(&t) / pow2(Z::SIZE as nat + Y::SIZE as nat + X::SIZE as nat + W::SIZE as nat + V::SIZE as nat)) % pow2(U::SIZE as nat) == low_bits(t.6.encode(), U::SIZE as nat),
        (<(O, P, Q, R, S, T, U, V, W, X, Y, Z) as Packable<B>>::encode(&t) / pow2(Z::SIZE as nat + Y::SIZE as nat + X::SIZE as nat + W::SIZE as nat)) % pow2(V::SIZE as nat) == low_bits(t.7.encode(), V::SIZE as nat),
        (<(O, P, Q, R, S, T, U, V, W, X, Y, Z) as Packable<B>>::encode(&t) / pow2(Z::SIZE as nat + Y::SIZE as nat + X::SIZE as nat)) % pow2(W::SIZE as nat) == low_bits(t.8.encode(), W::SIZE as nat),
        (<(O, P, Q, R, S, T, U, V, W, X, Y, Z) as Packable<B>>::encode(&t) / pow2(Z::SIZE as nat + Y::SIZE as nat)) % pow2(X::SIZE as nat) == low_bits(t.9.encode(), X::SIZE as nat),
        (<(O, P, Q, R, S, T, U, V, W, X, Y, Z) as Packable<B>>::encode(&t) / pow2(Z::SIZE as nat)) % pow2(Y::SIZE as nat) == low_bits(t.10.encode(), Y::SIZE as nat),
        <(O, P, Q, R, S, T, U, V, W, X, Y, Z) as Packable<B>>::encode(&t) % pow2(Z::SIZE as nat) == low_bits(t.11.encode(), Z::SIZE as nat),
{
    lemma2_to64();
    let e0 = packed_after(0, t.0.encode(), O::SIZE as nat);
    lemma_packed_after_bound(0, t.0.encode(), 0, O::SIZE as nat);
    lemma_unpack_undoes_pack(0, t.0.encode(), O::SIZE as nat);
    let e1 = packed_after(e0, t.1.encode(), P::SIZE as nat);
    lemma_packed_after_bound(e0, t.1.encode(), O::SIZE as nat, P::SIZE as nat);
    lemma_unpack_undoes_pack(e0, t.1.encode(), P::SIZE as nat);
    let e2 = packed_after(e1, t.2.encode(), Q::SIZE as nat);
    lemma_packed_after_bound(e1, t.2.encode(), O::SIZE as nat + P::SIZE as nat, Q::SIZE as nat);
    lemma_unpack_undoes_pack(e1, t.2.encode(), Q::SIZE as nat);
    let e3 = packed_after(e2, t.3.encode(), R::SIZE as nat);
    lemma_packed_after_bound(e2, t.3.encode(), O::SIZE as nat + P::SIZE as nat + Q::SIZE as nat, R::SIZE as nat);
    lemma_unpack_undoes_pack(e2, t.3.encode(), R::SIZE as nat);
    let e4 = packed_after(e3, t.4.encode(), S::SIZE as nat);
    lemma_packed_after_bound(e3, t.4.encode(), O::SIZE as nat + P::SIZE as nat + Q::SIZE as nat + R::SIZE as nat, S::SIZE as nat);
    lemma_unpack_undoes_pack(e3, t.4.encode(), S::SIZE as nat);
    let e5 = packed_after(e4, t.5.encode(), T::SIZE as nat);
    lemma_packed_after_bound(e4, t.5.encode(), O::SIZE as nat + P::SIZE as nat + Q::SIZE as nat + R::SIZE as nat + S::SIZE as nat, T::SIZE as nat);
    lemma_unpack_undoes_pack(e4, t.5.encode(), T::SIZE as nat);
    let e6 = packed_after(e5, t.6.encode(), U::SIZE as nat);
    lemma_packed_after_bound(e5, t.6.encode(), O::SIZE as nat + P::SIZE as nat + Q::SIZE as nat + R::SIZE as nat + S::SIZE as nat + T::SIZE as nat, U::SIZE as nat);
    lemma_unpack_undoes_pack(e5, t.6.encode(), U::SIZE as nat);
    let e7 = packed_after(e6, t.7.encode(), V::SIZE as nat);
    lemma_packed_after_bound(e6, t.7.encode(), O::SIZE as nat + P::SIZE as nat + Q::SIZE as nat + R::SIZE as nat + S::SIZE as nat + T::SIZE as nat + U::SIZE as nat, V::SIZE as nat);
    lemma_unpack_undoes_pack(e6, t.7.encode(), V::SIZE as nat);
    let e8 = packed_after(e7, t.8.encode(), W::SIZE as nat);
    lemma_packed_after_bound(e7, t.8.encode(), O::SIZE as nat + P::SIZE as nat + Q::SIZE as nat + R::SIZE as nat + S::SIZE as nat + T::SIZE as nat + U::SIZE as nat + V::SIZE as nat, W::SIZE as nat);
    lemma_unpack_undoes_pack(e7, t.8.encode(), W::SIZE as nat);
    let e9 = packed_after(e8, t.9.encode(), X::SIZE as nat);
    lemma_packed_after_bound(e8, t.9.encode(), O::SIZE as nat + P::SIZE as nat + Q::SIZE as nat + R::SIZE as nat + S::SIZE as nat + T::SIZE as nat + U::SIZE as nat + V::SIZE as nat + W::SIZE as nat, X::SIZE as nat);
    lemma_unpack_undoes_pack(e8, t.9.encode(), X::SIZE as nat);
    let e10 = packed_after(e9, t.10.encode(), Y::SIZE as nat);
    lemma_packed_after_bound(e9, t.10.encode(), O::SIZE as nat + P::SIZE as nat + Q::SIZE as nat + R::SIZE as nat + S::SIZE as nat + T::SIZE as nat + U::SIZE as nat + V::SIZE as nat + W::SIZE as nat + X::SIZE as nat, Y::SIZE as nat);
    lemma_unpack_undoes_pack(e9, t.10.encode(), Y::SIZE as nat);
    let e11 = packed_after(e10, t.11.encode(), Z::SIZE as nat);
    lemma_packed_after_bound(e10, t.11.encode(), O::SIZE as nat + P::SIZE as nat + Q::SIZE as nat + R::SIZE as nat + S::SIZE as nat + T::SIZE as nat + U::SIZE as nat + V::SIZE as nat + W::SIZE as nat + X::SIZE as nat + Y::SIZE as nat, Z::SIZE as nat);
    lemma_unpack_undoes_pack(e10, t.11.encode(), Z::SIZE as nat);
    lemma_div_pow2_split(e11, Z::SIZE as nat, Y::SIZE as nat);
    lemma_div_pow2_split(e11, Z::SIZE as nat + Y::SIZE as nat, X::SIZE as nat);
    lemma_div_pow2_split(e11, Z::SIZE as nat + Y::SIZE as nat + X::SIZE as nat, W::SIZE as nat);
    lemma_div_pow2_split(e11, Z::SIZE as nat + Y::SIZE as nat + X::SIZE as nat + W::SIZE as nat, V::SIZE as nat);
    lemma_div_pow2_split(e11, Z::SIZE as nat + Y::SIZE as nat + X::SIZE as nat + W::SIZE as nat + V::SIZE as nat, U::SIZE as nat);
    lemma_div_pow2_split(e11, Z::SIZE as nat + Y::SIZE as nat + X::SIZE as nat + W::SIZE as nat + V::SIZE as nat + U::SIZE as nat, T::SIZE as nat);
    lemma_div_pow2_split(e11, Z::SIZE as nat + Y::SIZE as nat + X::SIZE as nat + W::SIZE as nat + V::SIZE as nat + U::SIZE as nat + T::SIZE as nat, S::SIZE as nat);
    lemma_div_pow2_split(e11, Z::SIZE as nat + Y::SIZE as nat + X::SIZE as nat + W::SIZE as nat + V::SIZE as nat + U::SIZE as nat + T::SIZE as nat + S::SIZE as nat, R::SIZE as nat);
    lemma_div_pow2_split(e11, Z::SIZE as nat + Y::SIZE as nat + X::SIZE as nat + W::SIZE as nat + V::SIZE as nat + U::SIZE as nat + T::SIZE as nat + S::SIZE as nat + R::SIZE as nat, Q::SIZE as nat);
    lemma_div_pow2_split(e11, Z::SIZE as nat + Y::SIZE as nat + X::SIZE as nat + W::SIZE as nat + V::SIZE as nat + U::SIZE as nat + T::SIZE as nat + S::SIZE as nat + R::SIZE as nat + Q::SIZE as nat, P::SIZE as nat);
}

/// Unpacking a 12-tuple reads its components back from the positions where
/// packing puts them: component `k` from the bits just above the sizes of
/// the later components, the last from the lowest bits.
pub proof fn lemma_tuple12_decode<B: Buffer, O: Packable<B>, P: Packable<B>, Q: Packable<B>, R: Packable<B>, S: Packable<B>, T: Packable<B>, U: Packable<B>, V: Packable<B>, W: Packable<B>, X: Packable<B>, Y: Packable<B>, Z: Packable<B>>(bits: nat)
    ensures
        <(O, P, Q, R, S, T, U, V, W, X, Y, Z) as Packable<B>>::decode(bits) == (O::decode((bits / pow2(Z::SIZE as nat + Y::SIZE as nat + X::SIZE as nat + W::SIZE as nat + V::SIZE as nat + U::SIZE as nat + T::SIZE as nat + S::SIZE as nat + R::SIZE as nat + Q::SIZE as nat + P::SIZE as nat)) % pow2(O::SIZE as nat)), P::decode((bits / pow2(Z::SIZE as nat + Y::SIZE as nat + X::SIZE as nat + W::SIZE as nat + V::SIZE as nat + U::SIZE as nat + T::SIZE as nat + S::SIZE as nat + R::SIZE as nat + Q::SIZE as nat)) % pow2(P::SIZE as nat)), Q::decode((bits / pow2(Z::SIZE as nat + Y::SIZE as nat + X::SIZE as nat + W::SIZE as nat + V::SIZE as nat + U::SIZE as nat + T::SIZE as nat + S::SIZE as nat + R::SIZE as nat)) % pow2(Q::SIZE as nat)), R::decode((bits / pow2(Z::SIZE as nat + Y::SIZE as nat + X::SIZE as nat + W::SIZE as nat + V::SIZE as nat + U::SIZE as nat + T::SIZE as nat + S::SIZE as nat)) % pow2(R::SIZE as nat)), S::decode((bits / pow2(Z::SIZE as nat + Y::SIZE as nat + X::SIZE as nat + W::SIZE as nat + V::SIZE as nat + U::SIZE as nat + T::SIZE as nat)) % pow2(S::SIZE as nat)), T::decode((bits / pow2(Z::SIZE as nat + Y::SIZE as nat + X::SIZE as nat + W::SIZE as nat + V::SIZE as nat + U::SIZE as nat)) % pow2(T::SIZE as nat)), U::decode((bits / pow2(Z::SIZE as nat + Y::SIZE as nat + X::SIZE as nat + W::SIZE as nat + V::SIZE as nat)) % pow2(U::SIZE as nat)), V::decode((bits / pow2(Z::SIZE as nat + Y::SIZE as nat + X::SIZE as nat + W::SIZE as nat)) % pow2(V::SIZE as nat)), W::decode((bits / pow2(Z::SIZE as nat + Y::SIZE as nat + X::SIZE as nat)) % pow2(W::SIZE as nat)), X::decode((bits / pow2(Z::SIZE as nat + Y::SIZE as nat)) % pow2(X::SIZE as nat)), Y::decode((bits / pow2(Z::SIZE as nat)) % pow2(Y::SIZE as nat)), Z::decode(bits % pow2(Z::SIZE as nat))),
{
    lemma_div_pow2_split(bits, Z::SIZE as nat, Y::SIZE as nat);
    lemma_div_pow2_split(bits, Z::SIZE as nat + Y::SIZE as nat, X::SIZE as nat);
    lemma_div_pow2_split(bits, Z::SIZE as nat + Y::SIZE as nat + X::SIZE as nat, W::SIZE as nat);
    lemma_div_pow2_split(bits, Z::SIZE as nat + Y::SIZE as nat + X::SIZE as nat + W::SIZE as nat, V::SIZE as nat);
    lemma_div_pow2_split(bits, Z::SIZE as nat + Y::SIZE as nat + X::SIZE as nat + W::SIZE as nat + V::SIZE as nat, U::SIZE as nat);
    lemma_div_pow2_split(bits, Z::SIZE as nat + Y::SIZE as nat + X::SIZE as nat + W::SIZE as nat + V::SIZE as nat + U::SIZE as nat, T::SIZE as nat);
    lemma_div_pow2_split(bits, Z::SIZE as nat + Y::SIZE as nat + X::SIZE as nat + W::SIZE as nat + V::SIZE as nat + U::SIZE as nat + T::SIZE as nat, S::SIZE as nat);
    lemma_div_pow2_split(bits, Z::SIZE as nat + Y::SIZE as nat + X::SIZE as nat + W::SIZE as nat + V::SIZE as nat + U::SIZE as nat + T::SIZE as nat + S::SIZE as nat, R::SIZE as nat);
    lemma_div_pow2_split(bits, Z::SIZE as nat + Y::SIZE as nat + X::SIZE as nat + W::SIZE as nat + V::SIZE as nat + U::SIZE as nat + T::SIZE as nat + S::SIZE as nat + R::SIZE as nat, Q::SIZE as nat);
    lemma_div_pow2_split(bits, Z::SIZE as nat + Y::SIZE as nat + X::SIZE as nat + W::SIZE as nat + V::SIZE as nat + U::SIZE as nat + T::SIZE as nat + S::SIZE as nat + R::SIZE as nat + Q::SIZE as nat, P::SIZE as nat);
}

} // verus!
