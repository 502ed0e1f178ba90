use crate::bitmath::{lemma_and_low_mask, lemma_or_disjoint};
use crate::buffer::Buffer;
use crate::layout::{
    field_widths, lemma_fields_round_trip, lemma_packed_after_bound, pack_fields, packed_after,
    total_width,
};
use crate::packable::Packable;
use crate::shared::mask;
use vstd::arithmetic::div_mod::{lemma_mod_bound, lemma_small_mod};
use vstd::arithmetic::mul::lemma_mul_strict_inequality;
use vstd::arithmetic::power2::*;
use vstd::prelude::*;

verus! {

/// Sequentially packs values into a single buffer.
///
/// Each [`pack`](Self::pack) call shifts the existing buffer left by the new
/// field's `SIZE` and inserts the new value into the freed lower bits, so the
/// first packed field ends up in the highest bits.
///
/// The packer is described by the fields packed so far, each a pair of the
/// value handed over and its width in bits: the buffer always holds exactly
/// [`pack_fields`] of them, and their widths never add up to more than
/// `B::BITS`.
pub struct Packer<B: Buffer> {
    buffer: B,
    fields: Ghost<Seq<(nat, nat)>>,
}

impl<B: Buffer> Packer<B> {
    /// The invariant of every packer: the packed widths add up to at most
    /// `B::BITS`, and the buffer holds exactly the packed fields. A caller
    /// learns it of any packer with `use_type_invariant`, and what it
    /// implies from [`Self::lemma_well_formed`].
    #[verifier::type_invariant]
    pub closed spec fn well_formed(self) -> bool {
        &&& total_width(field_widths(self.fields@)) <= B::BITS
        &&& self.buffer.value() == pack_fields(self.fields@)
    }

    /// A well-formed packer has packed at most `B::BITS` bits, holds the
    /// packed fields, and holds no set bit above them.
    pub proof fn lemma_well_formed(self)
        requires
            self.well_formed(),
        ensures
            self.bits_packed() <= B::BITS,
            self.packed_value() == pack_fields(self.packed_fields()),
            self.packed_value() < pow2(self.bits_packed()),
    {
        lemma_fields_round_trip(self.fields@);
    }

    /// The fields packed so far, in order: each value as handed over, and
    /// the number of its low bits that were kept.
    pub closed spec fn packed_fields(&self) -> Seq<(nat, nat)> {
        self.fields@
    }

    /// The buffer packed so far, as a natural number.
    pub closed spec fn packed_value(&self) -> nat {
        self.buffer.value()
    }

    /// The number of bits packed so far.
    pub open spec fn bits_packed(&self) -> nat {
        total_width(field_widths(self.packed_fields()))
    }

    /// Creates a new packer with a zeroed buffer.
    pub fn new() -> (r: Self)
        ensures
            r.packed_fields() == Seq::<(nat, nat)>::empty(),
            r.packed_value() == 0,
            r.bits_packed() == 0,
    {
        proof {
            B::lemma_buffer_facts(B::ZERO);
            assert(field_widths(Seq::<(nat, nat)>::empty()) =~= Seq::<nat>::empty());
        }
        Packer { buffer: B::ZERO, fields: Ghost(Seq::empty()) }
    }

    /// Packs `packable` into the buffer using its [`Packable`] implementation.
    pub fn pack<P: Packable<B>>(&mut self, packable: &P)
        requires
            P::well_sized(),
            P::SIZE < B::BITS,
            old(self).bits_packed() + P::SIZE <= B::BITS,
        ensures
            final(self).packed_fields() == old(self).packed_fields().push(
                (packable.encode(), P::SIZE as nat),
            ),
            final(self).bits_packed() == old(self).bits_packed() + P::SIZE,
            final(self).packed_value() == packed_after(
                old(self).packed_value(),
                packable.encode(),
                P::SIZE as nat,
            ),
            final(self).packed_value() == old(self).packed_value() * pow2(P::SIZE as nat)
                + packable.encode(),
            packable.encode() < pow2(P::SIZE as nat),
    {
        let packed = packable.pack();
        self.raw_pack(packed, P::SIZE);
        proof {
            lemma2_to64();
            lemma_small_mod(packed.value(), pow2(P::SIZE as nat));
        }
    }

    /// Packs the lower `size` bits of `packed` into the buffer.
    ///
    /// `size` must satisfy `size < B::BITS`, the bits packed in all must not
    /// exceed `B::BITS`, and `packed` must fit in `size` bits (a packing of
    /// zero bits takes any value and changes nothing).
    pub fn raw_pack(&mut self, packed: B, size: u32)
        requires
            size < B::BITS,
            old(self).bits_packed() + size <= B::BITS,
            size > 0 ==> packed.value() < pow2(size as nat),
        ensures
            final(self).packed_fields() == old(self).packed_fields().push(
                (packed.value(), size as nat),
            ),
            final(self).bits_packed() == old(self).bits_packed() + size,
            final(self).packed_value() == packed_after(
                old(self).packed_value(),
                packed.value(),
                size as nat,
            ),
            size > 0 ==> final(self).packed_value() == old(self).packed_value() * pow2(
                size as nat,
            ) + packed.value(),
    {
        proof {
            use_type_invariant(&*self);
            lemma_pow2_pos(size as nat);
        }
        let ghost fields = self.fields@;
        let ghost new_fields = fields.push((packed.value(), size as nat));
        proof {
            assert(new_fields.drop_last() =~= fields);
            assert(field_widths(new_fields).drop_last() =~= field_widths(fields));
            lemma_fields_round_trip(fields);
        }
        if size == 0 {
            proof {
                lemma2_to64();
                assert(pack_fields(new_fields) == packed_after(pack_fields(fields), packed.value(), 0));
                assert(packed.value() % pow2(0) == 0);
                assert(pack_fields(fields) * pow2(0) == pack_fields(fields));
            }
            self.fields = Ghost(new_fields);
            return;
        }
        let ghost bits = self.bits_packed();
        let ghost old_value = self.buffer.value();
        let mask = mask::<B>(size);
        let low = packed.and_with(mask);
        proof {
            lemma_and_low_mask(packed.value(), size as nat);
            lemma_pow2_adds(bits, size as nat);
            lemma_mul_strict_inequality(old_value as int, pow2(bits) as int, pow2(size as nat) as int);
            if bits + size < B::BITS {
                lemma_pow2_strictly_increases(bits + size as nat, B::BITS as nat);
            }
            lemma_mod_bound(packed.value() as int, pow2(size as nat) as int);
            lemma_small_mod(old_value * pow2(size as nat), pow2(B::BITS as nat));
            lemma_small_mod(packed.value(), pow2(size as nat));
        }
        let high = self.buffer.shift_left(size);
        let buffer = low.or_with(high);
        proof {
            lemma_or_disjoint(low.value(), old_value, size as nat);
            lemma_packed_after_bound(old_value, packed.value(), bits, size as nat);
        }
        *self = Packer { buffer, fields: Ghost(new_fields) };
    }

    /// Consumes the packer and returns the underlying buffer.
    pub fn into_inner(self) -> (r: B)
        ensures
            r.value() == self.packed_value(),
            r.value() == pack_fields(self.packed_fields()),
            r.value() < pow2(self.bits_packed()),
    {
        proof {
            use_type_invariant(&self);
            lemma_fields_round_trip(self.fields@);
        }
        self.buffer
    }
}

} // verus!
