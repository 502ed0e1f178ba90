use crate::bitmath::lemma_and_low_mask;
use crate::buffer::Buffer;
use crate::packable::Packable;
use crate::shared::mask;
use vstd::arithmetic::div_mod::lemma_div_denominator;
use vstd::arithmetic::power2::*;
use vstd::prelude::*;

verus! {

/// Sequentially unpacks values from a buffer.
///
/// Each [`unpack`](Self::unpack) call extracts the lower `SIZE` bits of the
/// buffer and shifts the remaining bits down, so values are extracted in
/// reverse order of how they were packed.
///
/// The unpacker is described by the buffer it started from and the number of
/// bits read so far: what remains is the starting buffer shifted down by
/// that many bits.
pub struct Unpacker<B: Buffer> {
    buffer: B,
    initial: Ghost<nat>,
    bits_read: Ghost<nat>,
}

impl<B: Buffer> Unpacker<B> {
    /// The invariant of every unpacker: what remains is the starting buffer
    /// shifted down by the bits read. A caller learns it of any unpacker with
    /// `use_type_invariant`, and what it says from
    /// [`Self::lemma_well_formed`].
    #[verifier::type_invariant]
    pub closed spec fn well_formed(self) -> bool {
        self.buffer.value() == self.initial@ / pow2(self.bits_read@)
    }

    /// In a well-formed unpacker, what remains is the starting buffer
    /// shifted down by the bits read.
    pub proof fn lemma_well_formed(self)
        requires
            self.well_formed(),
        ensures
            self.remaining() == self.initial() / pow2(self.bits_read()),
    {
    }

    /// The bits not yet unpacked, as a natural number.
    pub closed spec fn remaining(&self) -> nat {
        self.buffer.value()
    }

    /// The buffer the unpacker started from.
    pub closed spec fn initial(&self) -> nat {
        self.initial@
    }

    /// The number of bits read so far.
    pub closed spec fn bits_read(&self) -> nat {
        self.bits_read@
    }

    /// Creates a new unpacker over `buffer`.
    pub fn new(buffer: B) -> (r: Self)
        ensures
            r.remaining() == buffer.value(),
            r.initial() == buffer.value(),
            r.bits_read() == 0,
    {
        proof {
            lemma2_to64();
            assert(buffer.value() / pow2(0) == buffer.value());
        }
        Unpacker { buffer, initial: Ghost(buffer.value()), bits_read: Ghost(0) }
    }

    /// Extracts a value from the buffer using its [`Packable`] implementation.
    pub fn unpack<P: Packable<B>>(&mut self) -> (r: P)
        requires
            P::well_sized(),
            P::SIZE < B::BITS,
        ensures
            r == P::decode(old(self).remaining() % pow2(P::SIZE as nat)),
            final(self).remaining() == old(self).remaining() / pow2(P::SIZE as nat),
            final(self).initial() == old(self).initial(),
            final(self).bits_read() == old(self).bits_read() + P::SIZE,
            final(self).remaining() == final(self).initial() / pow2(final(self).bits_read()),
    {
        let bits = self.raw_unpack(P::SIZE);
        P::unpack(bits)
    }

    /// Extracts the lower `size` bits of the buffer and advances past them.
    ///
    /// `size` must satisfy `size < B::BITS`.
    pub fn raw_unpack(&mut self, size: u32) -> (r: B)
        requires
            size < B::BITS,
        ensures
            r.value() == old(self).remaining() % pow2(size as nat),
            final(self).remaining() == old(self).remaining() / pow2(size as nat),
            final(self).initial() == old(self).initial(),
            final(self).bits_read() == old(self).bits_read() + size,
            final(self).remaining() == final(self).initial() / pow2(final(self).bits_read()),
    {
        proof {
            use_type_invariant(&*self);
            B::lemma_buffer_facts(B::ZERO);
            lemma2_to64();
            let read = self.bits_read@;
            lemma_pow2_pos(read);
            lemma_pow2_pos(size as nat);
            lemma_pow2_adds(read, size as nat);
            lemma_div_denominator(self.initial@ as int, pow2(read) as int, pow2(size as nat) as int);
        }
        let ghost read = self.bits_read@ + size as nat;
        if size == 0 {
            self.bits_read = Ghost(read);
            return B::ZERO;
        }
        let packed = self.buffer.and_with(mask::<B>(size));
        proof {
            lemma_and_low_mask(self.buffer.value(), size as nat);
        }
        let rest = self.buffer.shift_right(size);
        *self = Unpacker { buffer: rest, initial: self.initial, bits_read: Ghost(read) };
        packed
    }

    /// Consumes the unpacker and returns the remaining buffer state.
    pub fn into_inner(self) -> (r: B)
        ensures
            r.value() == self.remaining(),
            r.value() == self.initial() / pow2(self.bits_read()),
    {
        proof {
            use_type_invariant(&self);
        }
        self.buffer
    }
}

} // verus!
