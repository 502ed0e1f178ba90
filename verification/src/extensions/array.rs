//! [`Packable`](crate::Packable) for arrays: the elements are packed in
//! order, the first in the highest bits.
use crate::buffer::Buffer;
use crate::layout::{
    lemma_div_pow2_split, lemma_packed_after_bound, lemma_unpack_undoes_pack, low_bits, packed_after,
};
use crate::packable::{round_trips, Packable};
use crate::packer::Packer;
use crate::unpacker::Unpacker;
use vstd::arithmetic::div_mod::lemma_small_mod;
use vstd::arithmetic::mul::*;
use vstd::arithmetic::power2::*;
use vstd::prelude::*;

verus! {

/// The bits of `items` packed one after another, each in
/// `T::SIZE` bits, the first in the highest bits.
pub open spec fn encode_items<B: Buffer, T: Packable<B>>(items: Seq<T>) -> nat
    decreases items.len(),
{
    if items.len() == 0 {
        0
    } else {
        packed_after(
            encode_items::<B, T>(items.drop_last()),
            items.last().encode(),
            T::SIZE as nat,
        )
    }
}

/// The `n` values read back from `bits`, each from `T::SIZE` bits;
/// the value in the lowest bits comes last.
pub open spec fn decode_items<B: Buffer, T: Packable<B>>(bits: nat, n: nat) -> Seq<T>
    decreases n,
{
    if n == 0 {
        seq![]
    } else {
        decode_items::<B, T>(bits / pow2(T::SIZE as nat), (n - 1) as nat).push(
            T::decode(bits % pow2(T::SIZE as nat)),
        )
    }
}

/// Turns a vector of exactly `N` elements into an array of them, in order.
///
/// Calls `<[T; N] as TryFrom<Vec<T>>>::try_from`, which succeeds when the
/// lengths match and hands the elements over in order.
#[verifier::external_body]
fn vec_into_array<T, const N: usize>(items: Vec<T>) -> (r: [T; N])
    requires
        items@.len() == N,
    ensures
        r@ == items@,
{
    <[T; N]>::try_from(items).ok().unwrap()
}

/// Unpacks `n` values of type `T`; the first unpacked, from the lowest
/// bits, comes last.
fn unpack_items<B: Buffer, T: Packable<B>>(unpacker: &mut Unpacker<B>, n: usize) -> (r: Vec<T>)
    requires
        n == 0 || (T::well_sized() && T::SIZE < B::BITS),
    ensures
        r@ == decode_items::<B, T>(old(unpacker).remaining(), n as nat),
        r@.len() == n,
    decreases n,
{
    if n == 0 {
        Vec::new()
    } else {
        let item = unpacker.unpack::<T>();
        let mut rest = unpack_items(unpacker, n - 1);
        rest.push(item);
        rest
    }
}

/// The size of an array type is its element size times its length, when
/// that product fits in a `u32`.
pub proof fn lemma_array_size<B: Buffer, T: Packable<B>, const N: usize>()
    requires
        T::SIZE * N <= u32::MAX,
    ensures
        <[T; N] as Packable<B>>::SIZE == T::SIZE * N,
{
    assert(<[T; N] as Packable<B>>::SIZE == (T::SIZE * (N as u32)) as u32);
    if N == 0 {
        assert(N as u32 == 0);
        lemma_mul_by_zero_is_zero(T::SIZE as int);
    } else if T::SIZE == 0 {
        lemma_mul_by_zero_is_zero(N as int);
        lemma_mul_is_commutative(0, N as int);
        lemma_mul_is_commutative(0, (N as u32) as int);
    } else {
        lemma_mul_increases(T::SIZE as int, N as int);
        lemma_mul_is_commutative(T::SIZE as int, N as int);
        assert(N as u32 == N);
    }
}

impl<B: Buffer, T: Packable<B>, const N: usize> Packable<B> for [T; N] {
    const SIZE: u32 = T::SIZE * N as u32;

    open spec fn well_sized() -> bool {
        N == 0 || (T::well_sized() && T::SIZE < B::BITS && T::SIZE * N <= B::BITS)
    }

    open spec fn encode(&self) -> nat {
        encode_items::<B, T>(self@)
    }

    open spec fn decode(bits: nat) -> [T; N] {
        choose|a: [T; N]| a@ == decode_items::<B, T>(bits, N as nat)
    }

    fn pack(&self) -> (r: B) {
        proof {
            B::lemma_buffer_facts(B::ZERO);
            if N == 0 {
                lemma_mul_by_zero_is_zero(T::SIZE as int);
            }
            lemma_array_size::<B, T, N>();
        }
        let mut packer = Packer::<B>::new();
        let mut i: usize = 0;
        while i < N
            invariant
                0 <= i <= N,
                Self::well_sized(),
                packer.bits_packed() == T::SIZE * i,
                packer.packed_value() == encode_items::<B, T>(self@.take(i as int)),
            decreases N - i,
        {
            proof {
                lemma_mul_inequality(i + 1, N as int, T::SIZE as int);
                lemma_mul_is_commutative(i + 1, T::SIZE as int);
                lemma_mul_is_distributive_add(T::SIZE as int, i as int, 1);
                assert(self@.take(i + 1).drop_last() =~= self@.take(i as int));
            }
            packer.pack(&self[i]);
            i += 1;
        }
        assert(self@.take(N as int) =~= self@);
        packer.into_inner()
    }

    fn unpack(buffer: B) -> (r: [T; N])
        ensures
            r@ == decode_items::<B, T>(buffer.value(), N as nat),
    {
        let mut unpacker = Unpacker::<B>::new(buffer);
        let items = unpack_items::<B, T>(&mut unpacker, N);
        let r = vec_into_array::<T, N>(items);
        proof {
            let s = decode_items::<B, T>(buffer.value(), N as nat);
            assert(r@ == s);
            let c = choose|a: [T; N]| a@ == s;
            assert(c =~= r);
        }
        r
    }
}

/// Packed items fit in their total width, and reading them back gives each
/// item that comes back from its own packed bits.
proof fn lemma_items_round_trip<B: Buffer, T: Packable<B>>(items: Seq<T>)
    requires
        forall|i: int| 0 <= i < items.len() ==> round_trips::<B, T>(#[trigger] items[i]),
    ensures
        encode_items::<B, T>(items) < pow2(T::SIZE as nat * items.len()),
        decode_items::<B, T>(encode_items::<B, T>(items), items.len()) == items,
    decreases items.len(),
{
    let w = T::SIZE as nat;
    if items.len() == 0 {
        lemma2_to64();
        assert(decode_items::<B, T>(0, 0) =~= items);
    } else {
        let init = items.drop_last();
        let last = items.last();
        assert forall|i: int| 0 <= i < init.len() implies round_trips::<B, T>(#[trigger] init[i]) by {
            assert(init[i] == items[i]);
        }
        lemma_items_round_trip::<B, T>(init);
        let e = encode_items::<B, T>(init);
        lemma_unpack_undoes_pack(e, last.encode(), w);
        lemma_packed_after_bound(e, last.encode(), w * init.len(), w);
        lemma_mul_is_distributive_add(w as int, init.len() as int, 1);
        assert(round_trips::<B, T>(items[items.len() - 1]));
        assert(decode_items::<B, T>(encode_items::<B, T>(items), items.len()) =~= items);
    }
}

/// An array comes back from its packed bits when each element does.
pub proof fn lemma_array_round_trips<B: Buffer, T: Packable<B>, const N: usize>(a: [T; N])
    requires
        T::SIZE * N <= u32::MAX,
        forall|i: int| 0 <= i < N ==> round_trips::<B, T>(#[trigger] a[i]),
    ensures
        round_trips::<B, [T; N]>(a),
{
    lemma_array_size::<B, T, N>();
    lemma_items_round_trip::<B, T>(a@);
    lemma_mul_is_commutative(T::SIZE as int, N as int);
    lemma_small_mod(encode_items::<B, T>(a@), pow2(T::SIZE as nat * N as nat));
    let c = choose|b: [T; N]| b@ == decode_items::<B, T>(encode_items::<B, T>(a@), N as nat);
    assert(c =~= a);
}

/// Packed items fit in `T::SIZE` bits each, and item `i` sits just above the
/// items after it: the first item highest, the last in the lowest bits.
pub proof fn lemma_items_layout<B: Buffer, T: Packable<B>>(items: Seq<T>, i: int)
    requires
        0 <= i < items.len(),
    ensures
        encode_items::<B, T>(items) < pow2(T::SIZE as nat * items.len()),
        (encode_items::<B, T>(items) / pow2(T::SIZE as nat * (items.len() - 1 - i) as nat)) % pow2(
            T::SIZE as nat,
        ) == low_bits(items[i].encode(), T::SIZE as nat),
    decreases items.len(),
{
    let w = T::SIZE as nat;
    let n = items.len();
    let init = items.drop_last();
    let e = encode_items::<B, T>(init);
    let last = items.last();
    lemma_unpack_undoes_pack(e, last.encode(), w);
    lemma_mul_is_distributive_add(w as int, (n - 1) as int, 1);
    if n == 1 {
        lemma2_to64();
        lemma_mul_basics(w as int);
        assert(e == 0);
        lemma_packed_after_bound(e, last.encode(), 0, w);
    } else {
        let j = if i < n - 1 {
            i
        } else {
            0
        };
        lemma_items_layout::<B, T>(init, j);
        lemma_packed_after_bound(e, last.encode(), w * (n - 1) as nat, w);
    }
    if i == n - 1 {
        lemma2_to64();
        lemma_mul_basics(w as int);
        assert(encode_items::<B, T>(items) / pow2(0) == encode_items::<B, T>(items));
    } else {
        lemma_items_layout::<B, T>(init, i);
        lemma_mul_is_distributive_add(w as int, 1, (n - 2 - i) as int);
        assert(w * (n - 1 - i) as nat == w + w * (n - 2 - i) as nat);
        lemma_div_pow2_split(encode_items::<B, T>(items), w, w * (n - 2 - i) as nat);
        assert(init[i] == items[i]);
    }
}

/// The items read back from `bits` are `n` in number, and item `i` is the
/// value unpacked from the `T::SIZE` bits just above the items after it.
pub proof fn lemma_decode_items_layout<B: Buffer, T: Packable<B>>(bits: nat, n: nat, i: int)
    requires
        0 <= i < n,
    ensures
        decode_items::<B, T>(bits, n).len() == n,
        decode_items::<B, T>(bits, n)[i] == T::decode(
            (bits / pow2(T::SIZE as nat * (n - 1 - i) as nat)) % pow2(T::SIZE as nat),
        ),
    decreases n,
{
    let w = T::SIZE as nat;
    lemma_pow2_pos(w);
    let rest = decode_items::<B, T>(bits / pow2(w), (n - 1) as nat);
    if n > 1 {
        let j = if i < n - 1 {
            i
        } else {
            0
        };
        lemma_decode_items_layout::<B, T>(bits / pow2(w), (n - 1) as nat, j);
    } else {
        assert(rest =~= Seq::<T>::empty());
    }
    assert(rest.len() == n - 1);
    if i == n - 1 {
        lemma2_to64();
        lemma_mul_basics(w as int);
        assert(bits / pow2(0) == bits);
    } else {
        lemma_mul_is_distributive_add(w as int, 1, (n - 2 - i) as int);
        assert(w * (n - 1 - i) as nat == w + w * (n - 2 - i) as nat);
        lemma_div_pow2_split(bits, w, w * (n - 2 - i) as nat);
    }
}

/// Packing an array puts its elements in order, each above the elements
/// after it: element `i` is found, with its packed bits, `T::SIZE` bits for
/// each later element up; the first element is highest.
pub proof fn lemma_array_layout<B: Buffer, T: Packable<B>, const N: usize>(a: [T; N])
    ensures
        <[T; N] as Packable<B>>::encode(&a) < pow2(T::SIZE as nat * N as nat),
        forall|i: int|
            0 <= i < N ==> (<[T; N] as Packable<B>>::encode(&a) / pow2(
                T::SIZE as nat * (N - 1 - i) as nat,
            )) % pow2(T::SIZE as nat) == low_bits(#[trigger] a[i].encode(), T::SIZE as nat),
{
    if N == 0 {
        lemma2_to64();
        lemma_mul_by_zero_is_zero(T::SIZE as int);
        assert(encode_items::<B, T>(a@) == 0);
    } else {
        lemma_items_layout::<B, T>(a@, 0);
    }
    assert forall|i: int| 0 <= i < N implies (<[T; N] as Packable<B>>::encode(&a) / pow2(
        T::SIZE as nat * (N - 1 - i) as nat,
    )) % pow2(T::SIZE as nat) == low_bits(#[trigger] a[i].encode(), T::SIZE as nat) by {
        lemma_items_layout::<B, T>(a@, i);
    }
}

/// Unpacking an array reads element `i` from the `T::SIZE` bits just above
/// the later elements: the first element from the highest bits, the last
/// from the lowest.
pub proof fn lemma_array_decode<B: Buffer, T: Packable<B>, const N: usize>(bits: nat)
    ensures
        decode_items::<B, T>(bits, N as nat).len() == N,
        forall|i: int|
            0 <= i < N ==> #[trigger] decode_items::<B, T>(bits, N as nat)[i] == T::decode(
                (bits / pow2(T::SIZE as nat * (N - 1 - i) as nat)) % pow2(T::SIZE as nat),
            ),
{
    if N == 0 {
        assert(decode_items::<B, T>(bits, 0).len() == 0);
    } else {
        lemma_decode_items_layout::<B, T>(bits, N as nat, 0);
    }
    assert forall|i: int| 0 <= i < N implies #[trigger] decode_items::<B, T>(bits, N as nat)[i]
        == T::decode((bits / pow2(T::SIZE as nat * (N - 1 - i) as nat)) % pow2(T::SIZE as nat)) by {
        lemma_decode_items_layout::<B, T>(bits, N as nat, i);
    }
}

} // verus!
