//! The arithmetic layout of a packed buffer: each field shifts the earlier
//! ones up and takes the lowest bits, so the first field ends up highest.
use vstd::arithmetic::div_mod::*;
use vstd::arithmetic::mul::*;
use vstd::arithmetic::power2::*;
use vstd::prelude::*;

verus! {

/// The buffer after packing the lowest `size` bits of `packed` onto `buffer`.
pub open spec fn packed_after(buffer: nat, packed: nat, size: nat) -> nat {
    buffer * pow2(size) + packed % pow2(size)
}

/// Reading the lowest `size` bits of a buffer that `packed_after` produced
/// gives back the packed bits, and what is above them is the earlier buffer.
pub proof fn lemma_unpack_undoes_pack(buffer: nat, packed: nat, size: nat)
    ensures
        packed_after(buffer, packed, size) % pow2(size) == packed % pow2(size),
        packed_after(buffer, packed, size) / pow2(size) == buffer,
{
    lemma_pow2_pos(size);
    lemma_mod_bound(packed as int, pow2(size) as int);
    lemma_mul_is_commutative(buffer as int, pow2(size) as int);
    lemma_fundamental_div_mod_converse(
        packed_after(buffer, packed, size) as int,
        pow2(size) as int,
        buffer as int,
        (packed % pow2(size)) as int,
    );
}

/// Packing a field of width zero leaves the buffer as it was, and reading
/// zero bits gives zero and leaves the buffer as it was.
pub proof fn lemma_zero_width(buffer: nat, packed: nat)
    ensures
        packed_after(buffer, packed, 0) == buffer,
        buffer % pow2(0) == 0,
        buffer / pow2(0) == buffer,
{
    lemma2_to64();
}

/// A buffer below `2^bits` stays below `2^(bits + size)` after packing.
pub proof fn lemma_packed_after_bound(buffer: nat, packed: nat, bits: nat, size: nat)
    requires
        buffer < pow2(bits),
    ensures
        packed_after(buffer, packed, size) < pow2(bits + size),
{
    lemma_pow2_pos(size);
    lemma_mod_bound(packed as int, pow2(size) as int);
    lemma_pow2_adds(bits, size);
    lemma_mul_inequality((buffer + 1) as int, pow2(bits) as int, pow2(size) as int);
    lemma_mul_is_distributive_add_other_way(pow2(size) as int, buffer as int, 1);
}

/// The buffer after packing each `(bits, width)` field in turn onto an
/// empty buffer.
pub open spec fn pack_fields(fields: Seq<(nat, nat)>) -> nat
    decreases fields.len(),
{
    if fields.len() == 0 {
        0
    } else {
        packed_after(pack_fields(fields.drop_last()), fields.last().0, fields.last().1)
    }
}

/// The widths of the fields, in order.
pub open spec fn field_widths(fields: Seq<(nat, nat)>) -> Seq<nat> {
    Seq::new(fields.len(), |i: int| fields[i].1)
}

/// The lowest `width` bits of `v`.
pub open spec fn low_bits(v: nat, width: nat) -> nat {
    v % pow2(width)
}

/// The bits of each field that packing keeps: its lowest `width` bits.
pub open spec fn field_bits(fields: Seq<(nat, nat)>) -> Seq<nat> {
    Seq::new(fields.len(), |i: int| low_bits(fields[i].0, fields[i].1))
}

/// The sum of the widths.
pub open spec fn total_width(widths: Seq<nat>) -> nat
    decreases widths.len(),
{
    if widths.len() == 0 {
        0
    } else {
        total_width(widths.drop_last()) + widths.last()
    }
}

/// The fields read back from `buffer`, last field from the lowest bits
/// first, returned in packing order.
pub open spec fn unpack_fields(buffer: nat, widths: Seq<nat>) -> Seq<nat>
    decreases widths.len(),
{
    if widths.len() == 0 {
        seq![]
    } else {
        unpack_fields(buffer / pow2(widths.last()), widths.drop_last()).push(
            buffer % pow2(widths.last()),
        )
    }
}

/// Packing a sequence of fields and then unpacking with the same widths in
/// reverse order gives back each field's lowest `width` bits, and the packed
/// buffer fits in the total width.
pub proof fn lemma_fields_round_trip(fields: Seq<(nat, nat)>)
    ensures
        pack_fields(fields) < pow2(total_width(field_widths(fields))),
        unpack_fields(pack_fields(fields), field_widths(fields)) == field_bits(fields),
    decreases fields.len(),
{
    if fields.len() == 0 {
        lemma2_to64();
        assert(field_bits(fields) =~= Seq::<nat>::empty());
    } else {
        let rest = fields.drop_last();
        let (v, s) = fields.last();
        lemma_fields_round_trip(rest);
        assert(field_widths(fields).drop_last() =~= field_widths(rest));
        assert(field_widths(fields).last() == s);
        lemma_unpack_undoes_pack(pack_fields(rest), v, s);
        lemma_packed_after_bound(pack_fields(rest), v, total_width(field_widths(rest)), s);
        let expected = field_bits(rest).push(low_bits(v, s));
        assert(rest.len() + 1 == fields.len());
        assert(expected.len() == fields.len());
        assert forall|i: int| 0 <= i < fields.len() implies field_bits(fields)[i] == expected[i] by {
            if i < rest.len() {
                assert(rest[i] == fields[i]);
            }
        }
        assert(field_bits(fields) =~= expected);
    }
}

/// Dividing by `2^(a + b)` is dividing by `2^a`, then by `2^b`.
pub proof fn lemma_div_pow2_split(x: nat, a: nat, b: nat)
    ensures
        x / pow2(a + b) == (x / pow2(a)) / pow2(b),
{
    lemma_pow2_pos(a);
    lemma_pow2_pos(b);
    lemma_pow2_adds(a, b);
    lemma_div_denominator(x as int, pow2(a) as int, pow2(b) as int);
}

/// The total width of the fields after position `j`.
pub open spec fn widths_after(fields: Seq<(nat, nat)>, j: int) -> nat {
    total_width(field_widths(fields.subrange(j + 1, fields.len() as int)))
}

/// In a buffer packed from `fields`, field `j` sits just above the fields
/// packed after it: shifting those out and keeping its width gives back its
/// low bits, and shifting it out as well leaves the buffer packed from the
/// fields before it (nothing, once the first field is read).
pub proof fn lemma_read_field(fields: Seq<(nat, nat)>, j: int)
    requires
        0 <= j < fields.len(),
    ensures
        (pack_fields(fields) / pow2(widths_after(fields, j))) % pow2(fields[j].1) == low_bits(
            fields[j].0,
            fields[j].1,
        ),
        pack_fields(fields) / pow2(widths_after(fields, j) + fields[j].1) == pack_fields(
            fields.take(j),
        ),
    decreases fields.len(),
{
    let n = fields.len() as int;
    let init = fields.drop_last();
    let (v, w) = fields.last();
    let b = pack_fields(fields);
    lemma_unpack_undoes_pack(pack_fields(init), v, w);
    assert(fields.take(n - 1) =~= init);
    if j == n - 1 {
        assert(field_widths(fields.subrange(j + 1, n)) =~= Seq::<nat>::empty());
        lemma2_to64();
        assert(b / pow2(0) == b);
    } else {
        lemma_read_field(init, j);
        let after = widths_after(init, j);
        let sub = fields.subrange(j + 1, n);
        assert(field_widths(sub).drop_last() =~= field_widths(init.subrange(j + 1, n - 1)));
        assert(field_widths(sub).last() == w);
        assert(widths_after(fields, j) == after + w);
        lemma_div_pow2_split(b, w, after);
        lemma_div_pow2_split(b, w, after + fields[j].1);
        assert(init[j] == fields[j]);
        assert(init.take(j) =~= fields.take(j));
    }
}

/// Reading at least as many bits as a buffer has leaves nothing.
pub proof fn lemma_read_past_width(buffer: nat, bits: nat, read: nat)
    requires
        buffer < pow2(bits),
        bits <= read,
    ensures
        buffer / pow2(read) == 0,
{
    if bits < read {
        lemma_pow2_strictly_increases(bits, read);
    }
    lemma_pow2_pos(read);
    lemma_basic_div(buffer as int, pow2(read) as int);
}

/// Dropping the last field takes its width off the width after each earlier
/// field.
proof fn lemma_widths_after_last(fields: Seq<(nat, nat)>, i: int)
    requires
        0 <= i < fields.len() - 1,
    ensures
        widths_after(fields, i) == widths_after(fields.drop_last(), i) + fields.last().1,
        fields.drop_last()[i] == fields[i],
{
    let n = fields.len() as int;
    let sub = fields.subrange(i + 1, n);
    assert(field_widths(sub).drop_last() =~= field_widths(fields.drop_last().subrange(i + 1, n - 1)));
    assert(field_widths(sub).last() == fields.last().1);
}

/// The part that field `i` contributes to a packed buffer: its kept bits,
/// moved up past the widths of the fields packed after it.
pub open spec fn field_term(fields: Seq<(nat, nat)>, i: int) -> nat {
    low_bits(fields[i].0, fields[i].1) * pow2(widths_after(fields, i))
}

/// The sum of the parts of the first `n` fields.
pub open spec fn sum_terms(fields: Seq<(nat, nat)>, n: nat) -> nat
    decreases n,
{
    if n == 0 {
        0
    } else {
        sum_terms(fields, (n - 1) as nat) + field_term(fields, n - 1)
    }
}

proof fn lemma_sum_terms_drop_last(fields: Seq<(nat, nat)>, n: nat)
    requires
        n < fields.len(),
    ensures
        sum_terms(fields, n) == sum_terms(fields.drop_last(), n) * pow2(fields.last().1),
    decreases n,
{
    let w = fields.last().1;
    if n == 0 {
        lemma_mul_by_zero_is_zero(pow2(w) as int);
        lemma_mul_is_commutative(0, pow2(w) as int);
    } else {
        let init = fields.drop_last();
        let i = n - 1;
        lemma_sum_terms_drop_last(fields, (n - 1) as nat);
        lemma_widths_after_last(fields, i);
        let low = low_bits(fields[i].0, fields[i].1);
        lemma_pow2_adds(widths_after(init, i), w);
        lemma_mul_is_associative(low as int, pow2(widths_after(init, i)) as int, pow2(w) as int);
        lemma_mul_is_distributive_add_other_way(
            pow2(w) as int,
            sum_terms(init, (n - 1) as nat) as int,
            field_term(init, i) as int,
        );
    }
}

/// A packed buffer is the sum, over the fields, of each field's kept bits
/// times two to the power of the widths packed after it: the first field
/// occupies the highest bits, the last the lowest.
pub proof fn lemma_pack_fields_is_sum(fields: Seq<(nat, nat)>)
    ensures
        pack_fields(fields) == sum_terms(fields, fields.len()),
    decreases fields.len(),
{
    if fields.len() > 0 {
        let n = fields.len() as int;
        let init = fields.drop_last();
        lemma_pack_fields_is_sum(init);
        lemma_sum_terms_drop_last(fields, (n - 1) as nat);
        assert(field_widths(fields.subrange(n, n)) =~= Seq::<nat>::empty());
        lemma2_to64();
        assert(widths_after(fields, n - 1) == 0);
        assert(pow2(widths_after(fields, n - 1)) == 1);
        assert(fields[n - 1] == fields.last());
        lemma_mul_basics(low_bits(fields.last().0, fields.last().1) as int);
        assert(field_term(fields, n - 1) == low_bits(fields.last().0, fields.last().1));
    }
}

} // verus!
