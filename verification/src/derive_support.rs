//! The decisions that the `#[packable]` attribute macro makes about a type
//! before it writes any code: which items it accepts, in what order fields
//! are packed and unpacked, how wide each field is, how many bits an enum's
//! variant index takes and which index each variant gets, and which type
//! parameters are bound. What is left to the macro is writing the code.
use crate::layout::{
    field_bits, field_widths, lemma_fields_round_trip, lemma_packed_after_bound,
    lemma_unpack_undoes_pack, pack_fields, packed_after, total_width, unpack_fields,
};
use vstd::arithmetic::power2::*;
use vstd::prelude::*;

verus! {

/// The number of bits an enum with `variant_count` variants uses for its
/// variant index: the least `k` with `variant_count <= 2^k`.
///
/// `None` for an enum without variants, for which no packing is derived.
pub fn variant_index_bits(variant_count: usize) -> (r: Option<u32>)
    ensures
        r is None <==> variant_count == 0,
        r matches Some(k) ==> variant_count <= pow2(k as nat),
        r matches Some(k) ==> k == 0 || pow2((k - 1) as nat) < variant_count,
{
    if variant_count == 0 {
        return None;
    }
    let ghost top = (variant_count - 1) as nat;
    let mut rest: usize = variant_count - 1;
    let mut k: u32 = 0;
    proof {
        lemma2_to64();
        lemma2_to64_rest();
    }
    while rest > 0
        invariant
            top == variant_count - 1,
            rest == top / pow2(k as nat),
            k <= 64,
            k > 0 ==> pow2((k - 1) as nat) <= top,
            top < pow2(64),
        decreases rest,
    {
        proof {
            let p = pow2(k as nat);
            lemma_pow2_pos(k as nat);
            vstd::arithmetic::div_mod::lemma_fundamental_div_mod(top as int, p as int);
            vstd::arithmetic::div_mod::lemma_mod_bound(top as int, p as int);
            vstd::arithmetic::mul::lemma_mul_increases(rest as int, p as int);
            vstd::arithmetic::mul::lemma_mul_is_commutative(rest as int, p as int);
            assert(p <= top);
            if k >= 64 {
                if k > 64 {
                    lemma_pow2_strictly_increases(64, k as nat);
                }
            }
            lemma_pow2_unfold((k + 1) as nat);
            vstd::arithmetic::div_mod::lemma_div_denominator(top as int, p as int, 2);
        }
        rest = rest / 2;
        k = k + 1;
    }
    proof {
        let p = pow2(k as nat);
        lemma_pow2_pos(k as nat);
        vstd::arithmetic::div_mod::lemma_fundamental_div_mod(top as int, p as int);
        vstd::arithmetic::div_mod::lemma_mod_bound(top as int, p as int);
        vstd::arithmetic::mul::lemma_mul_by_zero_is_zero(p as int);
        assert(top < p);
    }
    Some(k)
}

/// An attribute on a field, as far as `#[packable]` is concerned.
#[derive(Clone, Copy, Debug, PartialEq, Eq)]
pub enum FieldAttr {
    /// An attribute other than `#[bits(..)]`.
    Other,
    /// A `#[bits(..)]` attribute: its argument as a `u32`, or `None` where
    /// the argument is not an integer literal that fits in a `u32`.
    Bits(Option<u32>),
}

/// Why a field's `#[bits(..)]` attributes give it no width; each variant
/// holds the position of the offending attribute.
#[derive(Clone, Copy, Debug, PartialEq, Eq)]
pub enum BitsAttrError {
    /// A second `#[bits(..)]` attribute on the same field.
    Duplicate(usize),
    /// A `#[bits(..)]` attribute whose argument is not a `u32` literal.
    Unparsable(usize),
    /// A `#[bits(0)]` attribute.
    Zero(usize),
}

/// The number of `#[bits(..)]` attributes among `attrs`.
pub open spec fn bits_attr_count(attrs: Seq<FieldAttr>) -> nat
    decreases attrs.len(),
{
    if attrs.len() == 0 {
        0
    } else {
        bits_attr_count(attrs.drop_last()) + if attrs.last() is Bits {
            1nat
        } else {
            0nat
        }
    }
}

proof fn lemma_bits_count_prefix(attrs: Seq<FieldAttr>, n: int)
    requires
        0 <= n <= attrs.len(),
    ensures
        bits_attr_count(attrs.take(n)) <= bits_attr_count(attrs),
    decreases attrs.len(),
{
    if n < attrs.len() {
        let init = attrs.drop_last();
        lemma_bits_count_prefix(init, n);
        assert(init.take(n) =~= attrs.take(n));
    } else {
        assert(attrs.take(n) =~= attrs);
    }
}

/// A `#[bits(N)]` attribute with a usable width `N > 0`.
pub open spec fn is_valid_bits(attr: FieldAttr) -> bool {
    attr matches FieldAttr::Bits(Some(n)) && n > 0
}

/// The explicit bit width that a field's attributes give it.
///
/// `Ok(None)` where no attribute is `#[bits(..)]`; `Ok(Some(n))` where
/// exactly one is, and it is `#[bits(n)]` with `n > 0`. Otherwise the error
/// names the first attribute that is wrong, reading in order: the first
/// `#[bits(..)]` with an argument that is not a `u32` or is `0`, else the
/// second `#[bits(..)]`.
pub fn bits_width(attrs: &Vec<FieldAttr>) -> (r: Result<Option<u32>, BitsAttrError>)
    ensures
        r matches Ok(None) <==> bits_attr_count(attrs@) == 0,
        r matches Ok(Some(n)) ==> n > 0 && bits_attr_count(attrs@) == 1 && exists|i: int|
            0 <= i < attrs@.len() && attrs@[i] == FieldAttr::Bits(Some(n)),
        r matches Err(BitsAttrError::Unparsable(i)) ==> i < attrs@.len() && attrs@[i as int]
            == FieldAttr::Bits(None) && bits_attr_count(attrs@.take(i as int)) == 0,
        r matches Err(BitsAttrError::Zero(i)) ==> i < attrs@.len() && attrs@[i as int]
            == FieldAttr::Bits(Some(0)) && bits_attr_count(attrs@.take(i as int)) == 0,
        r matches Err(BitsAttrError::Duplicate(j)) ==> j < attrs@.len() && attrs@[j as int] is Bits
            && bits_attr_count(attrs@.take(j as int)) == 1 && forall|i: int|
            0 <= i < j && #[trigger] attrs@[i] is Bits ==> is_valid_bits(attrs@[i]),
{
    let mut result: Option<u32> = None;
    let mut i: usize = 0;
    while i < attrs.len()
        invariant
            0 <= i <= attrs@.len(),
            bits_attr_count(attrs@.take(i as int)) == if result is Some {
                1nat
            } else {
                0nat
            },
            result matches Some(n) ==> n > 0 && exists|k: int|
                0 <= k < i && attrs@[k] == FieldAttr::Bits(Some(n)),
            forall|k: int| 0 <= k < i && #[trigger] attrs@[k] is Bits ==> is_valid_bits(attrs@[k]),
        decreases attrs@.len() - i,
    {
        proof {
            assert(attrs@.take(i + 1).drop_last() =~= attrs@.take(i as int));
            lemma_bits_count_prefix(attrs@, i + 1);
        }
        match attrs[i] {
            FieldAttr::Other => {},
            FieldAttr::Bits(arg) => {
                if result.is_some() {
                    return Err(BitsAttrError::Duplicate(i));
                }
                match arg {
                    None => {
                        return Err(BitsAttrError::Unparsable(i));
                    },
                    Some(n) => {
                        if n == 0 {
                            return Err(BitsAttrError::Zero(i));
                        }
                        result = Some(n);
                    },
                }
            },
        }
        i += 1;
    }
    proof {
        assert(attrs@.take(i as int) =~= attrs@);
    }
    Ok(result)
}

/// How many bits a field takes.
#[derive(Clone, Copy, Debug, PartialEq, Eq)]
pub enum FieldWidth {
    /// An explicit width from `#[bits(N)]`: the field is cast to the buffer
    /// type and packed with `raw_pack`, and read back with `raw_unpack` and a
    /// cast.
    Fixed(u32),
    /// The `SIZE` of the type of the field at this position, which is packed
    /// and unpacked through its `Packable` implementation.
    OfType(usize),
}

/// How the fields of a struct or of an enum variant are packed.
#[derive(Debug, PartialEq, Eq)]
pub struct FieldsPlan {
    /// The positions of the fields in the order they are packed.
    pub pack_order: Vec<usize>,
    /// The positions of the fields in the order they are unpacked.
    pub unpack_order: Vec<usize>,
    /// The width of each field, by position; the size is their sum.
    pub widths: Vec<FieldWidth>,
}

/// How one variant of an enum is packed.
#[derive(Debug, PartialEq, Eq)]
pub struct VariantPlan {
    /// The variant index, packed in the lowest bits below the payload.
    pub index: u32,
    /// How the variant's fields, its payload, are packed.
    pub fields: FieldsPlan,
}

/// How an enum is packed: the payload of its variant, then the variant
/// index in the lowest `index_bits` bits. The size is `index_bits` plus the
/// largest payload size.
#[derive(Debug, PartialEq, Eq)]
pub struct EnumPlan {
    /// The number of bits of the variant index.
    pub index_bits: u32,
    /// The plan of each variant, in declaration order.
    pub variants: Vec<VariantPlan>,
}

/// The shape of an item given to `#[packable]`, with the `#[bits(..)]`
/// width (if any) of each field, already read by [`bits_width`].
pub enum ItemKind {
    /// A struct without fields (`struct Foo;`).
    UnitStruct,
    /// A struct with named or unnamed fields.
    Struct(Vec<Option<u32>>),
    /// An enum, with the fields of each variant.
    Enum(Vec<Vec<Option<u32>>>),
    /// A union.
    Union,
}

/// The layout that `#[packable]` gives an item.
pub enum ItemLayout {
    /// A unit struct: size `0`, packs to `ZERO`, unpacks to itself.
    Unit,
    /// A struct with fields.
    Fields(FieldsPlan),
    /// An enum with at least one variant.
    Enum(EnumPlan),
}

/// What `#[packable]` writes for an item.
pub struct ItemPlan {
    /// The layout of the item.
    pub layout: ItemLayout,
    /// The positions of the type parameters that receive a `Packable<B>`
    /// bound.
    pub bounded_type_params: Vec<usize>,
}

/// `#[packable]` is given something other than a struct or an enum.
#[derive(Clone, Copy, Debug, PartialEq, Eq)]
pub struct NotStructOrEnum;

/// The width of field `i`: its `#[bits(N)]` width, or its type's size.
pub open spec fn field_width_of(bits: Seq<Option<u32>>, i: int) -> FieldWidth {
    match bits[i] {
        Some(n) => FieldWidth::Fixed(n),
        None => FieldWidth::OfType(i as usize),
    }
}

/// The positions `0, 1, ..., n - 1`.
pub open spec fn positions(n: nat) -> Seq<usize> {
    Seq::new(n, |i: int| i as usize)
}

/// `plan` packs fields with these `#[bits(..)]` widths in declaration order,
/// the first in the highest bits, and unpacks them in reverse order.
pub open spec fn is_fields_plan(plan: FieldsPlan, bits: Seq<Option<u32>>) -> bool {
    &&& plan.pack_order@ == positions(bits.len())
    &&& plan.unpack_order@ == plan.pack_order@.reverse()
    &&& plan.widths@ == Seq::new(bits.len(), |i: int| field_width_of(bits, i))
}

/// `plan` packs an enum whose variants have fields with these `#[bits(..)]`
/// widths: the index takes the fewest bits that number every variant, and
/// variant `i` has index `i` and the fields plan of its fields.
pub open spec fn is_enum_plan(plan: EnumPlan, variants: Seq<Vec<Option<u32>>>) -> bool {
    &&& variants.len() <= pow2(plan.index_bits as nat)
    &&& plan.index_bits == 0 || pow2((plan.index_bits - 1) as nat) < variants.len()
    &&& plan.variants@.len() == variants.len()
    &&& forall|i: int|
        0 <= i < variants.len() ==> {
            &&& (#[trigger] plan.variants@[i]).index == i as u32
            &&& plan.variants@[i].index < pow2(plan.index_bits as nat)
            &&& is_fields_plan(plan.variants@[i].fields, variants[i]@)
        }
}

/// The fields plan for fields with these `#[bits(..)]` widths: packed in
/// declaration order, unpacked in reverse order, each field as wide as its
/// `#[bits(N)]` or else its type's size.
pub fn fields_plan(bits: &Vec<Option<u32>>) -> (r: FieldsPlan)
    ensures
        is_fields_plan(r, bits@),
{
    let n = bits.len();
    let mut pack_order: Vec<usize> = Vec::new();
    let mut widths: Vec<FieldWidth> = Vec::new();
    let mut i: usize = 0;
    while i < n
        invariant
            n == bits@.len(),
            0 <= i <= n,
            pack_order@ == positions(i as nat),
            widths@ == Seq::new(i as nat, |k: int| field_width_of(bits@, k)),
        decreases n - i,
    {
        pack_order.push(i);
        let width = match bits[i] {
            Some(w) => FieldWidth::Fixed(w),
            None => FieldWidth::OfType(i),
        };
        widths.push(width);
        proof {
            assert(pack_order@ =~= positions((i + 1) as nat));
            assert(widths@ =~= Seq::new((i + 1) as nat, |k: int| field_width_of(bits@, k)));
        }
        i += 1;
    }
    let mut unpack_order: Vec<usize> = Vec::new();
    let mut j: usize = n;
    while j > 0
        invariant
            n == pack_order@.len(),
            pack_order@ == positions(n as nat),
            j <= n,
            unpack_order@ == pack_order@.reverse().take((n - j) as int),
        decreases j,
    {
        j -= 1;
        unpack_order.push(j);
        proof {
            assert(unpack_order@ =~= pack_order@.reverse().take((n - j) as int));
        }
    }
    proof {
        assert(pack_order@.reverse().take(n as int) =~= pack_order@.reverse());
    }
    FieldsPlan { pack_order, unpack_order, widths }
}

/// The enum plan for variants with these fields, or `None` for an enum
/// without variants, which `#[packable]` leaves without an implementation.
pub fn enum_plan(variants: &Vec<Vec<Option<u32>>>) -> (r: Option<EnumPlan>)
    ensures
        r is None <==> variants@.len() == 0,
        r matches Some(plan) ==> is_enum_plan(plan, variants@),
{
    let index_bits = match variant_index_bits(variants.len()) {
        None => return None,
        Some(k) => k,
    };
    let mut plans: Vec<VariantPlan> = Vec::new();
    let mut i: usize = 0;
    while i < variants.len()
        invariant
            0 <= i <= variants@.len(),
            variants@.len() <= pow2(index_bits as nat),
            plans@.len() == i,
            forall|k: int|
                0 <= k < i ==> {
                    &&& (#[trigger] plans@[k]).index == k as u32
                    &&& plans@[k].index < pow2(index_bits as nat)
                    &&& is_fields_plan(plans@[k].fields, variants@[k]@)
                },
        decreases variants@.len() - i,
    {
        let index = i as u32;
        assert(index <= i);
        let fields = fields_plan(&variants[i]);
        plans.push(VariantPlan { index, fields });
        i += 1;
    }
    Some(EnumPlan { index_bits, variants: plans })
}

/// The plan for an item given to `#[packable]`: a union is refused, an
/// enum without variants is left as it is (`None`), and otherwise the item
/// gets its layout, with every type parameter bound by `Packable<B>`.
pub fn item_plan(kind: &ItemKind, type_params: usize) -> (r: Result<Option<ItemPlan>, NotStructOrEnum>)
    ensures
        r is Err <==> kind is Union,
        kind is UnitStruct ==> (r matches Ok(Some(plan)) && plan.layout is Unit),
        kind matches ItemKind::Struct(bits) ==> (r matches Ok(Some(plan))
            && plan.layout matches ItemLayout::Fields(fields) && is_fields_plan(fields, bits@)),
        kind matches ItemKind::Enum(variants) ==> (r matches Ok(None) <==> variants@.len() == 0),
        kind matches ItemKind::Enum(variants) ==> (variants@.len() > 0 ==> (r matches Ok(Some(plan))
            && plan.layout matches ItemLayout::Enum(e) && is_enum_plan(e, variants@))),
        r matches Ok(Some(plan)) ==> plan.bounded_type_params@ == positions(type_params as nat),
{
    let layout = match kind {
        ItemKind::Union => {
            return Err(NotStructOrEnum);
        },
        ItemKind::UnitStruct => ItemLayout::Unit,
        ItemKind::Struct(bits) => ItemLayout::Fields(fields_plan(bits)),
        ItemKind::Enum(variants) => match enum_plan(variants) {
            None => {
                return Ok(None);
            },
            Some(plan) => ItemLayout::Enum(plan),
        },
    };
    let mut bounded_type_params: Vec<usize> = Vec::new();
    let mut i: usize = 0;
    while i < type_params
        invariant
            0 <= i <= type_params,
            bounded_type_params@ == positions(i as nat),
        decreases type_params - i,
    {
        bounded_type_params.push(i);
        proof {
            assert(bounded_type_params@ =~= positions((i + 1) as nat));
        }
        i += 1;
    }
    Ok(Some(ItemPlan { layout, bounded_type_params }))
}

/// The bits of an enum value: its variant's payload fields packed, then the
/// variant index in the lowest `index_bits` bits.
pub open spec fn variant_encoding(index: nat, index_bits: nat, payload: Seq<(nat, nat)>) -> nat {
    packed_after(pack_fields(payload), index, index_bits)
}

/// The total width of a payload.
pub open spec fn payload_width(payload: Seq<(nat, nat)>) -> nat {
    total_width(field_widths(payload))
}

/// The largest of the widths (`0` for none).
pub open spec fn max_width(widths: Seq<nat>) -> nat
    decreases widths.len(),
{
    if widths.len() == 0 {
        0
    } else {
        let m = max_width(widths.drop_last());
        if widths.last() > m {
            widths.last()
        } else {
            m
        }
    }
}

/// The size of an enum: the index width plus the largest payload width.
pub open spec fn enum_size(index_bits: nat, payload_widths: Seq<nat>) -> nat {
    index_bits + max_width(payload_widths)
}

/// An enum value's variant index sits in the lowest `index_bits` bits, and
/// above it the payload fields read back as packed; the value fits in the
/// index width plus the payload width.
pub proof fn lemma_variant_round_trip(index: nat, index_bits: nat, payload: Seq<(nat, nat)>)
    requires
        index < pow2(index_bits),
    ensures
        variant_encoding(index, index_bits, payload) % pow2(index_bits) == index,
        unpack_fields(variant_encoding(index, index_bits, payload) / pow2(index_bits), field_widths(payload))
            == field_bits(payload),
        variant_encoding(index, index_bits, payload) < pow2(payload_width(payload) + index_bits),
{
    lemma_fields_round_trip(payload);
    lemma_unpack_undoes_pack(pack_fields(payload), index, index_bits);
    vstd::arithmetic::div_mod::lemma_small_mod(index, pow2(index_bits));
    lemma_packed_after_bound(pack_fields(payload), index, payload_width(payload), index_bits);
}

proof fn lemma_max_width_bound(widths: Seq<nat>, i: int)
    requires
        0 <= i < widths.len(),
    ensures
        widths[i] <= max_width(widths),
    decreases widths.len(),
{
    if i < widths.len() - 1 {
        lemma_max_width_bound(widths.drop_last(), i);
    }
}

/// Every variant of an enum fits in the enum's size: the index width plus
/// the largest payload width.
pub proof fn lemma_variant_fits_enum(
    index: nat,
    index_bits: nat,
    payloads: Seq<Seq<(nat, nat)>>,
    i: int,
)
    requires
        0 <= i < payloads.len(),
        index < pow2(index_bits),
    ensures
        variant_encoding(index, index_bits, payloads[i]) < pow2(
            enum_size(index_bits, Seq::new(payloads.len(), |j: int| payload_width(payloads[j]))),
        ),
{
    let widths = Seq::new(payloads.len(), |j: int| payload_width(payloads[j]));
    lemma_variant_round_trip(index, index_bits, payloads[i]);
    lemma_max_width_bound(widths, i);
    let w = payload_width(payloads[i]) + index_bits;
    if w < enum_size(index_bits, widths) {
        lemma_pow2_strictly_increases(w, enum_size(index_bits, widths));
    }
}

} // verus!
