use bitcram::derive_support::{bits_width, variant_index_bits, BitsAttrError, FieldAttr};

#[test]
fn no_variants_get_no_index() {
    assert_eq!(variant_index_bits(0), None);
}

#[test]
fn one_variant_needs_no_index_bits() {
    assert_eq!(variant_index_bits(1), Some(0));
}

#[test]
fn index_bits_are_the_ceiling_of_log2() {
    assert_eq!(variant_index_bits(2), Some(1));
    assert_eq!(variant_index_bits(3), Some(2));
    assert_eq!(variant_index_bits(4), Some(2));
    assert_eq!(variant_index_bits(5), Some(3));
    assert_eq!(variant_index_bits(6), Some(3));
    assert_eq!(variant_index_bits(8), Some(3));
    assert_eq!(variant_index_bits(9), Some(4));
    assert_eq!(variant_index_bits(256), Some(8));
    assert_eq!(variant_index_bits(257), Some(9));
    assert_eq!(variant_index_bits(usize::MAX), Some(usize::BITS));
}

#[test]
fn no_bits_attribute_gives_no_width() {
    assert_eq!(bits_width(&vec![]), Ok(None));
    assert_eq!(bits_width(&vec![FieldAttr::Other, FieldAttr::Other]), Ok(None));
}

#[test]
fn one_bits_attribute_gives_its_width() {
    assert_eq!(
        bits_width(&vec![FieldAttr::Other, FieldAttr::Bits(Some(5)), FieldAttr::Other]),
        Ok(Some(5))
    );
}

#[test]
fn second_bits_attribute_is_a_duplicate() {
    assert_eq!(
        bits_width(&vec![FieldAttr::Bits(Some(5)), FieldAttr::Other, FieldAttr::Bits(Some(6))]),
        Err(BitsAttrError::Duplicate(2))
    );
    assert_eq!(
        bits_width(&vec![FieldAttr::Bits(Some(5)), FieldAttr::Bits(None)]),
        Err(BitsAttrError::Duplicate(1))
    );
}

#[test]
fn zero_bits_is_refused() {
    assert_eq!(
        bits_width(&vec![FieldAttr::Other, FieldAttr::Bits(Some(0)), FieldAttr::Bits(Some(3))]),
        Err(BitsAttrError::Zero(1))
    );
}

#[test]
fn unparsable_bits_is_refused() {
    assert_eq!(
        bits_width(&vec![FieldAttr::Bits(None), FieldAttr::Bits(Some(3))]),
        Err(BitsAttrError::Unparsable(0))
    );
}

use bitcram::derive_support::{
    enum_plan, fields_plan, item_plan, EnumPlan, FieldWidth, FieldsPlan, ItemKind, ItemLayout,
    NotStructOrEnum, VariantPlan,
};

#[test]
fn fields_are_packed_in_order_and_unpacked_in_reverse() {
    let plan = fields_plan(&vec![Some(5), None, Some(3)]);
    assert_eq!(
        plan,
        FieldsPlan {
            pack_order: vec![0, 1, 2],
            unpack_order: vec![2, 1, 0],
            widths: vec![FieldWidth::Fixed(5), FieldWidth::OfType(1), FieldWidth::Fixed(3)],
        }
    );
}

#[test]
fn no_fields_give_an_empty_plan() {
    let plan = fields_plan(&vec![]);
    assert!(plan.pack_order.is_empty() && plan.unpack_order.is_empty() && plan.widths.is_empty());
}

#[test]
fn enum_plan_numbers_the_variants() {
    // The shape of `MixedEnum`: a unit variant, an empty tuple variant, a
    // tuple variant and a named variant.
    let plan = enum_plan(&vec![vec![], vec![], vec![None, None], vec![None, None]]).unwrap();
    assert_eq!(plan.index_bits, 2);
    let indices: Vec<u32> = plan.variants.iter().map(|v| v.index).collect();
    assert_eq!(indices, vec![0, 1, 2, 3]);
    assert_eq!(plan.variants[2].fields.unpack_order, vec![1, 0]);
    assert_eq!(plan.variants[3].fields.widths, vec![FieldWidth::OfType(0), FieldWidth::OfType(1)]);
}

#[test]
fn single_variant_enum_has_no_index_bits() {
    assert_eq!(
        enum_plan(&vec![vec![]]),
        Some(EnumPlan {
            index_bits: 0,
            variants: vec![VariantPlan {
                index: 0,
                fields: FieldsPlan { pack_order: vec![], unpack_order: vec![], widths: vec![] },
            }],
        })
    );
}

#[test]
fn empty_enum_has_no_plan() {
    assert_eq!(enum_plan(&vec![]), None);
    assert!(matches!(item_plan(&ItemKind::Enum(vec![]), 1), Ok(None)));
}

#[test]
fn union_is_refused() {
    assert!(matches!(item_plan(&ItemKind::Union, 0), Err(NotStructOrEnum)));
}

#[test]
fn unit_struct_has_the_unit_layout() {
    let plan = item_plan(&ItemKind::UnitStruct, 0).unwrap().unwrap();
    assert!(matches!(plan.layout, ItemLayout::Unit));
    assert!(plan.bounded_type_params.is_empty());
}

#[test]
fn every_type_parameter_is_bound() {
    let plan = item_plan(&ItemKind::Struct(vec![None, None]), 3).unwrap().unwrap();
    assert_eq!(plan.bounded_type_params, vec![0, 1, 2]);
    match plan.layout {
        ItemLayout::Fields(fields) => assert_eq!(fields.pack_order, vec![0, 1]),
        _ => panic!("a struct with fields gets a fields layout"),
    }
}

#[test]
fn bits_enum_plan() {
    // The shape of `BitsEnum`: `Empty`, `Value(#[bits(8)] u8)`,
    // `Pair { #[bits(4)] a: u8, b: bool }`.
    let plan = item_plan(&ItemKind::Enum(vec![vec![], vec![Some(8)], vec![Some(4), None]]), 0)
        .unwrap()
        .unwrap();
    match plan.layout {
        ItemLayout::Enum(e) => {
            assert_eq!(e.index_bits, 2);
            assert_eq!(e.variants[1].fields.widths, vec![FieldWidth::Fixed(8)]);
            assert_eq!(
                e.variants[2].fields.widths,
                vec![FieldWidth::Fixed(4), FieldWidth::OfType(1)]
            );
        }
        _ => panic!("an enum with variants gets an enum layout"),
    }
}
