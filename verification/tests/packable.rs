use bitcram::{Packable, Packer, Unpacker};

#[derive(Debug, PartialEq, Eq, Clone, Copy)]
struct U3(u8);

impl Packable<u128> for U3 {
    const SIZE: u32 = 3;
    fn pack(&self) -> u128 {
        self.0 as u128
    }
    fn unpack(buffer: u128) -> Self {
        Self(buffer as u8)
    }
}

#[derive(Debug, PartialEq, Eq, Clone, Copy)]
struct U64v(u64);

impl Packable<u128> for U64v {
    const SIZE: u32 = 64;
    fn pack(&self) -> u128 {
        self.0 as u128
    }
    fn unpack(buffer: u128) -> Self {
        Self(buffer as u64)
    }
}

#[derive(Debug, PartialEq, Eq, Clone, Copy)]
struct Nibble(u8);

impl Packable<u8> for Nibble {
    const SIZE: u32 = 4;
    fn pack(&self) -> u8 {
        self.0
    }
    fn unpack(buffer: u8) -> Self {
        Self(buffer)
    }
}

/// Two nibbles that fill a `u8` exactly, packed the way `#[packable(u8)]`
/// packs a struct with fields `hi` and `lo`.
#[derive(Debug, PartialEq, Eq)]
struct FullU8 {
    hi: Nibble,
    lo: Nibble,
}

impl Packable<u8> for FullU8 {
    const SIZE: u32 = 0 + <Nibble as Packable<u8>>::SIZE + <Nibble as Packable<u8>>::SIZE;
    fn pack(&self) -> u8 {
        let mut packer = Packer::<u8>::new();
        let Self { hi, lo } = self;
        packer.pack(hi);
        packer.pack(lo);
        packer.into_inner()
    }
    fn unpack(buffer: u8) -> Self {
        let mut unpacker = Unpacker::<u8>::new(buffer);
        let lo: Nibble = unpacker.unpack();
        let hi: Nibble = unpacker.unpack();
        Self { hi, lo }
    }
}

#[test]
fn bool_packs_to_one_bit() {
    assert_eq!(<bool as Packable<u8>>::SIZE, 1);
    assert_eq!(<bool as Packable<u8>>::pack(&true), 1);
    assert_eq!(<bool as Packable<u32>>::pack(&false), 0);
    assert!(<bool as Packable<u16>>::unpack(1));
    assert!(!<bool as Packable<u16>>::unpack(0));
}

#[test]
fn option_takes_one_extra_bit() {
    assert_eq!(<Option<U3> as Packable<u128>>::SIZE, 4);
    assert_eq!(Some(U3(5)).pack(), 0b1011);
    assert_eq!(<Option<U3> as Packable<u128>>::pack(&None), 0);
    assert_eq!(<Option<U3> as Packable<u128>>::unpack(0b1011), Some(U3(5)));
    assert_eq!(<Option<U3> as Packable<u128>>::unpack(0b1010), None);
}

#[test]
fn option_round_trips() {
    for v in [None, Some(U3(0)), Some(U3(7))] {
        let packed: u128 = v.pack();
        assert_eq!(<Option<U3> as Packable<u128>>::unpack(packed), v);
    }
}

#[test]
fn nested_option_round_trips() {
    for v in [None, Some(None), Some(Some(true)), Some(Some(false))] {
        let packed: u8 = v.pack();
        assert_eq!(<Option<Option<bool>> as Packable<u8>>::unpack(packed), v);
    }
    assert_eq!(<Option<Option<bool>> as Packable<u8>>::SIZE, 3);
}

#[test]
fn tuple_packs_first_component_highest() {
    let t = (U3(1), U3(2), U3(3));
    assert_eq!(<(U3, U3, U3) as Packable<u128>>::SIZE, 9);
    assert_eq!(t.pack(), 0b001_010_011);
    assert_eq!(<(U3, U3, U3) as Packable<u128>>::unpack(0b001_010_011), t);
}

#[test]
fn tuple_of_one_round_trips() {
    let packed: u128 = (U64v(u64::MAX),).pack();
    assert_eq!(packed, u64::MAX as u128);
    assert_eq!(<(U64v,) as Packable<u128>>::unpack(packed), (U64v(u64::MAX),));
}

#[test]
fn twelve_tuple_round_trips() {
    let t = (
        true, false, true, true, false, false, true, false, true, true, true, false,
    );
    let packed: u16 = t.pack();
    assert_eq!(packed, 0b1011_0010_1110);
    assert_eq!(
        <(bool, bool, bool, bool, bool, bool, bool, bool, bool, bool, bool, bool) as Packable<
            u16,
        >>::unpack(packed),
        t
    );
}

#[test]
fn mixed_tuple_round_trips() {
    let t = (U64v(0xdead_beef), Some(U3(6)), true);
    let packed: u128 = t.pack();
    assert_eq!(<(U64v, Option<U3>, bool) as Packable<u128>>::SIZE, 69);
    assert_eq!(<(U64v, Option<U3>, bool) as Packable<u128>>::unpack(packed), t);
}

#[test]
fn array_packs_in_order() {
    let a = [U3(1), U3(2), U3(3), U3(4)];
    assert_eq!(<[U3; 4] as Packable<u128>>::SIZE, 12);
    assert_eq!(a.pack(), 0b001_010_011_100);
    assert_eq!(<[U3; 4] as Packable<u128>>::unpack(0b001_010_011_100), a);
}

#[test]
fn empty_array_packs_to_nothing() {
    let a: [U3; 0] = [];
    assert_eq!(<[U3; 0] as Packable<u128>>::SIZE, 0);
    assert_eq!(a.pack(), 0);
    assert_eq!(<[U3; 0] as Packable<u128>>::unpack(0), a);
}

#[test]
fn array_of_options_round_trips() {
    let a = [Some(true), None, Some(false)];
    let packed: u8 = a.pack();
    assert_eq!(packed, 0b11_00_01);
    assert_eq!(<[Option<bool>; 3] as Packable<u8>>::unpack(packed), a);
}

#[test]
fn full_u8_fills_the_buffer() {
    let v = FullU8 { hi: Nibble(0xa), lo: Nibble(0x5) };
    assert_eq!(<FullU8 as Packable<u8>>::SIZE, 8);
    assert_eq!(v.pack(), 0xa5);
    assert_eq!(FullU8::unpack(0xa5), v);
}

#[test]
fn packer_pack_uses_packable() {
    let mut packer = Packer::<u128>::new();
    packer.pack(&U3(5));
    packer.pack(&true);
    packer.pack(&Some(U3(2)));
    let packed = packer.into_inner();
    assert_eq!(packed, 0b101_1_0101);
    let mut unpacker = Unpacker::<u128>::new(packed);
    assert_eq!(unpacker.unpack::<Option<U3>>(), Some(U3(2)));
    assert!(unpacker.unpack::<bool>());
    assert_eq!(unpacker.unpack::<U3>(), U3(5));
    assert_eq!(unpacker.into_inner(), 0);
}
