//! Types of the shapes the original test suite derives, with `Packable`
//! written out as `#[packable]` writes it from the library's plans.
use bitcram::{Packable, Packer, Unpacker};

#[derive(Debug, PartialEq, Eq, Clone, Copy)]
pub struct U3(pub u8);

impl Packable<u128> for U3 {
    const SIZE: u32 = 3;
    fn pack(&self) -> u128 {
        self.0 as u128
    }
    fn unpack(buffer: u128) -> Self {
        Self(buffer as u8)
    }
}

/// `#[packable(u128)] struct UnitStruct;`
#[derive(Debug, PartialEq, Eq)]
pub struct UnitStruct;

impl Packable<u128> for UnitStruct {
    const SIZE: u32 = 0;
    fn pack(&self) -> u128 {
        <u128 as bitcram::Buffer>::ZERO
    }
    fn unpack(_buffer: u128) -> Self {
        Self
    }
}

/// `#[packable(u128)] struct TupleStruct(U3, U3, UnitStruct);`
#[derive(Debug, PartialEq, Eq)]
pub struct TupleStruct(pub U3, pub U3, pub UnitStruct);

impl Packable<u128> for TupleStruct {
    const SIZE: u32 = 0
        + <U3 as Packable<u128>>::SIZE
        + <U3 as Packable<u128>>::SIZE
        + <UnitStruct as Packable<u128>>::SIZE;
    fn pack(&self) -> u128 {
        let mut packer = Packer::<u128>::new();
        let Self(f0, f1, f2) = self;
        packer.pack(f0);
        packer.pack(f1);
        packer.pack(f2);
        packer.into_inner()
    }
    fn unpack(buffer: u128) -> Self {
        let mut unpacker = Unpacker::<u128>::new(buffer);
        let f2: UnitStruct = unpacker.unpack();
        let f1: U3 = unpacker.unpack();
        let f0: U3 = unpacker.unpack();
        Self(f0, f1, f2)
    }
}

/// `#[packable(u128)] enum MixedEnum { UnitVariant, EmptyTuple(),
/// Tuple(U3, TupleStruct), Named { x: UnitStruct, y: TupleStruct } }`
#[derive(Debug, PartialEq, Eq)]
pub enum MixedEnum {
    UnitVariant,
    EmptyTuple(),
    Tuple(U3, TupleStruct),
    Named { x: UnitStruct, y: TupleStruct },
}

impl Packable<u128> for MixedEnum {
    const SIZE: u32 = 2u32 + {
        let mut size = 0u32;
        let s = 0;
        if s > size {
            size = s;
        }
        let s = 0;
        if s > size {
            size = s;
        }
        let s = 0 + <U3 as Packable<u128>>::SIZE + <TupleStruct as Packable<u128>>::SIZE;
        if s > size {
            size = s;
        }
        let s = 0 + <UnitStruct as Packable<u128>>::SIZE + <TupleStruct as Packable<u128>>::SIZE;
        if s > size {
            size = s;
        }
        size
    };
    fn pack(&self) -> u128 {
        let mut packer = Packer::<u128>::new();
        match self {
            Self::UnitVariant => {
                packer.raw_pack(0u32 as u128, 2u32);
            }
            Self::EmptyTuple() => {
                packer.raw_pack(1u32 as u128, 2u32);
            }
            Self::Tuple(f0, f1) => {
                packer.pack(f0);
                packer.pack(f1);
                packer.raw_pack(2u32 as u128, 2u32);
            }
            Self::Named { x, y } => {
                packer.pack(x);
                packer.pack(y);
                packer.raw_pack(3u32 as u128, 2u32);
            }
        }
        packer.into_inner()
    }
    fn unpack(buffer: u128) -> Self {
        let mut unpacker = Unpacker::<u128>::new(buffer);
        let variant_index = unpacker.raw_unpack(2u32) as u32;
        match variant_index {
            0u32 => Self::UnitVariant,
            1u32 => Self::EmptyTuple(),
            2u32 => {
                let f1: TupleStruct = unpacker.unpack();
                let f0: U3 = unpacker.unpack();
                Self::Tuple(f0, f1)
            }
            3u32 => {
                let y: TupleStruct = unpacker.unpack();
                let x: UnitStruct = unpacker.unpack();
                Self::Named { x, y }
            }
            _ => panic!("Invalid variant index"),
        }
    }
}

/// `#[packable(u32)] struct BitsStruct { #[bits(5)] x: u8, #[bits(5)] y: u8,
/// #[bits(3)] z: u8 }`
#[derive(Debug, PartialEq, Eq)]
pub struct BitsStruct {
    pub x: u8,
    pub y: u8,
    pub z: u8,
}

impl Packable<u32> for BitsStruct {
    const SIZE: u32 = 0 + 5u32 + 5u32 + 3u32;
    fn pack(&self) -> u32 {
        let mut packer = Packer::<u32>::new();
        let Self { x, y, z } = self;
        packer.raw_pack(*x as u32, 5u32);
        packer.raw_pack(*y as u32, 5u32);
        packer.raw_pack(*z as u32, 3u32);
        packer.into_inner()
    }
    fn unpack(buffer: u32) -> Self {
        let mut unpacker = Unpacker::<u32>::new(buffer);
        let z: u8 = unpacker.raw_unpack(3u32) as u8;
        let y: u8 = unpacker.raw_unpack(5u32) as u8;
        let x: u8 = unpacker.raw_unpack(5u32) as u8;
        Self { x, y, z }
    }
}

#[test]
fn unit_struct_is_empty() {
    assert_eq!(UnitStruct::SIZE, 0);
    assert_eq!(UnitStruct.pack(), 0);
    assert_eq!(UnitStruct::unpack(0), UnitStruct);
}

#[test]
fn tuple_struct_round_trips() {
    let t = TupleStruct(U3(5), U3(2), UnitStruct);
    assert_eq!(TupleStruct::SIZE, 6);
    assert_eq!(t.pack(), 0b101_010);
    assert_eq!(TupleStruct::unpack(0b101_010), t);
}

#[test]
fn mixed_enum_index_sits_lowest() {
    assert_eq!(MixedEnum::SIZE, 2 + 9);
    assert_eq!(MixedEnum::UnitVariant.pack(), 0);
    assert_eq!(MixedEnum::EmptyTuple().pack(), 1);
    let v = MixedEnum::Tuple(U3(7), TupleStruct(U3(1), U3(0), UnitStruct));
    assert_eq!(v.pack(), 0b111_001_000_10);
    assert_eq!(MixedEnum::unpack(0b111_001_000_10), v);
    let n = MixedEnum::Named { x: UnitStruct, y: TupleStruct(U3(3), U3(4), UnitStruct) };
    assert_eq!(n.pack(), 0b011_100_11);
    assert_eq!(MixedEnum::unpack(n.pack()), n);
    assert_eq!(MixedEnum::unpack(0), MixedEnum::UnitVariant);
}

#[test]
fn bits_struct_round_trips() {
    let b = BitsStruct { x: 31, y: 1, z: 5 };
    assert_eq!(BitsStruct::SIZE, 13);
    assert_eq!(b.pack(), 0b11111_00001_101);
    assert_eq!(BitsStruct::unpack(0b11111_00001_101), b);
}
