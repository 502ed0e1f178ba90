//! The mini-chess move of the README, with the `Packable` implementations
//! written out as `#[packable(u16)]` writes them.
use bitcram::{Packable, Packer, Unpacker};

#[derive(Debug, PartialEq, Eq)]
struct Coord {
    x: u8,
    y: u8,
}

impl Packable<u16> for Coord {
    const SIZE: u32 = 5;
    fn pack(&self) -> u16 {
        (self.y * 5 + self.x) as u16
    }
    fn unpack(buffer: u16) -> Self {
        let i = buffer as u8;
        Self { x: i % 5, y: i / 5 }
    }
}

#[derive(Debug, PartialEq, Eq, Clone, Copy)]
enum Piece {
    King,
    Queen,
    Rook,
    Bishop,
    Knight,
    Pawn,
}

impl Packable<u16> for Piece {
    const SIZE: u32 = 3 + 0;
    fn pack(&self) -> u16 {
        let mut packer = Packer::<u16>::new();
        match self {
            Self::King => packer.raw_pack(0u32 as u16, 3),
            Self::Queen => packer.raw_pack(1u32 as u16, 3),
            Self::Rook => packer.raw_pack(2u32 as u16, 3),
            Self::Bishop => packer.raw_pack(3u32 as u16, 3),
            Self::Knight => packer.raw_pack(4u32 as u16, 3),
            Self::Pawn => packer.raw_pack(5u32 as u16, 3),
        }
        packer.into_inner()
    }
    fn unpack(buffer: u16) -> Self {
        let mut unpacker = Unpacker::<u16>::new(buffer);
        match unpacker.raw_unpack(3) as u32 {
            0 => Self::King,
            1 => Self::Queen,
            2 => Self::Rook,
            3 => Self::Bishop,
            4 => Self::Knight,
            5 => Self::Pawn,
            _ => panic!("Invalid variant index"),
        }
    }
}

#[derive(Debug, PartialEq, Eq, Clone, Copy)]
enum Promotion {
    Stay,
    Queen,
    Rook,
    Bishop,
    Knight,
}

impl Packable<u16> for Promotion {
    const SIZE: u32 = 3 + 0;
    fn pack(&self) -> u16 {
        let mut packer = Packer::<u16>::new();
        match self {
            Self::Stay => packer.raw_pack(0u32 as u16, 3),
            Self::Queen => packer.raw_pack(1u32 as u16, 3),
            Self::Rook => packer.raw_pack(2u32 as u16, 3),
            Self::Bishop => packer.raw_pack(3u32 as u16, 3),
            Self::Knight => packer.raw_pack(4u32 as u16, 3),
        }
        packer.into_inner()
    }
    fn unpack(buffer: u16) -> Self {
        let mut unpacker = Unpacker::<u16>::new(buffer);
        match unpacker.raw_unpack(3) as u32 {
            0 => Self::Stay,
            1 => Self::Queen,
            2 => Self::Rook,
            3 => Self::Bishop,
            4 => Self::Knight,
            _ => panic!("Invalid variant index"),
        }
    }
}

#[derive(Debug, PartialEq, Eq)]
struct Move {
    from: Coord,
    to: Coord,
    piece: Piece,
    promotion: Promotion,
}

impl Packable<u16> for Move {
    const SIZE: u32 = 0
        + <Coord as Packable<u16>>::SIZE
        + <Coord as Packable<u16>>::SIZE
        + <Piece as Packable<u16>>::SIZE
        + <Promotion as Packable<u16>>::SIZE;
    fn pack(&self) -> u16 {
        let mut packer = Packer::<u16>::new();
        let Self { from, to, piece, promotion } = self;
        packer.pack(from);
        packer.pack(to);
        packer.pack(piece);
        packer.pack(promotion);
        packer.into_inner()
    }
    fn unpack(buffer: u16) -> Self {
        let mut unpacker = Unpacker::<u16>::new(buffer);
        let promotion: Promotion = unpacker.unpack();
        let piece: Piece = unpacker.unpack();
        let to: Coord = unpacker.unpack();
        let from: Coord = unpacker.unpack();
        Self { from, to, piece, promotion }
    }
}

#[test]
fn move_fills_sixteen_bits() {
    assert_eq!(Move::SIZE, 16);
}

#[test]
fn move_round_trips() {
    let m = Move {
        from: Coord { x: 0, y: 1 },
        to: Coord { x: 0, y: 3 },
        piece: Piece::Pawn,
        promotion: Promotion::Stay,
    };
    let packed: u16 = m.pack();
    assert_eq!(packed, 0b00101_01111_101_000);
    assert_eq!(Move::unpack(packed), m);
}

#[test]
fn every_piece_and_promotion_round_trips() {
    let pieces = [
        Piece::King,
        Piece::Queen,
        Piece::Rook,
        Piece::Bishop,
        Piece::Knight,
        Piece::Pawn,
    ];
    let promotions = [
        Promotion::Stay,
        Promotion::Queen,
        Promotion::Rook,
        Promotion::Bishop,
        Promotion::Knight,
    ];
    for piece in pieces {
        for promotion in promotions {
            let m = Move {
                from: Coord { x: 4, y: 5 },
                to: Coord { x: 2, y: 0 },
                piece,
                promotion,
            };
            assert_eq!(Move::unpack(m.pack()), m);
        }
    }
}
