//! Bit packing of structured values into a single unsigned integer buffer.
pub mod bitmath;
mod buffer;
pub mod derive_support;
mod extensions;
pub mod layout;
mod packable;
mod packer;
mod shared;
mod unpacker;

pub use buffer::{lemma_buffer_constants, Buffer};
pub use extensions::{
    lemma_array_decode,
    lemma_array_layout,
    lemma_decode_items_layout,
    lemma_items_layout,
    lemma_bool_layout,
    lemma_option_decode,
    lemma_option_layout,
    lemma_tuple1_layout,
    lemma_tuple1_decode,
    lemma_tuple2_layout,
    lemma_tuple2_decode,
    lemma_tuple3_layout,
    lemma_tuple3_decode,
    lemma_tuple4_layout,
    lemma_tuple4_decode,
    lemma_tuple5_layout,
    lemma_tuple5_decode,
    lemma_tuple6_layout,
    lemma_tuple6_decode,
    lemma_tuple7_layout,
    lemma_tuple7_decode,
    lemma_tuple8_layout,
    lemma_tuple8_decode,
    lemma_tuple9_layout,
    lemma_tuple9_decode,
    lemma_tuple10_layout,
    lemma_tuple10_decode,
    lemma_tuple11_layout,
    lemma_tuple11_decode,
    lemma_tuple12_layout,
    lemma_tuple12_decode,
    decode_items,
    encode_items,
    lemma_array_round_trips,
    lemma_array_size,
    lemma_bool_round_trips,
    lemma_bool_size,
    lemma_option_round_trips,
    lemma_option_size,
    lemma_tuple1_round_trips,
    lemma_tuple2_round_trips,
    lemma_tuple3_round_trips,
    lemma_tuple4_round_trips,
    lemma_tuple5_round_trips,
    lemma_tuple6_round_trips,
    lemma_tuple7_round_trips,
    lemma_tuple8_round_trips,
    lemma_tuple9_round_trips,
    lemma_tuple10_round_trips,
    lemma_tuple11_round_trips,
    lemma_tuple12_round_trips,
    lemma_tuple1_size,
    lemma_tuple2_size,
    lemma_tuple3_size,
    lemma_tuple4_size,
    lemma_tuple5_size,
    lemma_tuple6_size,
    lemma_tuple7_size,
    lemma_tuple8_size,
    lemma_tuple9_size,
    lemma_tuple10_size,
    lemma_tuple11_size,
    lemma_tuple12_size,
};
pub use packable::{lemma_unpack_packed_value, round_trips, Packable};
pub use packer::Packer;
pub use unpacker::Unpacker;
