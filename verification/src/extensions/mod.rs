//! [`Packable`](crate::Packable) for types of the standard library.
mod array;
mod bool;
mod option;
mod tuple;

pub use self::array::{
    decode_items, encode_items, lemma_array_decode, lemma_array_layout, lemma_array_round_trips,
    lemma_array_size, lemma_decode_items_layout, lemma_items_layout,
};
pub use self::bool::{lemma_bool_layout, lemma_bool_round_trips, lemma_bool_size};
pub use self::option::{
    lemma_option_decode, lemma_option_layout, lemma_option_round_trips, lemma_option_size,
};
pub use self::tuple::{
    lemma_tuple1_layout,
    lemma_tuple1_decode,
    lemma_tuple2_layout,
    lemma_tuple2_decode,
    lemma_tuple3_layout,
    lemma_tuple3_decode,
    lemma_tuple4_layout,
    lemma_tuple4_decode,
    lemma_tuple5_layout,
    lemma_tuple5_decode,
    lemma_tuple6_layout,
    lemma_tuple6_decode,
    lemma_tuple7_layout,
    lemma_tuple7_decode,
    lemma_tuple8_layout,
    lemma_tuple8_decode,
    lemma_tuple9_layout,
    lemma_tuple9_decode,
    lemma_tuple10_layout,
    lemma_tuple10_decode,
    lemma_tuple11_layout,
    lemma_tuple11_decode,
    lemma_tuple12_layout,
    lemma_tuple12_decode,
    lemma_tuple1_round_trips,
    lemma_tuple2_round_trips,
    lemma_tuple3_round_trips,
    lemma_tuple4_round_trips,
    lemma_tuple5_round_trips,
    lemma_tuple6_round_trips,
    lemma_tuple7_round_trips,
    lemma_tuple8_round_trips,
    lemma_tuple9_round_trips,
    lemma_tuple10_round_trips,
    lemma_tuple11_round_trips,
    lemma_tuple12_round_trips,
    lemma_tuple1_size,
    lemma_tuple2_size,
    lemma_tuple3_size,
    lemma_tuple4_size,
    lemma_tuple5_size,
    lemma_tuple6_size,
    lemma_tuple7_size,
    lemma_tuple8_size,
    lemma_tuple9_size,
    lemma_tuple10_size,
    lemma_tuple11_size,
    lemma_tuple12_size,
};
