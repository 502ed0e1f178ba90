# bitcram

A small bit packing library: structured values are packed into a single
unsigned integer buffer (`u8`, `u16`, `u32`, `u64` or `u128`) with sub-byte
field granularity, and unpacked again.

The library under `src/` is written in Verus and verified:

- `buffer.rs` — the `Buffer` trait and its five implementations, with each
  bit operation specified over the buffer's value as a natural number.
- `bitmath.rs` — bitwise AND/OR on natural numbers and the facts about masks
  and shifts that packing rests on.
- `layout.rs` — the arithmetic layout of a packed buffer and the laws that
  unpacking undoes packing, field by field and for a whole sequence of
  fields, and where each field sits in the buffer.
- `packer.rs`, `unpacker.rs` — `Packer` (described by the fields packed so
  far) and `Unpacker` (described by its starting buffer and the bits read so
  far), each operation stated exactly in terms of that layout.
- `packable.rs` — the `Packable` trait that packable types implement.
- `extensions/` — `Packable` for `bool`, `Option<T>`, tuples of up to twelve
  components and arrays, each with its size law and its round-trip law.
- `derive_support.rs` — every decision of the `#[packable(B)]` attribute,
  as a plan: which items are accepted (unions are refused, enums without
  variants are left alone), the order in which fields are packed (declaration
  order, first field highest) and unpacked (reverse), each field's width
  (`#[bits(N)]` or its type's size), an enum's index width and variant
  indices, and the bounded type parameters; with the laws of the enum layout
  (index in the lowest bits, payload above, size = index width + largest
  payload).

`app/` reads an item with `syn`, asks the library for its plan, and writes
the plan out as code with `quote`.
