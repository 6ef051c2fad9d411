//! The wire format, stated as specification functions over byte sequences.
use vstd::bytes::*;
use vstd::prelude::*;

verus! {

/// Fixed-width little-endian encoding of a `u16`.
pub open spec fn le_u16(x: u16) -> Seq<u8> {
    spec_u16_to_le_bytes(x)
}

/// Fixed-width little-endian encoding of a `u32`.
pub open spec fn le_u32(x: u32) -> Seq<u8> {
    spec_u32_to_le_bytes(x)
}

/// Fixed-width little-endian encoding of a `u64`.
pub open spec fn le_u64(x: u64) -> Seq<u8> {
    spec_u64_to_le_bytes(x)
}

/// Signed integers travel as the two's-complement bit pattern of their width.
pub open spec fn le_i8(x: i8) -> Seq<u8> {
    seq![x as u8]
}

pub open spec fn le_i16(x: i16) -> Seq<u8> {
    le_u16(x as u16)
}

pub open spec fn le_i32(x: i32) -> Seq<u8> {
    le_u32(x as u32)
}

pub open spec fn le_i64(x: i64) -> Seq<u8> {
    le_u64(x as u64)
}

/// The 8-byte count that precedes every sequence, string and byte buffer.
pub open spec fn count_prefix(n: nat) -> Seq<u8> {
    le_u64(n as u64)
}

/// A byte buffer or string on the wire: its byte count, then the bytes.
pub open spec fn framed(data: Seq<u8>) -> Seq<u8> {
    count_prefix(data.len()) + data
}

/// A boolean is one byte, 0 or 1.
pub open spec fn bool_byte(b: bool) -> u8 {
    if b { 1 } else { 0 }
}

/// Facts about the fixed-width encodings that almost every proof needs.
pub proof fn lemma_le_facts()
    ensures
        forall|x: u16| #![trigger le_u16(x)] le_u16(x).len() == 2 && spec_u16_from_le_bytes(le_u16(x)) == x,
        forall|x: u32| #![trigger le_u32(x)] le_u32(x).len() == 4 && spec_u32_from_le_bytes(le_u32(x)) == x,
        forall|x: u64| #![trigger le_u64(x)] le_u64(x).len() == 8 && spec_u64_from_le_bytes(le_u64(x)) == x,
        forall|s: Seq<u8>| s.len() == 2 ==> #[trigger] le_u16(spec_u16_from_le_bytes(s)) == s,
        forall|s: Seq<u8>| s.len() == 4 ==> #[trigger] le_u32(spec_u32_from_le_bytes(s)) == s,
        forall|s: Seq<u8>| s.len() == 8 ==> #[trigger] le_u64(spec_u64_from_le_bytes(s)) == s,
{
    lemma_auto_spec_u16_to_from_le_bytes();
    lemma_auto_spec_u32_to_from_le_bytes();
    lemma_auto_spec_u64_to_from_le_bytes();
}

} // verus!
