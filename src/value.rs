//! A model of every value shape the wire format carries, with its encoding
//! and its schema-directed decoding; the serializer's and the deserializer's
//! per-shape contracts are the cases of these two functions.
use crate::wire::{
    bool_byte, count_prefix, framed, le_i16, le_i32, le_i64, le_i8, le_u16, le_u32, le_u64,
    lemma_le_facts,
};
use vstd::bytes::{spec_u16_from_le_bytes, spec_u32_from_le_bytes, spec_u64_from_le_bytes};
use vstd::prelude::*;
use vstd::utf8::valid_utf8;

verus! {

/// A value as the wire format sees it.
pub enum WireValue {
    Bool(bool),
    U8(u8),
    U16(u16),
    U32(u32),
    U64(u64),
    I8(i8),
    I16(i16),
    I32(i32),
    I64(i64),
    /// A 32-bit float, as its IEEE-754 bit pattern.
    F32(u32),
    /// A 64-bit float, as its IEEE-754 bit pattern.
    F64(u64),
    /// A string, as its UTF-8 bytes.
    Str(Seq<u8>),
    Bytes(Seq<u8>),
    /// A unit value, unit struct or struct without fields.
    Unit,
    Opt(Option<Box<WireValue>>),
    /// Two fields back to back; a struct or tuple is a chain of these.
    Pair(Box<WireValue>, Box<WireValue>),
    /// A sequence (or map, as key-value pairs).
    List(Seq<WireValue>),
    /// An enum variant: its index and its payload.
    Variant(u32, Box<WireValue>),
}

/// The schema a decoder follows; the wire format carries no type tags.
pub enum Shape {
    Bool,
    U8,
    U16,
    U32,
    U64,
    I8,
    I16,
    I32,
    I64,
    F32,
    F64,
    Str,
    Bytes,
    Unit,
    Opt(Box<Shape>),
    Pair(Box<Shape>, Box<Shape>),
    List(Box<Shape>),
    /// An enum, by the payload shape of each variant.
    Enum(Seq<Shape>),
}

/// The encoding of a value.
pub open spec fn encode(v: WireValue) -> Seq<u8>
    decreases v, 0nat,
{
    match v {
        WireValue::Bool(b) => seq![bool_byte(b)],
        WireValue::U8(x) => seq![x],
        WireValue::U16(x) => le_u16(x),
        WireValue::U32(x) => le_u32(x),
        WireValue::U64(x) => le_u64(x),
        WireValue::I8(x) => le_i8(x),
        WireValue::I16(x) => le_i16(x),
        WireValue::I32(x) => le_i32(x),
        WireValue::I64(x) => le_i64(x),
        WireValue::F32(bits) => le_u32(bits),
        WireValue::F64(bits) => le_u64(bits),
        WireValue::Str(b) => framed(b),
        WireValue::Bytes(b) => framed(b),
        WireValue::Unit => Seq::empty(),
        WireValue::Opt(None) => seq![0u8],
        WireValue::Opt(Some(x)) => seq![1u8] + encode(*x),
        WireValue::Pair(a, b) => encode(*a) + encode(*b),
        WireValue::List(vs) => count_prefix(vs.len()) + encode_elems(vs, vs.len() as int),
        WireValue::Variant(i, x) => le_u32(i) + encode(*x),
    }
}

/// The encodings of the first `n` elements, back to back.
pub open spec fn encode_elems(vs: Seq<WireValue>, n: int) -> Seq<u8>
    decreases vs, n,
{
    if n <= 0 || n > vs.len() {
        Seq::empty()
    } else {
        encode_elems(vs, n - 1) + encode(vs[n - 1])
    }
}

/// `v` has shape `s`, and every length in it fits the 8-byte count.
pub open spec fn conforms(v: WireValue, s: Shape) -> bool
    decreases v,
{
    match (v, s) {
        (WireValue::Bool(_), Shape::Bool) => true,
        (WireValue::U8(_), Shape::U8) => true,
        (WireValue::U16(_), Shape::U16) => true,
        (WireValue::U32(_), Shape::U32) => true,
        (WireValue::U64(_), Shape::U64) => true,
        (WireValue::I8(_), Shape::I8) => true,
        (WireValue::I16(_), Shape::I16) => true,
        (WireValue::I32(_), Shape::I32) => true,
        (WireValue::I64(_), Shape::I64) => true,
        (WireValue::F32(_), Shape::F32) => true,
        (WireValue::F64(_), Shape::F64) => true,
        (WireValue::Str(b), Shape::Str) => b.len() <= u64::MAX && valid_utf8(b),
        (WireValue::Bytes(b), Shape::Bytes) => b.len() <= u64::MAX,
        (WireValue::Unit, Shape::Unit) => true,
        (WireValue::Opt(None), Shape::Opt(_)) => true,
        (WireValue::Opt(Some(x)), Shape::Opt(t)) => conforms(*x, *t),
        (WireValue::Pair(a, b), Shape::Pair(sa, sb)) => conforms(*a, *sa) && conforms(*b, *sb),
        (WireValue::List(vs), Shape::List(t)) => vs.len() <= u64::MAX && forall|i: int|
            0 <= i < vs.len() ==> conforms(#[trigger] vs[i], *t),
        (WireValue::Variant(i, x), Shape::Enum(ts)) => i < ts.len() && conforms(*x, ts[i as int]),
        _ => false,
    }
}

/// The value of shape `s` at the start of `b`, and how many bytes it takes;
/// `None` when the bytes are cut off or malformed.
pub open spec fn decode(s: Shape, b: Seq<u8>) -> Option<(WireValue, nat)>
    decreases s, 0nat,
{
    match s {
        Shape::Bool => if b.len() >= 1 && b[0] <= 1 {
            Some((WireValue::Bool(b[0] == 1), 1))
        } else {
            None
        },
        Shape::U8 => if b.len() >= 1 {
            Some((WireValue::U8(b[0]), 1))
        } else {
            None
        },
        Shape::U16 => if b.len() >= 2 {
            Some((WireValue::U16(spec_u16_from_le_bytes(b.subrange(0, 2))), 2))
        } else {
            None
        },
        Shape::U32 => if b.len() >= 4 {
            Some((WireValue::U32(spec_u32_from_le_bytes(b.subrange(0, 4))), 4))
        } else {
            None
        },
        Shape::U64 => if b.len() >= 8 {
            Some((WireValue::U64(spec_u64_from_le_bytes(b.subrange(0, 8))), 8))
        } else {
            None
        },
        Shape::I8 => if b.len() >= 1 {
            Some((WireValue::I8(b[0] as i8), 1))
        } else {
            None
        },
        Shape::I16 => if b.len() >= 2 {
            Some((WireValue::I16(spec_u16_from_le_bytes(b.subrange(0, 2)) as i16), 2))
        } else {
            None
        },
        Shape::I32 => if b.len() >= 4 {
            Some((WireValue::I32(spec_u32_from_le_bytes(b.subrange(0, 4)) as i32), 4))
        } else {
            None
        },
        Shape::I64 => if b.len() >= 8 {
            Some((WireValue::I64(spec_u64_from_le_bytes(b.subrange(0, 8)) as i64), 8))
        } else {
            None
        },
        Shape::F32 => if b.len() >= 4 {
            Some((WireValue::F32(spec_u32_from_le_bytes(b.subrange(0, 4))), 4))
        } else {
            None
        },
        Shape::F64 => if b.len() >= 8 {
            Some((WireValue::F64(spec_u64_from_le_bytes(b.subrange(0, 8))), 8))
        } else {
            None
        },
        Shape::Str => match decode_frame(b) {
            Some(body) => if valid_utf8(body) {
                Some((WireValue::Str(body), 8 + body.len()))
            } else {
                None
            },
            None => None,
        },
        Shape::Bytes => match decode_frame(b) {
            Some(body) => Some((WireValue::Bytes(body), 8 + body.len())),
            None => None,
        },
        Shape::Unit => Some((WireValue::Unit, 0)),
        Shape::Opt(t) => if b.len() >= 1 && b[0] == 0 {
            Some((WireValue::Opt(None), 1))
        } else if b.len() >= 1 && b[0] == 1 {
            match decode(*t, b.subrange(1, b.len() as int)) {
                Some((x, n)) => Some((WireValue::Opt(Some(Box::new(x))), 1 + n)),
                None => None,
            }
        } else {
            None
        },
        Shape::Pair(sa, sb) => match decode(*sa, b) {
            Some((x, n)) => match decode(*sb, b.subrange(n as int, b.len() as int)) {
                Some((y, m)) => Some((WireValue::Pair(Box::new(x), Box::new(y)), n + m)),
                None => None,
            },
            None => None,
        },
        Shape::List(t) => if b.len() >= 8 {
            let count = spec_u64_from_le_bytes(b.subrange(0, 8)) as nat;
            match decode_elems(*t, count, b.subrange(8, b.len() as int)) {
                Some((vs, n)) => Some((WireValue::List(vs), 8 + n)),
                None => None,
            }
        } else {
            None
        },
        Shape::Enum(ts) => if b.len() >= 4 {
            let i = spec_u32_from_le_bytes(b.subrange(0, 4));
            if i < ts.len() {
                match decode(ts[i as int], b.subrange(4, b.len() as int)) {
                    Some((x, n)) => Some((WireValue::Variant(i, Box::new(x)), 4 + n)),
                    None => None,
                }
            } else {
                None
            }
        } else {
            None
        },
    }
}

/// `count` values of shape `t`, back to back at the start of `b`.
pub open spec fn decode_elems(t: Shape, count: nat, b: Seq<u8>) -> Option<(Seq<WireValue>, nat)>
    decreases t, count + 1,
{
    if count == 0 {
        Some((Seq::empty(), 0))
    } else {
        match decode_elems(t, (count - 1) as nat, b) {
            Some((vs, k)) => if k <= b.len() {
                match decode(t, b.subrange(k as int, b.len() as int)) {
                    Some((x, m)) => Some((vs.push(x), k + m)),
                    None => None,
                }
            } else {
                None
            },
            None => None,
        }
    }
}

/// The body of the 8-byte-count frame at the start of `b`, if all of it is there.
pub open spec fn decode_frame(b: Seq<u8>) -> Option<Seq<u8>> {
    if b.len() >= 8 {
        let n = spec_u64_from_le_bytes(b.subrange(0, 8)) as nat;
        if 8 + n <= b.len() {
            Some(b.subrange(8, 8 + n as int))
        } else {
            None
        }
    } else {
        None
    }
}

/// Every value decodes back from its encoding, whatever bytes follow it:
/// `decode(s, encode(v) + rest)` is `v`, having read exactly `encode(v)`.
/// This covers signed integers at their extremes with their sign, and float
/// bit patterns (NaN and infinities included) bit for bit.
pub proof fn lemma_round_trip(v: WireValue, s: Shape, rest: Seq<u8>)
    requires
        conforms(v, s),
    ensures
        decode(s, encode(v) + rest) == Some((v, encode(v).len())),
    decreases v,
{
    lemma_le_facts();
    let e = encode(v);
    let b = e + rest;
    match (v, s) {
        (WireValue::Bool(x), Shape::Bool) => {
            assert(b[0] == bool_byte(x));
        },
        (WireValue::U8(x), Shape::U8) => {
            assert(b[0] == x);
        },
        (WireValue::U16(x), Shape::U16) => {
            assert(b.subrange(0, 2) =~= le_u16(x));
        },
        (WireValue::U32(x), Shape::U32) => {
            assert(b.subrange(0, 4) =~= le_u32(x));
        },
        (WireValue::U64(x), Shape::U64) => {
            assert(b.subrange(0, 8) =~= le_u64(x));
        },
        (WireValue::I8(x), Shape::I8) => {
            assert(b[0] == x as u8);
            assert((x as u8) as i8 == x) by (bit_vector);
        },
        (WireValue::I16(x), Shape::I16) => {
            assert(b.subrange(0, 2) =~= le_u16(x as u16));
            assert(le_u16(x as u16).len() == 2);
            assert((x as u16) as i16 == x) by (bit_vector);
        },
        (WireValue::I32(x), Shape::I32) => {
            assert(b.subrange(0, 4) =~= le_u32(x as u32));
            assert(le_u32(x as u32).len() == 4);
            assert((x as u32) as i32 == x) by (bit_vector);
        },
        (WireValue::I64(x), Shape::I64) => {
            assert(b.subrange(0, 8) =~= le_u64(x as u64));
            assert(le_u64(x as u64).len() == 8);
            assert((x as u64) as i64 == x) by (bit_vector);
        },
        (WireValue::F32(x), Shape::F32) => {
            assert(b.subrange(0, 4) =~= le_u32(x));
        },
        (WireValue::F64(x), Shape::F64) => {
            assert(b.subrange(0, 8) =~= le_u64(x));
        },
        (WireValue::Str(body), Shape::Str) => {
            lemma_frame(body, rest);
        },
        (WireValue::Bytes(body), Shape::Bytes) => {
            lemma_frame(body, rest);
        },
        (WireValue::Unit, Shape::Unit) => {},
        (WireValue::Opt(None), Shape::Opt(_)) => {
            assert(b[0] == 0);
        },
        (WireValue::Opt(Some(x)), Shape::Opt(t)) => {
            lemma_round_trip(*x, *t, rest);
            assert(b.subrange(1, b.len() as int) =~= encode(*x) + rest);
        },
        (WireValue::Pair(x, y), Shape::Pair(sx, sy)) => {
            lemma_round_trip(*x, *sx, encode(*y) + rest);
            lemma_round_trip(*y, *sy, rest);
            assert(b =~= encode(*x) + (encode(*y) + rest));
            assert(b.subrange(encode(*x).len() as int, b.len() as int) =~= encode(*y) + rest);
        },
        (WireValue::List(vs), Shape::List(t)) => {
            let body = encode_elems(vs, vs.len() as int);
            assert(b.subrange(0, 8) =~= count_prefix(vs.len()));
            assert(b.subrange(8, b.len() as int) =~= body + rest);
            lemma_elems_round_trip(vs, *t, vs.len() as int, rest);
            assert(vs.subrange(0, vs.len() as int) =~= vs);
        },
        (WireValue::Variant(i, x), Shape::Enum(ts)) => {
            assert(b.subrange(0, 4) =~= le_u32(i));
            lemma_round_trip(*x, ts[i as int], rest);
            assert(b.subrange(4, b.len() as int) =~= encode(*x) + rest);
        },
        _ => {},
    }
}

/// The first `n` elements decode back from their encodings.
pub proof fn lemma_elems_round_trip(vs: Seq<WireValue>, t: Shape, n: int, rest: Seq<u8>)
    requires
        0 <= n <= vs.len(),
        forall|i: int| 0 <= i < vs.len() ==> conforms(#[trigger] vs[i], t),
    ensures
        decode_elems(t, n as nat, encode_elems(vs, n) + rest) == Some(
            (vs.subrange(0, n), encode_elems(vs, n).len()),
        ),
    decreases vs, n,
{
    if n == 0 {
        assert(vs.subrange(0, 0) =~= Seq::<WireValue>::empty());
    } else {
        let last = encode(vs[n - 1]);
        let init = encode_elems(vs, n - 1);
        let b = encode_elems(vs, n) + rest;
        assert(b =~= init + (last + rest));
        lemma_elems_round_trip(vs, t, n - 1, last + rest);
        lemma_round_trip(vs[n - 1], t, rest);
        assert(b.subrange(init.len() as int, b.len() as int) =~= last + rest);
        assert(vs.subrange(0, n - 1).push(vs[n - 1]) =~= vs.subrange(0, n));
    }
}

/// A framed body is read back whole.
proof fn lemma_frame(body: Seq<u8>, rest: Seq<u8>)
    requires
        body.len() <= u64::MAX,
    ensures
        decode_frame(framed(body) + rest) == Some(body),
{
    lemma_le_facts();
    let b = framed(body) + rest;
    assert(b.subrange(0, 8) =~= le_u64(body.len() as u64));
    assert(b.subrange(8, 8int + body.len()) =~= body);
}

} // verus!
