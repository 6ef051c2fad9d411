//! In-process append-only byte writer, the fixed-layout element trait, and the
//! wire-format serializer primitives.
use crate::value::{encode, WireValue};
use crate::wire::{
    count_prefix, framed, le_i16, le_i32, le_i64, le_i8, le_u16, le_u32, le_u64,
    lemma_le_facts,
};
use vstd::bytes::{
    spec_u16_from_le_bytes, spec_u32_from_le_bytes, spec_u64_from_le_bytes, u16_from_le_bytes,
    spec_u64_to_le_bytes_to_open, u16_to_le_bytes, u32_from_le_bytes, u32_to_le_bytes,
    u64_from_le_bytes, u64_to_le_bytes,
};
use vstd::prelude::*;
use vstd::string::StringSliceAdditionalSpecFns;

verus! {

/// Growable output buffer that every write appends to.
pub struct FastWriter {
    buf: Vec<u8>,
}

impl View for FastWriter {
    type V = Seq<u8>;

    closed spec fn view(&self) -> Seq<u8> {
        self.buf@
    }
}

impl FastWriter {
    pub fn with_capacity(cap: usize) -> (w: Self)
        ensures
            w@ == Seq::<u8>::empty(),
    {
        FastWriter { buf: Vec::with_capacity(cap) }
    }

    pub fn into_vec(self) -> (r: Vec<u8>)
        ensures
            r@ == self@,
    {
        self.buf
    }

    pub fn write_bytes(&mut self, bytes: &[u8])
        ensures
            final(self)@ == old(self)@ + bytes@,
    {
        self.buf.extend_from_slice(bytes);
    }

    pub fn write_u8(&mut self, v: u8)
        ensures
            final(self)@ == old(self)@.push(v),
    {
        self.buf.push(v);
    }

    pub fn write_u16(&mut self, v: u16)
        ensures
            final(self)@ == old(self)@ + le_u16(v),
    {
        let b = u16_to_le_bytes(v);
        self.buf.extend_from_slice(b.as_slice());
    }

    pub fn write_u32(&mut self, v: u32)
        ensures
            final(self)@ == old(self)@ + le_u32(v),
    {
        let b = u32_to_le_bytes(v);
        self.buf.extend_from_slice(b.as_slice());
    }

    pub fn write_u64(&mut self, v: u64)
        ensures
            final(self)@ == old(self)@ + le_u64(v),
    {
        push_le_u64(&mut self.buf, v);
    }

    pub fn write_i8(&mut self, v: i8)
        ensures
            final(self)@ == old(self)@ + le_i8(v),
    {
        self.buf.push(v as u8);
        assert(final(self)@ =~= old(self)@ + le_i8(v));
    }

    pub fn write_i16(&mut self, v: i16)
        ensures
            final(self)@ == old(self)@ + le_i16(v),
    {
        self.write_u16(v as u16);
    }

    pub fn write_i32(&mut self, v: i32)
        ensures
            final(self)@ == old(self)@ + le_i32(v),
    {
        self.write_u32(v as u32);
    }

    pub fn write_i64(&mut self, v: i64)
        ensures
            final(self)@ == old(self)@ + le_i64(v),
    {
        self.write_u64(v as u64);
    }

    /// Bulk write of a fixed-layout slice: the element count, then every
    /// element's bytes back to back.
    pub fn write_pod_slice<T: PodType>(&mut self, slice: &[T])
        ensures
            final(self)@ == old(self)@ + pod_frame(slice@),
    {
        self.write_u64(slice.len() as u64);
        append_pod_elems(&mut self.buf, slice);
        assert(final(self)@ =~= old(self)@ + pod_frame(slice@));
    }
}

/// Numeric primitives whose wire form is their fixed-width little-endian
/// bytes, so that a slice of them can be written and read in bulk.
pub trait PodType: Copy + Sized {
    /// The element's bytes on the wire.
    spec fn wire(&self) -> Seq<u8>;

    /// The element that the given bytes stand for.
    spec fn from_wire(b: Seq<u8>) -> Self;

    /// The element's width in bytes.
    spec fn width() -> nat;

    fn width_bytes() -> (r: usize)
        ensures
            r as nat == Self::width(),
            1 <= r <= 8,
    ;

    fn append_wire(&self, out: &mut Vec<u8>)
        ensures
            final(out)@ == old(out)@ + self.wire(),
    ;

    fn read_wire(bytes: &[u8], pos: usize) -> (r: Self)
        requires
            pos + Self::width() <= bytes@.len(),
        ensures
            r == Self::from_wire(bytes@.subrange(pos as int, pos + Self::width())),
    ;

    proof fn lemma_wire(x: Self)
        ensures
            x.wire().len() == Self::width(),
            1 <= Self::width() <= 8,
            Self::from_wire(x.wire()) == x,
    ;

    proof fn lemma_from_wire(b: Seq<u8>)
        requires
            b.len() == Self::width(),
        ensures
            Self::from_wire(b).wire() == b,
    ;
}

impl PodType for u8 {
    open spec fn wire(&self) -> Seq<u8> {
        seq![*self]
    }

    open spec fn from_wire(b: Seq<u8>) -> Self {
        b[0]
    }

    open spec fn width() -> nat {
        1
    }

    fn width_bytes() -> (r: usize) {
        1
    }

    fn append_wire(&self, out: &mut Vec<u8>) {
        out.push(*self);
        assert(final(out)@ =~= old(out)@ + self.wire());
    }

    fn read_wire(bytes: &[u8], pos: usize) -> (r: Self) {
        bytes[pos]
    }

    proof fn lemma_wire(x: Self) {
    }

    proof fn lemma_from_wire(b: Seq<u8>) {
        assert(b =~= seq![b[0]]);
    }
}

impl PodType for u16 {
    open spec fn wire(&self) -> Seq<u8> {
        le_u16(*self)
    }

    open spec fn from_wire(b: Seq<u8>) -> Self {
        spec_u16_from_le_bytes(b)
    }

    open spec fn width() -> nat {
        2
    }

    fn width_bytes() -> (r: usize) {
        2
    }

    fn append_wire(&self, out: &mut Vec<u8>) {
        let b = u16_to_le_bytes(*self);
        out.extend_from_slice(b.as_slice());
    }

    fn read_wire(bytes: &[u8], pos: usize) -> (r: Self) {
        proof {
            lemma_le_facts();
        }
        let n = bytes.len();
        let s = &bytes[pos..pos + 2];
        u16_from_le_bytes(s)
    }

    proof fn lemma_wire(x: Self) {
        lemma_le_facts();
        assert(le_u16(x).len() == 2);
    }

    proof fn lemma_from_wire(b: Seq<u8>) {
        lemma_le_facts();
    }
}

impl PodType for u32 {
    open spec fn wire(&self) -> Seq<u8> {
        le_u32(*self)
    }

    open spec fn from_wire(b: Seq<u8>) -> Self {
        spec_u32_from_le_bytes(b)
    }

    open spec fn width() -> nat {
        4
    }

    fn width_bytes() -> (r: usize) {
        4
    }

    fn append_wire(&self, out: &mut Vec<u8>) {
        let b = u32_to_le_bytes(*self);
        out.extend_from_slice(b.as_slice());
    }

    fn read_wire(bytes: &[u8], pos: usize) -> (r: Self) {
        proof {
            lemma_le_facts();
        }
        let n = bytes.len();
        let s = &bytes[pos..pos + 4];
        u32_from_le_bytes(s)
    }

    proof fn lemma_wire(x: Self) {
        lemma_le_facts();
        assert(le_u32(x).len() == 4);
    }

    proof fn lemma_from_wire(b: Seq<u8>) {
        lemma_le_facts();
    }
}

impl PodType for u64 {
    open spec fn wire(&self) -> Seq<u8> {
        le_u64(*self)
    }

    open spec fn from_wire(b: Seq<u8>) -> Self {
        spec_u64_from_le_bytes(b)
    }

    open spec fn width() -> nat {
        8
    }

    fn width_bytes() -> (r: usize) {
        8
    }

    fn append_wire(&self, out: &mut Vec<u8>) {
        push_le_u64(out, *self);
    }

    fn read_wire(bytes: &[u8], pos: usize) -> (r: Self) {
        proof {
            lemma_le_facts();
        }
        let n = bytes.len();
        let s = &bytes[pos..pos + 8];
        u64_from_le_bytes(s)
    }

    proof fn lemma_wire(x: Self) {
        lemma_le_facts();
        assert(le_u64(x).len() == 8);
    }

    proof fn lemma_from_wire(b: Seq<u8>) {
        lemma_le_facts();
    }
}

impl PodType for i8 {
    open spec fn wire(&self) -> Seq<u8> {
        le_i8(*self)
    }

    open spec fn from_wire(b: Seq<u8>) -> Self {
        b[0] as i8
    }

    open spec fn width() -> nat {
        1
    }

    fn width_bytes() -> (r: usize) {
        1
    }

    fn append_wire(&self, out: &mut Vec<u8>) {
        out.push(*self as u8);
        assert(final(out)@ =~= old(out)@ + self.wire());
    }

    fn read_wire(bytes: &[u8], pos: usize) -> (r: Self) {
        let b = bytes[pos];
        b as i8
    }

    proof fn lemma_wire(x: Self) {
        assert((x as u8) as i8 == x) by (bit_vector);
    }

    proof fn lemma_from_wire(b: Seq<u8>) {
        let b0 = b[0];
        assert((b0 as i8) as u8 == b0) by (bit_vector);
        assert(b =~= seq![(b0 as i8) as u8]);
    }
}

impl PodType for i16 {
    open spec fn wire(&self) -> Seq<u8> {
        le_i16(*self)
    }

    open spec fn from_wire(b: Seq<u8>) -> Self {
        spec_u16_from_le_bytes(b) as i16
    }

    open spec fn width() -> nat {
        2
    }

    fn width_bytes() -> (r: usize) {
        2
    }

    fn append_wire(&self, out: &mut Vec<u8>) {
        let b = u16_to_le_bytes(*self as u16);
        out.extend_from_slice(b.as_slice());
    }

    fn read_wire(bytes: &[u8], pos: usize) -> (r: Self) {
        proof {
            lemma_le_facts();
        }
        let n = bytes.len();
        let s = &bytes[pos..pos + 2];
        let u = u16_from_le_bytes(s);
        u as i16
    }

    proof fn lemma_wire(x: Self) {
        lemma_le_facts();
        assert(le_u16(x as u16).len() == 2);
        assert((x as u16) as i16 == x) by (bit_vector);
    }

    proof fn lemma_from_wire(b: Seq<u8>) {
        lemma_le_facts();
        let u = spec_u16_from_le_bytes(b);
        assert((u as i16) as u16 == u) by (bit_vector);
    }
}

impl PodType for i32 {
    open spec fn wire(&self) -> Seq<u8> {
        le_i32(*self)
    }

    open spec fn from_wire(b: Seq<u8>) -> Self {
        spec_u32_from_le_bytes(b) as i32
    }

    open spec fn width() -> nat {
        4
    }

    fn width_bytes() -> (r: usize) {
        4
    }

    fn append_wire(&self, out: &mut Vec<u8>) {
        let b = u32_to_le_bytes(*self as u32);
        out.extend_from_slice(b.as_slice());
    }

    fn read_wire(bytes: &[u8], pos: usize) -> (r: Self) {
        proof {
            lemma_le_facts();
        }
        let n = bytes.len();
        let s = &bytes[pos..pos + 4];
        let u = u32_from_le_bytes(s);
        u as i32
    }

    proof fn lemma_wire(x: Self) {
        lemma_le_facts();
        assert(le_u32(x as u32).len() == 4);
        assert((x as u32) as i32 == x) by (bit_vector);
    }

    proof fn lemma_from_wire(b: Seq<u8>) {
        lemma_le_facts();
        let u = spec_u32_from_le_bytes(b);
        assert((u as i32) as u32 == u) by (bit_vector);
    }
}

impl PodType for i64 {
    open spec fn wire(&self) -> Seq<u8> {
        le_i64(*self)
    }

    open spec fn from_wire(b: Seq<u8>) -> Self {
        spec_u64_from_le_bytes(b) as i64
    }

    open spec fn width() -> nat {
        8
    }

    fn width_bytes() -> (r: usize) {
        8
    }

    fn append_wire(&self, out: &mut Vec<u8>) {
        push_le_u64(out, *self as u64);
    }

    fn read_wire(bytes: &[u8], pos: usize) -> (r: Self) {
        proof {
            lemma_le_facts();
        }
        let n = bytes.len();
        let s = &bytes[pos..pos + 8];
        let u = u64_from_le_bytes(s);
        u as i64
    }

    proof fn lemma_wire(x: Self) {
        lemma_le_facts();
        assert(le_u64(x as u64).len() == 8);
        assert((x as u64) as i64 == x) by (bit_vector);
    }

    proof fn lemma_from_wire(b: Seq<u8>) {
        lemma_le_facts();
        let u = spec_u64_from_le_bytes(b);
        assert((u as i64) as u64 == u) by (bit_vector);
    }
}

/// Appends the little-endian bytes of `x` without an intermediate buffer.
fn push_le_u64(out: &mut Vec<u8>, x: u64)
    ensures
        final(out)@ == old(out)@ + le_u64(x),
{
    proof {
        spec_u64_to_le_bytes_to_open(x);
    }
    out.push((x & 0xff) as u8);
    out.push(((x >> 8) & 0xff) as u8);
    out.push(((x >> 16) & 0xff) as u8);
    out.push(((x >> 24) & 0xff) as u8);
    out.push(((x >> 32) & 0xff) as u8);
    out.push(((x >> 40) & 0xff) as u8);
    out.push(((x >> 48) & 0xff) as u8);
    out.push(((x >> 56) & 0xff) as u8);
    assert(final(out)@ =~= old(out)@ + le_u64(x));
}

/// The elements' bytes back to back, without a count.
pub open spec fn pod_elems<T: PodType>(s: Seq<T>) -> Seq<u8>
    decreases s.len(),
{
    if s.len() == 0 {
        Seq::empty()
    } else {
        pod_elems(s.drop_last()) + s.last().wire()
    }
}

/// A fixed-layout sequence on the wire: its element count, then its elements.
pub open spec fn pod_frame<T: PodType>(s: Seq<T>) -> Seq<u8> {
    count_prefix(s.len()) + pod_elems(s)
}

/// The byte length of the elements of `s`.
pub proof fn lemma_pod_elems_len<T: PodType>(s: Seq<T>)
    ensures
        pod_elems(s).len() == s.len() * T::width(),
    decreases s.len(),
{
    if s.len() > 0 {
        lemma_pod_elems_len(s.drop_last());
        T::lemma_wire(s.last());
        assert((s.len() - 1) * T::width() + T::width() == s.len() * T::width())
            by (nonlinear_arith);
    }
}

/// Encoding a concatenation is concatenating the encodings.
pub proof fn lemma_pod_elems_concat<T: PodType>(a: Seq<T>, b: Seq<T>)
    ensures
        pod_elems(a + b) == pod_elems(a) + pod_elems(b),
    decreases b.len(),
{
    if b.len() == 0 {
        assert(a + b =~= a);
        assert(pod_elems(b) =~= Seq::<u8>::empty());
        assert(pod_elems(a) + pod_elems(b) =~= pod_elems(a));
    } else {
        lemma_pod_elems_concat(a, b.drop_last());
        assert((a + b).drop_last() =~= a + b.drop_last());
        assert((a + b).last() == b.last());
        assert(pod_elems(a + b) =~= pod_elems(a) + pod_elems(b));
    }
}

/// Appends every element's bytes, in order.
pub fn append_pod_elems<T: PodType>(out: &mut Vec<u8>, slice: &[T])
    ensures
        final(out)@ == old(out)@ + pod_elems(slice@),
{
    let n = slice.len();
    let mut i: usize = 0;
    while i < n
        invariant
            n == slice@.len(),
            i <= n,
            out@ == old(out)@ + pod_elems(slice@.subrange(0, i as int)),
        decreases n - i,
    {
        slice[i].append_wire(out);
        proof {
            let s = slice@.subrange(0, i + 1);
            assert(s.drop_last() =~= slice@.subrange(0, i as int));
            assert(s.last() == slice@[i as int]);
        }
        i = i + 1;
    }
    assert(slice@.subrange(0, n as int) =~= slice@);
}

/// Serializes a fixed-layout slice into `buf`, replacing what it held and
/// reusing its storage.
pub fn serialize_pod_into<T: PodType>(vec: &[T], buf: &mut Vec<u8>) -> (r: Result<(), Error>)
    ensures
        r is Ok,
        final(buf)@ == pod_frame(vec@),
{
    buf.clear();
    let b = u64_to_le_bytes(vec.len() as u64);
    buf.extend_from_slice(b.as_slice());
    append_pod_elems(buf, vec);
    Ok(())
}

/// Serializes a fixed-layout slice: the element count, then the elements.
pub fn serialize_pod<T: PodType>(vec: &[T]) -> (r: Result<Vec<u8>, Error>)
    ensures
        r is Ok,
        r->Ok_0@ == pod_frame(vec@),
{
    let mut result = Vec::new();
    let _ = serialize_pod_into(vec, &mut result);
    Ok(result)
}

/// Errors of the serializing side and of the optional wrapping layers.
#[derive(Debug)]
pub enum Error {
    Message(String),
    /// Input too short to hold the 4-byte checksum.
    TooShort,
    /// The stored checksum differs from the one computed over the payload.
    ChecksumMismatch { expected: u32, actual: u32 },
    /// The compressor or decompressor failed.
    Compression(std::io::Error),
    /// The unwrapped payload is not a well-formed frame.
    Decode(crate::reader::Error),
}

/// The wire format's serializer: one method per kind of value, each appending
/// that value's encoding. Structs, tuples and unit values add nothing of their
/// own; their fields follow one another.
pub struct Serializer {
    writer: FastWriter,
}

impl View for Serializer {
    type V = Seq<u8>;

    closed spec fn view(&self) -> Seq<u8> {
        self.writer@
    }
}

impl Serializer {
    pub fn new(capacity: usize) -> (s: Self)
        ensures
            s@ == Seq::<u8>::empty(),
    {
        Serializer { writer: FastWriter::with_capacity(capacity) }
    }

    pub fn into_vec(self) -> (r: Vec<u8>)
        ensures
            r@ == self@,
    {
        self.writer.into_vec()
    }

    pub fn serialize_bool(&mut self, v: bool)
        ensures
            final(self)@ == old(self)@ + encode(WireValue::Bool(v)),
    {
        self.writer.write_u8(if v { 1 } else { 0 });
    }

    pub fn serialize_u8(&mut self, v: u8)
        ensures
            final(self)@ == old(self)@ + encode(WireValue::U8(v)),
    {
        self.writer.write_u8(v);
    }

    pub fn serialize_u16(&mut self, v: u16)
        ensures
            final(self)@ == old(self)@ + encode(WireValue::U16(v)),
    {
        self.writer.write_u16(v);
    }

    pub fn serialize_u32(&mut self, v: u32)
        ensures
            final(self)@ == old(self)@ + encode(WireValue::U32(v)),
    {
        self.writer.write_u32(v);
    }

    pub fn serialize_u64(&mut self, v: u64)
        ensures
            final(self)@ == old(self)@ + encode(WireValue::U64(v)),
    {
        self.writer.write_u64(v);
    }

    pub fn serialize_i8(&mut self, v: i8)
        ensures
            final(self)@ == old(self)@ + encode(WireValue::I8(v)),
    {
        self.writer.write_i8(v);
    }

    pub fn serialize_i16(&mut self, v: i16)
        ensures
            final(self)@ == old(self)@ + encode(WireValue::I16(v)),
    {
        self.writer.write_i16(v);
    }

    pub fn serialize_i32(&mut self, v: i32)
        ensures
            final(self)@ == old(self)@ + encode(WireValue::I32(v)),
    {
        self.writer.write_i32(v);
    }

    pub fn serialize_i64(&mut self, v: i64)
        ensures
            final(self)@ == old(self)@ + encode(WireValue::I64(v)),
    {
        self.writer.write_i64(v);
    }

    /// A string: its UTF-8 byte count, then its UTF-8 bytes.
    pub fn serialize_str(&mut self, v: &str)
        ensures
            final(self)@ == old(self)@ + encode(WireValue::Str(v.spec_bytes())),
    {
        let bytes = v.as_bytes();
        self.serialize_bytes(bytes);
    }

    /// A byte buffer: its byte count, then its bytes.
    pub fn serialize_bytes(&mut self, v: &[u8])
        ensures
            final(self)@ == old(self)@ + encode(WireValue::Bytes(v@)),
    {
        self.writer.write_u64(v.len() as u64);
        self.writer.write_bytes(v);
        assert(final(self)@ =~= old(self)@ + framed(v@));
    }

    /// The tag of an absent option.
    pub fn serialize_none(&mut self)
        ensures
            final(self)@ == old(self)@ + encode(WireValue::Opt(None)),
    {
        self.writer.write_u8(0);
    }

    /// The tag of a present option; the value follows it.
    pub fn serialize_some(&mut self)
        ensures
            final(self)@ == old(self)@.push(1u8),
    {
        self.writer.write_u8(1);
    }

    /// An enum variant's index; the variant's fields, if any, follow it.
    pub fn serialize_variant(&mut self, variant_index: u32)
        ensures
            final(self)@ == old(self)@ + le_u32(variant_index),
    {
        self.writer.write_u32(variant_index);
    }

    /// A sequence's element count; the elements follow it. The count must be
    /// known up front.
    pub fn serialize_seq(&mut self, len: Option<usize>) -> (r: Result<(), Error>)
        ensures
            len is Some ==> r is Ok && final(self)@ == old(self)@ + count_prefix(
                len->Some_0 as nat,
            ),
            len is None ==> r is Err && final(self)@ == old(self)@,
    {
        match len {
            Some(n) => {
                self.writer.write_u64(n as u64);
                Ok(())
            },
            None => Err(Error::Message("sequence length required".to_owned())),
        }
    }

    /// A map's entry count; keys and values follow it, alternating.
    pub fn serialize_map(&mut self, len: Option<usize>) -> (r: Result<(), Error>)
        ensures
            len is Some ==> r is Ok && final(self)@ == old(self)@ + count_prefix(
                len->Some_0 as nat,
            ),
            len is None ==> r is Err && final(self)@ == old(self)@,
    {
        match len {
            Some(n) => {
                self.writer.write_u64(n as u64);
                Ok(())
            },
            None => Err(Error::Message("map length required".to_owned())),
        }
    }
}

} // verus!
