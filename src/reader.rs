//! Sequential, bounds-checked reads over a borrowed input, and the
//! fixed-layout bulk decoders (zero-copy view and owned copy).
use crate::value::{decode, decode_frame, Shape, WireValue};
use crate::wire::{le_i16, le_i32, le_i64, le_i8, le_u16, le_u32, le_u64, lemma_le_facts};
use crate::writer::{lemma_pod_elems_len, pod_elems, pod_frame, PodType};
use vstd::bytes::{
    spec_u32_from_le_bytes, spec_u64_from_le_bytes, u16_from_le_bytes,
    u32_from_le_bytes, u64_from_le_bytes,
};
use vstd::prelude::*;
use vstd::string::StringSliceAdditionalSpecFns;
use vstd::utf8::valid_utf8;

verus! {

#[verifier::external_type_specification]
#[verifier::external_body]
pub struct ExUtf8Error(core::str::Utf8Error);

/// Relies on `core::str::from_utf8`: it succeeds exactly on valid UTF-8, and
/// the string it returns has the given bytes.
pub assume_specification<'a>[ core::str::from_utf8 ](v: &'a [u8]) -> (r: Result<
    &'a str,
    core::str::Utf8Error,
>)
    ensures
        r is Ok <==> valid_utf8(v@),
        r is Ok ==> r->Ok_0.spec_bytes() == v@,
;

/// Errors of the reading side.
#[derive(Debug)]
pub enum Error {
    Message(String),
    /// Fewer bytes remain than a read asks for.
    Eof,
    /// A boolean byte that is neither 0 nor 1.
    InvalidBool(u8),
    /// An option tag that is neither 0 nor 1.
    InvalidOptionTag(u8),
    /// An enum variant index out of the enum's range.
    InvalidEnumDiscriminant(u32),
    InvalidChar,
    /// String bytes that are not UTF-8.
    Utf8Error(core::str::Utf8Error),
    /// A declared length larger than the bytes that follow it.
    BufferTooSmall,
}

/// Forward-only reader over a borrowed input; the position never moves back.
pub struct Deserializer<'de> {
    input: &'de [u8],
    pos: usize,
}

impl<'de> Deserializer<'de> {
    /// The whole input.
    pub closed spec fn data(&self) -> Seq<u8> {
        self.input@
    }

    /// The index of the next byte to be read.
    pub closed spec fn pos(&self) -> nat {
        self.pos as nat
    }

    pub open spec fn wf(&self) -> bool {
        self.pos() <= self.data().len()
    }

    /// The bytes not read yet.
    pub open spec fn rest(&self) -> Seq<u8> {
        self.data().subrange(self.pos() as int, self.data().len() as int)
    }

    /// The `n` bytes that follow the position.
    pub open spec fn ahead(&self, n: nat) -> Seq<u8> {
        self.data().subrange(self.pos() as int, (self.pos() + n) as int)
    }

    /// The reader advanced by `n` bytes over the same input.
    pub open spec fn advanced(&self, old: &Self, n: nat) -> bool {
        &&& self.data() == old.data()
        &&& self.pos() == old.pos() + n
        &&& self.wf()
    }

    pub fn new(input: &'de [u8]) -> (d: Self)
        ensures
            d.wf(),
            d.data() == input@,
            d.pos() == 0,
    {
        Deserializer { input, pos: 0 }
    }

    pub fn remaining(&self) -> (r: usize)
        requires
            self.wf(),
        ensures
            r == self.data().len() - self.pos(),
    {
        self.input.len() - self.pos
    }

    pub fn read_u8(&mut self) -> (r: Result<u8, Error>)
        requires
            old(self).wf(),
        ensures
            old(self).pos() < old(self).data().len() ==> {
                &&& r == Ok::<u8, Error>(old(self).data()[old(self).pos() as int])
                &&& final(self).advanced(old(self), 1)
            },
            old(self).pos() >= old(self).data().len() ==> {
                &&& r matches Err(Error::Eof)
                &&& final(self).advanced(old(self), 0)
            },
            decode(Shape::U8, old(self).rest()) == match r {
                Ok(v) => Some((WireValue::U8(v), 1nat)),
                Err(_) => None,
            },
    {
        proof {
            assert(old(self).rest().len() >= 1 ==> old(self).rest()[0] == old(self).data()[old(self).pos() as int]);
        }
        if self.pos >= self.input.len() {
            return Err(Error::Eof);
        }
        let v = self.input[self.pos];
        self.pos = self.pos + 1;
        Ok(v)
    }

    /// Borrows the next `len` bytes straight from the input.
    pub fn read_bytes(&mut self, len: usize) -> (r: Result<&'de [u8], Error>)
        requires
            old(self).wf(),
        ensures
            old(self).pos() + len <= old(self).data().len() ==> {
                &&& r is Ok
                &&& r->Ok_0@ == old(self).ahead(len as nat)
                &&& final(self).advanced(old(self), len as nat)
            },
            old(self).pos() + len > old(self).data().len() ==> {
                &&& r matches Err(Error::Eof)
                &&& final(self).advanced(old(self), 0)
            },
    {
        if len > self.input.len() - self.pos {
            return Err(Error::Eof);
        }
        let input: &'de [u8] = self.input;
        let slice = &input[self.pos..self.pos + len];
        self.pos = self.pos + len;
        Ok(slice)
    }

    pub fn read_u16(&mut self) -> (r: Result<u16, Error>)
        requires
            old(self).wf(),
        ensures
            old(self).pos() + 2 <= old(self).data().len() ==> {
                &&& r is Ok
                &&& le_u16(r->Ok_0) == old(self).ahead(2)
                &&& final(self).advanced(old(self), 2)
            },
            old(self).pos() + 2 > old(self).data().len() ==> {
                &&& r matches Err(Error::Eof)
                &&& final(self).advanced(old(self), 0)
            },
            decode(Shape::U16, old(self).rest()) == match r {
                Ok(v) => Some((WireValue::U16(v), 2nat)),
                Err(_) => None,
            },
    {
        proof {
            lemma_le_facts();
            if old(self).rest().len() >= 2 {
                assert(old(self).rest().subrange(0, 2) =~= old(self).ahead(2));
            }
        }
        let bytes = self.read_bytes(2)?;
        proof {
            lemma_le_facts();
        }
        Ok(u16_from_le_bytes(bytes))
    }

    pub fn read_u32(&mut self) -> (r: Result<u32, Error>)
        requires
            old(self).wf(),
        ensures
            old(self).pos() + 4 <= old(self).data().len() ==> {
                &&& r is Ok
                &&& le_u32(r->Ok_0) == old(self).ahead(4)
                &&& final(self).advanced(old(self), 4)
            },
            old(self).pos() + 4 > old(self).data().len() ==> {
                &&& r matches Err(Error::Eof)
                &&& final(self).advanced(old(self), 0)
            },
            decode(Shape::U32, old(self).rest()) == match r {
                Ok(v) => Some((WireValue::U32(v), 4nat)),
                Err(_) => None,
            },
    {
        proof {
            lemma_le_facts();
            if old(self).rest().len() >= 4 {
                assert(old(self).rest().subrange(0, 4) =~= old(self).ahead(4));
            }
        }
        let bytes = self.read_bytes(4)?;
        proof {
            lemma_le_facts();
        }
        Ok(u32_from_le_bytes(bytes))
    }

    pub fn read_u64(&mut self) -> (r: Result<u64, Error>)
        requires
            old(self).wf(),
        ensures
            old(self).pos() + 8 <= old(self).data().len() ==> {
                &&& r is Ok
                &&& le_u64(r->Ok_0) == old(self).ahead(8)
                &&& final(self).advanced(old(self), 8)
            },
            old(self).pos() + 8 > old(self).data().len() ==> {
                &&& r matches Err(Error::Eof)
                &&& final(self).advanced(old(self), 0)
            },
            decode(Shape::U64, old(self).rest()) == match r {
                Ok(v) => Some((WireValue::U64(v), 8nat)),
                Err(_) => None,
            },
    {
        proof {
            lemma_le_facts();
            if old(self).rest().len() >= 8 {
                assert(old(self).rest().subrange(0, 8) =~= old(self).ahead(8));
            }
        }
        let bytes = self.read_bytes(8)?;
        proof {
            lemma_le_facts();
        }
        Ok(u64_from_le_bytes(bytes))
    }

    pub fn read_i8(&mut self) -> (r: Result<i8, Error>)
        requires
            old(self).wf(),
        ensures
            old(self).pos() < old(self).data().len() ==> {
                &&& r is Ok
                &&& le_i8(r->Ok_0) == old(self).ahead(1)
                &&& final(self).advanced(old(self), 1)
            },
            old(self).pos() >= old(self).data().len() ==> {
                &&& r matches Err(Error::Eof)
                &&& final(self).advanced(old(self), 0)
            },
            decode(Shape::I8, old(self).rest()) == match r {
                Ok(v) => Some((WireValue::I8(v), 1nat)),
                Err(_) => None,
            },
    {
        proof {
            assert(old(self).rest().len() >= 1 ==> old(self).rest()[0] == old(self).data()[old(self).pos() as int]);
        }
        let b = self.read_u8()?;
        let v = b as i8;
        proof {
            assert((b as i8) as u8 == b) by (bit_vector);
            assert(le_i8(v) =~= old(self).ahead(1));
        }
        Ok(v)
    }

    pub fn read_i16(&mut self) -> (r: Result<i16, Error>)
        requires
            old(self).wf(),
        ensures
            old(self).pos() + 2 <= old(self).data().len() ==> {
                &&& r is Ok
                &&& le_i16(r->Ok_0) == old(self).ahead(2)
                &&& final(self).advanced(old(self), 2)
            },
            old(self).pos() + 2 > old(self).data().len() ==> {
                &&& r matches Err(Error::Eof)
                &&& final(self).advanced(old(self), 0)
            },
            decode(Shape::I16, old(self).rest()) == match r {
                Ok(v) => Some((WireValue::I16(v), 2nat)),
                Err(_) => None,
            },
    {
        proof {
            lemma_le_facts();
            if old(self).rest().len() >= 2 {
                assert(old(self).rest().subrange(0, 2) =~= old(self).ahead(2));
            }
        }
        let u = self.read_u16()?;
        assert((u as i16) as u16 == u) by (bit_vector);
        Ok(u as i16)
    }

    pub fn read_i32(&mut self) -> (r: Result<i32, Error>)
        requires
            old(self).wf(),
        ensures
            old(self).pos() + 4 <= old(self).data().len() ==> {
                &&& r is Ok
                &&& le_i32(r->Ok_0) == old(self).ahead(4)
                &&& final(self).advanced(old(self), 4)
            },
            old(self).pos() + 4 > old(self).data().len() ==> {
                &&& r matches Err(Error::Eof)
                &&& final(self).advanced(old(self), 0)
            },
            decode(Shape::I32, old(self).rest()) == match r {
                Ok(v) => Some((WireValue::I32(v), 4nat)),
                Err(_) => None,
            },
    {
        proof {
            lemma_le_facts();
            if old(self).rest().len() >= 4 {
                assert(old(self).rest().subrange(0, 4) =~= old(self).ahead(4));
            }
        }
        let u = self.read_u32()?;
        assert((u as i32) as u32 == u) by (bit_vector);
        Ok(u as i32)
    }

    pub fn read_i64(&mut self) -> (r: Result<i64, Error>)
        requires
            old(self).wf(),
        ensures
            old(self).pos() + 8 <= old(self).data().len() ==> {
                &&& r is Ok
                &&& le_i64(r->Ok_0) == old(self).ahead(8)
                &&& final(self).advanced(old(self), 8)
            },
            old(self).pos() + 8 > old(self).data().len() ==> {
                &&& r matches Err(Error::Eof)
                &&& final(self).advanced(old(self), 0)
            },
            decode(Shape::I64, old(self).rest()) == match r {
                Ok(v) => Some((WireValue::I64(v), 8nat)),
                Err(_) => None,
            },
    {
        proof {
            lemma_le_facts();
            if old(self).rest().len() >= 8 {
                assert(old(self).rest().subrange(0, 8) =~= old(self).ahead(8));
            }
        }
        let u = self.read_u64()?;
        assert((u as i64) as u64 == u) by (bit_vector);
        Ok(u as i64)
    }

    /// A boolean byte: 0 is false, 1 is true, anything else is rejected.
    pub fn read_bool(&mut self) -> (r: Result<bool, Error>)
        requires
            old(self).wf(),
        ensures
            old(self).pos() < old(self).data().len() ==> {
                let b = old(self).data()[old(self).pos() as int];
                &&& b == 0 ==> r == Ok::<bool, Error>(false)
                &&& b == 1 ==> r == Ok::<bool, Error>(true)
                &&& b > 1 ==> (r matches Err(Error::InvalidBool(x)) && x == b)
                &&& final(self).advanced(old(self), 1)
            },
            old(self).pos() >= old(self).data().len() ==> r matches Err(Error::Eof),
            final(self).data() == old(self).data(),
            final(self).wf(),
            decode(Shape::Bool, old(self).rest()) == match r {
                Ok(v) => Some((WireValue::Bool(v), 1nat)),
                Err(_) => None,
            },
    {
        proof {
            assert(old(self).rest().len() >= 1 ==> old(self).rest()[0] == old(self).data()[old(self).pos() as int]);
        }
        let v = self.read_u8()?;
        match v {
            0 => Ok(false),
            1 => Ok(true),
            _ => Err(Error::InvalidBool(v)),
        }
    }

    /// An option tag: `Ok(false)` for absent (0), `Ok(true)` for present (1).
    pub fn read_option_tag(&mut self) -> (r: Result<bool, Error>)
        requires
            old(self).wf(),
        ensures
            old(self).pos() < old(self).data().len() ==> {
                let b = old(self).data()[old(self).pos() as int];
                &&& b == 0 ==> r == Ok::<bool, Error>(false)
                &&& b == 1 ==> r == Ok::<bool, Error>(true)
                &&& b > 1 ==> (r matches Err(Error::InvalidOptionTag(x)) && x == b)
                &&& final(self).advanced(old(self), 1)
            },
            old(self).pos() >= old(self).data().len() ==> r matches Err(Error::Eof),
            final(self).data() == old(self).data(),
            final(self).wf(),
    {
        let v = self.read_u8()?;
        match v {
            0 => Ok(false),
            1 => Ok(true),
            _ => Err(Error::InvalidOptionTag(v)),
        }
    }

    /// An enum's 4-byte variant index, which must be below `variants`.
    pub fn read_variant_index(&mut self, variants: u32) -> (r: Result<u32, Error>)
        requires
            old(self).wf(),
        ensures
            old(self).pos() + 4 <= old(self).data().len() ==> {
                let i = spec_u32_from_le_bytes(old(self).ahead(4));
                &&& i < variants ==> r == Ok::<u32, Error>(i)
                &&& i >= variants ==> (r matches Err(Error::InvalidEnumDiscriminant(x)) && x == i)
                &&& final(self).advanced(old(self), 4)
            },
            old(self).pos() + 4 > old(self).data().len() ==> r matches Err(Error::Eof),
            final(self).data() == old(self).data(),
            final(self).wf(),
    {
        let i = self.read_u32()?;
        proof {
            lemma_le_facts();
        }
        if i < variants {
            Ok(i)
        } else {
            Err(Error::InvalidEnumDiscriminant(i))
        }
    }

    /// A byte buffer: its 8-byte count, then that many bytes, borrowed.
    pub fn read_byte_buf(&mut self) -> (r: Result<&'de [u8], Error>)
        requires
            old(self).wf(),
        ensures
            frame_fits(old(self).data(), old(self).pos()) ==> {
                &&& r is Ok
                &&& r->Ok_0@ == frame_body(old(self).data(), old(self).pos())
                &&& final(self).advanced(old(self), 8 + frame_count(old(self).data(), old(self).pos()))
            },
            !frame_fits(old(self).data(), old(self).pos()) ==> r matches Err(Error::Eof),
            final(self).data() == old(self).data(),
            final(self).wf(),
            decode(Shape::Bytes, old(self).rest()) == match r {
                Ok(b) => Some((WireValue::Bytes(b@), 8 + b@.len())),
                Err(_) => None,
            },
    {
        proof {
            lemma_frame_rest(old(self).data(), old(self).pos());
        }
        let n = self.read_u64()?;
        proof {
            lemma_le_facts();
        }
        if n > (self.input.len() - self.pos) as u64 {
            return Err(Error::Eof);
        }
        self.read_bytes(n as usize)
    }

    /// A string: a byte buffer whose bytes must be UTF-8.
    pub fn read_str(&mut self) -> (r: Result<&'de str, Error>)
        requires
            old(self).wf(),
        ensures
            frame_fits(old(self).data(), old(self).pos()) ==> {
                let body = frame_body(old(self).data(), old(self).pos());
                &&& valid_utf8(body) ==> r is Ok && r->Ok_0.spec_bytes() == body
                &&& !valid_utf8(body) ==> (r matches Err(Error::Utf8Error(_)))
                &&& final(self).advanced(old(self), 8 + frame_count(old(self).data(), old(self).pos()))
            },
            !frame_fits(old(self).data(), old(self).pos()) ==> r matches Err(Error::Eof),
            final(self).data() == old(self).data(),
            final(self).wf(),
            decode(Shape::Str, old(self).rest()) == match r {
                Ok(s) => Some((WireValue::Str(s.spec_bytes()), 8 + s.spec_bytes().len())),
                Err(_) => None,
            },
    {
        proof {
            lemma_frame_rest(old(self).data(), old(self).pos());
        }
        let bytes = self.read_byte_buf()?;
        match core::str::from_utf8(bytes) {
            Ok(s) => Ok(s),
            Err(e) => Err(Error::Utf8Error(e)),
        }
    }
}

/// The count that an 8-byte prefix at `pos` declares.
pub open spec fn frame_count(data: Seq<u8>, pos: nat) -> nat {
    spec_u64_from_le_bytes(data.subrange(pos as int, pos + 8int)) as nat
}

/// A count prefix at `pos`, and the bytes it declares, are all present.
pub open spec fn frame_fits(data: Seq<u8>, pos: nat) -> bool {
    &&& pos + 8 <= data.len()
    &&& pos + 8 + frame_count(data, pos) <= data.len()
}

/// The bytes that a count prefix at `pos` declares.
pub open spec fn frame_body(data: Seq<u8>, pos: nat) -> Seq<u8> {
    data.subrange(pos + 8int, pos + 8int + frame_count(data, pos))
}

/// The element count that a fixed-layout frame declares in its first 8 bytes.
pub open spec fn pod_count(bytes: Seq<u8>) -> nat {
    frame_count(bytes, 0)
}

/// The frame's prefix and every element it declares are present.
pub open spec fn pod_fits<T: PodType>(bytes: Seq<u8>) -> bool {
    &&& bytes.len() >= 8
    &&& 8 + pod_count(bytes) * T::width() <= bytes.len()
}

/// `n` elements read back to back from `b`.
pub open spec fn pod_decode_elems<T: PodType>(b: Seq<u8>, n: nat) -> Seq<T> {
    Seq::new(n, |i: int| T::from_wire(b.subrange(i * T::width(), i * T::width() + T::width())))
}

/// The elements of a fixed-layout frame that fits.
pub open spec fn pod_decoded<T: PodType>(bytes: Seq<u8>) -> Seq<T> {
    pod_decode_elems(
        bytes.subrange(8, (8 + pod_count(bytes) * T::width()) as int),
        pod_count(bytes),
    )
}

/// Zero-copy typed view over the elements of a fixed-layout frame: no byte is
/// copied until an element is asked for.
pub struct PodView<'de, T: PodType> {
    bytes: &'de [u8],
    count: usize,
    marker: core::marker::PhantomData<T>,
}

impl<'de, T: PodType> View for PodView<'de, T> {
    type V = Seq<T>;

    closed spec fn view(&self) -> Seq<T> {
        pod_decode_elems(self.bytes@, self.count as nat)
    }
}

impl<'de, T: PodType> PodView<'de, T> {
    pub closed spec fn wf(&self) -> bool {
        self.bytes@.len() == self.count * T::width()
    }

    /// The borrowed element bytes.
    pub closed spec fn raw(&self) -> Seq<u8> {
        self.bytes@
    }

    pub fn len(&self) -> (r: usize)
        requires
            self.wf(),
        ensures
            r == self@.len(),
    {
        self.count
    }

    pub fn as_bytes(&self) -> (r: &'de [u8])
        ensures
            r@ == self.raw(),
    {
        self.bytes
    }

    pub fn get(&self, i: usize) -> (r: T)
        requires
            self.wf(),
            i < self@.len(),
        ensures
            r == self@[i as int],
    {
        let w = T::width_bytes();
        let n = self.bytes.len();
        proof {
            assert(i * w + w <= self.count * w) by (nonlinear_arith)
                requires
                    i < self.count,
            ;
        }
        T::read_wire(self.bytes, i * w)
    }

    /// The elements, copied once into owned storage.
    pub fn to_vec(&self) -> (r: Vec<T>)
        requires
            self.wf(),
        ensures
            r@ == self@,
    {
        let mut out: Vec<T> = Vec::with_capacity(self.count);
        let mut i: usize = 0;
        while i < self.count
            invariant
                self.wf(),
                i <= self.count,
                out@ == self@.subrange(0, i as int),
            decreases self.count - i,
        {
            let x = self.get(i);
            out.push(x);
            i = i + 1;
            assert(out@ =~= self@.subrange(0, i as int));
        }
        assert(out@ =~= self@);
        out
    }
}

/// Zero-copy decoding of a fixed-layout frame: checks that the declared
/// elements are all present and returns a typed view over them.
pub fn deserialize_pod_borrowed<'de, T: PodType>(bytes: &'de [u8]) -> (r: Result<
    PodView<'de, T>,
    Error,
>)
    ensures
        bytes@.len() < 8 ==> (r matches Err(Error::Eof)),
        bytes@.len() >= 8 && !pod_fits::<T>(bytes@) ==> (r matches Err(Error::BufferTooSmall)),
        pod_fits::<T>(bytes@) ==> {
            &&& r is Ok
            &&& r->Ok_0.wf()
            &&& r->Ok_0@ == pod_decoded::<T>(bytes@)
            &&& r->Ok_0.raw() == bytes@.subrange(8, (8 + pod_count(bytes@) * T::width()) as int)
        },
{
    let mut de = Deserializer::new(bytes);
    let len = de.read_u64()?;
    proof {
        lemma_le_facts();
        assert(de.ahead(0) =~= Seq::<u8>::empty());
        assert(bytes@.subrange(0, 8) == le_u64(len));
    }
    let w = T::width_bytes();
    let rem = de.remaining();
    if len > (rem / w) as u64 {
        proof {
            assert(len * w > rem) by (nonlinear_arith)
                requires
                    len > rem / w,
                    w > 0,
            ;
        }
        return Err(Error::BufferTooSmall);
    }
    let count = len as usize;
    proof {
        assert(count * w <= rem) by (nonlinear_arith)
            requires
                count <= rem / w,
                w > 0,
        ;
    }
    let raw = de.read_bytes(count * w)?;
    let view = PodView { bytes: raw, count, marker: core::marker::PhantomData };
    assert(view@ =~= pod_decoded::<T>(bytes@));
    Ok(view)
}

/// Decoding of a fixed-layout frame into owned storage: the zero-copy view,
/// then one bulk copy.
pub fn deserialize_pod<T: PodType>(bytes: &[u8]) -> (r: Result<Vec<T>, Error>)
    ensures
        bytes@.len() < 8 ==> (r matches Err(Error::Eof)),
        bytes@.len() >= 8 && !pod_fits::<T>(bytes@) ==> (r matches Err(Error::BufferTooSmall)),
        pod_fits::<T>(bytes@) ==> r is Ok && r->Ok_0@ == pod_decoded::<T>(bytes@),
{
    let view = deserialize_pod_borrowed::<T>(bytes)?;
    Ok(view.to_vec())
}

/// The bytes of element `i` inside the encoding of a sequence.
pub proof fn lemma_pod_elems_index<T: PodType>(v: Seq<T>, i: int)
    requires
        0 <= i < v.len(),
    ensures
        pod_elems(v).subrange(i * T::width(), i * T::width() + T::width()) == v[i].wire(),
    decreases v.len(),
{
    let w = T::width();
    let init = v.drop_last();
    lemma_pod_elems_len(init);
    T::lemma_wire(v.last());
    T::lemma_wire(v[i]);
    if i == v.len() - 1 {
        assert(pod_elems(v).subrange(i * w, i * w + w) =~= v.last().wire());
    } else {
        lemma_pod_elems_index(init, i);
        assert(i * w + w <= init.len() * w) by (nonlinear_arith)
            requires
                i < init.len(),
        ;
        assert(pod_elems(v).subrange(i * w, i * w + w) =~= pod_elems(init).subrange(i * w, i * w + w));
    }
}

/// Decoding a fixed-layout frame gives back the elements it was made from,
/// whatever bytes follow it.
pub proof fn lemma_pod_round_trip<T: PodType>(v: Seq<T>, rest: Seq<u8>)
    requires
        v.len() <= u64::MAX,
    ensures
        pod_fits::<T>(pod_frame(v) + rest),
        pod_decoded::<T>(pod_frame(v) + rest) == v,
{
    let w = T::width();
    let bytes = pod_frame(v) + rest;
    lemma_le_facts();
    lemma_pod_elems_len(v);
    assert(bytes.subrange(0, 8) =~= le_u64(v.len() as u64));
    assert(pod_count(bytes) == v.len());
    assert(bytes.subrange(8, (8 + v.len() * w) as int) =~= pod_elems(v));
    let d = pod_decoded::<T>(bytes);
    assert forall|i: int| 0 <= i < v.len() implies d[i] == v[i] by {
        lemma_pod_elems_index(v, i);
        T::lemma_wire(v[i]);
    }
    assert(d =~= v);
}

/// Re-encoding decoded elements gives back the bytes they were read from.
pub proof fn lemma_pod_decode_elems_encode<T: PodType>(b: Seq<u8>, n: nat)
    requires
        b.len() == n * T::width(),
    ensures
        pod_elems(pod_decode_elems::<T>(b, n)) == b,
    decreases n,
{
    let w = T::width() as int;
    let d = pod_decode_elems::<T>(b, n);
    if n == 0 {
        assert(n * w == 0) by (nonlinear_arith)
            requires
                n == 0,
        ;
        assert(b =~= Seq::<u8>::empty());
    } else {
        T::lemma_wire(d[0]);
        let m = n - 1;
        assert(m * w + w == n * w) by (nonlinear_arith)
            requires
                m == n - 1,
        ;
        let init = b.subrange(0, m * w);
        lemma_pod_decode_elems_encode::<T>(init, m as nat);
        assert forall|i: int| 0 <= i < m implies #[trigger] d.drop_last()[i] == pod_decode_elems::<T>(init, m as nat)[i] by {
            assert(i * w + w <= m * w) by (nonlinear_arith)
                requires
                    i < m,
                    0 <= i,
                    w >= 0,
            ;
            assert(b.subrange(i * w, i * w + w) =~= init.subrange(i * w, i * w + w));
        }
        assert(d.drop_last() =~= pod_decode_elems::<T>(init, m as nat));
        T::lemma_from_wire(b.subrange(m * w, m * w + w));
        assert(b =~= init + b.subrange(m * w, m * w + w));
    }
}

/// The zero-copy view and the owned result are the same elements, and those
/// elements encode back to exactly the frame that was decoded: decoding
/// loses nothing.
pub proof fn lemma_pod_decoded_reencodes<T: PodType>(bytes: Seq<u8>)
    requires
        pod_fits::<T>(bytes),
    ensures
        pod_decoded::<T>(bytes).len() == pod_count(bytes),
        pod_frame(pod_decoded::<T>(bytes)) == bytes.subrange(
            0,
            (8 + pod_count(bytes) * T::width()) as int,
        ),
{
    lemma_le_facts();
    let n = pod_count(bytes);
    let body = bytes.subrange(8, (8 + n * T::width()) as int);
    lemma_pod_decode_elems_encode::<T>(body, n);
    assert(bytes.subrange(0, 8) =~= le_u64(n as u64)) by {
        assert(le_u64(spec_u64_from_le_bytes(bytes.subrange(0, 8))) == bytes.subrange(0, 8));
    }
    assert(pod_frame(pod_decoded::<T>(bytes)) =~= bytes.subrange(0, (8 + n * T::width()) as int));
}

/// A frame read at `pos` is the frame at the start of the unread bytes.
proof fn lemma_frame_rest(data: Seq<u8>, pos: nat)
    requires
        pos <= data.len(),
    ensures
        ({
            let rest = data.subrange(pos as int, data.len() as int);
            &&& frame_fits(data, pos) ==> decode_frame(rest) == Some(frame_body(data, pos))
            &&& !frame_fits(data, pos) ==> decode_frame(rest) is None
        }),
{
    let rest = data.subrange(pos as int, data.len() as int);
    if rest.len() >= 8 {
        assert(rest.subrange(0, 8) =~= data.subrange(pos as int, pos + 8int));
        if frame_fits(data, pos) {
            assert(rest.subrange(8, 8 + frame_count(data, pos) as int) =~= frame_body(data, pos));
        }
    }
}

} // verus!
