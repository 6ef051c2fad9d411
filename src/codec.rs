//! Adaptive encoder and decoder, and the length-prefixed byte-buffer codec.
//!
//! Small length-prefixed buffers are written straight into an in-process
//! buffer; everything else goes through the bulk backend, in chunks no larger
//! than it accepts.
use crate::accel::{
    varint, varint_decode, LimcodeDecoder, LimcodeEncoder, MAX_ACCEL_CALL, MAX_VARINT_BYTES,
};
use crate::copy::fast_copy;
use crate::reader::{frame_body, frame_count, frame_fits};
use crate::wire::{framed, le_u16, le_u32, le_u64, lemma_le_facts};
use vstd::bytes::{u64_from_le_bytes, u64_to_le_bytes};
use vstd::prelude::*;

verus! {

/// Largest length-prefixed buffer that takes the in-process path.
pub const FAST_PATH_THRESHOLD: usize = 4096;

/// Sequences with at least this many elements are split across workers.
pub const PARALLEL_THRESHOLD: usize = 1000000;

/// Elements per worker chunk of the parallel path.
pub const PARALLEL_CHUNK: usize = 100000;

/// Which path a payload takes.
#[derive(PartialEq, Eq, Structural, Clone, Copy, Debug)]
pub enum Strategy {
    /// Buffered in process, no backend call.
    InProcess,
    /// Through the bulk backend.
    Accelerated,
    /// Split into chunks handled by concurrent workers.
    Parallel,
}

pub open spec fn spec_strategy(payload_len: nat) -> Strategy {
    if payload_len <= FAST_PATH_THRESHOLD {
        Strategy::InProcess
    } else {
        Strategy::Accelerated
    }
}

/// Path of a byte payload of the given length.
pub fn select_strategy(payload_len: usize) -> (s: Strategy)
    ensures
        s == spec_strategy(payload_len as nat),
{
    if payload_len <= FAST_PATH_THRESHOLD {
        Strategy::InProcess
    } else {
        Strategy::Accelerated
    }
}

pub open spec fn spec_sequence_strategy(count: nat) -> Strategy {
    if count >= PARALLEL_THRESHOLD {
        Strategy::Parallel
    } else {
        Strategy::InProcess
    }
}

/// Path of a homogeneous sequence of the given element count.
pub fn select_sequence_strategy(count: usize) -> (s: Strategy)
    ensures
        s == spec_sequence_strategy(count as nat),
{
    if count >= PARALLEL_THRESHOLD {
        Strategy::Parallel
    } else {
        Strategy::InProcess
    }
}

pub open spec fn spec_chunk_size(len: nat) -> nat {
    if len <= 4096 {
        len
    } else if len <= 65536 {
        16384
    } else if len <= 1048576 {
        32768
    } else {
        49152
    }
}

/// Bytes per backend call for a span of `len` bytes: the whole span when it
/// is small, then chunks that grow with the span, never above the backend's
/// limit.
pub fn chunk_size_for(len: usize) -> (c: usize)
    ensures
        c == spec_chunk_size(len as nat),
        c <= MAX_ACCEL_CALL,
        len > 0 ==> c > 0,
{
    if len <= 4096 {
        len
    } else if len <= 65536 {
        16 * 1024
    } else if len <= 1048576 {
        32 * 1024
    } else {
        48 * 1024
    }
}

/// Sends `data` to the backend in chunks of `chunk_size_for(data.len())`.
fn write_chunked(acc: &mut LimcodeEncoder, data: &[u8])
    ensures
        final(acc)@ == old(acc)@ + data@,
{
    let len = data.len();
    let chunk = chunk_size_for(len);
    let mut i: usize = 0;
    while i < len
        invariant
            i <= len == data@.len(),
            chunk <= MAX_ACCEL_CALL,
            len > 0 ==> chunk > 0,
            acc@ == old(acc)@ + data@.subrange(0, i as int),
        decreases len - i,
    {
        let end = if len - i > chunk {
            i + chunk
        } else {
            len
        };
        let piece = &data[i..end];
        acc.write_bytes(piece);
        i = end;
        assert(acc@ =~= old(acc)@ + data@.subrange(0, i as int));
    }
    assert(data@.subrange(0, len as int) =~= data@);
}

/// Encoder with two write surfaces: an in-process buffer and, once engaged,
/// the bulk backend. Its output is the backend's bytes followed by the
/// buffered ones, and every backend write first moves the buffered bytes
/// over, so the output is always the writes in order.
pub struct Encoder {
    inner: Option<LimcodeEncoder>,
    fast_buffer: Vec<u8>,
}

impl View for Encoder {
    type V = Seq<u8>;

    closed spec fn view(&self) -> Seq<u8> {
        match self.inner {
            Some(e) => e@ + self.fast_buffer@,
            None => self.fast_buffer@,
        }
    }
}

impl Encoder {
    /// The backend has been engaged.
    pub closed spec fn engaged(&self) -> bool {
        self.inner is Some
    }

    pub fn new() -> (e: Self)
        ensures
            e@ == Seq::<u8>::empty(),
            !e.engaged(),
    {
        Encoder { inner: None, fast_buffer: Vec::new() }
    }

    /// Takes the backend out, creating it on first use, with every buffered
    /// byte moved into it.
    fn take_backend(&mut self) -> (acc: LimcodeEncoder)
        ensures
            acc@ == old(self)@,
            final(self)@ == Seq::<u8>::empty(),
            !final(self).engaged(),
    {
        let mut acc = match self.inner.take() {
            Some(e) => e,
            None => LimcodeEncoder::new(),
        };
        write_chunked(&mut acc, self.fast_buffer.as_slice());
        self.fast_buffer.clear();
        acc
    }

    pub fn write_u8(&mut self, value: u8)
        ensures
            final(self)@ == old(self)@.push(value),
            final(self).engaged(),
    {
        let mut acc = self.take_backend();
        acc.write_u8(value);
        self.inner = Some(acc);
        assert(self@ =~= old(self)@.push(value));
    }

    pub fn write_u16(&mut self, value: u16)
        ensures
            final(self)@ == old(self)@ + le_u16(value),
            final(self).engaged(),
    {
        let mut acc = self.take_backend();
        acc.write_u16(value);
        self.inner = Some(acc);
        assert(self@ =~= old(self)@ + le_u16(value));
    }

    pub fn write_u32(&mut self, value: u32)
        ensures
            final(self)@ == old(self)@ + le_u32(value),
            final(self).engaged(),
    {
        let mut acc = self.take_backend();
        acc.write_u32(value);
        self.inner = Some(acc);
        assert(self@ =~= old(self)@ + le_u32(value));
    }

    pub fn write_u64(&mut self, value: u64)
        ensures
            final(self)@ == old(self)@ + le_u64(value),
            final(self).engaged(),
    {
        let mut acc = self.take_backend();
        acc.write_u64(value);
        self.inner = Some(acc);
        assert(self@ =~= old(self)@ + le_u64(value));
    }

    /// Raw bytes, with no count; sent to the backend in bounded chunks.
    pub fn write_bytes(&mut self, data: &[u8])
        ensures
            final(self)@ == old(self)@ + data@,
            final(self).engaged(),
    {
        let mut acc = self.take_backend();
        write_chunked(&mut acc, data);
        self.inner = Some(acc);
        assert(self@ =~= old(self)@ + data@);
    }

    /// A LEB128 varint.
    pub fn write_varint(&mut self, value: u64)
        ensures
            final(self)@ == old(self)@ + varint(value as nat),
            final(self).engaged(),
    {
        let mut acc = self.take_backend();
        acc.write_varint(value);
        self.inner = Some(acc);
        assert(self@ =~= old(self)@ + varint(value as nat));
    }

    /// A byte buffer as the wire format has it: the 8-byte count, then the
    /// bytes. Up to `FAST_PATH_THRESHOLD` bytes it stays in process.
    pub fn write_vec_bincode(&mut self, data: &[u8])
        ensures
            final(self)@ == old(self)@ + framed(data@),
            spec_strategy(data@.len()) == Strategy::InProcess ==> final(self).engaged()
                == old(self).engaged(),
    {
        match select_strategy(data.len()) {
            Strategy::InProcess => {
                let prefix = u64_to_le_bytes(data.len() as u64);
                self.fast_buffer.extend_from_slice(prefix.as_slice());
                self.fast_buffer.extend_from_slice(data);
                assert(self@ =~= old(self)@ + framed(data@));
            },
            _ => {
                let mut acc = self.take_backend();
                acc.write_u64(data.len() as u64);
                write_chunked(&mut acc, data);
                self.inner = Some(acc);
                assert(self@ =~= old(self)@ + framed(data@));
            },
        }
    }

    /// Bytes written so far.
    pub fn size(&self) -> (r: usize)
        requires
            self@.len() <= usize::MAX,
        ensures
            r == self@.len(),
    {
        let backend = match &self.inner {
            Some(e) => e.size(),
            None => 0,
        };
        backend + self.fast_buffer.len()
    }

    /// The encoded bytes. Without the backend the in-process buffer is
    /// handed over as it is; otherwise the buffered bytes are moved to the
    /// backend and its buffer is returned.
    pub fn finish(self) -> (r: Vec<u8>)
        ensures
            r@ == self@,
    {
        let Encoder { inner, fast_buffer } = self;
        match inner {
            None => fast_buffer,
            Some(e) => {
                let mut acc = e;
                write_chunked(&mut acc, fast_buffer.as_slice());
                acc.into_vec()
            },
        }
    }
}

impl Default for Encoder {
    fn default() -> (e: Self)
        ensures
            e@ == Seq::<u8>::empty(),
            !e.engaged(),
    {
        Encoder::new()
    }
}

/// Decoder over a borrowed input; every read moves forward.
pub struct Decoder<'a> {
    inner: LimcodeDecoder<'a>,
}

impl<'a> Decoder<'a> {
    /// The bytes not read yet.
    pub closed spec fn rest(&self) -> Seq<u8> {
        self.inner.rest()
    }

    pub closed spec fn wf(&self) -> bool {
        self.inner.wf()
    }

    pub fn new(data: &'a [u8]) -> (d: Self)
        ensures
            d.wf(),
            d.rest() == data@,
    {
        let d = Decoder { inner: LimcodeDecoder::new(data) };
        assert(d.rest() =~= data@);
        d
    }

    pub fn read_u8(&mut self) -> (r: Result<u8, &'static str>)
        requires
            old(self).wf(),
        ensures
            final(self).wf(),
            old(self).rest().len() >= 1 ==> r == Ok::<u8, &'static str>(old(self).rest()[0])
                && final(self).rest() == old(self).rest().subrange(1, old(self).rest().len() as int),
            old(self).rest().len() < 1 ==> r is Err && final(self).rest() == old(self).rest(),
    {
        let r = match self.inner.read_u8() {
            Some(v) => Ok(v),
            None => Err("Failed to read u8"),
        };
        assert(self.rest() =~= old(self).rest().subrange(
            old(self).rest().len() - self.rest().len(),
            old(self).rest().len() as int,
        ));
        r
    }

    pub fn read_u16(&mut self) -> (r: Result<u16, &'static str>)
        requires
            old(self).wf(),
        ensures
            final(self).wf(),
            old(self).rest().len() >= 2 ==> r is Ok && le_u16(r->Ok_0) == old(self).rest().subrange(0, 2)
                && final(self).rest() == old(self).rest().subrange(2, old(self).rest().len() as int),
            old(self).rest().len() < 2 ==> r is Err && final(self).rest() == old(self).rest(),
    {
        let r = match self.inner.read_u16() {
            Some(v) => Ok(v),
            None => Err("Failed to read u16"),
        };
        assert(self.rest() =~= old(self).rest().subrange(
            old(self).rest().len() - self.rest().len(),
            old(self).rest().len() as int,
        ));
        r
    }

    pub fn read_u32(&mut self) -> (r: Result<u32, &'static str>)
        requires
            old(self).wf(),
        ensures
            final(self).wf(),
            old(self).rest().len() >= 4 ==> r is Ok && le_u32(r->Ok_0) == old(self).rest().subrange(0, 4)
                && final(self).rest() == old(self).rest().subrange(4, old(self).rest().len() as int),
            old(self).rest().len() < 4 ==> r is Err && final(self).rest() == old(self).rest(),
    {
        let r = match self.inner.read_u32() {
            Some(v) => Ok(v),
            None => Err("Failed to read u32"),
        };
        assert(self.rest() =~= old(self).rest().subrange(
            old(self).rest().len() - self.rest().len(),
            old(self).rest().len() as int,
        ));
        r
    }

    pub fn read_u64(&mut self) -> (r: Result<u64, &'static str>)
        requires
            old(self).wf(),
        ensures
            final(self).wf(),
            old(self).rest().len() >= 8 ==> r is Ok && le_u64(r->Ok_0) == old(self).rest().subrange(0, 8)
                && final(self).rest() == old(self).rest().subrange(8, old(self).rest().len() as int),
            old(self).rest().len() < 8 ==> r is Err && final(self).rest() == old(self).rest(),
    {
        let r = match self.inner.read_u64() {
            Some(v) => Ok(v),
            None => Err("Failed to read u64"),
        };
        assert(self.rest() =~= old(self).rest().subrange(
            old(self).rest().len() - self.rest().len(),
            old(self).rest().len() as int,
        ));
        r
    }

    /// Fills `out` with the next `out.len()` bytes, in backend calls no
    /// larger than `chunk_size_for(out.len())`; when fewer bytes remain it
    /// fails and reads nothing.
    pub fn read_bytes(&mut self, out: &mut [u8]) -> (r: Result<(), &'static str>)
        requires
            old(self).wf(),
        ensures
            final(self).wf(),
            old(out)@.len() <= old(self).rest().len() ==> r is Ok && final(out)@ == old(self).rest().subrange(0, old(out)@.len() as int)
                && final(self).rest() == old(self).rest().subrange(old(out)@.len() as int, old(self).rest().len() as int),
            old(out)@.len() > old(self).rest().len() ==> r is Err && final(self).rest() == old(self).rest() && final(out)@ == old(out)@,
    {
        let len = out.len();
        if len > self.inner.remaining() {
            return Err("Failed to read bytes");
        }
        let chunk = chunk_size_for(len);
        let mut i: usize = 0;
        while i < len
            invariant
                self.inner.wf(),
                i <= len == out@.len(),
                len <= old(self).rest().len(),
                chunk <= MAX_ACCEL_CALL,
                len > 0 ==> chunk > 0,
                self.inner.input() == old(self).inner.input(),
                self.inner.pos() == old(self).inner.pos() + i,
                out@.subrange(0, i as int) == old(self).rest().subrange(0, i as int),
            decreases len - i,
        {
            let end = if len - i > chunk {
                i + chunk
            } else {
                len
            };
            let ghost rest = self.inner.rest();
            let ok = self.inner.read_bytes_into(out, i, end - i);
            assert(rest =~= old(self).rest().subrange(i as int, old(self).rest().len() as int));
            assert(out@.subrange(0, end as int) =~= old(self).rest().subrange(0, end as int));
            i = end;
        }
        assert(out@ =~= out@.subrange(0, len as int));
        assert(self.rest() =~= old(self).rest().subrange(len as int, old(self).rest().len() as int));
        Ok(())
    }

    /// A LEB128 varint of at most `MAX_VARINT_BYTES` bytes.
    pub fn read_varint(&mut self) -> (r: Result<u64, &'static str>)
        requires
            old(self).wf(),
        ensures
            final(self).wf(),
            varint_decode(old(self).rest(), MAX_VARINT_BYTES as nat) is Some ==> {
                let (v, n) = varint_decode(old(self).rest(), MAX_VARINT_BYTES as nat)->Some_0;
                &&& r == Ok::<u64, &'static str>(v as u64)
                &&& final(self).rest() == old(self).rest().subrange(n as int, old(self).rest().len() as int)
            },
            varint_decode(old(self).rest(), MAX_VARINT_BYTES as nat) is None ==> r is Err,
    {
        match self.inner.read_varint() {
            Some(v) => {
                assert(self.rest() =~= old(self).rest().subrange(
                    old(self).rest().len() - self.rest().len(),
                    old(self).rest().len() as int,
                ));
                Ok(v)
            },
            None => Err("Failed to read varint"),
        }
    }

    /// A byte buffer as the wire format has it: the 8-byte count, then the bytes.
    pub fn read_vec_bincode(&mut self) -> (r: Result<Vec<u8>, &'static str>)
        requires
            old(self).wf(),
        ensures
            final(self).wf(),
            frame_fits(old(self).rest(), 0) ==> r is Ok && r->Ok_0@ == frame_body(old(self).rest(), 0)
                && final(self).rest() == old(self).rest().subrange(8int + frame_count(old(self).rest(), 0), old(self).rest().len() as int),
            !frame_fits(old(self).rest(), 0) ==> r is Err,
    {
        let len = self.read_u64()?;
        proof {
            lemma_le_facts();
        }
        if len > self.inner.remaining() as u64 {
            return Err("Failed to read bytes");
        }
        let mut data = vec![0u8; len as usize];
        let ghost mid = self.rest();
        self.read_bytes(data.as_mut_slice())?;
        assert(frame_body(old(self).rest(), 0) =~= mid.subrange(0, len as int));
        assert(self.rest() =~= old(self).rest().subrange(8 + len as int, old(self).rest().len() as int));
        Ok(data)
    }

    /// Bytes not read yet.
    pub fn remaining(&self) -> (r: usize)
        requires
            self.wf(),
        ensures
            r == self.rest().len(),
    {
        self.inner.remaining()
    }
}

/// The length-prefixed encoding of a byte buffer, its payload copied with the
/// size-tiered copy engine.
pub fn serialize_bincode(data: &[u8]) -> (r: Vec<u8>)
    requires
        data@.len() + 8 <= usize::MAX,
    ensures
        r@ == framed(data@),
{
    let mut buf: Vec<u8> = Vec::with_capacity(data.len() + 8);
    let prefix = u64_to_le_bytes(data.len() as u64);
    buf.extend_from_slice(prefix.as_slice());
    fast_copy(&mut buf, data);
    buf
}

/// Zero-copy decoding of a length-prefixed byte buffer: the payload is
/// borrowed from the input after its declared length is checked.
pub fn deserialize_bincode(data: &[u8]) -> (r: Result<&[u8], &'static str>)
    ensures
        frame_fits(data@, 0) ==> r is Ok && r->Ok_0@ == frame_body(data@, 0),
        !frame_fits(data@, 0) ==> r is Err,
{
    if data.len() < 8 {
        return Err("Buffer too small");
    }
    let len = u64_from_le_bytes(&data[0..8]);
    if len > (data.len() - 8) as u64 {
        return Err("Buffer too small");
    }
    let n = len as usize;
    Ok(&data[8..8 + n])
}

/// The same decoding without the length check, for inputs whose length
/// prefix the caller already knows to be within bounds: that is its
/// precondition, so no check is left to make at run time.
pub fn deserialize_bincode_unchecked(data: &[u8]) -> (r: &[u8])
    requires
        frame_fits(data@, 0),
    ensures
        r@ == frame_body(data@, 0),
{
    let total = data.len();
    let declared = u64_from_le_bytes(&data[0..8]);
    let len = declared as usize;
    assert(len == declared);
    &data[8..8 + len]
}

/// Decoding the length-prefixed encoding of a buffer gives the buffer back,
/// having read exactly that encoding, whatever follows it.
pub proof fn lemma_bincode_round_trip(data: Seq<u8>, rest: Seq<u8>)
    requires
        data.len() <= u64::MAX,
    ensures
        frame_fits(framed(data) + rest, 0),
        frame_body(framed(data) + rest, 0) == data,
        8 + frame_count(framed(data) + rest, 0) == framed(data).len(),
{
    lemma_le_facts();
    let b = framed(data) + rest;
    assert(b.subrange(0, 8) =~= le_u64(data.len() as u64));
    assert(b.subrange(8, 8int + data.len()) =~= data);
}

} // verus!
