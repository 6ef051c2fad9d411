//! The bulk-path backend: an encoder and a decoder that accept at most
//! `MAX_ACCEL_CALL` bytes per bulk call, a limit that callers are held to by
//! precondition, so every larger span is cut into chunks before it gets here.
use crate::wire::{le_u16, le_u32, le_u64, lemma_le_facts};
use vstd::bytes::{
    u16_from_le_bytes, u16_to_le_bytes, u32_from_le_bytes, u32_to_le_bytes, u64_from_le_bytes,
    u64_to_le_bytes,
};
use vstd::prelude::*;

verus! {

/// Largest span that one bulk call may move (48 KiB).
pub const MAX_ACCEL_CALL: usize = 49152;

/// Most bytes that a varint of a `u64` can take.
pub const MAX_VARINT_BYTES: usize = 10;

/// LEB128 varint: seven bits per byte, low bits first, the high bit set on
/// every byte but the last.
pub open spec fn varint(v: nat) -> Seq<u8>
    decreases v,
{
    if v < 128 {
        seq![v as u8]
    } else {
        seq![(v % 128 + 128) as u8] + varint(v / 128)
    }
}

/// The value and length of the varint at the start of `s`, reading at most
/// `budget` bytes; `None` when it is cut off, too long, or above `u64::MAX`.
pub open spec fn varint_decode(s: Seq<u8>, budget: nat) -> Option<(nat, nat)>
    decreases budget,
{
    if budget == 0 || s.len() == 0 {
        None
    } else if s[0] < 128 {
        Some((s[0] as nat, 1))
    } else {
        match varint_decode(s.drop_first(), (budget - 1) as nat) {
            Some((v, n)) => {
                let x = (s[0] - 128) + 128 * v;
                if x <= u64::MAX {
                    Some((x as nat, n + 1))
                } else {
                    None
                }
            },
            None => None,
        }
    }
}

/// Backend encoder: an owned output buffer.
pub struct LimcodeEncoder {
    buf: Vec<u8>,
}

impl View for LimcodeEncoder {
    type V = Seq<u8>;

    closed spec fn view(&self) -> Seq<u8> {
        self.buf@
    }
}

impl LimcodeEncoder {
    pub fn new() -> (e: Self)
        ensures
            e@ == Seq::<u8>::empty(),
    {
        LimcodeEncoder { buf: Vec::new() }
    }

    pub fn write_u8(&mut self, v: u8)
        ensures
            final(self)@ == old(self)@.push(v),
    {
        self.buf.push(v);
    }

    pub fn write_u16(&mut self, v: u16)
        ensures
            final(self)@ == old(self)@ + le_u16(v),
    {
        let b = u16_to_le_bytes(v);
        self.buf.extend_from_slice(b.as_slice());
    }

    pub fn write_u32(&mut self, v: u32)
        ensures
            final(self)@ == old(self)@ + le_u32(v),
    {
        let b = u32_to_le_bytes(v);
        self.buf.extend_from_slice(b.as_slice());
    }

    pub fn write_u64(&mut self, v: u64)
        ensures
            final(self)@ == old(self)@ + le_u64(v),
    {
        let b = u64_to_le_bytes(v);
        self.buf.extend_from_slice(b.as_slice());
    }

    /// One bulk call: never more than `MAX_ACCEL_CALL` bytes.
    pub fn write_bytes(&mut self, data: &[u8])
        requires
            data@.len() <= MAX_ACCEL_CALL,
        ensures
            final(self)@ == old(self)@ + data@,
    {
        self.buf.extend_from_slice(data);
    }

    pub fn write_varint(&mut self, value: u64)
        ensures
            final(self)@ == old(self)@ + varint(value as nat),
    {
        let mut v = value;
        while v >= 128
            invariant
                self@ + varint(v as nat) == old(self)@ + varint(value as nat),
            decreases v,
        {
            let ghost before = self@;
            self.buf.push((v % 128 + 128) as u8);
            assert(before + varint(v as nat) =~= self@ + varint((v / 128) as nat));
            v = v / 128;
        }
        self.buf.push(v as u8);
        assert(self@ =~= old(self)@ + varint(value as nat));
    }

    pub fn size(&self) -> (r: usize)
        ensures
            r == self@.len(),
    {
        self.buf.len()
    }

    pub fn into_vec(self) -> (r: Vec<u8>)
        ensures
            r@ == self@,
    {
        self.buf
    }
}

/// Backend decoder: a borrowed input and a forward-only position.
pub struct LimcodeDecoder<'a> {
    data: &'a [u8],
    pos: usize,
}

impl<'a> LimcodeDecoder<'a> {
    pub closed spec fn input(&self) -> Seq<u8> {
        self.data@
    }

    pub closed spec fn pos(&self) -> nat {
        self.pos as nat
    }

    pub open spec fn wf(&self) -> bool {
        self.pos() <= self.input().len()
    }

    /// The bytes not read yet.
    pub open spec fn rest(&self) -> Seq<u8> {
        self.input().subrange(self.pos() as int, self.input().len() as int)
    }

    /// `self` is `old` advanced by `n` bytes.
    pub open spec fn advanced(&self, old: &Self, n: nat) -> bool {
        &&& self.input() == old.input()
        &&& self.pos() == old.pos() + n
        &&& self.wf()
    }

    pub fn new(data: &'a [u8]) -> (d: Self)
        ensures
            d.wf(),
            d.input() == data@,
            d.pos() == 0,
    {
        LimcodeDecoder { data, pos: 0 }
    }

    pub fn remaining(&self) -> (r: usize)
        requires
            self.wf(),
        ensures
            r == self.rest().len(),
    {
        self.data.len() - self.pos
    }

    /// Reads `n` bytes into a fresh buffer; `None`, moving nothing, when fewer remain.
    fn take(&mut self, n: usize) -> (r: Option<&'a [u8]>)
        requires
            old(self).wf(),
        ensures
            n <= old(self).rest().len() ==> {
                &&& r is Some
                &&& r->Some_0@ == old(self).rest().subrange(0, n as int)
                &&& final(self).advanced(old(self), n as nat)
            },
            n > old(self).rest().len() ==> r is None && final(self).advanced(old(self), 0),
    {
        if n > self.data.len() - self.pos {
            return None;
        }
        let data: &'a [u8] = self.data;
        let s = &data[self.pos..self.pos + n];
        self.pos = self.pos + n;
        Some(s)
    }

    pub fn read_u8(&mut self) -> (r: Option<u8>)
        requires
            old(self).wf(),
        ensures
            old(self).rest().len() >= 1 ==> {
                &&& r == Some(old(self).rest()[0])
                &&& final(self).advanced(old(self), 1)
            },
            old(self).rest().len() < 1 ==> r is None && final(self).advanced(old(self), 0),
    {
        match self.take(1) {
            Some(s) => Some(s[0]),
            None => None,
        }
    }

    pub fn read_u16(&mut self) -> (r: Option<u16>)
        requires
            old(self).wf(),
        ensures
            old(self).rest().len() >= 2 ==> {
                &&& r is Some
                &&& le_u16(r->Some_0) == old(self).rest().subrange(0, 2)
                &&& final(self).advanced(old(self), 2)
            },
            old(self).rest().len() < 2 ==> r is None && final(self).advanced(old(self), 0),
    {
        proof {
            lemma_le_facts();
        }
        match self.take(2) {
            Some(s) => Some(u16_from_le_bytes(s)),
            None => None,
        }
    }

    pub fn read_u32(&mut self) -> (r: Option<u32>)
        requires
            old(self).wf(),
        ensures
            old(self).rest().len() >= 4 ==> {
                &&& r is Some
                &&& le_u32(r->Some_0) == old(self).rest().subrange(0, 4)
                &&& final(self).advanced(old(self), 4)
            },
            old(self).rest().len() < 4 ==> r is None && final(self).advanced(old(self), 0),
    {
        proof {
            lemma_le_facts();
        }
        match self.take(4) {
            Some(s) => Some(u32_from_le_bytes(s)),
            None => None,
        }
    }

    pub fn read_u64(&mut self) -> (r: Option<u64>)
        requires
            old(self).wf(),
        ensures
            old(self).rest().len() >= 8 ==> {
                &&& r is Some
                &&& le_u64(r->Some_0) == old(self).rest().subrange(0, 8)
                &&& final(self).advanced(old(self), 8)
            },
            old(self).rest().len() < 8 ==> r is None && final(self).advanced(old(self), 0),
    {
        proof {
            lemma_le_facts();
        }
        match self.take(8) {
            Some(s) => Some(u64_from_le_bytes(s)),
            None => None,
        }
    }

    /// One bulk call: copies the next `len` bytes into `out[at..at + len]`.
    pub fn read_bytes_into(&mut self, out: &mut [u8], at: usize, len: usize) -> (ok: bool)
        requires
            old(self).wf(),
            len <= MAX_ACCEL_CALL,
            at + len <= old(out)@.len(),
        ensures
            ok == (len <= old(self).rest().len()),
            ok ==> {
                &&& final(out)@ == old(out)@.subrange(0, at as int) + old(self).rest().subrange(
                    0,
                    len as int,
                ) + old(out)@.subrange(at + len, old(out)@.len() as int)
                &&& final(self).advanced(old(self), len as nat)
            },
            !ok ==> final(out)@ == old(out)@ && final(self).advanced(old(self), 0),
    {
        let src = match self.take(len) {
            Some(s) => s,
            None => {
                return false;
            },
        };
        let olen = out.len();
        let mut i: usize = 0;
        while i < len
            invariant
                olen == old(out)@.len(),
                i <= len == src@.len(),
                at + len <= olen,
                out@ == old(out)@.subrange(0, at as int) + src@.subrange(0, i as int) + old(
                    out,
                )@.subrange(at + i, olen as int),
            decreases len - i,
        {
            out[at + i] = src[i];
            i = i + 1;
            assert(out@ =~= old(out)@.subrange(0, at as int) + src@.subrange(0, i as int) + old(
                out,
            )@.subrange(at + i, olen as int));
        }
        assert(src@.subrange(0, len as int) =~= src@);
        true
    }

    /// Reads a varint of at most `budget` bytes starting at the position.
    fn read_varint_at(&self, at: usize, budget: usize) -> (r: Option<(u64, usize)>)
        requires
            self.wf(),
            at <= self.input().len(),
        ensures
            r is Some <==> varint_decode(self.input().subrange(at as int, self.input().len() as int), budget as nat) is Some,
            r is Some ==> {
                let (v, n) = varint_decode(self.input().subrange(at as int, self.input().len() as int), budget as nat)->Some_0;
                r->Some_0.0 == v && r->Some_0.1 == n
            },
        decreases budget,
    {
        let ghost s = self.input().subrange(at as int, self.input().len() as int);
        if budget == 0 || at >= self.data.len() {
            return None;
        }
        let b = self.data[at];
        if b < 128 {
            return Some((b as u64, 1));
        }
        assert(s.drop_first() =~= self.input().subrange(at + 1, self.input().len() as int));
        proof {
            lemma_varint_decode_len(s.drop_first(), (budget - 1) as nat);
        }
        match self.read_varint_at(at + 1, budget - 1) {
            Some((v, n)) => {
                let low = (b - 128) as u64;
                if v > (u64::MAX - low) / 128 {
                    assert(low + 128 * v > u64::MAX) by (nonlinear_arith)
                        requires
                            v > (u64::MAX - low) / 128,
                            low < 128,
                    ;
                    None
                } else {
                    assert(low + 128 * v <= u64::MAX) by (nonlinear_arith)
                        requires
                            v <= (u64::MAX - low) / 128,
                            low < 128,
                    ;
                    Some((low + 128 * v, n + 1))
                }
            },
            None => None,
        }
    }

    pub fn read_varint(&mut self) -> (r: Option<u64>)
        requires
            old(self).wf(),
        ensures
            varint_decode(old(self).rest(), MAX_VARINT_BYTES as nat) is Some ==> {
                let (v, n) = varint_decode(old(self).rest(), MAX_VARINT_BYTES as nat)->Some_0;
                &&& r == Some(v as u64)
                &&& final(self).advanced(old(self), n)
            },
            varint_decode(old(self).rest(), MAX_VARINT_BYTES as nat) is None ==> r is None
                && final(self).advanced(old(self), 0),
    {
        let dl = self.data.len();
        match self.read_varint_at(self.pos, MAX_VARINT_BYTES) {
            Some((v, n)) => {
                proof {
                    lemma_varint_decode_len(old(self).rest(), MAX_VARINT_BYTES as nat);
                    assert(old(self).rest() =~= self.input().subrange(
                        self.pos as int,
                        self.input().len() as int,
                    ));
                }
                self.pos = self.pos + n;
                Some(v)
            },
            None => None,
        }
    }
}

/// A decoded varint lies within the bytes it was read from.
pub proof fn lemma_varint_decode_len(s: Seq<u8>, budget: nat)
    ensures
        varint_decode(s, budget) is Some ==> {
            let (v, n) = varint_decode(s, budget)->Some_0;
            1 <= n <= s.len() && n <= budget
        },
    decreases budget,
{
    if budget > 0 && s.len() > 0 && s[0] >= 128 {
        lemma_varint_decode_len(s.drop_first(), (budget - 1) as nat);
    }
}

/// `128` to the power `k`.
pub open spec fn pow128(k: nat) -> nat
    decreases k,
{
    if k == 0 {
        1
    } else {
        128 * pow128((k - 1) as nat)
    }
}

/// A value below `128^k` takes at most `k` varint bytes.
pub proof fn lemma_varint_len(v: nat, k: nat)
    requires
        k >= 1,
        v < pow128(k),
    ensures
        varint(v).len() <= k,
    decreases k,
{
    if v >= 128 {
        assert(k >= 2) by {
            if k == 1 {
                assert(pow128(1) == 128 * pow128(0));
            }
        }
        assert(v / 128 < pow128((k - 1) as nat)) by (nonlinear_arith)
            requires
                v < pow128(k),
                pow128(k) == 128 * pow128((k - 1) as nat),
        ;
        lemma_varint_len(v / 128, (k - 1) as nat);
    }
}

/// A varint of at most `budget` bytes decodes back to its value, whatever
/// bytes follow it.
pub proof fn lemma_varint_round_trip_within(v: nat, budget: nat, rest: Seq<u8>)
    requires
        v <= u64::MAX,
        varint(v).len() <= budget,
    ensures
        varint_decode(varint(v) + rest, budget) == Some((v, varint(v).len())),
    decreases v,
{
    let s = varint(v) + rest;
    if v >= 128 {
        let hi = v / 128;
        assert(s.drop_first() =~= varint(hi) + rest);
        lemma_varint_round_trip_within(hi, (budget - 1) as nat, rest);
        assert(s[0] == (v % 128 + 128) as u8);
        assert((v % 128 + 128) as u8 - 128 + 128 * hi == v) by (nonlinear_arith)
            requires
                hi == v / 128,
                v >= 128,
        ;
    }
}

/// Every `u64` written as a varint reads back as itself.
pub proof fn lemma_varint_round_trip(v: u64, rest: Seq<u8>)
    ensures
        varint_decode(varint(v as nat) + rest, MAX_VARINT_BYTES as nat) == Some(
            (v as nat, varint(v as nat).len()),
        ),
{
    reveal_with_fuel(pow128, 11);
    assert(v < pow128(10));
    lemma_varint_len(v as nat, 10);
    lemma_varint_round_trip_within(v as nat, MAX_VARINT_BYTES as nat, rest);
}

} // verus!
