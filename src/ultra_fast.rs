//! Alternative ways of producing the length-prefixed encoding of a byte
//! buffer, each tuned for a different size or reuse pattern. All of them give
//! the same bytes as `serialize_bincode`.
use crate::wire::{framed, le_u64, lemma_le_facts};
use vstd::bytes::u64_to_le_bytes;
use vstd::prelude::*;

verus! {

/// Largest payload that `serialize_hybrid` stages in a fixed 128-byte buffer.
pub const STACK_THRESHOLD: usize = 120;

/// Most buffers a pool keeps.
pub const POOL_CAPACITY: usize = 16;

/// Allocates the exact output size once, then fills it.
pub fn serialize_maybe_uninit(data: &[u8]) -> (r: Vec<u8>)
    requires
        data@.len() + 8 <= usize::MAX,
    ensures
        r@ == framed(data@),
{
    let mut buf: Vec<u8> = Vec::with_capacity(data.len() + 8);
    let prefix = u64_to_le_bytes(data.len() as u64);
    buf.extend_from_slice(prefix.as_slice());
    buf.extend_from_slice(data);
    assert(buf@ =~= framed(data@));
    buf
}

/// Stages the encoding in a fixed `N`-byte buffer, then copies it out.
pub fn serialize_stack_small<const N: usize>(data: &[u8]) -> (r: Vec<u8>)
    requires
        data@.len() + 8 <= N,
    ensures
        r@ == framed(data@),
{
    let mut stage = [0u8; N];
    let prefix = u64_to_le_bytes(data.len() as u64);
    proof {
        lemma_le_facts();
    }
    let total = data.len() + 8;
    assert(framed(data@).len() == total);
    let mut i: usize = 0;
    while i < total
        invariant
            total == data@.len() + 8 <= N,
            framed(data@).len() == total,
            prefix@ == le_u64(data@.len() as u64),
            prefix@.len() == 8,
            i <= total,
            forall|k: int| 0 <= k < i ==> stage@[k] == framed(data@)[k],
        decreases total - i,
    {
        if i < 8 {
            stage[i] = prefix[i];
        } else {
            stage[i] = data[i - 8];
        }
        i = i + 1;
    }
    let mut out: Vec<u8> = Vec::with_capacity(total);
    let mut j: usize = 0;
    while j < total
        invariant
            total == data@.len() + 8 <= N,
            framed(data@).len() == total,
            j <= total,
            forall|k: int| 0 <= k < total ==> stage@[k] == framed(data@)[k],
            out@ == framed(data@).subrange(0, j as int),
        decreases total - j,
    {
        out.push(stage[j]);
        j = j + 1;
        assert(out@ =~= framed(data@).subrange(0, j as int));
    }
    assert(out@ =~= framed(data@));
    out
}

/// Small payloads go through a fixed 128-byte stage, larger ones are written
/// straight into an exactly sized buffer.
pub fn serialize_hybrid(data: &[u8]) -> (r: Vec<u8>)
    requires
        data@.len() + 8 <= usize::MAX,
    ensures
        r@ == framed(data@),
{
    if data.len() <= STACK_THRESHOLD {
        serialize_stack_small::<128>(data)
    } else {
        serialize_maybe_uninit(data)
    }
}

/// Writes the count and the payload directly into one allocation.
pub fn serialize_direct_write(data: &[u8]) -> (r: Vec<u8>)
    requires
        data@.len() + 8 <= usize::MAX,
    ensures
        r@ == framed(data@),
{
    serialize_maybe_uninit(data)
}

/// The encoding of a payload of exactly 64 bytes.
pub fn serialize_simd_64(data: &[u8]) -> (r: Vec<u8>)
    requires
        data@.len() == 64,
    ensures
        r@ == framed(data@),
        r@.len() == 72,
{
    proof {
        lemma_le_facts();
    }
    serialize_stack_small::<72>(data)
}

/// Buffers kept for reuse, at most `POOL_CAPACITY` of them; owned by the
/// caller and passed to each call that draws on it.
pub struct BufferPool {
    bufs: Vec<Vec<u8>>,
}

impl BufferPool {
    /// Buffers held.
    pub closed spec fn held(&self) -> nat {
        self.bufs@.len()
    }

    pub open spec fn wf(&self) -> bool {
        self.held() <= POOL_CAPACITY
    }

    pub fn new() -> (p: Self)
        ensures
            p.wf(),
            p.held() == 0,
    {
        BufferPool { bufs: Vec::new() }
    }

    pub fn len(&self) -> (r: usize)
        ensures
            r == self.held(),
    {
        self.bufs.len()
    }
}

/// Encodes `data` into a buffer taken from the pool when it has one.
pub fn serialize_pooled(pool: &mut BufferPool, data: &[u8]) -> (r: Vec<u8>)
    requires
        old(pool).wf(),
    ensures
        r@ == framed(data@),
        final(pool).wf(),
        old(pool).held() > 0 ==> final(pool).held() == old(pool).held() - 1,
        old(pool).held() == 0 ==> final(pool).held() == 0,
{
    let mut buf = match pool.bufs.pop() {
        Some(b) => b,
        None => Vec::new(),
    };
    buf.clear();
    let prefix = u64_to_le_bytes(data.len() as u64);
    buf.extend_from_slice(prefix.as_slice());
    buf.extend_from_slice(data);
    assert(buf@ =~= framed(data@));
    buf
}

/// Gives a buffer back to the pool; a full pool drops it.
pub fn return_to_pool(pool: &mut BufferPool, buf: Vec<u8>)
    requires
        old(pool).wf(),
    ensures
        final(pool).wf(),
        old(pool).held() < POOL_CAPACITY ==> final(pool).held() == old(pool).held() + 1,
        old(pool).held() >= POOL_CAPACITY ==> final(pool).held() == old(pool).held(),
{
    if pool.bufs.len() < POOL_CAPACITY {
        pool.bufs.push(buf);
    }
}

} // verus!
