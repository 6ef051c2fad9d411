//! Size-tiered bulk copy engine.
//!
//! Small copies stay cache-resident; larger ones run as a block loop
//! aligned on the destination, with byte-wise head and tail; the largest
//! touch every destination page before the copy so that the loop does not
//! stall on page faults.
use vstd::prelude::*;

verus! {

/// Largest copy that runs as a plain cache-resident copy.
pub const CACHE_COPY_MAX: usize = 65536;

/// Copies longer than this touch every destination page first.
pub const PREFAULT_THRESHOLD: usize = 16777216;

/// Stride of the page-touching pass.
pub const PAGE_SIZE: usize = 4096;

/// How a copy of a given length is carried out.
#[derive(PartialEq, Eq, Structural, Clone, Copy, Debug)]
pub enum CopyTier {
    /// Plain copy that stays in cache.
    Cached,
    /// Aligned block loop.
    Streaming,
    /// Page-touching pass, then the aligned block loop.
    Prefaulted,
}

pub open spec fn spec_copy_tier(len: nat) -> CopyTier {
    if len <= CACHE_COPY_MAX {
        CopyTier::Cached
    } else if len > PREFAULT_THRESHOLD {
        CopyTier::Prefaulted
    } else {
        CopyTier::Streaming
    }
}

/// The one place where the copy thresholds are decided.
pub fn select_copy_tier(len: usize) -> (t: CopyTier)
    ensures
        t == spec_copy_tier(len as nat),
{
    if len <= CACHE_COPY_MAX {
        CopyTier::Cached
    } else if len > PREFAULT_THRESHOLD {
        CopyTier::Prefaulted
    } else {
        CopyTier::Streaming
    }
}

/// Width of the vector registers that the block loop is laid out for; each
/// width falls back to the next narrower one.
#[derive(PartialEq, Eq, Structural, Clone, Copy, Debug)]
pub enum VectorWidth {
    W64,
    W32,
    W16,
}

impl VectorWidth {
    pub open spec fn spec_bytes(self) -> nat {
        match self {
            VectorWidth::W64 => 64,
            VectorWidth::W32 => 32,
            VectorWidth::W16 => 16,
        }
    }

    pub fn bytes(&self) -> (r: usize)
        ensures
            r == self.spec_bytes(),
    {
        match self {
            VectorWidth::W64 => 64,
            VectorWidth::W32 => 32,
            VectorWidth::W16 => 16,
        }
    }

    /// The next width in the fallback chain.
    pub fn narrower(&self) -> (r: Option<VectorWidth>)
        ensures
            r is Some ==> r->Some_0.spec_bytes() * 2 == self.spec_bytes(),
            r is None <==> *self == VectorWidth::W16,
    {
        match self {
            VectorWidth::W64 => Some(VectorWidth::W32),
            VectorWidth::W32 => Some(VectorWidth::W16),
            VectorWidth::W16 => None,
        }
    }
}

/// `dst` after `src[0..i]` has been copied to `at` over `old`.
pub open spec fn copied_prefix(old: Seq<u8>, at: int, src: Seq<u8>, i: int) -> Seq<u8> {
    old.subrange(0, at) + src.subrange(0, i) + old.subrange(at + i, old.len() as int)
}

/// Copies `src[from..to]` to `dst[at + from..at + to]`.
fn copy_range(dst: &mut Vec<u8>, at: usize, src: &[u8], from: usize, to: usize)
    requires
        from <= to <= src@.len(),
        at + src@.len() <= old(dst)@.len(),
    ensures
        final(dst)@.len() == old(dst)@.len(),
        forall|k: int|
            0 <= k < final(dst)@.len() ==> #[trigger] final(dst)@[k] == if at + from <= k < at
                + to {
                src@[k - at]
            } else {
                old(dst)@[k]
            },
{
    let dlen = dst.len();
    let mut i = from;
    while i < to
        invariant
            dlen == old(dst)@.len(),
            from <= i <= to <= src@.len(),
            at + src@.len() <= old(dst)@.len(),
            dst@.len() == old(dst)@.len(),
            forall|k: int|
                0 <= k < dst@.len() ==> #[trigger] dst@[k] == if at + from <= k < at + i {
                    src@[k - at]
                } else {
                    old(dst)@[k]
                },
        decreases to - i,
    {
        dst[at + i] = src[i];
        i = i + 1;
    }
}

/// Copies `src` into `dst[at..at + src.len()]` as the streaming tier lays it
/// out: bytes one by one up to the next `width` boundary of the destination,
/// then blocks of two vectors, then the tail shorter than a block.
pub fn fast_nt_memcpy(dst: &mut Vec<u8>, at: usize, src: &[u8], width: VectorWidth)
    requires
        at + src@.len() <= old(dst)@.len(),
    ensures
        final(dst)@ == copied_prefix(old(dst)@, at as int, src@, src@.len() as int),
{
    let len = src.len();
    let w = width.bytes();
    let block = 2 * w;
    let dlen = dst.len();
    let mut i: usize = 0;
    // Head: reach the alignment boundary of the destination.
    while i < len && (at + i) % w != 0
        invariant
            dlen == old(dst)@.len(),
            w >= 16,
            i <= len == src@.len(),
            at + len <= old(dst)@.len(),
            dst@ == copied_prefix(old(dst)@, at as int, src@, i as int),
        decreases len - i,
    {
        copy_range(dst, at, src, i, i + 1);
        i = i + 1;
        assert(dst@ =~= copied_prefix(old(dst)@, at as int, src@, i as int));
    }
    // Body: whole blocks.
    while len - i >= block
        invariant
            i <= len == src@.len(),
            block == 2 * w,
            w >= 16,
            at + len <= old(dst)@.len(),
            dst@ == copied_prefix(old(dst)@, at as int, src@, i as int),
        decreases len - i,
    {
        copy_range(dst, at, src, i, i + block);
        i = i + block;
        assert(dst@ =~= copied_prefix(old(dst)@, at as int, src@, i as int));
    }
    // Tail.
    copy_range(dst, at, src, i, len);
    assert(dst@ =~= copied_prefix(old(dst)@, at as int, src@, len as int));
}

/// Writes a zero at every page stride of `dst[start..start + len]`, so that
/// each page of the region is backed before a copy fills it.
pub fn prefault_pages(dst: &mut Vec<u8>, start: usize, len: usize)
    requires
        start + len <= old(dst)@.len(),
    ensures
        final(dst)@.len() == old(dst)@.len(),
        forall|k: int|
            0 <= k < old(dst)@.len() && !(start <= k < start + len) ==> #[trigger] final(dst)@[k]
                == old(dst)@[k],
        forall|k: int|
            start <= k < start + len && (k - start) % (PAGE_SIZE as int) == 0 ==> #[trigger] final(dst)@[k] == 0u8,
        forall|k: int|
            start <= k < start + len && (k - start) % (PAGE_SIZE as int) != 0 ==> #[trigger] final(dst)@[k] == old(dst)@[k],
{
    let dlen = dst.len();
    let mut off: usize = 0;
    while off < len
        invariant
            dlen == old(dst)@.len(),
            start + len <= old(dst)@.len(),
            dst@.len() == old(dst)@.len(),
            off <= len,
            off < len ==> off % PAGE_SIZE == 0,
            forall|k: int|
                0 <= k < old(dst)@.len() && !(start <= k < start + off) ==> #[trigger] dst@[k]
                    == old(dst)@[k],
            forall|k: int|
                start <= k < start + off && (k - start) % (PAGE_SIZE as int) == 0 ==> #[trigger] dst@[k]
                    == 0u8,
            forall|k: int|
                start <= k < start + off && (k - start) % (PAGE_SIZE as int) != 0 ==> #[trigger] dst@[k]
                    == old(dst)@[k],
        decreases len - off,
    {
        dst[start + off] = 0;
        let next = if len - off <= PAGE_SIZE {
            len
        } else {
            off + PAGE_SIZE
        };
        assert forall|k: int| start + off < k < start + next implies (#[trigger] dst@[k]
            == old(dst)@[k] && (k - start) % (PAGE_SIZE as int) != 0) by {
            assert((k - start) % 4096 != 0) by (nonlinear_arith)
                requires
                    off % 4096 == 0,
                    0 < k - start - off < 4096,
                    off >= 0,
            ;
        }
        off = next;
    }
}

/// Appends `src` to `dst`, choosing the copy tier from the length.
pub fn fast_copy(dst: &mut Vec<u8>, src: &[u8])
    requires
        old(dst)@.len() + src@.len() <= usize::MAX,
    ensures
        final(dst)@ == old(dst)@ + src@,
{
    fast_copy_with(dst, src, VectorWidth::W64)
}

/// Appends `src` to `dst` with the block loop laid out for `width`; every
/// width gives the same bytes.
pub fn fast_copy_with(dst: &mut Vec<u8>, src: &[u8], width: VectorWidth)
    requires
        old(dst)@.len() + src@.len() <= usize::MAX,
    ensures
        final(dst)@ == old(dst)@ + src@,
{
    let at = dst.len();
    let len = src.len();
    match select_copy_tier(len) {
        CopyTier::Cached => {
            dst.extend_from_slice(src);
        },
        CopyTier::Streaming => {
            dst.resize(at + len, 0u8);
            fast_nt_memcpy(dst, at, src, width);
            assert(dst@ =~= old(dst)@ + src@);
        },
        CopyTier::Prefaulted => {
            dst.resize(at + len, 0u8);
            prefault_pages(dst, at, len);
            fast_nt_memcpy(dst, at, src, width);
            assert(dst@ =~= old(dst)@ + src@);
        },
    }
}

} // verus!
