//! The parallel chunked codec for large fixed-layout sequences: the sequence
//! is cut into chunks of `PARALLEL_CHUNK` elements, each chunk is encoded by
//! its own worker, and the output is the element count followed by the chunk
//! encodings in chunk order, byte for byte what the sequential path gives.
use crate::codec::{select_sequence_strategy, Strategy, PARALLEL_CHUNK};
use crate::wire::count_prefix;
use crate::writer::{
    append_pod_elems, lemma_pod_elems_concat, lemma_pod_elems_len, pod_elems, pod_frame,
    serialize_pod, Error, PodType,
};
use rayon::iter::ParallelIterator;
use rayon::slice::ParallelSlice;
use vstd::bytes::u64_to_le_bytes;
use vstd::prelude::*;

verus! {

/// Number of chunks of `chunk` elements that `n` elements make.
pub open spec fn chunk_count(n: nat, chunk: nat) -> nat
    recommends
        chunk > 0,
{
    if n % chunk == 0 {
        n / chunk
    } else {
        n / chunk + 1
    }
}

/// Chunk `i` of `s`: `chunk` elements from `i * chunk`, fewer for the last.
pub open spec fn chunk_of<T>(s: Seq<T>, chunk: nat, i: int) -> Seq<T> {
    let start = i * chunk;
    let end = if start + chunk <= s.len() {
        start + chunk
    } else {
        s.len() as int
    };
    s.subrange(start, end)
}

/// The first `k` buffers of `bufs`, concatenated.
pub open spec fn flatten_prefix(bufs: Seq<Seq<u8>>, k: int) -> Seq<u8>
    decreases k,
{
    if k <= 0 {
        Seq::empty()
    } else {
        flatten_prefix(bufs, k - 1) + bufs[k - 1]
    }
}

/// The encodings of the chunks of `s`, in chunk order.
pub open spec fn chunk_encodings<T: PodType>(s: Seq<T>, chunk: nat) -> Seq<Seq<u8>> {
    Seq::new(chunk_count(s.len(), chunk), |i: int| pod_elems(chunk_of(s, chunk, i)))
}

/// Encoding a sequence chunk by chunk, in any chunk size, and joining the
/// chunk encodings in chunk order behind the element count gives exactly its
/// sequential encoding.
pub proof fn lemma_parallel_matches_sequential<T: PodType>(s: Seq<T>, chunk: nat)
    requires
        chunk > 0,
    ensures
        count_prefix(s.len()) + flatten_prefix(
            chunk_encodings(s, chunk),
            chunk_count(s.len(), chunk) as int,
        ) == pod_frame(s),
{
    let n = chunk_count(s.len(), chunk);
    lemma_chunks_flatten(s, chunk, n as int);
    assert(n * chunk >= s.len()) by (nonlinear_arith)
        requires
            chunk > 0,
            n == if s.len() % chunk == 0 {
                s.len() / chunk
            } else {
                s.len() / chunk + 1
            },
    ;
    assert(s.subrange(0, s.len() as int) =~= s);
}

/// The encoding of one chunk, as a worker produces it.
pub fn encode_chunk<T: PodType>(chunk: &[T]) -> (r: Vec<u8>)
    ensures
        r@ == pod_elems(chunk@),
{
    let mut out: Vec<u8> = Vec::new();
    append_pod_elems(&mut out, chunk);
    out
}

/// Writes the encoding of `chunk` over `out`, which has exactly its length.
pub fn fill_pod_chunk<T: PodType>(chunk: &[T], out: &mut [u8])
    requires
        old(out)@.len() == pod_elems(chunk@).len(),
    ensures
        final(out)@ == pod_elems(chunk@),
{
    let bytes = encode_chunk(chunk);
    let n = out.len();
    let mut i: usize = 0;
    while i < n
        invariant
            n == out@.len() == bytes@.len(),
            i <= n,
            out@.subrange(0, i as int) == bytes@.subrange(0, i as int),
        decreases n - i,
    {
        out[i] = bytes[i];
        i = i + 1;
        assert(out@.subrange(0, i as int) =~= bytes@.subrange(0, i as int));
    }
    assert(out@ =~= out@.subrange(0, n as int));
    assert(bytes@ =~= bytes@.subrange(0, n as int));
}

/// Relies on rayon's `par_chunks(chunk).map(f).collect()` over a slice: one
/// result per chunk of `chunk` elements (the last one shorter), collected in
/// chunk order whatever order the workers finish in.
#[verifier::external_body]
fn par_encode_chunks<T: PodType + Sync>(vec: &[T], chunk: usize) -> (r: Vec<Vec<u8>>)
    requires
        chunk > 0,
    ensures
        r@.len() == chunk_count(vec@.len(), chunk as nat),
        forall|i: int|
            0 <= i < r@.len() ==> #[trigger] r@[i]@ == pod_elems(chunk_of(vec@, chunk as nat, i)),
{
    vec.par_chunks(chunk).map(|c| encode_chunk(c)).collect()
}

#[verifier::external_type_specification]
#[verifier::external_body]
pub struct ExScope<'env>(crossbeam::thread::Scope<'env>);

/// Relies on `crossbeam::thread::Scope::spawn`: the worker runs
/// `fill_pod_chunk(part, out)` and is joined before the scope returns, which
/// is before the borrow of `out` ends; by then `out` holds the chunk's
/// encoding. (`spawn` panics only when the system cannot start a thread.)
#[verifier::external_body]
fn spawn_one<'env, T: PodType + Sync>(
    s: &crossbeam::thread::Scope<'env>,
    part: &'env [T],
    out: &'env mut [u8],
)
    requires
        old(out)@.len() == pod_elems(part@).len(),
    ensures
        final(out)@ == pod_elems(part@),
{
    s.spawn(move |_| fill_pod_chunk(part, out));
}

/// Hands chunk after chunk of `src` (`chunk` elements each, the last one
/// shorter) to its own worker, together with the byte range of `dst` that the
/// chunk's encoding occupies: chunk `k` gets `dst[k * chunk * w..]`, cut off
/// at the next chunk's start, so no two workers share a byte.
fn spawn_chunks<'env, T: PodType + Sync>(
    s: &crossbeam::thread::Scope<'env>,
    src: &'env [T],
    dst: &'env mut [u8],
    chunk: usize,
    w: usize,
)
    requires
        chunk > 0,
        w == T::width(),
        old(dst)@.len() == pod_elems(src@).len(),
    ensures
        final(dst)@ == pod_elems(src@),
    decreases src@.len(),
{
    proof {
        lemma_pod_elems_len(src@);
    }
    if src.len() == 0 {
        assert(dst@ =~= pod_elems(src@));
        return;
    }
    let n = if src.len() < chunk {
        src.len()
    } else {
        chunk
    };
    let dl = dst.len();
    proof {
        T::lemma_wire(src@[0]);
        assert(n * w <= src@.len() * w) by (nonlinear_arith)
            requires
                n <= src@.len(),
                w >= 1,
        ;
    }
    let (part, rest) = src.split_at(n);
    let (out, tail) = dst.split_at_mut(n * w);
    proof {
        lemma_pod_elems_len(part@);
        lemma_pod_elems_len(rest@);
        assert(part@ + rest@ =~= src@);
        lemma_pod_elems_concat(part@, rest@);
    }
    spawn_one(s, part, out);
    spawn_chunks(s, rest, tail, chunk, w);
}

/// Relies on `crossbeam::scope`: it runs the closure, then joins every worker
/// spawned in it before it returns; `unwrap` fails only if a worker panicked.
#[verifier::external_body]
fn fill_chunks_scoped<T: PodType + Sync>(src: &[T], dst: &mut [u8], chunk: usize, w: usize)
    requires
        chunk > 0,
        w == T::width(),
        old(dst)@.len() == pod_elems(src@).len(),
    ensures
        final(dst)@ == pod_elems(src@),
{
    crossbeam::scope(|s| spawn_chunks(s, src, dst, chunk, w)).unwrap();
}

/// Concatenating the encodings of the chunks gives the encoding of the
/// elements that the first `k` chunks cover.
pub proof fn lemma_chunks_flatten<T: PodType>(s: Seq<T>, chunk: nat, k: int)
    requires
        chunk > 0,
        0 <= k <= chunk_count(s.len(), chunk),
    ensures
        flatten_prefix(chunk_encodings(s, chunk), k)
            == pod_elems(s.subrange(0, if k * chunk <= s.len() { k * chunk } else { s.len() as int })),
    decreases k,
{
    let bufs = chunk_encodings(s, chunk);
    if k == 0 {
        assert(s.subrange(0, 0) =~= Seq::<T>::empty());
        assert(pod_elems(Seq::<T>::empty()) =~= Seq::<u8>::empty());
        assert(k * chunk == 0) by (nonlinear_arith)
            requires
                k == 0,
        ;
        assert(flatten_prefix(bufs, k) == Seq::<u8>::empty());
    } else {
        lemma_chunks_flatten(s, chunk, k - 1);
        let start = (k - 1) * chunk;
        assert(start < s.len()) by (nonlinear_arith)
            requires
                k <= chunk_count(s.len(), chunk),
                chunk_count(s.len(), chunk) == if s.len() % chunk == 0 { s.len() / chunk } else { s.len() / chunk + 1 },
                k >= 1,
                chunk > 0,
                start == (k - 1) * chunk,
        ;
        assert(start + chunk == k * chunk) by (nonlinear_arith)
            requires
                start == (k - 1) * chunk,
        ;
        let end = if k * chunk <= s.len() { k * chunk } else { s.len() as int };
        assert(s.subrange(0, start) + s.subrange(start, end) =~= s.subrange(0, end));
        lemma_pod_elems_concat(s.subrange(0, start), s.subrange(start, end));
        assert(chunk_of(s, chunk, k - 1) == s.subrange(start, end));
        assert(bufs[k - 1] == pod_elems(s.subrange(start, end)));
        assert(flatten_prefix(bufs, k) == flatten_prefix(bufs, k - 1) + bufs[k - 1]);
        assert(flatten_prefix(bufs, k - 1) == pod_elems(s.subrange(0, start)));
        assert(flatten_prefix(bufs, k) == pod_elems(s.subrange(0, end)));
    }
}

/// The count prefix followed by the chunk buffers, in order.
pub fn merge_chunk_buffers(total: usize, chunks: &Vec<Vec<u8>>) -> (r: Vec<u8>)
    ensures
        r@ == count_prefix(total as nat) + flatten_prefix(
            Seq::new(chunks@.len(), |i: int| chunks@[i]@),
            chunks@.len() as int,
        ),
{
    let ghost bufs = Seq::new(chunks@.len(), |i: int| chunks@[i]@);
    let prefix = u64_to_le_bytes(total as u64);
    let mut result: Vec<u8> = Vec::new();
    result.extend_from_slice(prefix.as_slice());
    let mut i: usize = 0;
    while i < chunks.len()
        invariant
            i <= chunks@.len(),
            bufs == Seq::new(chunks@.len(), |i: int| chunks@[i]@),
            result@ == count_prefix(total as nat) + flatten_prefix(bufs, i as int),
        decreases chunks@.len() - i,
    {
        result.extend_from_slice(chunks[i].as_slice());
        i = i + 1;
        assert(result@ =~= count_prefix(total as nat) + flatten_prefix(bufs, i as int));
    }
    result
}

/// Encodes a fixed-layout sequence; from `PARALLEL_THRESHOLD` elements on,
/// its chunks are encoded by concurrent workers and merged in chunk order.
pub fn serialize_vec_parallel<T: PodType + Sync>(vec: &[T]) -> (r: Result<Vec<u8>, Error>)
    ensures
        r is Ok,
        r->Ok_0@ == pod_frame(vec@),
{
    match select_sequence_strategy(vec.len()) {
        Strategy::Parallel => {
            let chunks = par_encode_chunks(vec, PARALLEL_CHUNK);
            let r = merge_chunk_buffers(vec.len(), &chunks);
            proof {
                let n = chunk_count(vec@.len(), PARALLEL_CHUNK as nat);
                let bufs = Seq::new(chunks@.len(), |i: int| chunks@[i]@);
                assert(bufs =~= chunk_encodings(vec@, PARALLEL_CHUNK as nat));
                lemma_parallel_matches_sequential(vec@, PARALLEL_CHUNK as nat);
            }
            Ok(r)
        },
        _ => serialize_pod(vec),
    }
}

/// Encodes a fixed-layout sequence into one buffer allocated up front; from
/// `PARALLEL_THRESHOLD` elements on, each worker copies its chunk into its
/// own byte range of that buffer.
pub fn serialize_pod_parallel<T: PodType + Sync>(vec: &[T]) -> (r: Result<Vec<u8>, Error>)
    requires
        vec@.len() * T::width() + 8 <= usize::MAX,
    ensures
        r is Ok,
        r->Ok_0@ == pod_frame(vec@),
{
    match select_sequence_strategy(vec.len()) {
        Strategy::Parallel => {
            let w = T::width_bytes();
            proof {
                lemma_pod_elems_len(vec@);
            }
            let total = vec.len() * w;
            let mut result: Vec<u8> = vec![0u8; total + 8];
            let prefix = u64_to_le_bytes(vec.len() as u64);
            {
                let (head, data) = result.as_mut_slice().split_at_mut(8);
                let mut i: usize = 0;
                while i < 8
                    invariant
                        prefix@.len() == 8,
                        head@.len() == 8,
                        i <= 8,
                        forall|k: int| 0 <= k < i ==> head@[k] == prefix@[k],
                    decreases 8 - i,
                {
                    head[i] = prefix[i];
                    i = i + 1;
                }
                assert(head@ =~= prefix@);
                fill_chunks_scoped(vec, data, PARALLEL_CHUNK, w);
            }
            assert(result@ =~= pod_frame(vec@));
            Ok(result)
        },
        _ => serialize_pod(vec),
    }
}

} // verus!
