//! The processing engine: fixed-size segmentation of a byte stream into
//! content-addressed chunks, and integrity-checked reassembly of such chunks
//! back into the original stream.

use vstd::arithmetic::div_mod::lemma_fundamental_div_mod;
use vstd::arithmetic::div_mod::lemma_mod_bound;
use vstd::arithmetic::mul::lemma_mul_inequality;
use vstd::math::min;
use vstd::prelude::*;
use vstd::slice::slice_subrange;
use vstd::slice::slice_to_vec;

use crate::hasher::content_id_of;
use crate::hasher::ContentHasher;
use crate::types::Chunk;
use crate::types::EngineError;
use crate::types::ProcessingResult;

verus! {

/// Number of chunks a stream of `len` bytes yields at chunk size `size`: the
/// ceiling of `len / size`.
pub open spec fn num_chunks(len: int, size: int) -> int
    recommends
        size >= 1,
{
    (len + size - 1) / size
}

/// The bytes of the stride at index `i`: from `i * size` up to the next
/// stride boundary, or up to the end of the stream for the final, possibly
/// shorter, stride.
pub open spec fn stride_of(data: Seq<u8>, size: int, i: int) -> Seq<u8>
    recommends
        size >= 1,
        0 <= i < num_chunks(data.len() as int, size),
{
    data.subrange(i * size, min((i + 1) * size, data.len() as int))
}

/// Everything `process` promises of a successful result for input `data` at
/// chunk size `size`: one chunk per stride, in order, each carrying exactly
/// the stride's bytes, the stride's start offset, and the identifier of those
/// bytes; the input's total size; and a root digest computed over the whole
/// input, independent of the per-chunk identifiers.
pub open spec fn valid_processing_result(res: ProcessingResult, data: Seq<u8>, size: int) -> bool {
    &&& res.chunks@.len() == num_chunks(data.len() as int, size)
    &&& (forall|i: int|
        0 <= i < res.chunks@.len() ==> (#[trigger] res.chunks@[i]).data@ == stride_of(
            data,
            size,
            i,
        ))
    &&& (forall|i: int|
        0 <= i < res.chunks@.len() ==> (#[trigger] res.chunks@[i]).offset == i * size)
    &&& (forall|i: int|
        0 <= i < res.chunks@.len() ==> (#[trigger] res.chunks@[i]).id@ == content_id_of(
            stride_of(data, size, i),
        ))
    &&& res.total_size == data.len()
    &&& res.root_hash@ == content_id_of(data)
}

/// Every chunk's stored identifier matches the digest of its stored bytes.
pub open spec fn chunks_ok(chunks: Seq<Chunk>) -> bool {
    forall|i: int|
        0 <= i < chunks.len() ==> (#[trigger] chunks[i]).id@ == content_id_of(chunks[i].data@)
}

/// The chunks' bytes concatenated in the given order.
pub open spec fn concat_of(chunks: Seq<Chunk>) -> Seq<u8> {
    chunks.map_values(|c: Chunk| c.data@).flatten()
}

/// Bounds of the chunk count: the strides cover the whole stream, and
/// dropping the last stride would fall short of it.
proof fn lemma_num_chunks_bounds(len: int, size: int)
    requires
        size >= 1,
        len >= 0,
    ensures
        num_chunks(len, size) >= 0,
        num_chunks(len, size) * size >= len,
        num_chunks(len, size) * size < len + size,
        len == 0 ==> num_chunks(len, size) == 0,
        len >= 1 ==> num_chunks(len, size) >= 1,
{
    let n = num_chunks(len, size);
    lemma_fundamental_div_mod(len + size - 1, size);
    lemma_mod_bound(len + size - 1, size);
    assert(size * n == len + size - 1 - ((len + size - 1) % size));
    assert(size * n == n * size) by (nonlinear_arith);
    if n < 0 {
        lemma_mul_inequality(n, -1, size);
        assert(-1 * size == -size) by (nonlinear_arith);
    }
    if len >= 1 && n < 1 {
        lemma_mul_inequality(n, 0, size);
        assert(0 * size == 0) by (nonlinear_arith);
    }
    if len == 0 && n >= 1 {
        lemma_mul_inequality(1, n, size);
        assert(1 * size == size) by (nonlinear_arith);
    }
}

/// A stride index is in range exactly when its start offset lies inside the
/// stream.
proof fn lemma_stride_in_range(len: int, size: int, i: int)
    requires
        size >= 1,
        len >= 0,
        0 <= i,
    ensures
        i * size < len <==> i < num_chunks(len, size),
{
    let n = num_chunks(len, size);
    lemma_num_chunks_bounds(len, size);
    if i < n {
        lemma_mul_inequality(i, n - 1, size);
        assert((n - 1) * size == n * size - size) by (nonlinear_arith);
    }
    if i >= n {
        lemma_mul_inequality(n, i, size);
    }
}

/// The main processing engine: owns a fixed chunk size, set at construction,
/// and performs stateless segmentation and reassembly against it.
#[derive(Debug, Clone)]
pub struct ProcessingEngine {
    chunk_size: usize,
    hasher: ContentHasher,
}

impl ProcessingEngine {
    /// The configured chunk size, as a mathematical integer.
    pub closed spec fn spec_chunk_size(&self) -> int {
        self.chunk_size as int
    }

    /// A usable engine carries a positive chunk size.
    pub open spec fn wf(&self) -> bool {
        self.spec_chunk_size() >= 1
    }

    /// Creates a new engine with the specified chunk size in bytes.
    pub fn new(chunk_size: usize) -> (r: Self)
        requires
            chunk_size >= 1,
        ensures
            r.spec_chunk_size() == chunk_size as int,
            r.wf(),
    {
        ProcessingEngine { chunk_size, hasher: ContentHasher::new() }
    }

    /// Returns the configured chunk size.
    pub fn chunk_size(&self) -> (r: usize)
        ensures
            r as int == self.spec_chunk_size(),
    {
        self.chunk_size
    }

    /// Processes raw data into content-addressed chunks: walks the input from
    /// offset 0 in strides of the configured chunk size, hashes each stride,
    /// and finally hashes the entire input a second, independent time for the
    /// root digest. Fails exactly on empty input.
    pub fn process(&self, data: &[u8]) -> (r: Result<ProcessingResult, EngineError>)
        requires
            self.wf(),
        ensures
            match r {
                Ok(res) => data@.len() > 0 && valid_processing_result(
                    res,
                    data@,
                    self.spec_chunk_size(),
                ),
                Err(e) => data@.len() == 0 && (e matches EngineError::EmptyInput),
            },
    {
        if data.len() == 0 {
            return Err(EngineError::EmptyInput);
        }
        let ghost size = self.spec_chunk_size();
        let ghost len = data@.len() as int;
        let ghost n = num_chunks(len, size);
        proof {
            lemma_num_chunks_bounds(len, size);
        }
        let mut chunks: Vec<Chunk> = Vec::new();
        let mut offset: usize = 0;
        while offset < data.len()
            invariant
                self.wf(),
                size == self.spec_chunk_size(),
                len == data@.len() as int,
                n == num_chunks(len, size),
                len >= 1,
                chunks@.len() <= n,
                offset == min(chunks@.len() * size, len),
                forall|i: int|
                    0 <= i < chunks@.len() ==> (#[trigger] chunks@[i]).data@ == stride_of(
                        data@,
                        size,
                        i,
                    ),
                forall|i: int| 0 <= i < chunks@.len() ==> (#[trigger] chunks@[i]).offset == i * size,
                forall|i: int|
                    0 <= i < chunks@.len() ==> (#[trigger] chunks@[i]).id@ == content_id_of(
                        stride_of(data@, size, i),
                    ),
            decreases len - offset,
        {
            let ghost i = chunks@.len() as int;
            proof {
                lemma_stride_in_range(len, size, i);
                assert((i + 1) * size == i * size + size) by (nonlinear_arith);
            }
            let end: usize = if data.len() - offset > self.chunk_size {
                offset + self.chunk_size
            } else {
                data.len()
            };
            let segment = slice_subrange(data, offset, end);
            let id = self.hasher.compute(segment);
            let seg_data = slice_to_vec(segment);
            proof {
                assert(segment@ == stride_of(data@, size, i));
            }
            chunks.push(Chunk { id, data: seg_data, offset });
            offset = end;
        }
        proof {
            lemma_stride_in_range(len, size, chunks@.len() as int);
        }
        let total_size = data.len();
        let root_hash = self.hasher.compute(data);
        Ok(ProcessingResult { chunks, total_size, root_hash })
    }

    /// Reconstructs the original data from ordered chunks: re-derives each
    /// chunk's identifier from its stored bytes in the given order, aborts at
    /// the first mismatch, and otherwise concatenates the chunks' bytes in
    /// that same order. Offsets are neither re-derived nor used for sorting:
    /// the given order is trusted.
    pub fn reconstruct(&self, chunks: &[Chunk]) -> (r: Result<Vec<u8>, EngineError>)
        ensures
            match r {
                Ok(out) => chunks@.len() > 0 && chunks_ok(chunks@) && out@ == concat_of(chunks@),
                Err(e) => match e {
                    EngineError::EmptyInput => chunks@.len() == 0,
                    EngineError::IntegrityFailure { expected, actual } => exists|i: int|
                        {
                            &&& 0 <= i < chunks@.len()
                            &&& (#[trigger] chunks@[i]).id@ != content_id_of(chunks@[i].data@)
                            &&& expected@ == chunks@[i].id@
                            &&& actual@ == content_id_of(chunks@[i].data@)
                            &&& (forall|j: int|
                                0 <= j < i ==> (#[trigger] chunks@[j]).id@ == content_id_of(
                                    chunks@[j].data@,
                                ))
                        },
                    EngineError::Serialization(..) => false,
                    EngineError::InvalidSequence { .. } => false,
                },
            },
    {
        if chunks.len() == 0 {
            return Err(EngineError::EmptyInput);
        }
        let mut result: Vec<u8> = Vec::new();
        let mut i: usize = 0;
        while i < chunks.len()
            invariant
                i <= chunks@.len(),
                forall|j: int|
                    0 <= j < i ==> (#[trigger] chunks@[j]).id@ == content_id_of(chunks@[j].data@),
                result@ == concat_of(chunks@.subrange(0, i as int)),
            decreases chunks@.len() - i,
        {
            let chunk = &chunks[i];
            let computed = self.hasher.compute(chunk.data.as_slice());
            if !(computed == chunk.id) {
                let expected = chunk.id.clone();
                proof {
                    let idx = i as int;
                    assert((chunks@[idx]).id@ != content_id_of(chunks@[idx].data@));
                    assert(expected@ == chunks@[idx].id@);
                    assert(computed@ == content_id_of(chunks@[idx].data@));
                }
                return Err(EngineError::IntegrityFailure { expected, actual: computed });
            }
            let mut k: usize = 0;
            while k < chunk.data.len()
                invariant
                    i < chunks@.len(),
                    k <= chunks@[i as int].data@.len(),
                    chunk == &chunks@[i as int],
                    result@ == concat_of(chunks@.subrange(0, i as int)) + chunks@[i as int].data@
                        .subrange(0, k as int),
                decreases chunks@[i as int].data@.len() - k,
            {
                result.push(chunk.data[k]);
                proof {
                    assert(chunks@[i as int].data@.subrange(0, k + 1)
                        =~= chunks@[i as int].data@.subrange(0, k as int).push(
                        chunks@[i as int].data@[k as int],
                    ));
                }
                k = k + 1;
            }
            proof {
                assert(chunks@[i as int].data@.subrange(0, chunks@[i as int].data@.len() as int)
                    =~= chunks@[i as int].data@);
                lemma_concat_of_push(chunks@, i as int);
            }
            i = i + 1;
        }
        proof {
            assert(chunks@.subrange(0, chunks@.len() as int) =~= chunks@);
        }
        Ok(result)
    }
}

/// Extending a chunk prefix by one chunk appends exactly that chunk's bytes
/// to the concatenation.
proof fn lemma_concat_of_push(chunks: Seq<Chunk>, i: int)
    requires
        0 <= i < chunks.len(),
    ensures
        concat_of(chunks.subrange(0, i + 1)) == concat_of(chunks.subrange(0, i)) + chunks[i].data@,
{
    let f = |c: Chunk| c.data@;
    assert(chunks.subrange(0, i + 1).map_values(f) =~= chunks.subrange(0, i).map_values(f).push(
        chunks[i].data@,
    ));
    chunks.subrange(0, i).map_values(f).lemma_flatten_push(chunks[i].data@);
}

/// Round trip: the chunks of a valid processing result all carry matching
/// identifiers, and their bytes, concatenated in production order, are
/// exactly the original input. Together with the contracts of `process` and
/// `reconstruct`, reconstructing what `process` produced returns the original
/// bytes.
pub proof fn lemma_round_trip(res: ProcessingResult, data: Seq<u8>, size: int)
    requires
        size >= 1,
        data.len() > 0,
        valid_processing_result(res, data, size),
    ensures
        chunks_ok(res.chunks@),
        concat_of(res.chunks@) == data,
{
    let n = num_chunks(data.len() as int, size);
    lemma_num_chunks_bounds(data.len() as int, size);
    let f = |c: Chunk| c.data@;
    let strides = Seq::new(n as nat, |i: int| stride_of(data, size, i));
    assert(res.chunks@.map_values(f) =~= strides);
    lemma_strides_flatten(data, size, n);
    assert(min(n * size, data.len() as int) == data.len() as int);
    assert(data.subrange(0, data.len() as int) =~= data);
}

/// Flattening the first `k` strides of a stream yields its first
/// `min(k * size, len)` bytes.
proof fn lemma_strides_flatten(data: Seq<u8>, size: int, k: int)
    requires
        size >= 1,
        0 <= k <= num_chunks(data.len() as int, size),
    ensures
        Seq::new(k as nat, |i: int| stride_of(data, size, i)).flatten() == data.subrange(
            0,
            min(k * size, data.len() as int),
        ),
    decreases k,
{
    let len = data.len() as int;
    let strides = Seq::new(k as nat, |i: int| stride_of(data, size, i));
    if k == 0 {
        assert(strides.flatten() =~= data.subrange(0, 0));
    } else {
        lemma_strides_flatten(data, size, k - 1);
        lemma_stride_in_range(len, size, k - 1);
        assert((k - 1) * size == k * size - size) by (nonlinear_arith);
        let prev = Seq::new((k - 1) as nat, |i: int| stride_of(data, size, i));
        assert(strides =~= prev.push(stride_of(data, size, k - 1)));
        prev.lemma_flatten_push(stride_of(data, size, k - 1));
        assert(data.subrange(0, (k - 1) * size) + data.subrange(
            (k - 1) * size,
            min(k * size, len),
        ) =~= data.subrange(0, min(k * size, len)));
    }
}

/// Chunk boundaries: a non-empty stream of `len` bytes yields exactly
/// `ceil(len / size)` strides; every stride but the last spans exactly `size`
/// bytes, and the last spans the remainder.
pub proof fn lemma_chunk_boundaries(data: Seq<u8>, size: int)
    requires
        size >= 1,
        data.len() > 0,
    ensures
        ({
            let n = num_chunks(data.len() as int, size);
            &&& n >= 1
            &&& (forall|i: int|
                0 <= i < n - 1 ==> (#[trigger] stride_of(data, size, i)).len() == size)
            &&& stride_of(data, size, n - 1).len() == data.len() - (n - 1) * size
        }),
{
    let len = data.len() as int;
    let n = num_chunks(len, size);
    lemma_num_chunks_bounds(len, size);
    assert forall|i: int| 0 <= i < n - 1 implies (#[trigger] stride_of(data, size, i)).len()
        == size by {
        lemma_stride_in_range(len, size, i + 1);
        assert((i + 1) * size == i * size + size) by (nonlinear_arith);
    }
    lemma_stride_in_range(len, size, n - 1);
    assert((n - 1) * size == n * size - size) by (nonlinear_arith);
}

/// Tamper detection, as far as it is provable without collision-resistance
/// assumptions: a chunk whose stored identifier differs from the digest of
/// its stored bytes makes the whole sequence invalid, so `reconstruct` cannot
/// return a success over it.
pub proof fn lemma_mismatch_invalidates(chunks: Seq<Chunk>, i: int)
    requires
        0 <= i < chunks.len(),
        chunks[i].id@ != content_id_of(chunks[i].data@),
    ensures
        !chunks_ok(chunks),
{
}

} // verus!
