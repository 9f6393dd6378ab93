//! Data types shared by the hasher and the engine: content identifiers,
//! chunks, processing results, and the engine's error surface.

use vstd::prelude::*;
use vstd::string::StrSliceExecFns;
use vstd::string::StringExecFns;

verus! {

/// Content-derived identifier for a byte sequence: the lowercase hexadecimal
/// encoding of its 256-bit digest (64 characters). Equality is exact
/// character-for-character comparison.
#[derive(Debug, Eq, Hash)]
pub struct ChunkId(pub String);

impl View for ChunkId {
    type V = Seq<char>;

    open spec fn view(&self) -> Seq<char> {
        self.0@
    }
}

impl Clone for ChunkId {
    fn clone(&self) -> (r: Self)
        ensures
            r == *self,
    {
        ChunkId(self.0.clone())
    }
}

impl PartialEq for ChunkId {
    fn eq(&self, other: &Self) -> (r: bool) {
        self.0 == other.0
    }
}

impl vstd::std_specs::cmp::PartialEqSpecImpl for ChunkId {
    open spec fn obeys_eq_spec() -> bool {
        true
    }

    open spec fn eq_spec(&self, other: &Self) -> bool {
        self@ == other@
    }
}

impl ChunkId {
    /// Returns the raw hash string.
    pub fn as_str(&self) -> (r: &str)
        ensures
            r@ == self@,
    {
        self.0.as_str()
    }

    /// Truncated form for diagnostics: the first 8 and last 8 characters.
    /// Never used for identity comparisons.
    pub fn short(&self) -> (r: String)
        ensures
            self@.len() > 16 ==> r@ == self@.subrange(0, 8) + "..."@ + self@.subrange(
                self@.len() - 8,
                self@.len() as int,
            ),
            self@.len() <= 16 ==> r@ == self@,
    {
        let n = self.0.as_str().unicode_len();
        if n > 16 {
            let head = self.0.as_str().substring_char(0, 8);
            let tail = self.0.as_str().substring_char(n - 8, n);
            let mut r = head.to_owned();
            r.append("...");
            r.append(tail);
            r
        } else {
            self.0.clone()
        }
    }
}

/// A contiguous slice of an original byte stream, carrying its own
/// content-derived identifier and its byte position in that stream.
#[derive(Debug, Clone)]
pub struct Chunk {
    /// Identifier that the chunk's bytes are claimed to hash to.
    pub id: ChunkId,
    /// The chunk's bytes.
    pub data: Vec<u8>,
    /// Byte offset of the chunk's first byte within the original stream.
    pub offset: usize,
}

impl Chunk {
    /// Returns the size of this chunk in bytes.
    pub fn size(&self) -> (r: usize)
        ensures
            r == self.data@.len(),
    {
        self.data.len()
    }
}

/// Everything `process` produces for one input: the ordered chunks, the
/// input's total size, and a digest over the whole input.
#[derive(Debug, Clone)]
pub struct ProcessingResult {
    /// Ordered list of chunks covering the input from start to end.
    pub chunks: Vec<Chunk>,
    /// Length of the original input in bytes.
    pub total_size: usize,
    /// Digest of the entire original input, computed independently of the
    /// per-chunk identifiers.
    pub root_hash: ChunkId,
}

impl ProcessingResult {
    /// Returns the number of chunks generated.
    pub fn chunk_count(&self) -> (r: usize)
        ensures
            r == self.chunks@.len(),
    {
        self.chunks.len()
    }
}

/// Errors that can occur during engine operations.
#[derive(Debug)]
pub enum EngineError {
    /// `process` or `reconstruct` was given zero-length input.
    EmptyInput,
    /// A chunk's recomputed digest disagrees with its stored identifier.
    IntegrityFailure {
        /// The identifier stored in the offending chunk.
        expected: ChunkId,
        /// The digest recomputed from the chunk's bytes.
        actual: ChunkId,
    },
    /// Failure from an encode/decode step at the library's boundary, carried
    /// as its message.
    Serialization(String),
    /// Reserved for detecting a missing chunk at the given offset; declared
    /// as part of the error surface but not produced by `reconstruct`.
    InvalidSequence {
        /// Offset at which a chunk was found missing.
        offset: usize,
    },
}

} // verus!
