//! Content-addressed chunking engine: splits a byte stream into fixed-size
//! chunks identified by the hex-encoded SHA-256 digest of their bytes, and
//! reconstructs the original stream from such chunks while verifying that
//! every chunk still hashes to its stored identifier.

use vstd::prelude::*;

pub mod engine;
pub mod hasher;
pub mod types;

pub use engine::ProcessingEngine;
pub use hasher::ContentHasher;
pub use types::Chunk;
pub use types::ChunkId;
pub use types::EngineError;
pub use types::ProcessingResult;

verus! {

/// Default chunk size in bytes for data segmentation (256 KiB).
pub const DEFAULT_CHUNK_SIZE: usize = 262_144;

/// Creates a processing engine configured with the default chunk size.
pub fn init() -> (r: ProcessingEngine)
    ensures
        r.spec_chunk_size() == DEFAULT_CHUNK_SIZE as int,
        r.wf(),
{
    ProcessingEngine::new(DEFAULT_CHUNK_SIZE)
}

} // verus!
