//! Content hashing: maps a byte sequence to its identifier, the lowercase
//! hexadecimal encoding of its SHA-256 digest, and verifies claimed
//! identifiers against recomputed ones.

use vstd::prelude::*;

use crate::types::ChunkId;

verus! {

/// The 32-byte SHA-256 digest of a byte sequence. The digest is named
/// abstractly rather than restated: all that the contracts rely on is that it
/// is a function of the input bytes alone.
pub uninterp spec fn sha256_of(data: Seq<u8>) -> Seq<u8>;

/// The lowercase hexadecimal digit for a nibble value.
pub open spec fn hex_digit(v: u8) -> char
    recommends
        v < 16,
{
    seq!['0', '1', '2', '3', '4', '5', '6', '7', '8', '9', 'a', 'b', 'c', 'd', 'e', 'f'][v as int]
}

/// The lowercase hexadecimal encoding of a byte sequence: two digits per
/// byte, high nibble first.
pub open spec fn hex_of(data: Seq<u8>) -> Seq<char>
    decreases data.len(),
{
    if data.len() == 0 {
        Seq::empty()
    } else {
        seq![hex_digit(data.first() / 16), hex_digit(data.first() % 16)] + hex_of(
            data.drop_first(),
        )
    }
}

/// A hex encoding holds two characters for each input byte.
pub proof fn lemma_hex_of_len(data: Seq<u8>)
    ensures
        hex_of(data).len() == 2 * data.len(),
    decreases data.len(),
{
    if data.len() > 0 {
        lemma_hex_of_len(data.drop_first());
    }
}

/// The identifier assigned to a byte sequence: the lowercase hex encoding of
/// its SHA-256 digest.
pub open spec fn content_id_of(data: Seq<u8>) -> Seq<char> {
    hex_of(sha256_of(data))
}

/// Relies on sha2::Sha256 through digest::Digest::digest: the digest is
/// 32 bytes and depends on the input bytes alone.
#[verifier::external_body]
fn sha256_digest(data: &[u8]) -> (r: Vec<u8>)
    ensures
        r@ == sha256_of(data@),
        r@.len() == 32,
{
    <sha2::Sha256 as sha2::Digest>::digest(data).to_vec()
}

/// Relies on hex::encode: lowercase hexadecimal, two digits per byte, high
/// nibble first.
#[verifier::external_body]
fn hex_encode(data: &[u8]) -> (r: String)
    ensures
        r@ == hex_of(data@),
{
    hex::encode(data)
}

/// A content-based hasher. Stateless: each computation is independent, a pure
/// function of the bytes it is given.
#[derive(Debug, Clone)]
pub struct ContentHasher {}

impl Default for ContentHasher {
    fn default() -> (r: Self)
        ensures
            r == (ContentHasher {  }),
    {
        ContentHasher {  }
    }
}

impl ContentHasher {
    /// Creates a new hasher instance.
    pub fn new() -> (r: Self) {
        ContentHasher {  }
    }

    /// Computes the identifier of `data`: the hex-encoded SHA-256 digest,
    /// 64 characters long.
    pub fn compute(&self, data: &[u8]) -> (r: ChunkId)
        ensures
            r@ == content_id_of(data@),
            r@.len() == 64,
    {
        let digest = sha256_digest(data);
        proof {
            lemma_hex_of_len(sha256_of(data@));
        }
        ChunkId(hex_encode(digest.as_slice()))
    }

    /// Returns true iff the identifier of `data` equals `expected`, by full
    /// recomputation and exact comparison.
    pub fn verify(&self, data: &[u8], expected: &ChunkId) -> (r: bool)
        ensures
            r == (content_id_of(data@) == expected@),
    {
        let computed = self.compute(data);
        computed == *expected
    }
}

/// Determinism: any two identifiers computed for the same bytes are equal,
/// across repeated calls and across hasher instances.
pub proof fn lemma_compute_deterministic(data: Seq<u8>, first: Seq<char>, second: Seq<char>)
    requires
        first == content_id_of(data),
        second == content_id_of(data),
    ensures
        first == second,
{
}

} // verus!
