//! The digest of a chunk.
use sha2::Digest;
use vstd::prelude::*;

verus! {

/// Size in bytes of a digest.
pub const HASH_SIZE: usize = 32;

/// The SHA-256 digest of a byte sequence.
pub uninterp spec fn sha256_of(data: Seq<u8>) -> [u8; 32];

/// The digest of a chunk, as a byte sequence.
pub open spec fn digest_of(chunk: Seq<u8>) -> Seq<u8> {
    sha256_of(chunk)@
}

/// Relies on `sha2::Sha256::digest` (the `Digest` trait that sha2 re-exports):
/// the SHA-256 digest of `chunk`, which depends on its bytes alone.
#[verifier::external_body]
pub(crate) fn calculate_chunk_hash(chunk: &[u8]) -> (r: [u8; 32])
    ensures
        r == sha256_of(chunk@),
{
    sha2::Sha256::digest(chunk).into()
}

/// Byte-wise equality of two sequences.
pub(crate) fn bytes_equal(a: &[u8], b: &[u8]) -> (r: bool)
    ensures
        r == (a@ == b@),
{
    if a.len() != b.len() {
        return false;
    }
    let mut i: usize = 0;
    while i < a.len()
        invariant
            a@.len() == b@.len(),
            i <= a@.len(),
            a@.take(i as int) == b@.take(i as int),
        decreases a.len() - i,
    {
        if a[i] != b[i] {
            assert(a@[i as int] != b@[i as int]);
            return false;
        }
        assert(a@.take(i + 1) == a@.take(i as int).push(a@[i as int]));
        assert(b@.take(i + 1) == b@.take(i as int).push(b@[i as int]));
        i = i + 1;
    }
    assert(a@ == a@.take(a@.len() as int));
    assert(b@ == b@.take(b@.len() as int));
    true
}

} // verus!
