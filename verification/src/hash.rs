//! Content hashing. Every blob and every command fingerprint is identified by
//! the 256-bit BLAKE3 digest of some byte string.

use vstd::prelude::*;

verus! {

/// The number of bytes in a content hash.
pub const HASH_LEN: usize = 32;

/// The BLAKE3 digest of a byte string. The digest is a pure function of the
/// bytes alone; its value is not written out here, the outside implementation
/// computes it.
pub uninterp spec fn blake3_of(data: Seq<u8>) -> Seq<u8>;

/// Relies on `blake3::hash`: a pure function of the input bytes that returns
/// a 32-byte digest.
#[verifier::external_body]
pub(crate) fn blake3_digest(data: &Vec<u8>) -> (r: Vec<u8>)
    ensures
        r@ == blake3_of(data@),
        r@.len() == HASH_LEN,
{
    blake3::hash(data.as_slice()).as_bytes().to_vec()
}

/// Hash a file's content, returning the digest and the number of bytes hashed.
/// The digest is the blob-store key for this content.
pub fn hash_content(content: &Vec<u8>) -> (r: (Vec<u8>, u64))
    requires
        content@.len() <= u64::MAX,
    ensures
        r.0@ == blake3_of(content@),
        r.0@.len() == HASH_LEN,
        r.1 == content@.len(),
{
    let digest = blake3_digest(content);
    let size = content.len() as u64;
    (digest, size)
}

} // verus!
