//! BLAKE3 digests as plain 32-byte values.

use vstd::prelude::*;

verus! {

/// The BLAKE3 hash (default mode, 32 bytes of output) of `input`.
///
/// The value is computed by the `blake3` crate; nothing is known of it here
/// beyond being a function of the hashed bytes.
pub uninterp spec fn blake3_digest(input: Seq<u8>) -> Seq<u8>;

/// The digest of two digests laid end to end.
pub open spec fn digest_pair(left: Seq<u8>, right: Seq<u8>) -> Seq<u8> {
    blake3_digest(left + right)
}

/// Calls `blake3::hash` and copies the 32 output bytes out of the returned
/// `Hash`. Trusted: the result is the BLAKE3 hash of exactly the bytes of
/// `input`.
#[verifier::external_body]
pub(crate) fn blake3_hash(input: &[u8]) -> (out: [u8; 32])
    ensures
        out@ == blake3_digest(input@),
{
    *blake3::hash(input).as_bytes()
}

/// Hashes the 64 bytes made of `left_hash` followed by `right_hash`.
pub fn hash_concat(left_hash: [u8; 32], right_hash: [u8; 32]) -> (out: [u8; 32])
    ensures
        out@ == digest_pair(left_hash@, right_hash@),
{
    let mut joined: Vec<u8> = Vec::with_capacity(64);
    let mut i: usize = 0;
    while i < 32
        invariant
            i <= 32,
            joined@ == left_hash@.subrange(0, i as int),
        decreases 32 - i,
    {
        joined.push(left_hash[i]);
        i += 1;
    }
    let mut j: usize = 0;
    while j < 32
        invariant
            j <= 32,
            joined@ == left_hash@ + right_hash@.subrange(0, j as int),
        decreases 32 - j,
    {
        joined.push(right_hash[j]);
        j += 1;
    }
    assert(joined@ == left_hash@ + right_hash@);
    blake3_hash(joined.as_slice())
}

} // verus!
