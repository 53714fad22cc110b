//! SHA-256.

use crate::digest::{digest_of_bytes, Digest};
use vstd::prelude::*;

verus! {

/// What SHA-256 makes of a byte string.
pub uninterp spec fn sha256(data: Seq<u8>) -> Seq<u8>;

/// `openssl::sha::sha256`: the SHA-256 hash of the data, which depends on nothing else. What
/// the hash of given data is, is not stated.
#[verifier::external_body]
fn openssl_sha256(data: &[u8]) -> (h: [u8; 32])
    ensures
        h@ == sha256(data@),
{
    openssl::sha::sha256(data)
}

/// The SHA-256 digest of a byte string.
pub open spec fn hash_of(data: Seq<u8>) -> Digest {
    digest_of_bytes(sha256(data))
}

/// The SHA-256 digest of a byte string.
pub fn do_hash(data: &[u8]) -> (d: Digest)
    ensures
        d == hash_of(data@),
        d.bytes() == sha256(data@),
{
    let h: [u8; 32] = openssl_sha256(data);
    match Digest::from_slice(&h) {
        Some(d) => d,
        None => Digest { hi: 0, lo: 0 },
    }
}

/// The SHA-256 digest of each of these byte strings.
pub open spec fn hashes_of(data: Seq<Vec<u8>>) -> Seq<Digest> {
    Seq::new(data.len(), |i: int| hash_of(data[i]@))
}

/// The SHA-256 digest of each of these byte strings.
pub fn hash_all(data: &Vec<Vec<u8>>) -> (d: Vec<Digest>)
    ensures
        d@ == hashes_of(data@),
{
    let mut d: Vec<Digest> = Vec::new();
    let mut i: usize = 0;
    while i < data.len()
        invariant
            i <= data@.len(),
            d@ == hashes_of(data@).take(i as int),
        decreases data@.len() - i,
    {
        d.push(do_hash(data[i].as_slice()));
        assert(d@ =~= hashes_of(data@).take(i + 1));
        i = i + 1;
    }
    assert(hashes_of(data@).take(i as int) =~= hashes_of(data@));
    d
}

/// Each byte string has its own digest, at its own place.
pub proof fn law_each_has_its_digest(data: Seq<Vec<u8>>, i: int)
    requires
        0 <= i < data.len(),
    ensures
        hashes_of(data).len() == data.len(),
        hashes_of(data)[i] == hash_of(data[i]@),
        hash_of(data[i]@) == digest_of_bytes(sha256(data[i]@)),
{
}

} // verus!
