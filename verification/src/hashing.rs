//! Content hashing for the commitment trees and the content-addressed store.
//!
//! All hashing goes through SHA-256. The digest itself is an outside
//! capability: its value is named by `sha256_of` and every contract above it
//! speaks of that name.

use vstd::prelude::*;

use crate::util::extend_from_slice;

verus! {

/// The SHA-256 digest of a byte sequence, as the sha2 crate computes it.
/// The digest depends on the input bytes alone.
pub uninterp spec fn sha256_of(data: Seq<u8>) -> Seq<u8>;

/// Relies on sha2::Sha256 (through Digest::digest): the one-shot SHA-256
/// digest of the input, 32 bytes long, a function of the input bytes alone.
#[verifier::external_body]
pub(crate) fn sha256(data: &[u8]) -> (r: [u8; 32])
    ensures
        r@ == sha256_of(data@),
        r@.len() == 32,
{
    let d = <sha2::Sha256 as sha2::Digest>::digest(data);
    let mut out = [0u8; 32];
    out.copy_from_slice(&d);
    out
}

/// Hash of a leaf: the digest of the key concatenated with the value.
pub open spec fn leaf_hash_spec(key: Seq<u8>, value: Seq<u8>) -> Seq<u8> {
    sha256_of(key + value)
}

/// Hash of an interior node: the digest of the two child hashes concatenated.
pub open spec fn node_hash_spec(left: Seq<u8>, right: Seq<u8>) -> Seq<u8> {
    sha256_of(left + right)
}

/// The all-zero sentinel standing for an absent child or an empty tree.
pub open spec fn zero_hash() -> Seq<u8> {
    Seq::new(32, |i: int| 0u8)
}

/// Builds the sentinel hash.
pub fn zero_hash_bytes() -> (r: [u8; 32])
    ensures
        r@ == zero_hash(),
{
    let r = [0u8; 32];
    proof {
        assert(r@ =~= zero_hash());
    }
    r
}

/// Computes the hash of a leaf holding `value` under `key`.
pub fn leaf_hash(key: &[u8], value: &[u8]) -> (r: [u8; 32])
    ensures
        r@ == leaf_hash_spec(key@, value@),
{
    let mut data: Vec<u8> = Vec::new();
    extend_from_slice(&mut data, key);
    extend_from_slice(&mut data, value);
    proof {
        assert(data@ =~= key@ + value@);
    }
    sha256(data.as_slice())
}

/// Computes the hash of an interior node from its two child hashes.
pub fn node_hash(left: &[u8; 32], right: &[u8; 32]) -> (r: [u8; 32])
    ensures
        r@ == node_hash_spec(left@, right@),
{
    let mut data: Vec<u8> = Vec::new();
    extend_from_slice(&mut data, left.as_slice());
    extend_from_slice(&mut data, right.as_slice());
    proof {
        assert(data@ =~= left@ + right@);
    }
    sha256(data.as_slice())
}

} // verus!
