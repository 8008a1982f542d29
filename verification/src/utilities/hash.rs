//! SHA-256 as the beacon chain uses it, and comparisons of byte arrays.

use vstd::prelude::*;

verus! {

/// The SHA-256 digest of `data`.
pub uninterp spec fn sha256(data: Seq<u8>) -> Seq<u8>;

/// Calls `eth2_hashing::hash_fixed`: the result is the SHA-256 digest of
/// `input`. The digest itself is not computed by verified code.
#[verifier::external_body]
pub(crate) fn hash_fixed(input: &[u8]) -> (digest: [u8; 32])
    ensures
        digest@ == sha256(input@),
{
    eth2_hashing::hash_fixed(input)
}

/// The SHA-256 digest of two hashes, one after the other: the parent of
/// two nodes of a Merkle tree.
pub fn hash32_concat(h1: &[u8; 32], h2: &[u8; 32]) -> (digest: [u8; 32])
    ensures
        digest@ == sha256(h1@ + h2@),
{
    let mut both: Vec<u8> = Vec::new();
    let mut i: usize = 0;
    while i < 64
        invariant
            i <= 64,
            both@ == (h1@ + h2@).take(i as int),
        decreases 64 - i,
    {
        if i < 32 {
            both.push(h1[i]);
        } else {
            both.push(h2[i - 32]);
        }
        proof {
            assert(both@ =~= (h1@ + h2@).take(i + 1));
        }
        i = i + 1;
    }
    proof {
        assert((h1@ + h2@).take(64) =~= h1@ + h2@);
    }
    hash_fixed(both.as_slice())
}

/// Whether two byte slices hold the same bytes.
pub fn bytes_eq(a: &[u8], b: &[u8]) -> (same: bool)
    ensures
        same == (a@ == b@),
{
    if a.len() != b.len() {
        return false;
    }
    let mut i: usize = 0;
    while i < a.len()
        invariant
            i <= a.len(),
            a.len() == b.len(),
            forall|j: int| 0 <= j < i ==> a@[j] == b@[j],
        decreases a.len() - i,
    {
        if a[i] != b[i] {
            return false;
        }
        i += 1;
    }
    assert(a@ =~= b@);
    true
}

/// Whether two 32-byte hashes are equal.
pub fn hash_eq(a: &[u8; 32], b: &[u8; 32]) -> (same: bool)
    ensures
        same == (a@ == b@),
        same == (*a == *b),
{
    let mut i: usize = 0;
    while i < 32
        invariant
            i <= 32,
            forall|j: int| 0 <= j < i ==> a@[j] == b@[j],
        decreases 32 - i,
    {
        if a[i] != b[i] {
            return false;
        }
        i += 1;
    }
    assert(a@ =~= b@);
    assert(*a =~= *b);
    true
}

/// Whether every byte of `a` is zero.
pub fn is_zero_hash(a: &[u8; 32]) -> (zero: bool)
    ensures
        zero == (forall|j: int| 0 <= j < 32 ==> a@[j] == 0u8),
{
    let mut i: usize = 0;
    while i < 32
        invariant
            i <= 32,
            forall|j: int| 0 <= j < i ==> a@[j] == 0u8,
        decreases 32 - i,
    {
        if a[i] != 0 {
            return false;
        }
        i += 1;
    }
    true
}

} // verus!
