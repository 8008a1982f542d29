//! SSZ hash-tree roots of the records of the light client.

use tree_hash::TreeHash;
use vstd::prelude::*;

use crate::types::records::{BlsPubkey, Header, SyncCommittee};
use crate::utilities::endian::le_bytes;
use crate::utilities::hash::{hash32_concat, hash_fixed, sha256};
use crate::utilities::merkle_tree::{merkle_tree_root, nodes_view, tree_root};
use crate::utilities::ssz::{uint64_chunk, Hash256};

verus! {

/// Chunk `i` of `bytes`: its 32 bytes from `32 * i` on, filled up with
/// zero bytes.
pub open spec fn byte_chunk(bytes: Seq<u8>, i: int) -> Seq<u8> {
    Seq::new(
        32,
        |k: int|
            if 32 * i + k < bytes.len() {
                bytes[32 * i + k]
            } else {
                0u8
            },
    )
}

/// `bytes` in chunks of 32, the last filled up with zero bytes.
pub open spec fn byte_chunks(bytes: Seq<u8>) -> Seq<Seq<u8>> {
    Seq::new(((bytes.len() + 31) / 32) as nat, |i: int| byte_chunk(bytes, i))
}

/// Root of a byte list of at most 2^30 bytes, the SSZ type of a
/// transaction: the tree of depth 25 over the bytes in chunks, hashed
/// with the length of the list.
pub open spec fn ssz_byte_list_root(bytes: Seq<u8>) -> Seq<u8> {
    sha256(tree_root(byte_chunks(bytes), 25) + le_bytes(bytes.len(), 32))
}

/// Makes an `ssz_types::VariableList` of at most 2^30 bytes, which
/// refuses a longer list, and calls its `tree_hash_root`: that packs the
/// bytes into the 2^25 leaves of a Merkle tree, padded with zero bytes,
/// and hashes the root of the tree with the length in a chunk.
#[verifier::external_body]
pub(crate) fn byte_list_root(bytes: &[u8]) -> (root: Option<Hash256>)
    ensures
        root is Some <==> bytes@.len() <= 1_073_741_824,
        root is Some ==> root.unwrap()@ == ssz_byte_list_root(bytes@),
{
    ssz_types::VariableList::<u8, ssz_types::typenum::U1073741824>::new(bytes.to_vec()).ok().map(
        |list| list.tree_hash_root().to_fixed_bytes(),
    )
}

/// `n` zero bytes.
pub open spec fn zeros(n: nat) -> Seq<u8> {
    Seq::new(n, |i: int| 0u8)
}

/// Root of a compressed public key: its 48 bytes fill two chunks.
pub open spec fn spec_pubkey_root(key: Seq<u8>) -> Seq<u8> {
    sha256(key + zeros(16))
}

/// Root of a compressed public key.
pub fn pubkey_root(key: &BlsPubkey) -> (root: Hash256)
    ensures
        root@ == spec_pubkey_root(key@),
{
    let mut chunks: Vec<u8> = Vec::new();
    let mut i: usize = 0;
    while i < 64
        invariant
            i <= 64,
            chunks@ == (key@ + zeros(16)).take(i as int),
        decreases 64 - i,
    {
        if i < 48 {
            chunks.push(key[i]);
        } else {
            chunks.push(0u8);
        }
        proof {
            assert(chunks@ =~= (key@ + zeros(16)).take(i + 1));
        }
        i = i + 1;
    }
    proof {
        assert((key@ + zeros(16)).take(64) =~= key@ + zeros(16));
    }
    hash_fixed(chunks.as_slice())
}

/// The roots of the public keys of a committee.
pub open spec fn spec_pubkey_roots(keys: Seq<BlsPubkey>) -> Seq<Seq<u8>> {
    Seq::new(keys.len(), |i: int| spec_pubkey_root(keys[i]@))
}

impl Header {
    /// The five fields of the header as chunks.
    pub open spec fn spec_chunks(self) -> Seq<Seq<u8>> {
        seq![
            le_bytes(self.slot as nat, 32),
            le_bytes(self.proposer_index as nat, 32),
            self.parent_root@,
            self.state_root@,
            self.body_root@,
        ]
    }

    /// Root of the header: the tree of depth three over its five fields.
    pub open spec fn spec_tree_hash_root(self) -> Seq<u8> {
        tree_root(self.spec_chunks(), 3)
    }

    /// Root of the header.
    pub fn tree_hash_root(&self) -> (root: Hash256)
        ensures
            root@ == self.spec_tree_hash_root(),
    {
        let mut leaves: Vec<Hash256> = Vec::new();
        leaves.push(uint64_chunk(self.slot));
        leaves.push(uint64_chunk(self.proposer_index));
        leaves.push(self.parent_root);
        leaves.push(self.state_root);
        leaves.push(self.body_root);
        proof {
            assert(nodes_view(leaves@) =~= self.spec_chunks());
        }
        merkle_tree_root(leaves.as_slice(), 3)
    }
}

impl SyncCommittee {
    /// Root of the committee: the tree of depth nine over the roots of its
    /// 512 keys, hashed with the root of the aggregate key.
    pub open spec fn spec_tree_hash_root(self) -> Seq<u8> {
        sha256(tree_root(spec_pubkey_roots(self.pubkeys@), 9) + spec_pubkey_root(self.aggregate_pubkey@))
    }

    /// Root of the committee.
    pub fn tree_hash_root(&self) -> (root: Hash256)
        requires
            self.pubkeys.len() == 512,
        ensures
            root@ == self.spec_tree_hash_root(),
    {
        let mut roots: Vec<Hash256> = Vec::new();
        let mut i: usize = 0;
        while i < self.pubkeys.len()
            invariant
                i <= self.pubkeys.len(),
                roots.len() == i,
                forall|j: int| 0 <= j < i ==> (#[trigger] roots[j])@ == spec_pubkey_root(self.pubkeys[j]@),
            decreases self.pubkeys.len() - i,
        {
            roots.push(pubkey_root(&self.pubkeys[i]));
            i = i + 1;
        }
        proof {
            assert(nodes_view(roots@) =~= spec_pubkey_roots(self.pubkeys@));
        }
        let keys_root = merkle_tree_root(roots.as_slice(), 9);
        let aggregate_root = pubkey_root(&self.aggregate_pubkey);
        hash32_concat(&keys_root, &aggregate_root)
    }
}

} // verus!
