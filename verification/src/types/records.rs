//! The plain records of the light client.

use vstd::prelude::*;

use crate::utilities::hash::is_zero_hash;
use crate::utilities::merkle_tree::zero_hash;

verus! {

/// An unsigned 64-bit number.
pub type Uint64 = u64;

/// A 32-byte hash: SHA-256 on the consensus side, Keccak-256 on the
/// execution side.
pub type Hash = [u8; 32];

/// A byte string.
pub type Bytes = Vec<u8>;

/// A branch of an SSZ Merkle tree, lowest sibling first.
pub type SszProof = Vec<Hash>;

/// The encoded nodes of a Merkle-Patricia trie from the root down.
pub type MptProof = Vec<Bytes>;

/// A node of the mountain range over the headers.
#[derive(Clone, Copy, Debug, PartialEq, Eq)]
pub struct HeaderDigest {
    /// The root of the header for a leaf, the hash of the two children
    /// for an inner node.
    pub children_hash: Hash,
}

/// The items of a mountain-range proof.
pub type MmrProof = Vec<HeaderDigest>;

/// A compressed BLS12-381 public key.
pub type BlsPubkey = [u8; 48];

/// A compressed BLS12-381 signature.
pub type BlsSignature = [u8; 96];

/// The public keys of a committee.
pub type BlsPubkeyVec = Vec<BlsPubkey>;

/// The header of a beacon block.
#[derive(Clone, Copy, Debug, PartialEq, Eq)]
pub struct Header {
    pub slot: Uint64,
    pub proposer_index: Uint64,
    pub parent_root: Hash,
    pub state_root: Hash,
    pub body_root: Hash,
}

/// A run of headers.
pub type HeaderVec = Vec<Header>;

/// One bit per member of the sync committee.
pub type SyncCommitteeBits = [u8; 64];

/// Who of the committee signed, and their aggregate signature.
#[derive(Clone, Copy, Debug, PartialEq, Eq)]
pub struct SyncAggregate {
    pub sync_committee_bits: SyncCommitteeBits,
    pub sync_committee_signature: BlsSignature,
}

/// A sync committee: its public keys and their aggregate.
#[derive(Clone, Debug, PartialEq, Eq)]
pub struct SyncCommittee {
    pub pubkeys: BlsPubkeyVec,
    pub aggregate_pubkey: BlsPubkey,
}

/// What starts a client: a header and the branch that proves the current
/// sync committee in its state.
#[derive(Clone, Debug, PartialEq, Eq)]
pub struct ClientBootstrap {
    pub header: Header,
    pub current_sync_committee_branch: SszProof,
}

/// What moves a client forward: new finalized headers, the attested
/// header that finalizes the last of them, and the committee's signature.
#[derive(Clone, Debug, PartialEq, Eq)]
pub struct ClientUpdate {
    pub attested_header: Header,
    pub finality_branch: SszProof,
    pub sync_aggregate: SyncAggregate,
    pub signature_slot: Uint64,
    pub new_headers_mmr_proof: MmrProof,
    pub headers: HeaderVec,
}

/// What rotates the sync committee: an attested header, signed by the
/// current committee, and the branch that proves the next committee in
/// its state.
#[derive(Clone, Debug, PartialEq, Eq)]
pub struct SyncCommitteeUpdate {
    pub attested_header: Header,
    pub next_sync_committee_branch: SszProof,
    pub sync_aggregate: SyncAggregate,
    pub signature_slot: Uint64,
}

/// The proofs that bind a transaction and its receipt to a header that a
/// client knows.
#[derive(Clone, Debug, PartialEq, Eq)]
pub struct TransactionProof {
    pub header: Header,
    pub transaction_index: Uint64,
    pub receipts_root: Hash,
    pub header_mmr_proof: MmrProof,
    pub transaction_ssz_proof: SszProof,
    pub receipt_mpt_proof: MptProof,
    pub receipts_root_ssz_proof: SszProof,
}

/// The raw bytes of a transaction and of its receipt.
#[derive(Clone, Debug, PartialEq, Eq)]
pub struct TransactionPayload {
    pub transaction: Bytes,
    pub receipt: Bytes,
}

/// What all clients of one host share.
#[derive(Clone, Copy, Debug, PartialEq, Eq)]
pub struct ClientInfo {
    pub last_client_id: u8,
    pub minimal_headers_count: u8,
    pub genesis_validators_root: Hash,
}

/// What a verifier knows of the chain: a range of slots, the root of the
/// mountain range over their headers, and the root of the latest header
/// that is not empty.
#[derive(Clone, Copy, Debug, PartialEq, Eq)]
pub struct Client {
    pub id: u8,
    pub minimal_slot: Uint64,
    pub maximal_slot: Uint64,
    pub tip_header_root: Hash,
    pub headers_mmr_root: HeaderDigest,
}

/// A sync committee and the period that it serves.
#[derive(Clone, Debug, PartialEq, Eq)]
pub struct ClientSyncCommittee {
    pub period: Uint64,
    pub data: SyncCommittee,
}

/// The arguments that tell the host which cells hold the clients.
#[derive(Clone, Copy, Debug, PartialEq, Eq)]
pub struct ClientTypeArgs {
    pub type_id: Hash,
    pub clients_count: u8,
}

impl Header {
    /// An empty header stands for a skipped slot: no proposer and three
    /// zero roots.
    pub open spec fn spec_is_empty(self) -> bool {
        &&& self.proposer_index == 0
        &&& self.parent_root@ == zero_hash(0)
        &&& self.state_root@ == zero_hash(0)
        &&& self.body_root@ == zero_hash(0)
    }

    /// Whether the header stands for a skipped slot.
    pub fn is_empty(&self) -> (empty: bool)
        ensures
            empty == self.spec_is_empty(),
            empty <==> (self.proposer_index == 0 && (forall|i: int|
                0 <= i < 32 ==> self.parent_root@[i] == 0u8 && self.state_root@[i] == 0u8
                    && self.body_root@[i] == 0u8)),
    {
        let empty = self.proposer_index == 0 && is_zero_hash(&self.parent_root) && is_zero_hash(
            &self.state_root,
        ) && is_zero_hash(&self.body_root);
        proof {
            if empty {
                assert(self.parent_root@ =~= zero_hash(0));
                assert(self.state_root@ =~= zero_hash(0));
                assert(self.body_root@ =~= zero_hash(0));
            }
        }
        empty
    }
}

impl Client {
    /// A client covers at least one slot: its first slot is not after
    /// its last.
    pub open spec fn wf(self) -> bool {
        self.minimal_slot <= self.maximal_slot
    }
}

} // verus!
