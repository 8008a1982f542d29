//! What a consensus node hands out to start a light client, and the
//! witnesses that the prover builds from it.

use vstd::prelude::*;

use crate::consensus_specs::helpers::{compute_sync_committee_period_at_slot, spec_sync_committee_period_at_slot};
use crate::types::records::{Client, ClientBootstrap, ClientSyncCommittee, Header, SyncCommittee};
use crate::utilities::mmr::{empty_store_nodes, mem_store_new, mmr_get_root, mmr_push, mmr_pushed, mmr_root_of};
use crate::utilities::ssz::Hash256;

verus! {

/// The bootstrap of a light client as the consensus node gives it.
#[derive(Clone, Debug, PartialEq, Eq)]
pub struct BootstrapData {
    pub header: Header,
    pub current_sync_committee: SyncCommittee,
    pub current_sync_committee_branch: Vec<Hash256>,
}

/// A bootstrap from which the prover builds its witnesses.
#[derive(Clone, Debug, PartialEq, Eq)]
pub struct LightClientBootstrap {
    pub original: BootstrapData,
}

/// Copies a list of hashes.
pub fn copy_hashes(hashes: &Vec<Hash256>) -> (copy: Vec<Hash256>)
    ensures
        copy@ == hashes@,
{
    let mut copy: Vec<Hash256> = Vec::new();
    let mut i: usize = 0;
    while i < hashes.len()
        invariant
            i <= hashes.len(),
            copy@ == hashes@.take(i as int),
        decreases hashes.len() - i,
    {
        copy.push(hashes[i]);
        proof {
            assert(copy@ =~= hashes@.take(i + 1));
        }
        i = i + 1;
    }
    proof {
        assert(hashes@.take(hashes@.len() as int) =~= hashes@);
    }
    copy
}

/// Copies a sync committee.
pub fn copy_committee(committee: &SyncCommittee) -> (copy: SyncCommittee)
    ensures
        copy.pubkeys@ == committee.pubkeys@,
        copy.aggregate_pubkey == committee.aggregate_pubkey,
{
    let mut pubkeys: Vec<[u8; 48]> = Vec::new();
    let mut i: usize = 0;
    while i < committee.pubkeys.len()
        invariant
            i <= committee.pubkeys.len(),
            pubkeys@ == committee.pubkeys@.take(i as int),
        decreases committee.pubkeys.len() - i,
    {
        pubkeys.push(committee.pubkeys[i]);
        proof {
            assert(pubkeys@ =~= committee.pubkeys@.take(i + 1));
        }
        i = i + 1;
    }
    proof {
        assert(committee.pubkeys@.take(committee.pubkeys@.len() as int) =~= committee.pubkeys@);
    }
    SyncCommittee { pubkeys, aggregate_pubkey: committee.aggregate_pubkey }
}

impl LightClientBootstrap {
    /// Wraps what the consensus node gave.
    pub fn from_data(bootstrap: BootstrapData) -> (wrapped: LightClientBootstrap)
        ensures
            wrapped.original == bootstrap,
    {
        LightClientBootstrap { original: bootstrap }
    }

    /// What the consensus node gave.
    pub fn original(&self) -> (data: &BootstrapData)
        ensures
            *data == self.original,
    {
        &self.original
    }

    /// The slot of the bootstrap header.
    pub fn slot(&self) -> (slot: u64)
        ensures
            slot == self.original.header.slot,
    {
        self.original.header.slot
    }

    /// The witness that the verifier checks: the header and the branch
    /// of the current sync committee.
    pub fn build_client_bootstrap(&self) -> (bootstrap: ClientBootstrap)
        ensures
            bootstrap.header == self.original.header,
            bootstrap.current_sync_committee_branch@ == self.original.current_sync_committee_branch@,
    {
        ClientBootstrap {
            header: self.original.header,
            current_sync_committee_branch: copy_hashes(&self.original.current_sync_committee_branch),
        }
    }

    /// The current sync committee with the period of the bootstrap slot.
    pub fn build_client_sync_committee(&self) -> (committee: ClientSyncCommittee)
        ensures
            committee.period == spec_sync_committee_period_at_slot(self.original.header.slot),
            committee.data.pubkeys@ == self.original.current_sync_committee.pubkeys@,
            committee.data.aggregate_pubkey == self.original.current_sync_committee.aggregate_pubkey,
    {
        let period = compute_sync_committee_period_at_slot(self.slot());
        ClientSyncCommittee { period, data: copy_committee(&self.original.current_sync_committee) }
    }

    /// The client that the bootstrap starts: it covers the bootstrap slot
    /// alone, its tip is the root of the bootstrap header, and the root
    /// of its mountain range is the one that a range gives after the
    /// root of the header was pushed as its only leaf. `None` where the
    /// range refuses the leaf or has no root.
    pub fn build_client(&self) -> (client: Option<Client>)
        ensures
            client is Some <==> (mmr_pushed(
                empty_store_nodes(),
                0,
                self.original.header.spec_tree_hash_root(),
            ) matches Some(pushed) && pushed.1 < 0x8000_0000_0000_0000 && mmr_root_of(pushed.0, pushed.1)
                is Some),
            client matches Some(c) ==> {
                &&& c.id == 0
                &&& c.minimal_slot == self.original.header.slot
                &&& c.maximal_slot == self.original.header.slot
                &&& c.tip_header_root@ == self.original.header.spec_tree_hash_root()
                &&& mmr_pushed(empty_store_nodes(), 0, self.original.header.spec_tree_hash_root()) matches Some(
                    pushed,
                )
                &&& mmr_root_of(pushed.0, pushed.1) == Some(c.headers_mmr_root.children_hash@)
            },
    {
        let header_with_cache = self.original.header.calc_cache();
        let mut store = mem_store_new();
        let size = match mmr_push(&mut store, 0, header_with_cache.digest()) {
            Some(size) => size,
            None => {
                return None;
            },
        };
        if size >= 0x8000_0000_0000_0000 {
            return None;
        }
        let headers_mmr_root = match mmr_get_root(&store, size) {
            Some(root) => root,
            None => {
                return None;
            },
        };
        Some(
            Client {
                id: 0,
                minimal_slot: self.original.header.slot,
                maximal_slot: self.original.header.slot,
                tip_header_root: header_with_cache.root,
                headers_mmr_root,
            },
        )
    }
}

} // verus!
