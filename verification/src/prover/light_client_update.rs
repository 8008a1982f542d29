//! What a consensus node hands out at the change of a sync-committee
//! period, and the witnesses that the prover builds from it.

use vstd::prelude::*;

use crate::consensus_specs::helpers::{compute_sync_committee_period_at_slot, spec_sync_committee_period_at_slot};
use crate::prover::light_client_bootstrap::{copy_committee, copy_hashes};
use crate::types::records::{ClientSyncCommittee, Header, SyncAggregate, SyncCommittee, SyncCommitteeUpdate};
use crate::utilities::ssz::Hash256;

verus! {

/// A light-client update as the consensus node gives it.
#[derive(Clone, Debug, PartialEq, Eq)]
pub struct UpdateData {
    pub attested_header: Header,
    pub next_sync_committee: SyncCommittee,
    pub next_sync_committee_branch: Vec<Hash256>,
    pub sync_aggregate: SyncAggregate,
    pub signature_slot: u64,
}

/// An update from which the prover builds its witnesses.
#[derive(Clone, Debug, PartialEq, Eq)]
pub struct LightClientUpdate {
    pub original: UpdateData,
}

impl LightClientUpdate {
    /// Wraps what the consensus node gave.
    pub fn from_data(update: UpdateData) -> (wrapped: LightClientUpdate)
        ensures
            wrapped.original == update,
    {
        LightClientUpdate { original: update }
    }

    /// What the consensus node gave.
    pub fn original(&self) -> (data: &UpdateData)
        ensures
            *data == self.original,
    {
        &self.original
    }

    /// The witness that the verifier checks: the attested header, the
    /// branch of the next sync committee, and the signature.
    pub fn build_sync_committee_update(&self) -> (update: SyncCommitteeUpdate)
        ensures
            update.attested_header == self.original.attested_header,
            update.next_sync_committee_branch@ == self.original.next_sync_committee_branch@,
            update.sync_aggregate == self.original.sync_aggregate,
            update.signature_slot == self.original.signature_slot,
    {
        SyncCommitteeUpdate {
            attested_header: self.original.attested_header,
            next_sync_committee_branch: copy_hashes(&self.original.next_sync_committee_branch),
            sync_aggregate: self.original.sync_aggregate,
            signature_slot: self.original.signature_slot,
        }
    }

    /// The next sync committee with the period after that of the
    /// attested slot.
    pub fn build_next_client_sync_committee(&self) -> (committee: ClientSyncCommittee)
        ensures
            committee.period == spec_sync_committee_period_at_slot(self.original.attested_header.slot) + 1,
            committee.data.pubkeys@ == self.original.next_sync_committee.pubkeys@,
            committee.data.aggregate_pubkey == self.original.next_sync_committee.aggregate_pubkey,
    {
        let attested_period = compute_sync_committee_period_at_slot(self.original.attested_header.slot);
        ClientSyncCommittee { period: attested_period + 1, data: copy_committee(&self.original.next_sync_committee) }
    }
}

} // verus!
