//! What the verifier checks: the bootstrap of a client, its updates, the
//! rotation of the sync committee, and the proofs of transactions.

use vstd::prelude::*;

use crate::consensus_specs::forks::altair;
use crate::consensus_specs::helpers::{compute_sync_committee_period_at_slot, spec_sync_committee_period_at_slot};
use crate::consensus_specs::internal::{
    get_depth_and_index_from_current_sync_committee_index,
    get_depth_and_index_from_finalized_root_index,
    get_depth_and_index_from_next_sync_committee_index,
    get_generalized_index_of_receipts_root_in_block_body,
    get_generalized_index_of_transaction_in_block_body_offset,
};
use crate::error::{ClientBootstrapError, ClientUpdateError, SyncCommitteeUpdateError, TxVerificationError};
use crate::types::records::{
    Client,
    ClientBootstrap,
    ClientSyncCommittee,
    ClientUpdate,
    Header,
    HeaderDigest,
    SyncAggregate,
    SyncCommittee,
    SyncCommitteeUpdate,
    TransactionPayload,
    TransactionProof,
};
use crate::utilities::bls::{
    compute_signing_root_at_signature_slot,
    participant_bit,
    participants_count,
    spec_compute_signing_root_at_signature_slot,
    BlsError,
};
use crate::utilities::hash::hash_eq;
use crate::utilities::mmr::{
    digests_view,
    leaf_index_to_mmr_size,
    leaf_index_to_pos,
    lemma_count_ones_bound,
    mmr_incremental_outcome,
    mmr_inclusion_outcome,
    mmr_verify,
    mmr_verify_incremental,
    spec_leaf_index_to_mmr_size,
    spec_leaf_index_to_pos,
    HeaderWithCache,
    MAX_LEAF_INDEX,
};
use crate::utilities::mpt::{spec_verify_proof, verify_proof};
use crate::utilities::rlp_encoding::{rlp_encode_u64, spec_rlp_uint, strings_view};
use crate::utilities::ssz::{branch_root, is_valid_merkle_branch, spec_floor_depth, verify_merkle_proof, Hash256};
use crate::utilities::tree_hash::{byte_list_root, ssz_byte_list_root};

verus! {

/// Number of participants from which a sync aggregate carries a
/// supermajority: two thirds of 512, rounded up.
pub const SUPERMAJORITY: usize = 342;

impl Header {
    /// The client that a bootstrap header starts: it covers the slot of
    /// the header alone, and the mountain range is the one leaf.
    pub fn initialize_client(&self) -> (client: Client)
        ensures
            client.id == 0,
            client.minimal_slot == self.slot,
            client.maximal_slot == self.slot,
            client.tip_header_root@ == self.spec_tree_hash_root(),
            client.headers_mmr_root.children_hash@ == self.spec_tree_hash_root(),
            client.wf(),
    {
        let root = self.tree_hash_root();
        Client {
            id: 0,
            minimal_slot: self.slot,
            maximal_slot: self.slot,
            tip_header_root: root,
            headers_mmr_root: HeaderDigest { children_hash: root },
        }
    }
}

impl SyncAggregate {
    /// Whether at least two thirds of the committee took part.
    pub open spec fn spec_has_supermajority(self) -> bool {
        participants_count(self.sync_committee_bits@, 512) * 3 >= 512 * 2
    }

    /// Whether at least two thirds of the committee took part: three
    /// times the set bits reach twice the 512 members, which 342 bits do
    /// and 341 do not.
    pub fn has_supermajority(&self) -> (enough: bool)
        ensures
            enough == self.spec_has_supermajority(),
            enough == (participants_count(self.sync_committee_bits@, 512) >= SUPERMAJORITY),
    {
        let mut ones: usize = 0;
        let mut i: usize = 0;
        while i < 512
            invariant
                i <= 512,
                ones == participants_count(self.sync_committee_bits@, i as nat),
                ones <= i,
            decreases 512 - i,
        {
            if participant_bit(&self.sync_committee_bits, i) {
                ones = ones + 1;
            }
            i = i + 1;
        }
        ones * 3 >= 512 * 2
    }
}

impl SyncCommittee {
    /// A sync committee has 512 members.
    pub open spec fn wf(self) -> bool {
        self.pubkeys.len() == altair::SYNC_COMMITTEE_SIZE
    }
}

/// What the signature check of an update gives: the committee's keys are
/// validated, then the aggregate signature is verified over the signing
/// root of the attested header at the signature slot.
pub open spec fn spec_signature_check(
    committee: SyncCommittee,
    aggregate: SyncAggregate,
    attested_header: Header,
    signature_slot: u64,
    genesis_validators_root: Seq<u8>,
) -> Result<bool, BlsError> {
    match committee.spec_decompress_all_pubkeys() {
        Err(e) => Err(e),
        Ok(keys) => {
            let message = spec_compute_signing_root_at_signature_slot(
                attested_header.spec_tree_hash_root(),
                signature_slot,
                altair::DOMAIN_SYNC_COMMITTEE@,
                genesis_validators_root,
            );
            aggregate.spec_fast_aggregate_verify(keys, message)
        },
    }
}

/// Validates the keys of `committee` and verifies `aggregate` over the
/// signing root of `attested_header`.
fn check_signature(
    committee: &SyncCommittee,
    aggregate: &SyncAggregate,
    attested_header: &Header,
    signature_slot: u64,
    genesis_validators_root: Hash256,
) -> (checked: Result<bool, BlsError>)
    requires
        committee.wf(),
    ensures
        checked == spec_signature_check(
            *committee,
            *aggregate,
            *attested_header,
            signature_slot,
            genesis_validators_root@,
        ),
{
    let attested_root = attested_header.tree_hash_root();
    let domain_type = altair::DOMAIN_SYNC_COMMITTEE;
    let message = compute_signing_root_at_signature_slot(
        attested_root,
        signature_slot,
        &domain_type,
        genesis_validators_root,
    );
    let pubkeys = match committee.decompress_all_pubkeys() {
        Ok(keys) => keys,
        Err(e) => {
            return Err(e);
        },
    };
    aggregate.fast_aggregate_verify(pubkeys.as_slice(), message)
}

impl ClientBootstrap {
    /// What the check of a bootstrap against a committee gives. The
    /// checks come in this order, and the first that fails names the
    /// error: the header is not empty; the committee is that of the
    /// period of the header; it has 512 members; the branch proves its
    /// root in the state of the header.
    pub open spec fn spec_verify_packed_client_sync_committee(self, committee: ClientSyncCommittee) -> Result<
        (),
        ClientBootstrapError,
    > {
        if self.header.spec_is_empty() {
            Err(ClientBootstrapError::HeaderIsEmpty)
        } else if spec_sync_committee_period_at_slot(self.header.slot) != committee.period {
            Err(ClientBootstrapError::IncorrectPeriod)
        } else if committee.data.pubkeys.len() != altair::SYNC_COMMITTEE_SIZE {
            Err(ClientBootstrapError::UnexpectedSyncCommitteeSize)
        } else if !(self.current_sync_committee_branch.len() >= 5 && branch_root(
            committee.data.spec_tree_hash_root(),
            self.current_sync_committee_branch@,
            5,
            22,
        ) == self.header.state_root@) {
            Err(ClientBootstrapError::InvalidSyncCommitteeBranch)
        } else {
            Ok(())
        }
    }

    /// Checks that `client_sync_committee` is the current sync committee
    /// in the state of the bootstrap header.
    pub fn verify_packed_client_sync_committee(&self, client_sync_committee: &ClientSyncCommittee) -> (verdict:
        Result<(), ClientBootstrapError>)
        ensures
            verdict == self.spec_verify_packed_client_sync_committee(*client_sync_committee),
    {
        if self.header.is_empty() {
            return Err(ClientBootstrapError::HeaderIsEmpty);
        }
        let expected_period = compute_sync_committee_period_at_slot(self.header.slot);
        if expected_period != client_sync_committee.period {
            return Err(ClientBootstrapError::IncorrectPeriod);
        }
        if client_sync_committee.data.pubkeys.len() != altair::SYNC_COMMITTEE_SIZE {
            return Err(ClientBootstrapError::UnexpectedSyncCommitteeSize);
        }
        let sync_committee_root = client_sync_committee.data.tree_hash_root();
        let (depth, index) = get_depth_and_index_from_current_sync_committee_index(self.header.slot);
        if !is_valid_merkle_branch(
            &sync_committee_root,
            self.current_sync_committee_branch.as_slice(),
            depth as usize,
            index,
            &self.header.state_root,
        ) {
            return Err(ClientBootstrapError::InvalidSyncCommitteeBranch);
        }
        Ok(())
    }

    /// Checks the bootstrap against the committee and, if it holds,
    /// starts the client at the bootstrap header.
    pub fn verify_client_bootstrap(&self, client_sync_committee: &ClientSyncCommittee) -> (started: Result<
        Client,
        ClientBootstrapError,
    >)
        ensures
            started is Ok <==> self.spec_verify_packed_client_sync_committee(*client_sync_committee) is Ok,
            started matches Err(e) ==> self.spec_verify_packed_client_sync_committee(*client_sync_committee)
                == Err::<(), ClientBootstrapError>(e),
            started matches Ok(client) ==> {
                &&& client.id == 0
                &&& client.minimal_slot == self.header.slot
                &&& client.maximal_slot == self.header.slot
                &&& client.tip_header_root@ == self.header.spec_tree_hash_root()
                &&& client.headers_mmr_root.children_hash@ == self.header.spec_tree_hash_root()
            },
    {
        match self.verify_packed_client_sync_committee(client_sync_committee) {
            Ok(()) => Ok(self.header.initialize_client()),
            Err(e) => Err(e),
        }
    }
}

/// The roots of the headers, which are their leaves in the mountain
/// range.
pub open spec fn header_roots(headers: Seq<Header>) -> Seq<Seq<u8>> {
    Seq::new(headers.len(), |i: int| headers[i].spec_tree_hash_root())
}

/// The tip after the first `n` headers: the root of the last of them
/// that is not empty, and the old tip if all are empty.
pub open spec fn tip_after(headers: Seq<Header>, old_tip: Seq<u8>, n: nat) -> Seq<u8>
    decreases n,
{
    if n == 0 {
        old_tip
    } else if headers[n - 1].spec_is_empty() {
        tip_after(headers, old_tip, (n - 1) as nat)
    } else {
        headers[n - 1].spec_tree_hash_root()
    }
}

/// What is wrong with header `i` where all before it are in order: the
/// first must follow the last slot of the client and, unless empty,
/// build on its tip; each later one must follow its predecessor by one
/// slot and, unless empty, build on the tip so far.
pub open spec fn header_fault_at(headers: Seq<Header>, client: Client, i: int) -> Option<ClientUpdateError> {
    if i == 0 {
        if headers[0].slot != client.maximal_slot + 1 {
            Some(ClientUpdateError::FirstHeaderSlot)
        } else if !headers[0].spec_is_empty() && headers[0].parent_root@ != client.tip_header_root@ {
            Some(ClientUpdateError::FirstHeaderParentRoot)
        } else {
            None
        }
    } else {
        if headers[i - 1].slot + 1 != headers[i].slot {
            Some(ClientUpdateError::UncontinuousSlot)
        } else if !headers[i].spec_is_empty() && headers[i].parent_root@ != tip_after(
            headers,
            client.tip_header_root@,
            i as nat,
        ) {
            Some(ClientUpdateError::UnmatchedParentRoot)
        } else {
            None
        }
    }
}

/// The fault of the first of the first `n` headers that has one.
pub open spec fn first_header_fault(headers: Seq<Header>, client: Client, n: nat) -> Option<ClientUpdateError>
    decreases n,
{
    if n == 0 {
        None
    } else {
        match first_header_fault(headers, client, (n - 1) as nat) {
            Some(e) => Some(e),
            None => header_fault_at(headers, client, n - 1),
        }
    }
}

/// A fault, once found, stays the first fault of every longer prefix.
pub proof fn lemma_first_fault_stays(headers: Seq<Header>, client: Client, i: nat, n: nat)
    requires
        i <= n,
        first_header_fault(headers, client, i) is Some,
    ensures
        first_header_fault(headers, client, n) == first_header_fault(headers, client, i),
    decreases n,
{
    if i < n {
        lemma_first_fault_stays(headers, client, i, (n - 1) as nat);
    }
}

/// Where the first `n` headers have no fault, none of them has one.
pub proof fn lemma_no_fault_everywhere(headers: Seq<Header>, client: Client, n: nat, i: int)
    requires
        first_header_fault(headers, client, n) is None,
        0 <= i < n,
    ensures
        header_fault_at(headers, client, i) is None,
    decreases n,
{
    if i < n - 1 {
        lemma_no_fault_everywhere(headers, client, (n - 1) as nat, i);
    }
}

/// Headers without a fault cover consecutive slots after the client.
pub proof fn lemma_slots_follow(headers: Seq<Header>, client: Client, n: nat, i: int)
    requires
        first_header_fault(headers, client, n) is None,
        0 <= i < n,
    ensures
        headers[i].slot == client.maximal_slot + 1 + i,
    decreases i,
{
    lemma_no_fault_everywhere(headers, client, n, i);
    if i > 0 {
        lemma_slots_follow(headers, client, n, i - 1);
    }
}

impl ClientUpdate {
    /// What the check of the headers and of the new client gives. The
    /// checks come in this order: there are headers; none has a fault;
    /// the mountain-range proof leads from the old root, through the
    /// roots of the headers, to the new root; the new client keeps id and
    /// first slot, ends at the slot of the last header, and its tip is
    /// the root of the last header that is not empty.
    pub open spec fn spec_verify_headers_and_new_client(self, client: Client, new_client: Client) -> Result<
        (),
        ClientUpdateError,
    > {
        let headers = self.headers@;
        if headers.len() == 0 {
            Err(ClientUpdateError::EmptyHeaders)
        } else {
            match first_header_fault(headers, client, headers.len()) {
                Some(e) => Err(e),
                None => {
                    let new_maximal_slot = headers.last().slot;
                    if new_maximal_slot < client.minimal_slot || new_maximal_slot - client.minimal_slot
                        > MAX_LEAF_INDEX {
                        Err(ClientUpdateError::MmrError)
                    } else {
                        let max_index = (new_maximal_slot - client.minimal_slot) as u64;
                        match mmr_incremental_outcome(
                            spec_leaf_index_to_mmr_size(max_index) as u64,
                            digests_view(self.new_headers_mmr_proof@),
                            new_client.headers_mmr_root.children_hash@,
                            client.headers_mmr_root.children_hash@,
                            header_roots(headers),
                        ) {
                            None => Err(ClientUpdateError::MmrError),
                            Some(false) => Err(ClientUpdateError::HeadersMmrProof),
                            Some(true) => {
                                if new_client.id != client.id {
                                    Err(ClientUpdateError::ClientIdChanged)
                                } else if new_client.minimal_slot != client.minimal_slot {
                                    Err(ClientUpdateError::ClientMinimalSlotChanged)
                                } else if new_client.maximal_slot != new_maximal_slot {
                                    Err(ClientUpdateError::ClientMaximalSlot)
                                } else if new_client.tip_header_root@ != tip_after(
                                    headers,
                                    client.tip_header_root@,
                                    headers.len(),
                                ) {
                                    Err(ClientUpdateError::ClientTipHeaderRoot)
                                } else {
                                    Ok(())
                                }
                            },
                        }
                    }
                },
            }
        }
    }

    /// Checks the headers of the update against the old client, the
    /// mountain-range proof against both roots, and the new client
    /// against what the headers give. On success returns the last header,
    /// which is the finalized one, with its root.
    pub fn verify_headers_and_new_client(&self, client: Client, new_client: Client) -> (verdict: Result<
        HeaderWithCache,
        ClientUpdateError,
    >)
        ensures
            verdict is Ok <==> self.spec_verify_headers_and_new_client(client, new_client) is Ok,
            verdict matches Err(e) ==> self.spec_verify_headers_and_new_client(client, new_client) == Err::<
                (),
                ClientUpdateError,
            >(e),
            verdict matches Ok(last) ==> self.headers.len() > 0 && last.inner == self.headers@.last()
                && last.wf(),
    {
        let headers_count = self.headers.len();
        if headers_count == 0 {
            return Err(ClientUpdateError::EmptyHeaders);
        }
        let ghost headers = self.headers@;
        let ghost old_tip = client.tip_header_root@;
        let first = self.headers[0].calc_cache();
        if client.maximal_slot == u64::MAX || first.inner.slot != client.maximal_slot + 1 {
            proof {
                assert(first_header_fault(headers, client, 0) is None);
                assert(first_header_fault(headers, client, 1) == Some(ClientUpdateError::FirstHeaderSlot));
                lemma_first_fault_stays(headers, client, 1, headers.len());
            }
            return Err(ClientUpdateError::FirstHeaderSlot);
        }
        let mut tip: Hash256 = client.tip_header_root;
        if !first.inner.is_empty() {
            if !hash_eq(&first.inner.parent_root, &client.tip_header_root) {
                proof {
                    assert(first_header_fault(headers, client, 0) is None);
                    assert(first_header_fault(headers, client, 1) == Some(
                        ClientUpdateError::FirstHeaderParentRoot,
                    ));
                    lemma_first_fault_stays(headers, client, 1, headers.len());
                }
                return Err(ClientUpdateError::FirstHeaderParentRoot);
            }
            tip = first.root;
        }
        let mut digests: Vec<HeaderDigest> = Vec::new();
        digests.push(first.digest());
        let mut prev = first;
        let mut i: usize = 1;
        proof {
            assert(first_header_fault(headers, client, 0) is None);
            assert(tip_after(headers, old_tip, 0) == old_tip);
        }
        while i < headers_count
            invariant
                1 <= i <= headers_count,
                headers_count == self.headers.len(),
                headers == self.headers@,
                old_tip == client.tip_header_root@,
                first_header_fault(headers, client, i as nat) is None,
                tip@ == tip_after(headers, old_tip, i as nat),
                prev.inner == headers[i - 1],
                prev.wf(),
                digests.len() == i,
                forall|j: int|
                    0 <= j < i ==> (#[trigger] digests[j]).children_hash@ == headers[j].spec_tree_hash_root(),
            decreases headers_count - i,
        {
            let curr = self.headers[i].calc_cache();
            if prev.inner.slot == u64::MAX || prev.inner.slot + 1 != curr.inner.slot {
                proof {
                    assert(first_header_fault(headers, client, (i + 1) as nat) == Some(
                        ClientUpdateError::UncontinuousSlot,
                    ));
                    lemma_first_fault_stays(headers, client, (i + 1) as nat, headers.len());
                }
                return Err(ClientUpdateError::UncontinuousSlot);
            }
            if !curr.inner.is_empty() {
                if !hash_eq(&tip, &curr.inner.parent_root) {
                    proof {
                        assert(first_header_fault(headers, client, (i + 1) as nat) == Some(
                            ClientUpdateError::UnmatchedParentRoot,
                        ));
                        lemma_first_fault_stays(headers, client, (i + 1) as nat, headers.len());
                    }
                    return Err(ClientUpdateError::UnmatchedParentRoot);
                }
                tip = curr.root;
            }
            digests.push(curr.digest());
            prev = curr;
            i = i + 1;
        }
        let new_maximal_slot = prev.inner.slot;
        proof {
            assert(headers.last() == headers[headers_count - 1]);
            assert(digests_view(digests@) =~= header_roots(headers));
        }
        if new_maximal_slot < client.minimal_slot || new_maximal_slot - client.minimal_slot > MAX_LEAF_INDEX {
            return Err(ClientUpdateError::MmrError);
        }
        let max_index = new_maximal_slot - client.minimal_slot;
        proof {
            lemma_count_ones_bound((max_index + 1) as nat);
        }
        let mmr_size = leaf_index_to_mmr_size(max_index);
        match mmr_verify_incremental(
            mmr_size,
            &self.new_headers_mmr_proof,
            new_client.headers_mmr_root,
            client.headers_mmr_root,
            digests,
        ) {
            None => {
                return Err(ClientUpdateError::MmrError);
            },
            Some(false) => {
                return Err(ClientUpdateError::HeadersMmrProof);
            },
            Some(true) => {},
        }
        if new_client.id != client.id {
            return Err(ClientUpdateError::ClientIdChanged);
        }
        if new_client.minimal_slot != client.minimal_slot {
            return Err(ClientUpdateError::ClientMinimalSlotChanged);
        }
        if new_client.maximal_slot != new_maximal_slot {
            return Err(ClientUpdateError::ClientMaximalSlot);
        }
        if !hash_eq(&new_client.tip_header_root, &tip) {
            return Err(ClientUpdateError::ClientTipHeaderRoot);
        }
        Ok(prev)
    }
}

/// What a failed signature check means for a client update.
pub open spec fn client_update_signature_verdict(checked: Result<bool, BlsError>) -> Option<ClientUpdateError> {
    match checked {
        Err(BlsError::InvalidPublicKey) => Some(ClientUpdateError::BlsPublicKeyBytesError),
        Err(BlsError::InvalidSignature) => Some(ClientUpdateError::BlsAggregateSignatureError),
        Ok(false) => Some(ClientUpdateError::FailedToVerifyTheAttestedHeader),
        Ok(true) => None,
    }
}

/// What a failed signature check means for a sync-committee update.
pub open spec fn committee_update_signature_verdict(checked: Result<bool, BlsError>) -> Option<
    SyncCommitteeUpdateError,
> {
    match checked {
        Err(BlsError::InvalidPublicKey) => Some(SyncCommitteeUpdateError::BlsPublicKeyBytesError),
        Err(BlsError::InvalidSignature) => Some(SyncCommitteeUpdateError::BlsAggregateSignatureError),
        Ok(false) => Some(SyncCommitteeUpdateError::FailedToVerifyTheAttestedHeader),
        Ok(true) => None,
    }
}

impl ClientUpdate {
    /// What the check of a client update gives. The checks come in this
    /// order, and the first that fails names the error: the attested
    /// header is not empty and older than the signature slot; the headers
    /// and the new client are in order; the last header, the finalized
    /// one, is not empty; the committee is that of the period of the
    /// signature slot; a supermajority took part; the keys are valid, the
    /// signature can be read and signs the attested header; the
    /// finalized header is older than the attested one; the finality
    /// branch proves its root in the attested state.
    pub open spec fn spec_verify_client_update(
        self,
        old_client: Client,
        genesis_validators_root: Seq<u8>,
        committee: ClientSyncCommittee,
        new_client: Client,
    ) -> Result<(), ClientUpdateError> {
        if self.attested_header.spec_is_empty() {
            Err(ClientUpdateError::AttestedHeaderIsEmpty)
        } else if self.attested_header.slot >= self.signature_slot {
            Err(ClientUpdateError::BadSignatureSlot)
        } else {
            match self.spec_verify_headers_and_new_client(old_client, new_client) {
                Err(e) => Err(e),
                Ok(()) => {
                    let finalized = self.headers@.last();
                    if finalized.spec_is_empty() {
                        Err(ClientUpdateError::FinalizedHeaderIsEmpty)
                    } else if committee.period != spec_sync_committee_period_at_slot(self.signature_slot) {
                        Err(ClientUpdateError::MismatchedSyncCommittee)
                    } else if !self.sync_aggregate.spec_has_supermajority() {
                        Err(ClientUpdateError::NotSupermajorityParticipation)
                    } else {
                        match client_update_signature_verdict(
                            spec_signature_check(
                                committee.data,
                                self.sync_aggregate,
                                self.attested_header,
                                self.signature_slot,
                                genesis_validators_root,
                            ),
                        ) {
                            Some(e) => Err(e),
                            None => {
                                if finalized.slot >= self.attested_header.slot {
                                    Err(ClientUpdateError::FinalizedShouldBeAfterAttested)
                                } else if !(self.finality_branch.len() >= 6 && branch_root(
                                    finalized.spec_tree_hash_root(),
                                    self.finality_branch@,
                                    6,
                                    41,
                                ) == self.attested_header.state_root@) {
                                    Err(ClientUpdateError::InvalidFinalityBranch)
                                } else {
                                    Ok(())
                                }
                            },
                        }
                    }
                },
            }
        }
    }

    /// Checks that the update moves `old_client` to `new_client`: that
    /// its headers extend the old client, that the current sync committee
    /// signed the attested header, and that the attested state finalizes
    /// the last header.
    pub fn verify_client_update(
        &self,
        old_client: Client,
        genesis_validators_root: Hash256,
        client_sync_committee: &ClientSyncCommittee,
        new_client: Client,
    ) -> (verdict: Result<(), ClientUpdateError>)
        requires
            client_sync_committee.data.wf(),
        ensures
            verdict == self.spec_verify_client_update(
                old_client,
                genesis_validators_root@,
                *client_sync_committee,
                new_client,
            ),
    {
        if self.attested_header.is_empty() {
            return Err(ClientUpdateError::AttestedHeaderIsEmpty);
        }
        if self.attested_header.slot >= self.signature_slot {
            return Err(ClientUpdateError::BadSignatureSlot);
        }
        let finalized_header = match self.verify_headers_and_new_client(old_client, new_client) {
            Ok(last) => last,
            Err(e) => {
                return Err(e);
            },
        };
        if finalized_header.is_empty() {
            return Err(ClientUpdateError::FinalizedHeaderIsEmpty);
        }
        let signature_period = compute_sync_committee_period_at_slot(self.signature_slot);
        if client_sync_committee.period != signature_period {
            return Err(ClientUpdateError::MismatchedSyncCommittee);
        }
        if !self.sync_aggregate.has_supermajority() {
            return Err(ClientUpdateError::NotSupermajorityParticipation);
        }
        match check_signature(
            &client_sync_committee.data,
            &self.sync_aggregate,
            &self.attested_header,
            self.signature_slot,
            genesis_validators_root,
        ) {
            Err(BlsError::InvalidPublicKey) => {
                return Err(ClientUpdateError::BlsPublicKeyBytesError);
            },
            Err(BlsError::InvalidSignature) => {
                return Err(ClientUpdateError::BlsAggregateSignatureError);
            },
            Ok(false) => {
                return Err(ClientUpdateError::FailedToVerifyTheAttestedHeader);
            },
            Ok(true) => {},
        }
        if finalized_header.inner.slot >= self.attested_header.slot {
            return Err(ClientUpdateError::FinalizedShouldBeAfterAttested);
        }
        let (depth, index) = get_depth_and_index_from_finalized_root_index(self.attested_header.slot);
        if !is_valid_merkle_branch(
            &finalized_header.root,
            self.finality_branch.as_slice(),
            depth as usize,
            index,
            &self.attested_header.state_root,
        ) {
            return Err(ClientUpdateError::InvalidFinalityBranch);
        }
        Ok(())
    }

    /// An update that is accepted moves the client forward and changes
    /// nothing else: the new client keeps id and first slot, ends at the
    /// slot of the last header, which lies after the old end, and its tip
    /// is the root of the last header that is not empty. A client that
    /// covered at least one slot still does.
    pub proof fn lemma_accepted_update_advances(
        self,
        old_client: Client,
        genesis_validators_root: Seq<u8>,
        committee: ClientSyncCommittee,
        new_client: Client,
    )
        requires
            self.spec_verify_client_update(old_client, genesis_validators_root, committee, new_client) is Ok,
        ensures
            new_client.id == old_client.id,
            new_client.minimal_slot == old_client.minimal_slot,
            new_client.maximal_slot == old_client.maximal_slot + self.headers@.len(),
            new_client.maximal_slot > old_client.maximal_slot,
            new_client.maximal_slot == self.headers@.last().slot,
            new_client.tip_header_root@ == self.headers@.last().spec_tree_hash_root(),
            new_client.tip_header_root@ == tip_after(self.headers@, old_client.tip_header_root@, self.headers@.len()),
            old_client.wf() ==> new_client.wf(),
    {
        let headers = self.headers@;
        lemma_slots_follow(headers, old_client, headers.len(), headers.len() - 1);
    }

    /// Headers that skip a slot are never accepted.
    pub proof fn lemma_skipped_slot_rejected(
        self,
        old_client: Client,
        genesis_validators_root: Seq<u8>,
        committee: ClientSyncCommittee,
        new_client: Client,
        i: int,
    )
        requires
            0 < i < self.headers@.len(),
            self.headers@[i - 1].slot + 1 != self.headers@[i].slot,
        ensures
            self.spec_verify_client_update(old_client, genesis_validators_root, committee, new_client) is Err,
    {
        let headers = self.headers@;
        if first_header_fault(headers, old_client, headers.len()) is None {
            lemma_no_fault_everywhere(headers, old_client, headers.len(), i);
        }
    }

    /// A first header that does not follow the last slot of the client
    /// is rejected for just that, if the attested header passes its own
    /// checks and there are headers.
    pub proof fn lemma_first_header_slot_rejected(
        self,
        old_client: Client,
        genesis_validators_root: Seq<u8>,
        committee: ClientSyncCommittee,
        new_client: Client,
    )
        requires
            !self.attested_header.spec_is_empty(),
            self.attested_header.slot < self.signature_slot,
            self.headers@.len() > 0,
            self.headers@[0].slot != old_client.maximal_slot + 1,
        ensures
            self.spec_verify_client_update(old_client, genesis_validators_root, committee, new_client) == Err::<
                (),
                ClientUpdateError,
            >(ClientUpdateError::FirstHeaderSlot),
    {
        let headers = self.headers@;
        assert(first_header_fault(headers, old_client, 0) is None);
        assert(first_header_fault(headers, old_client, 1) == Some(ClientUpdateError::FirstHeaderSlot));
        lemma_first_fault_stays(headers, old_client, 1, headers.len());
    }

    /// An aggregate with fewer than 342 participants is never accepted.
    pub proof fn lemma_minority_rejected(
        self,
        old_client: Client,
        genesis_validators_root: Seq<u8>,
        committee: ClientSyncCommittee,
        new_client: Client,
    )
        requires
            participants_count(self.sync_aggregate.sync_committee_bits@, 512) < SUPERMAJORITY,
        ensures
            self.spec_verify_client_update(old_client, genesis_validators_root, committee, new_client) is Err,
    {
    }
}

impl SyncCommitteeUpdate {
    /// What the check of a sync-committee update gives. The checks come
    /// in this order, and the first that fails names the error: the
    /// attested header is not empty and older than the signature slot;
    /// the current committee is that of the period of the last slot of
    /// the client, and of the signature slot; a supermajority took part;
    /// the keys are valid, the signature can be read and signs the
    /// attested header; the next committee is that of the following
    /// period and has 512 members; the branch proves its root in the
    /// attested state.
    pub open spec fn spec_verify_packed_client_sync_committee(
        self,
        maximal_slot_in_last_client: u64,
        genesis_validators_root: Seq<u8>,
        current: ClientSyncCommittee,
        next: ClientSyncCommittee,
    ) -> Result<(), SyncCommitteeUpdateError> {
        if self.attested_header.spec_is_empty() {
            Err(SyncCommitteeUpdateError::AttestedHeaderIsEmpty)
        } else if self.attested_header.slot >= self.signature_slot {
            Err(SyncCommitteeUpdateError::BadSignatureSlot)
        } else if current.period != spec_sync_committee_period_at_slot(maximal_slot_in_last_client) {
            Err(SyncCommitteeUpdateError::BadCurrentPeriod)
        } else if current.period != spec_sync_committee_period_at_slot(self.signature_slot) {
            Err(SyncCommitteeUpdateError::SignatureInNextPeriod)
        } else if !self.sync_aggregate.spec_has_supermajority() {
            Err(SyncCommitteeUpdateError::NotSupermajorityParticipation)
        } else {
            match committee_update_signature_verdict(
                spec_signature_check(
                    current.data,
                    self.sync_aggregate,
                    self.attested_header,
                    self.signature_slot,
                    genesis_validators_root,
                ),
            ) {
                Some(e) => Err(e),
                None => {
                    if current.period + 1 != next.period {
                        Err(SyncCommitteeUpdateError::NoncontinuousPeriods)
                    } else if next.data.pubkeys.len() != altair::SYNC_COMMITTEE_SIZE {
                        Err(SyncCommitteeUpdateError::UnexpectedNextSyncCommitteeSize)
                    } else if !(self.next_sync_committee_branch.len() >= 5 && branch_root(
                        next.data.spec_tree_hash_root(),
                        self.next_sync_committee_branch@,
                        5,
                        23,
                    ) == self.attested_header.state_root@) {
                        Err(SyncCommitteeUpdateError::InvalidNextSyncCommitteeBranch)
                    } else {
                        Ok(())
                    }
                },
            }
        }
    }

    /// Checks that the update rotates the current sync committee of a
    /// client that ends at `maximal_slot_in_last_client` into
    /// `next_client_sync_committee`.
    pub fn verify_packed_client_sync_committee(
        &self,
        maximal_slot_in_last_client: u64,
        genesis_validators_root: Hash256,
        current_client_sync_committee: &ClientSyncCommittee,
        next_client_sync_committee: &ClientSyncCommittee,
    ) -> (verdict: Result<(), SyncCommitteeUpdateError>)
        requires
            current_client_sync_committee.data.wf(),
        ensures
            verdict == self.spec_verify_packed_client_sync_committee(
                maximal_slot_in_last_client,
                genesis_validators_root@,
                *current_client_sync_committee,
                *next_client_sync_committee,
            ),
    {
        if self.attested_header.is_empty() {
            return Err(SyncCommitteeUpdateError::AttestedHeaderIsEmpty);
        }
        if self.attested_header.slot >= self.signature_slot {
            return Err(SyncCommitteeUpdateError::BadSignatureSlot);
        }
        let last_client_period = compute_sync_committee_period_at_slot(maximal_slot_in_last_client);
        if current_client_sync_committee.period != last_client_period {
            return Err(SyncCommitteeUpdateError::BadCurrentPeriod);
        }
        let signature_period = compute_sync_committee_period_at_slot(self.signature_slot);
        if current_client_sync_committee.period != signature_period {
            return Err(SyncCommitteeUpdateError::SignatureInNextPeriod);
        }
        if !self.sync_aggregate.has_supermajority() {
            return Err(SyncCommitteeUpdateError::NotSupermajorityParticipation);
        }
        match check_signature(
            &current_client_sync_committee.data,
            &self.sync_aggregate,
            &self.attested_header,
            self.signature_slot,
            genesis_validators_root,
        ) {
            Err(BlsError::InvalidPublicKey) => {
                return Err(SyncCommitteeUpdateError::BlsPublicKeyBytesError);
            },
            Err(BlsError::InvalidSignature) => {
                return Err(SyncCommitteeUpdateError::BlsAggregateSignatureError);
            },
            Ok(false) => {
                return Err(SyncCommitteeUpdateError::FailedToVerifyTheAttestedHeader);
            },
            Ok(true) => {},
        }
        if current_client_sync_committee.period == u64::MAX || current_client_sync_committee.period + 1
            != next_client_sync_committee.period {
            return Err(SyncCommitteeUpdateError::NoncontinuousPeriods);
        }
        if next_client_sync_committee.data.pubkeys.len() != altair::SYNC_COMMITTEE_SIZE {
            return Err(SyncCommitteeUpdateError::UnexpectedNextSyncCommitteeSize);
        }
        let next_sync_committee_root = next_client_sync_committee.data.tree_hash_root();
        let (depth, index) = get_depth_and_index_from_next_sync_committee_index(self.attested_header.slot);
        if !is_valid_merkle_branch(
            &next_sync_committee_root,
            self.next_sync_committee_branch.as_slice(),
            depth as usize,
            index,
            &self.attested_header.state_root,
        ) {
            return Err(SyncCommitteeUpdateError::InvalidNextSyncCommitteeBranch);
        }
        Ok(())
    }

    /// An update that is accepted rotates to the committee of the
    /// following period, for a signature made in the current period.
    pub proof fn lemma_accepted_rotation_is_next_period(
        self,
        maximal_slot_in_last_client: u64,
        genesis_validators_root: Seq<u8>,
        current: ClientSyncCommittee,
        next: ClientSyncCommittee,
    )
        requires
            self.spec_verify_packed_client_sync_committee(
                maximal_slot_in_last_client,
                genesis_validators_root,
                current,
                next,
            ) is Ok,
        ensures
            next.period == current.period + 1,
            current.period == maximal_slot_in_last_client / 8192,
            current.period == self.signature_slot / 8192,
            next.data.wf(),
            participants_count(self.sync_aggregate.sync_committee_bits@, 512) >= SUPERMAJORITY,
    {
    }
}

impl Client {
    /// What the mountain-range check of a header gives: `None` where the
    /// header lies before the client, the client covers more slots than
    /// a mountain range can hold, or the proof is malformed; else whether
    /// the proof shows the root of the header as the leaf of its slot
    /// under the root of the client.
    pub open spec fn spec_verify_single_header(self, header: Header, header_mmr_proof: Seq<HeaderDigest>) -> Option<
        bool,
    > {
        if self.maximal_slot < self.minimal_slot || header.slot < self.minimal_slot {
            None
        } else if self.maximal_slot - self.minimal_slot > MAX_LEAF_INDEX || header.slot - self.minimal_slot
            > MAX_LEAF_INDEX {
            None
        } else {
            mmr_inclusion_outcome(
                spec_leaf_index_to_mmr_size((self.maximal_slot - self.minimal_slot) as u64) as u64,
                digests_view(header_mmr_proof),
                self.headers_mmr_root.children_hash@,
                spec_leaf_index_to_pos((header.slot - self.minimal_slot) as u64) as u64,
                header.spec_tree_hash_root(),
            )
        }
    }

    /// Checks the mountain-range proof that `header` is the header of
    /// its slot in the chain of the client.
    pub fn verify_single_header(&self, header: &Header, header_mmr_proof: &Vec<HeaderDigest>) -> (outcome: Option<
        bool,
    >)
        ensures
            outcome == self.spec_verify_single_header(*header, header_mmr_proof@),
    {
        if self.maximal_slot < self.minimal_slot || header.slot < self.minimal_slot {
            return None;
        }
        let max_index = self.maximal_slot - self.minimal_slot;
        let index = header.slot - self.minimal_slot;
        if max_index > MAX_LEAF_INDEX || index > MAX_LEAF_INDEX {
            return None;
        }
        proof {
            lemma_count_ones_bound((max_index + 1) as nat);
        }
        let mmr_size = leaf_index_to_mmr_size(max_index);
        let position = leaf_index_to_pos(index);
        let digest = header.calc_cache().digest();
        mmr_verify(mmr_size, header_mmr_proof, self.headers_mmr_root, position, digest)
    }

    /// What the check of a transaction proof against the client gives:
    /// the header must lie in the slots of the client, and the
    /// mountain-range proof must show it under the root of the client.
    pub open spec fn spec_verify_packed_transaction_proof(self, tx_proof: TransactionProof) -> Result<
        (),
        TxVerificationError,
    > {
        if self.minimal_slot > tx_proof.header.slot || self.maximal_slot < tx_proof.header.slot {
            Err(TxVerificationError::Unsynchronized)
        } else {
            match self.spec_verify_single_header(tx_proof.header, tx_proof.header_mmr_proof@) {
                None => Err(TxVerificationError::MmrError),
                Some(false) => Err(TxVerificationError::HeaderMmrProof),
                Some(true) => Ok(()),
            }
        }
    }

    /// Checks that the header of a transaction proof is in the chain of
    /// the client.
    pub fn verify_packed_transaction_proof(&self, tx_proof: &TransactionProof) -> (verdict: Result<
        (),
        TxVerificationError,
    >)
        ensures
            verdict == self.spec_verify_packed_transaction_proof(*tx_proof),
    {
        let header_slot = tx_proof.header.slot;
        if self.minimal_slot > header_slot || self.maximal_slot < header_slot {
            return Err(TxVerificationError::Unsynchronized);
        }
        match self.verify_single_header(&tx_proof.header, &tx_proof.header_mmr_proof) {
            None => Err(TxVerificationError::MmrError),
            Some(false) => Err(TxVerificationError::HeaderMmrProof),
            Some(true) => Ok(()),
        }
    }
}

impl TransactionProof {
    /// What the check of the bytes of a transaction gives: they must be
    /// no longer than a transaction may be, and the branch must prove
    /// their root under the body root, at the generalized index of the
    /// transaction.
    pub open spec fn spec_verify_transaction(self, transaction: Seq<u8>) -> Result<(), TxVerificationError> {
        let index = self.transaction_index + 866_123_776;
        if transaction.len() > 1_073_741_824 {
            Err(TxVerificationError::SszError)
        } else if index > usize::MAX {
            Err(TxVerificationError::TransactionSszProof)
        } else if !(self.transaction_ssz_proof@.len() == spec_floor_depth(index as nat) && branch_root(
            ssz_byte_list_root(transaction),
            self.transaction_ssz_proof@,
            self.transaction_ssz_proof@.len(),
            index as nat,
        ) == self.header.body_root@) {
            Err(TxVerificationError::TransactionSszProof)
        } else {
            Ok(())
        }
    }

    /// Checks that `transaction` is the transaction of the proof in the
    /// body of its block.
    pub fn verify_transaction(&self, transaction: &[u8]) -> (verdict: Result<(), TxVerificationError>)
        ensures
            verdict == self.spec_verify_transaction(transaction@),
    {
        let tx_root = match byte_list_root(transaction) {
            Some(root) => root,
            None => {
                return Err(TxVerificationError::SszError);
            },
        };
        let tx_in_block_offset = get_generalized_index_of_transaction_in_block_body_offset(self.header.slot);
        if self.transaction_index > (usize::MAX - tx_in_block_offset) as u64 {
            return Err(TxVerificationError::TransactionSszProof);
        }
        let tx_index = self.transaction_index as usize;
        let tx_in_block_index = tx_index + tx_in_block_offset;
        if !verify_merkle_proof(
            &self.header.body_root,
            &tx_root,
            self.transaction_ssz_proof.as_slice(),
            tx_in_block_index,
        ) {
            Err(TxVerificationError::TransactionSszProof)
        } else {
            Ok(())
        }
    }

    /// What the check of the bytes of a receipt gives: the trie proof
    /// must prove them under the receipts root at the key of the
    /// transaction index, and the branch must prove the receipts root
    /// under the body root.
    pub open spec fn spec_verify_receipt(self, receipt: Seq<u8>) -> Result<(), TxVerificationError> {
        if !spec_verify_proof(
            strings_view(self.receipt_mpt_proof@),
            self.receipts_root@,
            spec_rlp_uint(self.transaction_index),
            receipt,
        ) {
            Err(TxVerificationError::ReceiptMptProof)
        } else if !(self.receipts_root_ssz_proof@.len() == spec_floor_depth(403) && branch_root(
            self.receipts_root@,
            self.receipts_root_ssz_proof@,
            self.receipts_root_ssz_proof@.len(),
            403,
        ) == self.header.body_root@) {
            Err(TxVerificationError::ReceiptsRootSszProof)
        } else {
            Ok(())
        }
    }

    /// Checks that `receipt` is the receipt of the transaction of the
    /// proof in its block.
    pub fn verify_receipt(&self, receipt: &[u8]) -> (verdict: Result<(), TxVerificationError>)
        ensures
            verdict == self.spec_verify_receipt(receipt@),
    {
        let key = rlp_encode_u64(self.transaction_index);
        let receipts_root_in_block_body = get_generalized_index_of_receipts_root_in_block_body(self.header.slot);
        if !verify_proof(
            self.receipt_mpt_proof.as_slice(),
            self.receipts_root.as_slice(),
            key.as_slice(),
            receipt,
        ) {
            Err(TxVerificationError::ReceiptMptProof)
        } else if !verify_merkle_proof(
            &self.header.body_root,
            &self.receipts_root,
            self.receipts_root_ssz_proof.as_slice(),
            receipts_root_in_block_body,
        ) {
            Err(TxVerificationError::ReceiptsRootSszProof)
        } else {
            Ok(())
        }
    }

    /// What the check of a payload gives: the transaction is checked
    /// first, then the receipt.
    pub open spec fn spec_verify_packed_payload(self, payload: TransactionPayload) -> Result<
        (),
        TxVerificationError,
    > {
        match self.spec_verify_transaction(payload.transaction@) {
            Err(e) => Err(e),
            Ok(()) => self.spec_verify_receipt(payload.receipt@),
        }
    }

    /// Checks the raw bytes of the transaction and of its receipt.
    pub fn verify_packed_payload(&self, payload: &TransactionPayload) -> (verdict: Result<(), TxVerificationError>)
        ensures
            verdict == self.spec_verify_packed_payload(*payload),
    {
        match self.verify_transaction(payload.transaction.as_slice()) {
            Err(e) => Err(e),
            Ok(()) => self.verify_receipt(payload.receipt.as_slice()),
        }
    }
}

} // verus!
