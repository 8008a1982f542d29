use eth_light_client::consensus_specs::forks::altair::DOMAIN_SYNC_COMMITTEE;
use eth_light_client::error::SyncCommitteeUpdateError;
use eth_light_client::prover::light_client_update::{LightClientUpdate, UpdateData};
use eth_light_client::types::records::{ClientSyncCommittee, Header, SyncAggregate, SyncCommittee, SyncCommitteeUpdate};
use eth_light_client::utilities::bls::{compute_signing_root_at_signature_slot, DOMAIN_SEPARATION_TAG};
use eth_light_client::utilities::merkle_tree::{merkle_tree_branch, merkle_tree_root};

const ROTATION_GENESIS_ROOT: [u8; 32] = [0x4b; 32];

fn rotation_keys(seed: u8) -> Vec<blst::min_pk::SecretKey> {
    (0..512u32)
        .map(|i| {
            let mut ikm = [seed; 32];
            ikm[..4].copy_from_slice(&i.to_le_bytes());
            blst::min_pk::SecretKey::key_gen(&ikm, &[]).unwrap()
        })
        .collect()
}

fn rotation_committee(keys: &[blst::min_pk::SecretKey]) -> SyncCommittee {
    let pubkeys: Vec<[u8; 48]> = keys.iter().map(|sk| sk.sk_to_pk().compress()).collect();
    let aggregate_pubkey = pubkeys[511];
    SyncCommittee { pubkeys, aggregate_pubkey }
}

fn rotation_sign(keys: &[blst::min_pk::SecretKey], bits: [u8; 64], message: [u8; 32]) -> SyncAggregate {
    let signatures: Vec<blst::min_pk::Signature> = keys
        .iter()
        .enumerate()
        .filter(|(i, _)| bits[i / 8] & (1 << (i % 8)) != 0)
        .map(|(_, sk)| sk.sign(&message, &DOMAIN_SEPARATION_TAG, &[]))
        .collect();
    let refs: Vec<&blst::min_pk::Signature> = signatures.iter().collect();
    let signature = blst::min_pk::AggregateSignature::aggregate(&refs, true).unwrap().to_signature().compress();
    SyncAggregate { sync_committee_bits: bits, sync_committee_signature: signature }
}

/// The update, signed by `signers`, whose attested state at
/// `attested_slot` holds `next` as the next sync committee.
fn rotation_update(
    signers: &[blst::min_pk::SecretKey],
    next: &SyncCommittee,
    attested_slot: u64,
) -> LightClientUpdate {
    let mut leaves = vec![[0x66u8; 32]; 32];
    leaves[23] = next.tree_hash_root();
    let state_root = merkle_tree_root(&leaves, 5);
    let next_sync_committee_branch = merkle_tree_branch(&leaves, 5, 23);
    let attested_header =
        Header { slot: attested_slot, proposer_index: 3, parent_root: [1; 32], state_root, body_root: [2; 32] };
    let signature_slot = attested_slot + 1;
    let message = compute_signing_root_at_signature_slot(
        attested_header.tree_hash_root(),
        signature_slot,
        &DOMAIN_SYNC_COMMITTEE,
        ROTATION_GENESIS_ROOT,
    );
    LightClientUpdate::from_data(UpdateData {
        attested_header,
        next_sync_committee: next.clone(),
        next_sync_committee_branch,
        sync_aggregate: rotation_sign(signers, [0xff; 64], message),
        signature_slot,
    })
}

struct RotationFixture {
    keys: Vec<blst::min_pk::SecretKey>,
    current: ClientSyncCommittee,
    next: ClientSyncCommittee,
    update: SyncCommitteeUpdate,
    maximal_slot: u64,
}

fn rotation_fixture() -> RotationFixture {
    let keys = rotation_keys(1);
    let next_keys = rotation_keys(2);
    // Slot 4,612,096 is the first slot of period 563.
    let maximal_slot = 4_612_095;
    let prover = rotation_update(&keys, &rotation_committee(&next_keys), 4_612_000);
    let current = ClientSyncCommittee { period: 562, data: rotation_committee(&keys) };
    let next = prover.build_next_client_sync_committee();
    RotationFixture { keys, current, next, update: prover.build_sync_committee_update(), maximal_slot }
}

fn rotation_verify(fixture: &RotationFixture, update: &SyncCommitteeUpdate) -> Result<(), SyncCommitteeUpdateError> {
    update.verify_packed_client_sync_committee(
        fixture.maximal_slot,
        ROTATION_GENESIS_ROOT,
        &fixture.current,
        &fixture.next,
    )
}

#[test]
fn rotation_at_the_period_boundary_is_accepted() {
    let fixture = rotation_fixture();
    assert_eq!(fixture.next.period, 563);
    assert_eq!(rotation_verify(&fixture, &fixture.update), Ok(()));
}

#[test]
fn six_rotations_in_a_row_are_accepted() {
    let mut keys = rotation_keys(10);
    let mut current = ClientSyncCommittee { period: 562, data: rotation_committee(&keys) };
    for round in 0..6u64 {
        let next_keys = rotation_keys(11 + round as u8);
        let period = 562 + round;
        let attested_slot = period * 8192 + 5000;
        let prover = rotation_update(&keys, &rotation_committee(&next_keys), attested_slot);
        let next = prover.build_next_client_sync_committee();
        assert_eq!(next.period, period + 1);
        let update = prover.build_sync_committee_update();
        let maximal_slot = period * 8192 + 8191;
        assert_eq!(
            update.verify_packed_client_sync_committee(maximal_slot, ROTATION_GENESIS_ROOT, &current, &next),
            Ok(())
        );
        keys = next_keys;
        current = next;
    }
    assert_eq!(current.period, 568);
}

#[test]
fn rotation_errors_of_update_and_periods() {
    let fixture = rotation_fixture();

    let mut update = fixture.update.clone();
    update.attested_header.proposer_index = 0;
    update.attested_header.parent_root = [0; 32];
    update.attested_header.state_root = [0; 32];
    update.attested_header.body_root = [0; 32];
    assert_eq!(rotation_verify(&fixture, &update), Err(SyncCommitteeUpdateError::AttestedHeaderIsEmpty));

    let mut update = fixture.update.clone();
    update.signature_slot = update.attested_header.slot;
    assert_eq!(rotation_verify(&fixture, &update), Err(SyncCommitteeUpdateError::BadSignatureSlot));

    assert_eq!(
        fixture.update.verify_packed_client_sync_committee(
            4_612_096,
            ROTATION_GENESIS_ROOT,
            &fixture.current,
            &fixture.next
        ),
        Err(SyncCommitteeUpdateError::BadCurrentPeriod)
    );

    let mut update = fixture.update.clone();
    update.signature_slot = 4_612_096;
    assert_eq!(rotation_verify(&fixture, &update), Err(SyncCommitteeUpdateError::SignatureInNextPeriod));

    let mut next = fixture.next.clone();
    next.period = 564;
    assert_eq!(
        fixture.update.verify_packed_client_sync_committee(
            fixture.maximal_slot,
            ROTATION_GENESIS_ROOT,
            &fixture.current,
            &next
        ),
        Err(SyncCommitteeUpdateError::NoncontinuousPeriods)
    );

    let mut next = fixture.next.clone();
    next.data.pubkeys.push([1; 48]);
    assert_eq!(
        fixture.update.verify_packed_client_sync_committee(
            fixture.maximal_slot,
            ROTATION_GENESIS_ROOT,
            &fixture.current,
            &next
        ),
        Err(SyncCommitteeUpdateError::UnexpectedNextSyncCommitteeSize)
    );

    // A next committee with one public key altered.
    let mut next = fixture.next.clone();
    next.data.pubkeys[17][47] ^= 1;
    assert_eq!(
        fixture.update.verify_packed_client_sync_committee(
            fixture.maximal_slot,
            ROTATION_GENESIS_ROOT,
            &fixture.current,
            &next
        ),
        Err(SyncCommitteeUpdateError::InvalidNextSyncCommitteeBranch)
    );
}

#[test]
fn rotation_errors_of_the_signature() {
    let fixture = rotation_fixture();

    let mut bits = [0xffu8; 64];
    for i in 341..512 {
        bits[i / 8] &= !(1 << (i % 8));
    }
    let mut update = fixture.update.clone();
    update.sync_aggregate.sync_committee_bits = bits;
    assert_eq!(rotation_verify(&fixture, &update), Err(SyncCommitteeUpdateError::NotSupermajorityParticipation));

    let mut update = fixture.update.clone();
    update.sync_aggregate.sync_committee_bits[0] = 0xfe;
    assert_eq!(rotation_verify(&fixture, &update), Err(SyncCommitteeUpdateError::FailedToVerifyTheAttestedHeader));
    let message = compute_signing_root_at_signature_slot(
        update.attested_header.tree_hash_root(),
        update.signature_slot,
        &DOMAIN_SYNC_COMMITTEE,
        ROTATION_GENESIS_ROOT,
    );
    update.sync_aggregate = rotation_sign(&fixture.keys, update.sync_aggregate.sync_committee_bits, message);
    assert_eq!(rotation_verify(&fixture, &update), Ok(()));

    let mut current = fixture.current.clone();
    current.data.pubkeys[0] = [0xc0; 48];
    assert_eq!(
        fixture.update.verify_packed_client_sync_committee(
            fixture.maximal_slot,
            ROTATION_GENESIS_ROOT,
            &current,
            &fixture.next
        ),
        Err(SyncCommitteeUpdateError::BlsPublicKeyBytesError)
    );

    let mut update = fixture.update.clone();
    update.sync_aggregate.sync_committee_signature = [0x01; 96];
    assert_eq!(rotation_verify(&fixture, &update), Err(SyncCommitteeUpdateError::BlsAggregateSignatureError));
}

#[test]
fn rotation_witness_is_what_the_node_gave() {
    let keys = rotation_keys(1);
    let next = rotation_committee(&rotation_keys(2));
    let prover = rotation_update(&keys, &next, 4_612_000);
    let witness = prover.build_sync_committee_update();
    assert_eq!(witness.attested_header, prover.original().attested_header);
    assert_eq!(witness.next_sync_committee_branch, prover.original().next_sync_committee_branch);
    assert_eq!(witness.sync_aggregate, prover.original().sync_aggregate);
    assert_eq!(witness.signature_slot, 4_612_001);
    let committee = prover.build_next_client_sync_committee();
    assert_eq!(committee.period, 4_612_000 / 8192 + 1);
    assert_eq!(committee.data, next);
}
