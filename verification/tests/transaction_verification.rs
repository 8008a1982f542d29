use eth_light_client::error::TxVerificationError;
use eth_light_client::prover::cached_block::{BeaconBlockSummary, CachedBeaconBlock};
use eth_light_client::prover::dummy_light_client::{DummyLightClient, FinalityUpdate};
use eth_light_client::prover::light_client_bootstrap::{BootstrapData, LightClientBootstrap};
use eth_light_client::prover::receipts::{Log, Receipt, Receipts};
use eth_light_client::types::records::{
    Client, Header, HeaderDigest, SyncAggregate, SyncCommittee, TransactionPayload, TransactionProof,
};
use eth_light_client::utilities::ssz::{length_hash, verify_merkle_proof};

const TX_BOOTSTRAP_SLOT: u64 = 6_632_736;
const TX_BLOCK_SLOT: u64 = 6_632_854;

fn tx_transactions(count: usize) -> Vec<Vec<u8>> {
    (0..count).map(|i| (0..(40 + 13 * i)).map(|k| (k * 7 + i) as u8).collect()).collect()
}

fn tx_receipts(count: usize) -> Vec<Receipt> {
    (0..count)
        .map(|i| {
            let mut cumulative_gas_used = [0u8; 32];
            cumulative_gas_used[24..].copy_from_slice(&(21_000u64 * (i as u64 + 1)).to_be_bytes());
            let mut logs_bloom = [0u8; 256];
            logs_bloom[i % 256] = 0x80;
            Receipt {
                status: 1,
                cumulative_gas_used,
                logs_bloom,
                logs: vec![Log {
                    address: [i as u8; 20],
                    topics: vec![[0xaa; 32], [i as u8; 32]],
                    data: vec![i as u8; i],
                }],
                transaction_type: match i % 3 {
                    0 => None,
                    1 => Some(1),
                    _ => Some(2),
                },
            }
        })
        .collect()
}

fn tx_summary(slot: u64, transactions: Vec<Vec<u8>>, receipts_root: [u8; 32]) -> BeaconBlockSummary {
    BeaconBlockSummary {
        slot,
        block_number: 17_000_000,
        randao_reveal_root: [1; 32],
        eth1_data_root: [2; 32],
        graffiti_root: [3; 32],
        proposer_slashings_root: [4; 32],
        attester_slashings_root: [5; 32],
        attestations_root: [6; 32],
        deposits_root: [7; 32],
        voluntary_exits_root: [8; 32],
        sync_aggregate_root: [9; 32],
        parent_hash_root: [10; 32],
        fee_recipient_root: [11; 32],
        state_root: [12; 32],
        receipts_root,
        logs_bloom_root: [14; 32],
        prev_randao_root: [15; 32],
        block_number_root: [16; 32],
        gas_limit_root: [17; 32],
        gas_used_root: [18; 32],
        timestamp_root: [19; 32],
        extra_data_root: [20; 32],
        base_fee_per_gas_root: [21; 32],
        block_hash_root: [22; 32],
        transactions,
        withdrawals_root: Some([23; 32]),
        bls_to_execution_changes_root: Some([24; 32]),
    }
}

struct TxFixture {
    client: Client,
    light_client: DummyLightClient,
    block: CachedBeaconBlock,
    receipts: Receipts,
    header: Header,
}

/// A client over the slots from the bootstrap to 192 slots later, whose
/// header at the block slot carries the body root of the block.
fn tx_fixture(slot: u64, count: usize) -> TxFixture {
    let receipts = Receipts::from_receipts(tx_receipts(count)).unwrap();
    let block = CachedBeaconBlock::from_summary(tx_summary(slot, tx_transactions(count), receipts.root())).unwrap();
    let committee = SyncCommittee { pubkeys: vec![[0xc0; 48]; 512], aggregate_pubkey: [0xc0; 48] };
    let first = Header {
        slot: TX_BOOTSTRAP_SLOT,
        proposer_index: 1,
        parent_root: [0x31; 32],
        state_root: [0x32; 32],
        body_root: [0x33; 32],
    };
    let bootstrap = LightClientBootstrap::from_data(BootstrapData {
        header: first,
        current_sync_committee: committee,
        current_sync_committee_branch: vec![],
    });
    let mut light_client = DummyLightClient::new(&bootstrap).unwrap();
    let mut tip = first.tree_hash_root();
    let mut headers = Vec::new();
    let mut block_header = first;
    for s in TX_BOOTSTRAP_SLOT + 1..=TX_BOOTSTRAP_SLOT + 192 {
        let body_root = if s == slot { block.body_root() } else { [s as u8; 32] };
        let header = Header { slot: s, proposer_index: 5, parent_root: tip, state_root: [0x34; 32], body_root };
        tip = header.tree_hash_root();
        if s == slot {
            block_header = header;
        }
        headers.push(header);
    }
    let finality = FinalityUpdate {
        attested_header: first,
        finality_branch: vec![],
        sync_aggregate: SyncAggregate { sync_committee_bits: [0; 64], sync_committee_signature: [0; 96] },
        signature_slot: 0,
    };
    light_client.apply_finality_update(&finality, headers).unwrap();
    let client = *light_client.client();
    TxFixture { client, light_client, block, receipts, header: block_header }
}

fn tx_proof(fixture: &TxFixture, index: usize) -> TransactionProof {
    TransactionProof {
        header: fixture.header,
        transaction_index: index as u64,
        receipts_root: fixture.receipts.root(),
        header_mmr_proof: fixture.light_client.build_header_mmr_proof(fixture.header.slot).unwrap(),
        transaction_ssz_proof: fixture.block.generate_transaction_proof_for_block_body(index),
        receipt_mpt_proof: fixture.receipts.generate_proof(index).unwrap(),
        receipts_root_ssz_proof: fixture.block.generate_receipts_root_proof_for_block_body(),
    }
}

fn tx_payload(fixture: &TxFixture, index: usize) -> TransactionPayload {
    TransactionPayload {
        transaction: fixture.block.transaction(index).unwrap().clone(),
        receipt: fixture.receipts.encode_data(index),
    }
}

#[test]
fn every_transaction_of_a_capella_block_is_proved() {
    let fixture = tx_fixture(TX_BLOCK_SLOT, 9);
    assert_eq!(fixture.client.minimal_slot, TX_BOOTSTRAP_SLOT);
    assert_eq!(fixture.client.maximal_slot, 6_632_928);
    assert_eq!(fixture.block.slot(), TX_BLOCK_SLOT);
    assert_eq!(fixture.block.number(), 17_000_000);
    assert_eq!(fixture.block.transactions_count(), 9);
    assert_eq!(fixture.receipts.original().len(), 9);
    for index in 0..9 {
        let proof = tx_proof(&fixture, index);
        assert_eq!(proof.transaction_ssz_proof.len(), 29);
        assert_eq!(proof.receipts_root_ssz_proof.len(), 8);
        assert_eq!(fixture.client.verify_packed_transaction_proof(&proof), Ok(()));
        assert_eq!(proof.verify_packed_payload(&tx_payload(&fixture, index)), Ok(()));
        assert_eq!(proof.verify_transaction(fixture.block.transaction(index).unwrap()), Ok(()));
        assert_eq!(proof.verify_receipt(&fixture.receipts.encode_data(index)), Ok(()));
    }
}

#[test]
fn every_transaction_of_a_bellatrix_block_is_proved() {
    // The last slot before Capella.
    let slot = 194_048 * 32 - 1;
    let receipts = Receipts::from_receipts(tx_receipts(3)).unwrap();
    let mut summary = tx_summary(slot, tx_transactions(3), receipts.root());
    summary.withdrawals_root = None;
    summary.bls_to_execution_changes_root = None;
    let block = CachedBeaconBlock::from_summary(summary).unwrap();
    let header =
        Header { slot, proposer_index: 2, parent_root: [1; 32], state_root: [2; 32], body_root: block.body_root() };
    for index in 0..3 {
        let proof = TransactionProof {
            header,
            transaction_index: index as u64,
            receipts_root: receipts.root(),
            header_mmr_proof: vec![],
            transaction_ssz_proof: block.generate_transaction_proof_for_block_body(index),
            receipt_mpt_proof: receipts.generate_proof(index).unwrap(),
            receipts_root_ssz_proof: block.generate_receipts_root_proof_for_block_body(),
        };
        let payload = TransactionPayload {
            transaction: block.transaction(index).unwrap().clone(),
            receipt: receipts.encode_data(index),
        };
        assert_eq!(proof.verify_packed_payload(&payload), Ok(()));
    }
    // From Capella on the two fields of Capella are needed.
    let mut summary = tx_summary(slot + 1, tx_transactions(3), receipts.root());
    summary.withdrawals_root = None;
    assert!(CachedBeaconBlock::from_summary(summary).is_none());
}

#[test]
fn partial_branches_prove_the_roots_between() {
    let fixture = tx_fixture(TX_BLOCK_SLOT, 6);
    let block = &fixture.block;
    for index in 0..6usize {
        let leaf = block.transaction_hashes[index];
        let data = block.generate_transaction_proof_for_transactions_data(index);
        assert_eq!(data.len(), 20);
        assert!(verify_merkle_proof(&block.transactions_data_root(), &leaf, &data, (1 << 20) + index));
        let list = block.generate_transaction_proof_for_transactions(index);
        assert_eq!(list.len(), 21);
        assert_eq!(list[20], length_hash(6));
        assert!(verify_merkle_proof(&block.transactions_root(), &leaf, &list, (1 << 21) + index));
        let payload = block.generate_transaction_proof_for_execution_payload(index);
        assert_eq!(payload.len(), 25);
        assert!(verify_merkle_proof(&block.execution_payload_root(), &leaf, &payload, 60_817_408 + index));
    }
    let receipts = block.generate_receipts_root_proof_for_execution_payload();
    assert!(verify_merkle_proof(&block.execution_payload_root(), &fixture.receipts.root(), &receipts, 19));
    // The leaves are the roots of the transactions as byte lists.
    for (hash, transaction) in block.transaction_hashes.iter().zip(tx_transactions(6)) {
        let list = ssz_types::VariableList::<u8, ssz_types::typenum::U1073741824>::new(transaction.clone()).unwrap();
        assert_eq!(*hash, tree_hash::TreeHash::tree_hash_root(&list).to_fixed_bytes());
        let chunks = tree_hash::merkle_root(&transaction, 1 << 25);
        assert_eq!(*hash, tree_hash::mix_in_length(&chunks, transaction.len()).to_fixed_bytes());
        assert_ne!(hash[..], transaction[..32]);
        // In the library's own terms: the tree of depth 25 over the
        // chunks, hashed with the length.
        let chunks: Vec<[u8; 32]> = transaction
            .chunks(32)
            .map(|part| {
                let mut chunk = [0u8; 32];
                chunk[..part.len()].copy_from_slice(part);
                chunk
            })
            .collect();
        let tree = eth_light_client::utilities::merkle_tree::merkle_tree_root(&chunks, 25);
        assert_eq!(*hash, eth_light_client::utilities::hash::hash32_concat(&tree, &length_hash(transaction.len())));
    }
    assert!(block.transaction(6).is_none());
    assert_eq!(block.original().slot, TX_BLOCK_SLOT);
}

#[test]
fn header_outside_the_client_is_unsynchronized() {
    let fixture = tx_fixture(TX_BLOCK_SLOT, 2);
    let mut proof = tx_proof(&fixture, 0);
    proof.header.slot = TX_BOOTSTRAP_SLOT - 1;
    assert_eq!(fixture.client.verify_packed_transaction_proof(&proof), Err(TxVerificationError::Unsynchronized));
    proof.header.slot = 6_632_929;
    assert_eq!(fixture.client.verify_packed_transaction_proof(&proof), Err(TxVerificationError::Unsynchronized));
    // Inside the client, but the proof is that of another slot.
    proof.header.slot = 6_632_928;
    assert_eq!(fixture.client.verify_packed_transaction_proof(&proof), Err(TxVerificationError::MmrError));
}

#[test]
fn swapped_header_and_broken_mountain_range_proofs_are_rejected() {
    let fixture = tx_fixture(TX_BLOCK_SLOT, 2);
    let good = tx_proof(&fixture, 1);

    // Another header at the same slot.
    let mut proof = good.clone();
    proof.header.state_root[0] ^= 1;
    assert_eq!(fixture.client.verify_packed_transaction_proof(&proof), Err(TxVerificationError::HeaderMmrProof));
    assert_eq!(fixture.client.verify_single_header(&proof.header, &proof.header_mmr_proof), Some(false));

    let mut proof = good.clone();
    proof.header_mmr_proof[0].children_hash[0] ^= 1;
    assert_eq!(fixture.client.verify_packed_transaction_proof(&proof), Err(TxVerificationError::HeaderMmrProof));

    // One item too many is taken for a peak and gives another root;
    // more than the range has peaks cannot be placed.
    let mut proof = good.clone();
    proof.header_mmr_proof.push(HeaderDigest { children_hash: [0; 32] });
    assert_eq!(fixture.client.verify_packed_transaction_proof(&proof), Err(TxVerificationError::HeaderMmrProof));
    for _ in 0..8 {
        proof.header_mmr_proof.push(HeaderDigest { children_hash: [0; 32] });
    }
    assert_eq!(fixture.client.verify_packed_transaction_proof(&proof), Err(TxVerificationError::MmrError));
    assert_eq!(fixture.client.verify_single_header(&proof.header, &proof.header_mmr_proof), None);

    let mut client = fixture.client;
    client.headers_mmr_root.children_hash[31] ^= 1;
    assert_eq!(client.verify_packed_transaction_proof(&good), Err(TxVerificationError::HeaderMmrProof));

    let mut client = fixture.client;
    client.minimal_slot = client.maximal_slot + 1;
    assert_eq!(client.verify_single_header(&good.header, &good.header_mmr_proof), None);
    assert_eq!(fixture.client.verify_single_header(&good.header, &good.header_mmr_proof), Some(true));
}

#[test]
fn every_header_of_the_client_is_in_its_mountain_range() {
    let fixture = tx_fixture(TX_BLOCK_SLOT, 1);
    for slot in [TX_BOOTSTRAP_SLOT, TX_BOOTSTRAP_SLOT + 1, TX_BOOTSTRAP_SLOT + 2, TX_BLOCK_SLOT, 6_632_927, 6_632_928] {
        let header = fixture.light_client.beacon_header_at_slot(slot).unwrap();
        let proof = fixture.light_client.build_header_mmr_proof(slot).unwrap();
        assert_eq!(fixture.client.verify_single_header(&header.inner, &proof), Some(true));
        assert_eq!(header.digest().children_hash, header.inner.tree_hash_root());
        assert_eq!(header.packed_digest(), header.root.to_vec());
    }
    assert!(fixture.light_client.build_header_mmr_proof(TX_BOOTSTRAP_SLOT - 1).is_none());
    assert!(fixture.light_client.build_header_mmr_proof(6_632_929).is_none());
}

#[test]
fn transaction_at_another_index_is_rejected() {
    let fixture = tx_fixture(TX_BLOCK_SLOT, 4);
    let good = tx_proof(&fixture, 2);
    let payload = tx_payload(&fixture, 2);

    let mut proof = good.clone();
    proof.transaction_index = 3;
    assert_eq!(proof.verify_packed_payload(&payload), Err(TxVerificationError::TransactionSszProof));

    let other = tx_payload(&fixture, 3);
    assert_eq!(good.verify_transaction(&other.transaction), Err(TxVerificationError::TransactionSszProof));

    let mut proof = good.clone();
    proof.transaction_ssz_proof.pop();
    assert_eq!(proof.verify_transaction(&payload.transaction), Err(TxVerificationError::TransactionSszProof));

    let mut proof = good.clone();
    proof.transaction_ssz_proof[28][0] ^= 1;
    assert_eq!(proof.verify_transaction(&payload.transaction), Err(TxVerificationError::TransactionSszProof));

    let mut proof = good.clone();
    proof.transaction_index = u64::MAX;
    assert_eq!(proof.verify_transaction(&payload.transaction), Err(TxVerificationError::TransactionSszProof));
}

#[test]
fn receipt_with_a_flipped_status_is_rejected() {
    let fixture = tx_fixture(TX_BLOCK_SLOT, 4);
    let good = tx_proof(&fixture, 1);
    let payload = tx_payload(&fixture, 1);
    assert_eq!(good.verify_receipt(&payload.receipt), Ok(()));

    let mut flipped = tx_receipts(4)[1].clone();
    flipped.status = 0;
    let receipt = eth_light_client::prover::receipts::encode_receipt(&flipped).unwrap();
    assert_ne!(receipt, payload.receipt);
    assert_eq!(good.verify_receipt(&receipt), Err(TxVerificationError::ReceiptMptProof));
    assert_eq!(
        good.verify_packed_payload(&TransactionPayload { transaction: payload.transaction.clone(), receipt }),
        Err(TxVerificationError::ReceiptMptProof)
    );

    let other = tx_payload(&fixture, 2);
    assert_eq!(good.verify_receipt(&other.receipt), Err(TxVerificationError::ReceiptMptProof));

    let mut proof = good.clone();
    proof.receipt_mpt_proof.clear();
    assert_eq!(proof.verify_receipt(&payload.receipt), Err(TxVerificationError::ReceiptMptProof));

    let mut proof = good.clone();
    proof.receipts_root[0] ^= 1;
    assert_eq!(proof.verify_receipt(&payload.receipt), Err(TxVerificationError::ReceiptMptProof));
}

#[test]
fn receipts_root_outside_the_body_is_rejected() {
    let fixture = tx_fixture(TX_BLOCK_SLOT, 3);
    let good = tx_proof(&fixture, 0);
    let payload = tx_payload(&fixture, 0);

    let mut proof = good.clone();
    proof.receipts_root_ssz_proof[3][5] ^= 1;
    assert_eq!(proof.verify_receipt(&payload.receipt), Err(TxVerificationError::ReceiptsRootSszProof));

    let mut proof = good.clone();
    proof.receipts_root_ssz_proof.push([0; 32]);
    assert_eq!(proof.verify_receipt(&payload.receipt), Err(TxVerificationError::ReceiptsRootSszProof));

    let mut proof = good.clone();
    proof.header.body_root[0] ^= 1;
    assert_eq!(proof.verify_packed_payload(&payload), Err(TxVerificationError::TransactionSszProof));
    assert_eq!(proof.verify_receipt(&payload.receipt), Err(TxVerificationError::ReceiptsRootSszProof));
}

#[test]
fn transaction_longer_than_the_limit_is_an_ssz_error() {
    let fixture = tx_fixture(TX_BLOCK_SLOT, 1);
    let proof = tx_proof(&fixture, 0);
    let long = vec![0u8; 1_073_741_825];
    assert_eq!(proof.verify_transaction(&long), Err(TxVerificationError::SszError));
}
