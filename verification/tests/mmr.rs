use ckb_merkle_mountain_range::Merge;
use eth_light_client::prover::dummy_light_client::{DummyLightClient, FinalityUpdate};
use eth_light_client::prover::light_client_bootstrap::{BootstrapData, LightClientBootstrap};
use eth_light_client::types::records::{Header, HeaderDigest, SyncAggregate, SyncCommittee};
use eth_light_client::utilities::mmr::{leaf_index_to_mmr_size, leaf_index_to_pos, MergeHeaderDigest};

#[test]
fn merge_hashes_the_hashes_of_the_two_digests() {
    let left = HeaderDigest { children_hash: [1; 32] };
    let right = HeaderDigest { children_hash: [2; 32] };
    let left_hash = eth2_hashing::hash_fixed(&[1; 32]);
    let right_hash = eth2_hashing::hash_fixed(&[2; 32]);
    assert_eq!(left.calc_mmr_hash(), left_hash);
    assert_ne!(left.calc_mmr_hash(), left.children_hash);
    let merged = MergeHeaderDigest::merge_digests(&left, &right);
    assert_eq!(merged.children_hash, eth2_hashing::hash32_concat(&left_hash, &right_hash));
    assert_eq!(MergeHeaderDigest::merge(&left, &right).unwrap(), merged);
}

#[test]
fn merging_peaks_swaps_the_two() {
    let left = HeaderDigest { children_hash: [1; 32] };
    let right = HeaderDigest { children_hash: [2; 32] };
    let bagged = MergeHeaderDigest::merge_peak_digests(&left, &right);
    assert_eq!(bagged, MergeHeaderDigest::merge_digests(&right, &left));
    assert_ne!(bagged, MergeHeaderDigest::merge_digests(&left, &right));
    assert_eq!(MergeHeaderDigest::merge_peaks(&left, &right).unwrap(), bagged);
}

fn mmr_header(slot: u64) -> Header {
    Header { slot, proposer_index: 9, parent_root: [slot as u8; 32], state_root: [1; 32], body_root: [2; 32] }
}

fn mmr_client(first_slot: u64) -> DummyLightClient {
    let bootstrap = LightClientBootstrap::from_data(BootstrapData {
        header: mmr_header(first_slot),
        current_sync_committee: SyncCommittee { pubkeys: vec![], aggregate_pubkey: [0; 48] },
        current_sync_committee_branch: vec![],
    });
    DummyLightClient::new(&bootstrap).unwrap()
}

fn mmr_finality() -> FinalityUpdate {
    FinalityUpdate {
        attested_header: mmr_header(0),
        finality_branch: vec![[5; 32]],
        sync_aggregate: SyncAggregate { sync_committee_bits: [0; 64], sync_committee_signature: [0; 96] },
        signature_slot: 1,
    }
}

#[test]
fn roots_of_small_mountain_ranges() {
    let leaf = |slot: u64| HeaderDigest { children_hash: mmr_header(slot).tree_hash_root() };
    let mut client = mmr_client(100);
    assert_eq!(client.client().headers_mmr_root, leaf(100));

    // Two leaves are one mountain.
    let update = client.apply_finality_update(&mmr_finality(), vec![mmr_header(101)]).unwrap();
    let pair = MergeHeaderDigest::merge_digests(&leaf(100), &leaf(101));
    assert_eq!(client.client().headers_mmr_root, pair);
    assert_eq!(update.headers, vec![mmr_header(101)]);
    assert_eq!(update.finality_branch, vec![[5; 32]]);
    assert_eq!(update.signature_slot, 1);
    assert_eq!(update.new_headers_mmr_proof, vec![leaf(100)]);

    // Three leaves are two peaks, bagged from the right: the peaks merge
    // with the later one first, which the merge of peaks turns around.
    client.apply_finality_update(&mmr_finality(), vec![mmr_header(102)]).unwrap();
    let bagged = MergeHeaderDigest::merge_peaks(&leaf(102), &pair).unwrap();
    assert_eq!(client.client().headers_mmr_root, bagged);
    assert_eq!(bagged, MergeHeaderDigest::merge_digests(&pair, &leaf(102)));

    // Four leaves are one mountain again.
    client.apply_finality_update(&mmr_finality(), vec![mmr_header(103)]).unwrap();
    let other = MergeHeaderDigest::merge_digests(&leaf(102), &leaf(103));
    assert_eq!(client.client().headers_mmr_root, MergeHeaderDigest::merge_digests(&pair, &other));
    assert_eq!(client.client().minimal_slot, 100);
    assert_eq!(client.client().maximal_slot, 103);
    assert_eq!(client.client().tip_header_root, mmr_header(103).tree_hash_root());
    assert_eq!(client.build_header_mmr_proof(101).unwrap(), vec![leaf(100), other]);
}

#[test]
fn updates_that_cannot_be_applied_leave_the_client() {
    let mut client = mmr_client(100);
    let before = *client.client();
    // A header before the client has no place in its mountain range.
    assert!(client.apply_finality_update(&mmr_finality(), vec![mmr_header(101), mmr_header(99)]).is_none());
    assert_eq!(*client.client(), before);
    assert!(client.apply_finality_update(&mmr_finality(), vec![mmr_header(u64::MAX)]).is_none());
    assert_eq!(*client.client(), before);
    // With no header there is no leaf to prove.
    assert!(client.apply_finality_update(&mmr_finality(), vec![]).is_none());
    assert_eq!(*client.client(), before);
}

#[test]
fn sizes_and_positions_are_those_of_the_mountain_range_crate() {
    assert_eq!(leaf_index_to_mmr_size(0), 1);
    assert_eq!(leaf_index_to_mmr_size(1), 3);
    assert_eq!(leaf_index_to_mmr_size(2), 4);
    assert_eq!(leaf_index_to_mmr_size(3), 7);
    assert_eq!(leaf_index_to_mmr_size(10), 19);
    let positions: Vec<u64> = (0..11).map(leaf_index_to_pos).collect();
    assert_eq!(positions, vec![0, 1, 3, 4, 7, 8, 10, 11, 15, 16, 18]);
    let indexes = (0..3000u64).chain([1 << 20, (1 << 32) - 1, 1 << 40, (1 << 62) - 3, (1 << 62) - 2]);
    for index in indexes {
        assert_eq!(leaf_index_to_mmr_size(index), ckb_merkle_mountain_range::leaf_index_to_mmr_size(index));
        assert_eq!(leaf_index_to_pos(index), ckb_merkle_mountain_range::leaf_index_to_pos(index));
    }
}
