use eth_light_client::consensus_specs::forks::{
    altair, bellatrix, capella, fork_at_epoch, fork_of, fork_version, layout_of, phase0, Fork,
};
use eth_light_client::consensus_specs::helpers::{
    compute_epoch_at_slot, compute_fork_version, compute_fork_version_at_slot, compute_start_slot_at_epoch,
    compute_sync_committee_period, compute_sync_committee_period_at_slot, floorlog2, get_subtree_index,
};
use eth_light_client::consensus_specs::internal::{
    get_depth_and_index_from_current_sync_committee_index, get_depth_and_index_from_finalized_root_index,
    get_depth_and_index_from_next_sync_committee_index, get_generalized_index_of_receipts_root_in_block_body,
    get_generalized_index_of_transaction_in_block_body_offset,
};
use eth_light_client::utilities::ssz::ceil_depth;

#[test]
fn slots_epochs_and_periods() {
    assert_eq!(compute_epoch_at_slot(0), 0);
    assert_eq!(compute_epoch_at_slot(31), 0);
    assert_eq!(compute_epoch_at_slot(32), 1);
    assert_eq!(compute_epoch_at_slot(6_632_736), 207_273);
    assert_eq!(compute_epoch_at_slot(u64::MAX), u64::MAX / 32);
    assert_eq!(compute_start_slot_at_epoch(0), 0);
    assert_eq!(compute_start_slot_at_epoch(194_048), 6_209_536);
    assert_eq!(compute_start_slot_at_epoch(u64::MAX / 32), u64::MAX - 31);
    assert_eq!(compute_sync_committee_period(255), 0);
    assert_eq!(compute_sync_committee_period(256), 1);
    assert_eq!(compute_sync_committee_period_at_slot(8191), 0);
    assert_eq!(compute_sync_committee_period_at_slot(8192), 1);
    assert_eq!(compute_sync_committee_period_at_slot(6_632_736), 809);
    assert_eq!(compute_sync_committee_period_at_slot(4_612_095), 562);
    assert_eq!(compute_sync_committee_period_at_slot(4_612_096), 563);
}

#[test]
fn fork_versions_change_at_the_fork_epochs() {
    assert_eq!(phase0::SLOTS_PER_EPOCH, 32);
    assert_eq!(altair::EPOCHS_PER_SYNC_COMMITTEE_PERIOD, 256);
    assert_eq!(altair::SYNC_COMMITTEE_SIZE, 512);
    assert_eq!(altair::DOMAIN_SYNC_COMMITTEE, [7, 0, 0, 0]);
    assert_eq!((altair::FORK_EPOCH, bellatrix::FORK_EPOCH, capella::FORK_EPOCH), (74_240, 144_896, 194_048));
    assert_eq!(compute_fork_version(0), [1, 0, 0, 0]);
    assert_eq!(compute_fork_version(74_239), [1, 0, 0, 0]);
    assert_eq!(compute_fork_version(74_240), [1, 0, 0, 0]);
    assert_eq!(compute_fork_version(144_895), [1, 0, 0, 0]);
    assert_eq!(compute_fork_version(144_896), [2, 0, 0, 0]);
    assert_eq!(compute_fork_version(194_047), [2, 0, 0, 0]);
    assert_eq!(compute_fork_version(194_048), [3, 0, 0, 0]);
    assert_eq!(compute_fork_version(u64::MAX), [3, 0, 0, 0]);
    assert_eq!(compute_fork_version_at_slot(6_209_535), [2, 0, 0, 0]);
    assert_eq!(compute_fork_version_at_slot(6_209_536), [3, 0, 0, 0]);
    assert_eq!(fork_at_epoch(0), Fork::Phase0);
    assert_eq!(fork_at_epoch(74_240), Fork::Altair);
    assert_eq!(fork_at_epoch(144_896), Fork::Bellatrix);
    assert_eq!(fork_at_epoch(194_048), Fork::Capella);
    assert_eq!(fork_of(6_209_535), Fork::Bellatrix);
    assert_eq!(fork_of(6_209_536), Fork::Capella);
    assert_eq!(fork_version(Fork::Phase0), phase0::GENESIS_FORK_VERSION);
    assert_eq!(fork_version(Fork::Capella), capella::FORK_VERSION);
}

#[test]
fn container_layouts_differ_in_the_field_counts_only() {
    let before = layout_of(6_209_535);
    let after = layout_of(6_209_536);
    assert_eq!(before.execution_payload_fields_count, 14);
    assert_eq!(after.execution_payload_fields_count, 15);
    assert_eq!(before.block_body_fields_count, 10);
    assert_eq!(after.block_body_fields_count, 11);
    assert_eq!(before.transactions_in_execution_payload_index, 13);
    assert_eq!(after.transactions_in_execution_payload_index, 13);
    assert_eq!(before.receipts_root_in_execution_payload_index, 3);
    assert_eq!(after.receipts_root_in_execution_payload_index, 3);
    assert_eq!(before.execution_payload_in_block_body_index, 9);
    assert_eq!(after.execution_payload_in_block_body_index, 9);
    assert_eq!(layout_of(0), before);
    assert_eq!(bellatrix::TRANSACTIONS_DEPTH, ceil_depth(bellatrix::MAX_TRANSACTIONS_PER_PAYLOAD));
    assert_eq!(bellatrix::EXECUTION_PAYLOAD_DEPTH, ceil_depth(bellatrix::EXECUTION_PAYLOAD_FIELDS_COUNT));
    assert_eq!(capella::EXECUTION_PAYLOAD_DEPTH, ceil_depth(capella::EXECUTION_PAYLOAD_FIELDS_COUNT));
    assert_eq!(bellatrix::BLOCK_BODY_DEPTH, ceil_depth(bellatrix::BLOCK_BODY_FIELDS_COUNT));
    assert_eq!(capella::BLOCK_BODY_DEPTH, ceil_depth(capella::BLOCK_BODY_FIELDS_COUNT));
    assert_eq!(capella::MAX_BYTES_PER_TRANSACTION, 1 << 30);
}

#[test]
fn generalized_indexes_follow_the_nested_formula() {
    // Depth 20 + 1 + 4 + 4 = 29.
    let size = 1usize << 29;
    let offset = size + size / 16 * 9 + size / 16 / 16 * 13;
    assert_eq!(offset, 866_123_776);
    for slot in [0, 6_209_535, 6_209_536, 6_632_854, u64::MAX] {
        assert_eq!(get_generalized_index_of_transaction_in_block_body_offset(slot), offset);
        assert_eq!(get_generalized_index_of_receipts_root_in_block_body(slot), 403);
        assert_eq!(get_depth_and_index_from_current_sync_committee_index(slot), (5, 22));
        assert_eq!(get_depth_and_index_from_next_sync_committee_index(slot), (5, 23));
        assert_eq!(get_depth_and_index_from_finalized_root_index(slot), (6, 41));
    }
    assert_eq!(bellatrix::TRANSACTION_IN_TRANSACTIONS_DATA_OFFSET, 1 << 20);
    assert_eq!(bellatrix::TRANSACTION_IN_TRANSACTIONS_OFFSET, 1 << 21);
    assert_eq!(bellatrix::TRANSACTION_IN_EXECUTION_PAYLOAD_OFFSET, (1 << 25) + (1 << 25) / 16 * 13);
    assert_eq!(bellatrix::RECEIPTS_ROOT_IN_EXECUTION_PAYLOAD, 16 + 3);
    assert_eq!(bellatrix::RECEIPTS_ROOT_IN_BLOCK_BODY, 256 + 256 / 16 * 9 + 3);
    assert_eq!(capella::TRANSACTION_IN_BLOCK_BODY_OFFSET, bellatrix::TRANSACTION_IN_BLOCK_BODY_OFFSET);
    assert_eq!((altair::FINALIZED_ROOT_INDEX, altair::CURRENT_SYNC_COMMITTEE_INDEX), (105, 54));
    assert_eq!(altair::NEXT_SYNC_COMMITTEE_INDEX, 55);
}

#[test]
fn subtree_index_drops_the_leading_bit() {
    assert_eq!(floorlog2(0), 0);
    assert_eq!(floorlog2(1), 0);
    assert_eq!(floorlog2(105), 6);
    assert_eq!(get_subtree_index(0), 0);
    assert_eq!(get_subtree_index(1), 0);
    assert_eq!(get_subtree_index(2), 0);
    assert_eq!(get_subtree_index(3), 1);
    assert_eq!(get_subtree_index(54), 22);
    assert_eq!(get_subtree_index(55), 23);
    assert_eq!(get_subtree_index(105), 41);
    assert_eq!(get_subtree_index(usize::MAX), usize::MAX >> 1);
}
