//! Generalized indexes chosen by the fork of a slot.

use vstd::arithmetic::power2::{lemma2_to64, pow2};
use vstd::prelude::*;

use crate::consensus_specs::forks::{altair, bellatrix, capella, fork_of, spec_fork_of, Fork};
use crate::consensus_specs::helpers::{floorlog2, get_subtree_index, spec_subtree_index};
use crate::utilities::ssz::{lemma_floor_depth_unique, spec_ceil_depth, spec_floor_depth};

verus! {

/// Generalized index of a field nested in two containers: field
/// `field_index_2` of an outer container whose tree has `fields_2` leaves,
/// and in it field `field_index_1` of a container whose tree has
/// `fields_1` leaves, where `size` is two to the whole depth.
pub open spec fn nested_generalized_index(
    size: nat,
    fields_2: nat,
    field_index_2: nat,
    fields_1: nat,
    field_index_1: nat,
) -> nat {
    size + size / fields_2 * field_index_2 + size / fields_2 / fields_1 * field_index_1
}

/// The precomputed depths and generalized indexes are what the field
/// counts of the containers give.
pub proof fn lemma_generalized_indexes()
    ensures
        bellatrix::TRANSACTIONS_DEPTH == spec_ceil_depth(bellatrix::MAX_TRANSACTIONS_PER_PAYLOAD as nat),
        bellatrix::EXECUTION_PAYLOAD_DEPTH == spec_ceil_depth(14),
        bellatrix::EXECUTION_PAYLOAD_DEPTH == spec_ceil_depth(15),
        bellatrix::BLOCK_BODY_DEPTH == spec_ceil_depth(10),
        bellatrix::BLOCK_BODY_DEPTH == spec_ceil_depth(11),
        bellatrix::TRANSACTION_IN_TRANSACTIONS_DATA_OFFSET == pow2(20),
        bellatrix::TRANSACTION_IN_TRANSACTIONS_OFFSET == pow2(21),
        bellatrix::TRANSACTION_IN_EXECUTION_PAYLOAD_OFFSET == pow2(25) + pow2(25) / 16 * 13,
        bellatrix::TRANSACTION_IN_BLOCK_BODY_OFFSET == nested_generalized_index(pow2(29), 16, 9, 16, 13),
        bellatrix::RECEIPTS_ROOT_IN_EXECUTION_PAYLOAD == pow2(4) + pow2(4) / 16 * 3,
        bellatrix::RECEIPTS_ROOT_IN_BLOCK_BODY == nested_generalized_index(pow2(8), 16, 9, 16, 3),
        capella::TRANSACTION_IN_BLOCK_BODY_OFFSET == bellatrix::TRANSACTION_IN_BLOCK_BODY_OFFSET,
        capella::RECEIPTS_ROOT_IN_BLOCK_BODY == bellatrix::RECEIPTS_ROOT_IN_BLOCK_BODY,
{
    lemma2_to64();
    lemma_floor_depth_unique(1_048_575, 19);
    lemma_floor_depth_unique(13, 3);
    lemma_floor_depth_unique(14, 3);
    lemma_floor_depth_unique(9, 3);
    lemma_floor_depth_unique(10, 3);
}

/// Generalized index of `receipts_root` in the block body at `slot`.
pub fn get_generalized_index_of_receipts_root_in_block_body(slot: u64) -> (index: usize)
    ensures
        index == (if spec_fork_of(slot) == Fork::Capella {
            capella::RECEIPTS_ROOT_IN_BLOCK_BODY
        } else {
            bellatrix::RECEIPTS_ROOT_IN_BLOCK_BODY
        }),
        index == 403,
{
    match fork_of(slot) {
        Fork::Capella => capella::RECEIPTS_ROOT_IN_BLOCK_BODY,
        _ => bellatrix::RECEIPTS_ROOT_IN_BLOCK_BODY,
    }
}

/// Generalized index of the first transaction in the block body at `slot`.
pub fn get_generalized_index_of_transaction_in_block_body_offset(slot: u64) -> (offset: usize)
    ensures
        offset == (if spec_fork_of(slot) == Fork::Capella {
            capella::TRANSACTION_IN_BLOCK_BODY_OFFSET
        } else {
            bellatrix::TRANSACTION_IN_BLOCK_BODY_OFFSET
        }),
        offset == 866_123_776,
{
    match fork_of(slot) {
        Fork::Capella => capella::TRANSACTION_IN_BLOCK_BODY_OFFSET,
        _ => bellatrix::TRANSACTION_IN_BLOCK_BODY_OFFSET,
    }
}

/// Depth and subtree index of a generalized index.
fn depth_and_index(generalized_index: usize) -> (pair: (u32, usize))
    ensures
        pair.0 == spec_floor_depth(generalized_index as nat),
        pair.1 == spec_subtree_index(generalized_index as nat),
{
    (floorlog2(generalized_index), get_subtree_index(generalized_index))
}

/// Depth and subtree index of the current sync committee in the beacon
/// state at `slot`.
pub fn get_depth_and_index_from_current_sync_committee_index(slot: u64) -> (pair: (u32, usize))
    ensures
        pair.0 == spec_floor_depth(altair::CURRENT_SYNC_COMMITTEE_INDEX as nat),
        pair.1 == spec_subtree_index(altair::CURRENT_SYNC_COMMITTEE_INDEX as nat),
        pair == (5u32, 22usize),
{
    proof {
        lemma_sync_committee_indexes();
    }
    depth_and_index(altair::CURRENT_SYNC_COMMITTEE_INDEX)
}

/// Depth and subtree index of the next sync committee in the beacon state
/// at `slot`.
pub fn get_depth_and_index_from_next_sync_committee_index(slot: u64) -> (pair: (u32, usize))
    ensures
        pair.0 == spec_floor_depth(altair::NEXT_SYNC_COMMITTEE_INDEX as nat),
        pair.1 == spec_subtree_index(altair::NEXT_SYNC_COMMITTEE_INDEX as nat),
        pair == (5u32, 23usize),
{
    proof {
        lemma_sync_committee_indexes();
    }
    depth_and_index(altair::NEXT_SYNC_COMMITTEE_INDEX)
}

/// Depth and subtree index of the finalized root in the beacon state at
/// `slot`.
pub fn get_depth_and_index_from_finalized_root_index(slot: u64) -> (pair: (u32, usize))
    ensures
        pair.0 == spec_floor_depth(altair::FINALIZED_ROOT_INDEX as nat),
        pair.1 == spec_subtree_index(altair::FINALIZED_ROOT_INDEX as nat),
        pair == (6u32, 41usize),
{
    proof {
        lemma_sync_committee_indexes();
    }
    depth_and_index(altair::FINALIZED_ROOT_INDEX)
}

/// Depths and subtree indexes of the three beacon-state fields.
pub proof fn lemma_sync_committee_indexes()
    ensures
        spec_floor_depth(54) == 5,
        spec_subtree_index(54) == 22,
        spec_floor_depth(55) == 5,
        spec_subtree_index(55) == 23,
        spec_floor_depth(105) == 6,
        spec_subtree_index(105) == 41,
{
    lemma2_to64();
    lemma_floor_depth_unique(54, 5);
    lemma_floor_depth_unique(55, 5);
    lemma_floor_depth_unique(105, 6);
}

} // verus!
