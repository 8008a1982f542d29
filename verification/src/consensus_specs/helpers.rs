//! Helper functions of the consensus specifications.

use vstd::arithmetic::power2::{lemma2_to64, lemma_pow2_pos, lemma_pow2_unfold, pow2};
use vstd::prelude::*;

use crate::consensus_specs::forks::{altair, fork_at_epoch, fork_version, phase0, spec_fork_at_epoch, spec_fork_version};
use crate::utilities::ssz::{
    branch_root,
    floor_depth,
    lemma_branch_root_low_bits,
    lemma_floor_depth_bounds,
    spec_floor_depth,
    Hash256,
};

verus! {

/// The epoch that contains `slot`.
pub fn compute_epoch_at_slot(slot: u64) -> (epoch: u64)
    ensures
        epoch == slot / phase0::SLOTS_PER_EPOCH,
{
    slot / phase0::SLOTS_PER_EPOCH
}

/// The first slot of `epoch`.
pub fn compute_start_slot_at_epoch(epoch: u64) -> (slot: u64)
    requires
        epoch * phase0::SLOTS_PER_EPOCH <= u64::MAX,
    ensures
        slot == epoch * phase0::SLOTS_PER_EPOCH,
{
    epoch * phase0::SLOTS_PER_EPOCH
}

/// The sync-committee period that contains `epoch`.
pub fn compute_sync_committee_period(epoch: u64) -> (period: u64)
    ensures
        period == epoch / altair::EPOCHS_PER_SYNC_COMMITTEE_PERIOD,
{
    epoch / altair::EPOCHS_PER_SYNC_COMMITTEE_PERIOD
}

/// The sync-committee period that contains `slot`.
pub open spec fn spec_sync_committee_period_at_slot(slot: u64) -> u64 {
    (slot / phase0::SLOTS_PER_EPOCH) / altair::EPOCHS_PER_SYNC_COMMITTEE_PERIOD
}

/// The sync-committee period that contains `slot`.
pub fn compute_sync_committee_period_at_slot(slot: u64) -> (period: u64)
    ensures
        period == spec_sync_committee_period_at_slot(slot),
        period == slot / 8192,
{
    compute_sync_committee_period(compute_epoch_at_slot(slot))
}

/// The fork version that is in force in `epoch`.
pub fn compute_fork_version(epoch: u64) -> (version: [u8; 4])
    ensures
        version == spec_fork_version(spec_fork_at_epoch(epoch)),
{
    fork_version(fork_at_epoch(epoch))
}

/// The fork version that is in force at `slot`.
pub fn compute_fork_version_at_slot(slot: u64) -> (version: [u8; 4])
    ensures
        version == spec_fork_version(spec_fork_at_epoch(slot / phase0::SLOTS_PER_EPOCH)),
{
    compute_fork_version(compute_epoch_at_slot(slot))
}

/// The index of a node among the nodes of its depth: the generalized index
/// without its leading bit.
pub open spec fn spec_subtree_index(index: nat) -> nat {
    index % pow2(spec_floor_depth(index))
}

/// A branch folds to the same root under a generalized index and under
/// its subtree index, at the depth of the generalized index: the check
/// of a branch at depth and subtree index is the check of a proof for
/// the generalized index.
pub proof fn lemma_subtree_index_branch(leaf: Seq<u8>, branch: Seq<Hash256>, index: nat)
    ensures
        branch_root(leaf, branch, spec_floor_depth(index), spec_subtree_index(index)) == branch_root(
            leaf,
            branch,
            spec_floor_depth(index),
            index,
        ),
{
    let depth = spec_floor_depth(index);
    lemma_pow2_pos(depth);
    vstd::arithmetic::div_mod::lemma_mod_twice(index as int, pow2(depth) as int);
    lemma_branch_root_low_bits(leaf, branch, depth, spec_subtree_index(index), index);
}

/// The index of a node among the nodes of its depth.
pub fn get_subtree_index(index: usize) -> (subtree_index: usize)
    ensures
        subtree_index == spec_subtree_index(index as nat),
{
    let depth = floorlog2(index);
    let mut power: usize = 1;
    let mut i: u32 = 0;
    proof {
        lemma2_to64();
        if index > 0 {
            lemma_floor_depth_bounds(index as nat);
        }
    }
    while i < depth
        invariant
            i <= depth,
            depth == spec_floor_depth(index as nat),
            power == pow2(i as nat),
            index > 0 ==> pow2(depth as nat) <= index,
            depth > 0 ==> index > 0,
        decreases depth - i,
    {
        proof {
            lemma_pow2_unfold((i + 1) as nat);
            if i + 1 < depth {
                vstd::arithmetic::power2::lemma_pow2_strictly_increases((i + 1) as nat, depth as nat);
            }
        }
        power = power * 2;
        i = i + 1;
    }
    proof {
        lemma_pow2_pos(depth as nat);
    }
    index % power
}

/// Largest `d` with `2^d <= num`; 0 for `num == 0`.
pub fn floorlog2(num: usize) -> (depth: u32)
    ensures
        depth == spec_floor_depth(num as nat),
        depth < 64,
{
    floor_depth(num)
}

} // verus!
