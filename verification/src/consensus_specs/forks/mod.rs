//! The beacon chain forks and their parameters.

use vstd::prelude::*;

pub mod altair;
pub mod bellatrix;
pub mod capella;
pub mod phase0;

verus! {

/// A beacon chain fork.
#[derive(Clone, Copy, Debug, PartialEq, Eq, Structural)]
pub enum Fork {
    Phase0,
    Altair,
    Bellatrix,
    Capella,
}

/// The fork that is active in `epoch`.
pub open spec fn spec_fork_at_epoch(epoch: u64) -> Fork {
    if epoch >= capella::FORK_EPOCH {
        Fork::Capella
    } else if epoch >= bellatrix::FORK_EPOCH {
        Fork::Bellatrix
    } else if epoch >= altair::FORK_EPOCH {
        Fork::Altair
    } else {
        Fork::Phase0
    }
}

/// The fork that is active in `epoch`.
pub fn fork_at_epoch(epoch: u64) -> (fork: Fork)
    ensures
        fork == spec_fork_at_epoch(epoch),
{
    if epoch >= capella::FORK_EPOCH {
        Fork::Capella
    } else if epoch >= bellatrix::FORK_EPOCH {
        Fork::Bellatrix
    } else if epoch >= altair::FORK_EPOCH {
        Fork::Altair
    } else {
        Fork::Phase0
    }
}

/// The fork that is active at `slot`.
pub open spec fn spec_fork_of(slot: u64) -> Fork {
    spec_fork_at_epoch(slot / phase0::SLOTS_PER_EPOCH)
}

/// The fork that is active at `slot`.
pub fn fork_of(slot: u64) -> (fork: Fork)
    ensures
        fork == spec_fork_of(slot),
{
    fork_at_epoch(slot / phase0::SLOTS_PER_EPOCH)
}

/// The version bytes of a fork.
pub open spec fn spec_fork_version(fork: Fork) -> [u8; 4] {
    match fork {
        Fork::Phase0 => phase0::GENESIS_FORK_VERSION,
        Fork::Altair => altair::FORK_VERSION,
        Fork::Bellatrix => bellatrix::FORK_VERSION,
        Fork::Capella => capella::FORK_VERSION,
    }
}

/// The version bytes of a fork.
pub fn fork_version(fork: Fork) -> (version: [u8; 4])
    ensures
        version == spec_fork_version(fork),
{
    match fork {
        Fork::Phase0 => phase0::GENESIS_FORK_VERSION,
        Fork::Altair => altair::FORK_VERSION,
        Fork::Bellatrix => bellatrix::FORK_VERSION,
        Fork::Capella => capella::FORK_VERSION,
    }
}

/// Where the fields of the execution payload and of the block body lie in
/// their containers, for one fork.
#[derive(Clone, Copy, Debug, PartialEq, Eq, Structural)]
pub struct ContainerLayout {
    /// Number of fields of `ExecutionPayload`.
    pub execution_payload_fields_count: usize,
    /// Position of `receipts_root` in `ExecutionPayload`.
    pub receipts_root_in_execution_payload_index: usize,
    /// Position of `transactions` in `ExecutionPayload`.
    pub transactions_in_execution_payload_index: usize,
    /// Number of fields of `BeaconBlockBody`.
    pub block_body_fields_count: usize,
    /// Position of `execution_payload` in `BeaconBlockBody`.
    pub execution_payload_in_block_body_index: usize,
}

/// The container layout of Bellatrix.
pub open spec fn bellatrix_layout() -> ContainerLayout {
    ContainerLayout {
        execution_payload_fields_count: bellatrix::EXECUTION_PAYLOAD_FIELDS_COUNT,
        receipts_root_in_execution_payload_index: bellatrix::RECEIPTS_ROOT_IN_EXECUTION_PAYLOAD_INDEX,
        transactions_in_execution_payload_index: bellatrix::TRANSACTIONS_IN_EXECUTION_PAYLOAD_INDEX,
        block_body_fields_count: bellatrix::BLOCK_BODY_FIELDS_COUNT,
        execution_payload_in_block_body_index: bellatrix::EXECUTION_PAYLOAD_IN_BLOCK_BODY_INDEX,
    }
}

/// The container layout of Capella.
pub open spec fn capella_layout() -> ContainerLayout {
    ContainerLayout {
        execution_payload_fields_count: capella::EXECUTION_PAYLOAD_FIELDS_COUNT,
        receipts_root_in_execution_payload_index: capella::RECEIPTS_ROOT_IN_EXECUTION_PAYLOAD_INDEX,
        transactions_in_execution_payload_index: capella::TRANSACTIONS_IN_EXECUTION_PAYLOAD_INDEX,
        block_body_fields_count: capella::BLOCK_BODY_FIELDS_COUNT,
        execution_payload_in_block_body_index: capella::EXECUTION_PAYLOAD_IN_BLOCK_BODY_INDEX,
    }
}

/// The container layout of the fork at `slot`: Capella's from its first
/// slot on, Bellatrix's before.
pub open spec fn spec_layout_of(slot: u64) -> ContainerLayout {
    if spec_fork_of(slot) == Fork::Capella {
        capella_layout()
    } else {
        bellatrix_layout()
    }
}

/// The container layout of the fork at `slot`.
pub fn layout_of(slot: u64) -> (layout: ContainerLayout)
    ensures
        layout == spec_layout_of(slot),
{
    match fork_of(slot) {
        Fork::Capella => ContainerLayout {
            execution_payload_fields_count: capella::EXECUTION_PAYLOAD_FIELDS_COUNT,
            receipts_root_in_execution_payload_index: capella::RECEIPTS_ROOT_IN_EXECUTION_PAYLOAD_INDEX,
            transactions_in_execution_payload_index: capella::TRANSACTIONS_IN_EXECUTION_PAYLOAD_INDEX,
            block_body_fields_count: capella::BLOCK_BODY_FIELDS_COUNT,
            execution_payload_in_block_body_index: capella::EXECUTION_PAYLOAD_IN_BLOCK_BODY_INDEX,
        },
        _ => ContainerLayout {
            execution_payload_fields_count: bellatrix::EXECUTION_PAYLOAD_FIELDS_COUNT,
            receipts_root_in_execution_payload_index: bellatrix::RECEIPTS_ROOT_IN_EXECUTION_PAYLOAD_INDEX,
            transactions_in_execution_payload_index: bellatrix::TRANSACTIONS_IN_EXECUTION_PAYLOAD_INDEX,
            block_body_fields_count: bellatrix::BLOCK_BODY_FIELDS_COUNT,
            execution_payload_in_block_body_index: bellatrix::EXECUTION_PAYLOAD_IN_BLOCK_BODY_INDEX,
        },
    }
}

} // verus!
