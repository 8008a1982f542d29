//! The Capella fork.

use vstd::prelude::*;

verus! {

/// First epoch of the fork.
pub const FORK_EPOCH: u64 = 194048;

/// Version of the chain in this fork.
pub const FORK_VERSION: [u8; 4] = [0x03, 0x00, 0x00, 0x00];

/// Number of members of a sync committee.
pub const SYNC_COMMITTEE_SIZE: usize = 512;

/// Largest number of bytes of one transaction.
pub const MAX_BYTES_PER_TRANSACTION: usize = 1_073_741_824;

/// Largest number of transactions in one execution payload.
pub const MAX_TRANSACTIONS_PER_PAYLOAD: usize = 1_048_576;

/// Number of fields of `ExecutionPayload`.
pub const EXECUTION_PAYLOAD_FIELDS_COUNT: usize = 15;

/// Position of `receipts_root` in `ExecutionPayload`.
pub const RECEIPTS_ROOT_IN_EXECUTION_PAYLOAD_INDEX: usize = 3;

/// Position of `transactions` in `ExecutionPayload`.
pub const TRANSACTIONS_IN_EXECUTION_PAYLOAD_INDEX: usize = 13;

/// Number of fields of `BeaconBlockBody`.
pub const BLOCK_BODY_FIELDS_COUNT: usize = 11;

/// Position of `execution_payload` in `BeaconBlockBody`.
pub const EXECUTION_PAYLOAD_IN_BLOCK_BODY_INDEX: usize = 9;

/// Depth of the tree over the transactions of a payload.
pub const TRANSACTIONS_DEPTH: u32 = 20;

/// Depth of the tree over the fields of `ExecutionPayload`.
pub const EXECUTION_PAYLOAD_DEPTH: u32 = 4;

/// Depth of the tree over the fields of `BeaconBlockBody`.
pub const BLOCK_BODY_DEPTH: u32 = 4;

/// Offset of the generalized index of a transaction among the data of
/// the transactions list.
pub const TRANSACTION_IN_TRANSACTIONS_DATA_OFFSET: usize = 1_048_576;

/// Offset of the generalized index of a transaction in `transactions`.
pub const TRANSACTION_IN_TRANSACTIONS_OFFSET: usize = 2_097_152;

/// Offset of the generalized index of a transaction in `ExecutionPayload`.
pub const TRANSACTION_IN_EXECUTION_PAYLOAD_OFFSET: usize = 60_817_408;

/// Offset of the generalized index of a transaction in `BeaconBlockBody`.
pub const TRANSACTION_IN_BLOCK_BODY_OFFSET: usize = 866_123_776;

/// Generalized index of `receipts_root` in `ExecutionPayload`.
pub const RECEIPTS_ROOT_IN_EXECUTION_PAYLOAD: usize = 19;

/// Generalized index of `receipts_root` in `BeaconBlockBody`.
pub const RECEIPTS_ROOT_IN_BLOCK_BODY: usize = 403;

} // verus!
