//! The Altair fork.

use vstd::prelude::*;

verus! {

/// First epoch of the fork.
pub const FORK_EPOCH: u64 = 74240;

/// Version of the chain in this fork.
pub const FORK_VERSION: [u8; 4] = [0x01, 0x00, 0x00, 0x00];

/// Domain of sync-committee signatures.
pub const DOMAIN_SYNC_COMMITTEE: [u8; 4] = [0x07, 0x00, 0x00, 0x00];

/// Number of members of a sync committee.
pub const SYNC_COMMITTEE_SIZE: usize = 512;

/// Number of epochs that one sync committee serves.
pub const EPOCHS_PER_SYNC_COMMITTEE_PERIOD: u64 = 256;

/// Generalized index of `finalized_checkpoint.root` in the beacon state.
pub const FINALIZED_ROOT_INDEX: usize = 105;

/// Generalized index of `current_sync_committee` in the beacon state.
pub const CURRENT_SYNC_COMMITTEE_INDEX: usize = 54;

/// Generalized index of `next_sync_committee` in the beacon state.
pub const NEXT_SYNC_COMMITTEE_INDEX: usize = 55;

} // verus!
