//! Phase 0 of the beacon chain.

use vstd::prelude::*;

verus! {

/// Version of the chain at genesis.
pub const GENESIS_FORK_VERSION: [u8; 4] = [0x01, 0x00, 0x00, 0x00];

/// Number of slots in one epoch.
pub const SLOTS_PER_EPOCH: u64 = 32;

} // verus!
