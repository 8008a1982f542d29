//! Proof engine of an Ethereum light client: Merkle mountain ranges over
//! finalized beacon headers, SSZ Merkle branches, Merkle-Patricia receipt
//! proofs, sync-committee signatures, and the state machine that moves a
//! client from one finalized header to the next.

pub mod consensus_specs;
pub mod error;
pub mod prover;
pub mod types;
pub mod utilities;
