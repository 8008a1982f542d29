//! What the prover builds: the proofs of a cached beacon block, the trie
//! of its receipts, and the witnesses that a client consumes.

pub mod cached_block;
pub mod dummy_light_client;
pub mod light_client_bootstrap;
pub mod light_client_update;
pub mod receipts;
