//! The data that prover and verifier exchange.

pub mod conversion;
pub mod extension;
pub mod prelude;
pub mod records;
