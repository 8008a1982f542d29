//! Conversion between the records and their packed form, the binary
//! encoding in which prover and verifier exchange them.

pub mod fixed;
pub mod pack;
pub mod table;
pub mod vector;
