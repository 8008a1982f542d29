//! Constants and helper functions of the Ethereum proof-of-stake
//! consensus specifications.

pub mod forks;
pub mod helpers;
pub mod internal;
