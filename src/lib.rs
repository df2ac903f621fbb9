//! A quorum-gated custody contract: a set of admins jointly proposes, signs
//! and executes transactions that move assets or change the admin set.

pub mod contract;
pub mod error;
pub mod laws;
pub mod msg;
pub mod registry;
pub mod signatures;
pub mod state;
