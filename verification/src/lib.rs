//! State-transition core of a layer-2 rollup.
//!
//! The crate keeps an authenticated, versioned account-state store and
//! executes transactions deterministically against it: every logical key is
//! suffixed with a `(block_number, tx_index)` version tag so any historical
//! point of the chain can be read back; an account state tree commits to the
//! set of non-zero leaves with a single 256-bit root; an execution engine
//! captures the exact read/write footprint of one transaction; a transaction
//! verifier rejects invalid transactions before they reach execution.

pub mod account;
pub mod code_store;
pub mod error;
pub mod generator;
pub mod h256;
pub mod hashing;
pub mod kvlist;
pub mod state_db;
pub mod state_tree;
pub mod store;
pub mod verification;
pub mod version_key;
