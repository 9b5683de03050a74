//! Hierarchical-deterministic multi-chain key and account layer.
//!
//! The crate derives cryptographic key trees from a single seed, parses
//! derivation-path strings into typed index sequences, and offers a
//! universal account that holds addresses on many ledgers and routes
//! value between them through pluggable chain adapters and bridges.

pub mod account;
pub mod chain_path;
pub mod error;
pub mod evm;
pub mod extended_key;
pub mod key_index;
