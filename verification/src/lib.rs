//! A Raft consensus engine.
pub mod config;
pub mod consensus;
pub mod engine;
pub mod errors;
pub mod laws;
pub mod node;
pub mod orchestration;
pub mod peer;
pub mod quorum;
pub mod reconciliation;
pub mod state_machine;
pub mod storage;
pub mod text;
pub mod tick;
pub mod types;
