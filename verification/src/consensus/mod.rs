//! The protocol as seen by whoever carries its messages.
//!
//! Sending and waiting happen elsewhere. Each function here takes what came
//! back and decides what it means for the node.
pub mod election;
pub mod lifecycle;
pub mod replication;
pub mod rpc;
pub mod types;
