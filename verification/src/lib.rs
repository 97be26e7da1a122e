//! Coordination core for a decentralized service marketplace: a content
//! registry with per-entry expiry, a decayed reputation ledger, a
//! threshold-signature escrow state machine, and a task lifecycle engine,
//! composed by a node orchestrator.

pub mod codec;
pub mod crypto;
pub mod escrow;
pub mod identity;
pub mod network;
pub mod node;
pub mod registry;
pub mod reputation;
pub mod tasks;
pub mod text;
pub mod types;
pub mod wallet;

