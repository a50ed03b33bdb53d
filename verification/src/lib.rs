//! Peer-agnostic block synchronization core for a Starknet full node.
//!
//! Given an inclusive block range and per-block shape expectations, the five
//! per-artifact streamers in this crate assemble verified per-block artifacts
//! (headers, transactions with receipts, state diffs, class definitions,
//! events) from an untrusted pool of peers. Each streamer is written as an
//! explicit state machine: the surrounding async runtime performs the peer
//! requests and channel sends, hands every incoming response to the machine,
//! and follows the action the machine returns. All counting, rollback,
//! assembly and yield decisions live here and are verified.

pub mod ids;
pub mod progress;
pub mod decaying;
pub mod proto;
pub mod kv;
pub mod state_update;
pub mod types;
pub mod transaction_stream;
pub mod state_diff_stream;
pub mod header_stream;
pub mod class_stream;
pub mod event_stream;
pub mod block_client;
pub mod peers;
pub mod rpc;
