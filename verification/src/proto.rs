//! Models of the wire-level requests and responses the streamers exchange.
//!
//! Every per-artifact request carries an `Iteration`: a start block, a
//! direction, an inclusive item limit and a step of one. Responses arrive as
//! a sequence of typed items terminated by a `Fin` sentinel. Wire decoding
//! happens outside this crate; an item that failed to decode reaches the
//! logic as `Decoded::Malformed`, so the peer-rotation decision it triggers
//! is still taken here.

use vstd::prelude::*;

use crate::ids::{
    ClassHash,
    ContractAddress,
    ContractNonce,
    Event,
    ReceiptBody,
    SignedBlockHeader,
    StorageAddress,
    StorageValue,
    TransactionHash,
    TransactionVariant,
};

verus! {

#[derive(Clone, Copy, Debug, PartialEq, Eq, Structural)]
pub enum Direction {
    Forward,
    Backward,
}

/// The range walk a request asks a peer to serve.
#[derive(Clone, Copy, Debug, PartialEq, Eq, Structural)]
pub struct Iteration {
    pub start: u64,
    pub direction: Direction,
    pub limit: u64,
    pub step: u64,
}

#[derive(Clone, Copy, Debug, PartialEq, Eq, Structural)]
pub struct BlockHeadersRequest {
    pub iteration: Iteration,
}

#[derive(Clone, Copy, Debug, PartialEq, Eq, Structural)]
pub struct TransactionsRequest {
    pub iteration: Iteration,
}

#[derive(Clone, Copy, Debug, PartialEq, Eq, Structural)]
pub struct StateDiffsRequest {
    pub iteration: Iteration,
}

#[derive(Clone, Copy, Debug, PartialEq, Eq, Structural)]
pub struct ClassesRequest {
    pub iteration: Iteration,
}

#[derive(Clone, Copy, Debug, PartialEq, Eq, Structural)]
pub struct EventsRequest {
    pub iteration: Iteration,
}

/// Outcome of decoding one wire item. Decoding itself is the transport's
/// work; the logic only decides what a malformed item costs the peer.
#[derive(Clone, Copy, Debug, PartialEq, Eq)]
pub enum Decoded<T> {
    Valid(T),
    Malformed,
}

/// One response of the header stream.
#[derive(Clone, Copy, Debug, PartialEq, Eq)]
pub enum BlockHeadersResponse {
    Header(Decoded<SignedBlockHeader>),
    Fin,
}

/// One response of the transaction stream: a transaction with the
/// index-independent part of its receipt.
#[derive(Clone, Copy, Debug, PartialEq, Eq)]
pub enum TransactionsResponse {
    TransactionWithReceipt(Decoded<(TransactionVariant, ReceiptBody)>),
    Fin,
}

/// One storage write inside a contract diff.
#[derive(Clone, Copy, Debug, PartialEq, Eq, Structural)]
pub struct ContractStoredValue {
    pub key: StorageAddress,
    pub value: StorageValue,
}

/// Per-contract part of a state diff: storage writes, an optional nonce
/// update and an optional deployed or replaced class.
#[derive(Clone, Debug, PartialEq, Eq)]
pub struct ContractDiff {
    pub address: ContractAddress,
    pub nonce: Option<ContractNonce>,
    pub class_hash: Option<ClassHash>,
    pub values: Vec<ContractStoredValue>,
}

/// A class declaration inside a state diff; Sierra classes carry the hash of
/// their compiled form, Cairo-zero classes do not.
#[derive(Clone, Copy, Debug, PartialEq, Eq)]
pub struct DeclaredClass {
    pub class_hash: ClassHash,
    pub compiled_class_hash: Option<crate::ids::CasmHash>,
}

/// One response of the state-diff stream.
#[derive(Clone, Debug, PartialEq, Eq)]
pub enum StateDiffsResponse {
    ContractDiff(ContractDiff),
    DeclaredClass(DeclaredClass),
    Fin,
}

/// One response of the class-definition stream: the raw definition bytes of
/// a Cairo-zero or a Sierra class.
#[derive(Clone, Debug, PartialEq, Eq)]
pub enum ClassesResponse {
    Cairo0Class(Decoded<Vec<u8>>),
    Cairo1Class(Decoded<Vec<u8>>),
    Fin,
}

/// One event on the wire: the hash of the transaction it belongs to, read
/// before decoding, and the decoded event itself.
#[derive(Clone, Copy, Debug, PartialEq, Eq)]
pub struct EventItem {
    pub transaction_hash: TransactionHash,
    pub payload: Decoded<Event>,
}

/// One response of the event stream.
#[derive(Clone, Copy, Debug, PartialEq, Eq)]
pub enum EventsResponse {
    Event(EventItem),
    Fin,
}

/// The request range for a forward walk over `[start, stop]`.
pub fn forward_iteration(start: u64, stop: u64) -> (r: Iteration)
    requires
        start <= stop,
        stop - start < u64::MAX,
    ensures
        r.start == start,
        r.direction == Direction::Forward,
        r.limit == stop - start + 1,
        r.step == 1,
{
    Iteration { start, direction: Direction::Forward, limit: stop - start + 1, step: 1 }
}

} // verus!
