//! Identifiers and opaque artifact payloads of the sync core.
//!
//! The wire protocol and the node's domain types are external collaborators;
//! the sync logic only ever reads equality of identifiers and forwards the
//! payloads untouched. Each identifier is therefore held here as a plain
//! value: a field element as two 128-bit halves, a peer as an opaque numeric
//! handle, a payload as the handle under which the surrounding runtime keeps
//! the decoded artifact.

use vstd::prelude::*;

verus! {

/// A block position in the chain; monotonically increasing.
pub type BlockNumber = u64;

/// A 252-bit Starknet field element, held as two 128-bit halves.
#[derive(Clone, Copy, Debug, PartialEq, Eq, Structural)]
pub struct Felt {
    pub hi: u128,
    pub lo: u128,
}

/// The address of the distinguished system contract, `1`.
pub open spec fn system_contract_address() -> ContractAddress {
    ContractAddress(Felt { hi: 0u128, lo: 1u128 })
}

/// An opaque transport identifier of a remote node.
#[derive(Clone, Copy, Debug, PartialEq, Eq, Structural)]
pub struct PeerId {
    pub id: u64,
}

/// A value attributed to the peer that served it.
#[derive(Clone, Copy, Debug, PartialEq, Eq)]
pub struct PeerData<T> {
    pub peer: PeerId,
    pub data: T,
}

impl<T> PeerData<T> {
    pub fn new(peer: PeerId, data: T) -> (r: PeerData<T>)
        ensures
            r.peer == peer,
            r.data == data,
    {
        PeerData { peer, data }
    }
}

#[derive(Clone, Copy, Debug, PartialEq, Eq, Structural)]
pub struct ContractAddress(pub Felt);

#[derive(Clone, Copy, Debug, PartialEq, Eq, Structural)]
pub struct ContractNonce(pub Felt);

#[derive(Clone, Copy, Debug, PartialEq, Eq, Structural)]
pub struct ClassHash(pub Felt);

#[derive(Clone, Copy, Debug, PartialEq, Eq, Structural)]
pub struct SierraHash(pub Felt);

#[derive(Clone, Copy, Debug, PartialEq, Eq, Structural)]
pub struct CasmHash(pub Felt);

#[derive(Clone, Copy, Debug, PartialEq, Eq, Structural)]
pub struct StorageAddress(pub Felt);

#[derive(Clone, Copy, Debug, PartialEq, Eq, Structural)]
pub struct StorageValue(pub Felt);

#[derive(Clone, Copy, Debug, PartialEq, Eq, Structural)]
pub struct TransactionHash(pub Felt);

#[derive(Clone, Copy, Debug, PartialEq, Eq, Structural)]
pub struct TransactionCommitment(pub Felt);

#[derive(Clone, Copy, Debug, PartialEq, Eq, Structural)]
pub struct StateDiffCommitment(pub Felt);

/// A decoded signed block header. Its contents are opaque to the sync logic,
/// which forwards headers in walk order without reading them.
#[derive(Clone, Copy, Debug, PartialEq, Eq, Structural)]
pub struct SignedBlockHeader {
    pub raw: u64,
}

/// A decoded transaction variant; opaque to the sync logic.
#[derive(Clone, Copy, Debug, PartialEq, Eq, Structural)]
pub struct TransactionVariant {
    pub raw: u64,
}

/// The decoded, index-independent part of a receipt.
#[derive(Clone, Copy, Debug, PartialEq, Eq, Structural)]
pub struct ReceiptBody {
    pub raw: u64,
}

/// A receipt, completed with the position of its transaction in the block.
/// The index is assigned by the sync logic, in arrival order.
#[derive(Clone, Copy, Debug, PartialEq, Eq, Structural)]
pub struct Receipt {
    pub body: ReceiptBody,
    pub transaction_index: u64,
}

/// A decoded event; opaque to the sync logic, which groups events by the
/// transaction hash carried next to them on the wire.
#[derive(Clone, Copy, Debug, PartialEq, Eq, Structural)]
pub struct Event {
    pub raw: u64,
}

} // verus!
