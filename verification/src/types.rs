//! Artifacts the streamers yield and the typed errors of the single-block
//! client calls.

use vstd::prelude::*;

use crate::ids::{
    BlockNumber,
    Event,
    PeerId,
    Receipt,
    StateDiffCommitment,
    TransactionCommitment,
    TransactionHash,
    TransactionVariant,
};
use crate::state_update::StateUpdateData;

verus! {

/// A block's transactions with receipts, paired with the commitment the
/// consumer is expected to verify them against.
#[derive(Clone, Debug, PartialEq, Eq)]
pub struct UnverifiedTransactionData {
    pub expected_commitment: TransactionCommitment,
    pub transactions: Vec<(TransactionVariant, Receipt)>,
}

pub type UnverifiedTransactionDataWithBlockNumber = (UnverifiedTransactionData, BlockNumber);

/// A block's assembled state update, paired with the commitment the consumer
/// is expected to verify it against.
#[derive(Clone, Debug, PartialEq, Eq)]
pub struct UnverifiedStateUpdateData {
    pub expected_commitment: StateDiffCommitment,
    pub state_diff: StateUpdateData,
}

pub type UnverifiedStateUpdateDataWithBlockNumber = (UnverifiedStateUpdateData, BlockNumber);

/// One declared class definition, carrying the block it was declared in.
#[derive(Clone, Debug, PartialEq, Eq)]
pub enum ClassDefinition {
    Cairo { block_number: BlockNumber, definition: Vec<u8> },
    Sierra { block_number: BlockNumber, sierra_definition: Vec<u8> },
}

/// A block's events, grouped by the transaction hash the peer attached to
/// consecutive events.
pub type EventsForBlockByTransaction = (BlockNumber, Vec<(TransactionHash, Vec<Event>)>);

/// The peer served a different number of state-diff items than expected.
#[derive(Clone, Copy, Debug, PartialEq, Eq, Structural)]
pub struct IncorrectStateDiffCount(pub PeerId);

/// Faults of a single-block class-definition request, attributed to the peer.
#[derive(Clone, Copy, Debug, PartialEq, Eq, Structural)]
pub enum ClassDefinitionsError {
    CairoDefinitionError(PeerId),
    SierraDefinitionError(PeerId),
    IncorrectClassDefinitionCount(PeerId),
}

/// The pre-declared `(count, commitment)` expectations of a streamer, pulled
/// one block at a time; the sequence is single-pass.
pub struct ExpectationQueue<C> {
    pub items: Vec<(usize, C)>,
    pub next: usize,
}

impl<C: Copy> ExpectationQueue<C> {
    pub open spec fn wf(self) -> bool {
        self.next <= self.items@.len()
    }

    pub fn new(items: Vec<(usize, C)>) -> (r: ExpectationQueue<C>)
        ensures
            r.wf(),
            r.items == items,
            r.next == 0,
    {
        ExpectationQueue { items, next: 0 }
    }

    pub fn pull(&mut self) -> (r: Option<(usize, C)>)
        requires
            old(self).wf(),
        ensures
            final(self).wf(),
            final(self).items == old(self).items,
            old(self).next < old(self).items@.len() ==> r == Some(
                old(self).items@[old(self).next as int],
            ) && final(self).next == old(self).next + 1,
            old(self).next == old(self).items@.len() ==> r is None && final(self).next == old(
                self,
            ).next,
    {
        if self.next < self.items.len() {
            let e = self.items[self.next];
            self.next = self.next + 1;
            Some(e)
        } else {
            None
        }
    }
}

/// The pre-declared per-block item counts of a streamer without commitments,
/// pulled one block at a time; the sequence is single-pass.
pub struct CountQueue {
    pub items: Vec<usize>,
    pub next: usize,
}

impl CountQueue {
    pub open spec fn wf(self) -> bool {
        self.next <= self.items@.len()
    }

    pub fn new(items: Vec<usize>) -> (r: CountQueue)
        ensures
            r.wf(),
            r.items == items,
            r.next == 0,
    {
        CountQueue { items, next: 0 }
    }

    pub fn pull(&mut self) -> (r: Option<usize>)
        requires
            old(self).wf(),
        ensures
            final(self).wf(),
            final(self).items == old(self).items,
            old(self).next < old(self).items@.len() ==> r == Some(
                old(self).items@[old(self).next as int],
            ) && final(self).next == old(self).next + 1,
            old(self).next == old(self).items@.len() ==> r is None && final(self).next == old(
                self,
            ).next,
    {
        if self.next < self.items.len() {
            let e = self.items[self.next];
            self.next = self.next + 1;
            Some(e)
        } else {
            None
        }
    }
}

/// The expectation governing the `j`-th block completed during one peer
/// attempt: the machine's current expectation for the first completed block,
/// then the ones pulled from the queue in order.
pub open spec fn block_expectation<C>(
    first: (usize, C),
    items: Seq<(usize, C)>,
    next0: int,
    j: int,
) -> (usize, C) {
    if j == 0 {
        first
    } else {
        items[next0 + j - 1]
    }
}

/// The count governing the `j`-th block completed during one peer attempt.
pub open spec fn block_count_expectation(first: usize, items: Seq<usize>, next0: int, j: int) -> usize {
    if j == 0 {
        first
    } else {
        items[next0 + j - 1]
    }
}

/// A response item that failed to decode.
#[derive(Clone, Copy, Debug, PartialEq, Eq, Structural)]
pub struct ResponseParseError;

/// How one peer attempt ended.
#[derive(Clone, Copy, Debug, PartialEq, Eq, Structural)]
pub enum AttemptOutcome {
    /// The peer failed the block it was serving; the next peer re-serves it.
    RotatePeer,
    /// The whole range was served and the stream is done.
    Completed,
    /// The externally supplied expectation sequence ended before the range.
    ExpectationsEnded,
}

} // verus!
