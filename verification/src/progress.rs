//! Per-block remaining-item budgets with rollback.
//!
//! Each streamer expects a pre-declared number of items for the block it is
//! currently assembling. The budget is created with a checkpoint equal to the
//! expected count; consuming items decrements the remaining count, and
//! `rollback` restores it to the checkpoint so the next peer can re-serve the
//! block from scratch. The remaining count never exceeds the checkpoint.

use vstd::prelude::*;

use crate::ids::{StateDiffCommitment, TransactionCommitment};

verus! {

/// Remaining-item budget for one block.
#[derive(Clone, Copy, Debug, PartialEq, Eq, Structural)]
pub struct BlockProgress {
    pub count: usize,
    pub count_backup: usize,
}

impl BlockProgress {
    pub open spec fn wf(self) -> bool {
        self.count <= self.count_backup
    }

    /// Remaining items expected for the current block.
    pub open spec fn remaining(self) -> nat {
        self.count as nat
    }

    /// The count the block started with; `rollback` restores it.
    pub open spec fn checkpoint(self) -> nat {
        self.count_backup as nat
    }

    pub fn new(count: usize) -> (r: BlockProgress)
        ensures
            r.wf(),
            r.remaining() == count,
            r.checkpoint() == count,
    {
        BlockProgress { count, count_backup: count }
    }

    pub fn get(&self) -> (r: usize)
        ensures
            r == self.remaining(),
    {
        self.count
    }

    /// Restores the remaining count to the checkpoint.
    pub fn rollback(&mut self) -> (r: BlockProgress)
        ensures
            final(self).wf(),
            final(self).remaining() == old(self).checkpoint(),
            final(self).checkpoint() == old(self).checkpoint(),
            r == *final(self),
    {
        self.count = self.count_backup;
        *self
    }

    /// Consumes one expected item.
    pub fn decrement(&mut self)
        requires
            old(self).wf(),
            old(self).remaining() > 0,
        ensures
            final(self).wf(),
            final(self).remaining() == old(self).remaining() - 1,
            final(self).checkpoint() == old(self).checkpoint(),
    {
        self.count = self.count - 1;
    }
}

/// Budget for one block of the transaction streamer, carrying the expected
/// transaction commitment through to the yielded artifact.
#[derive(Clone, Copy, Debug, PartialEq, Eq, Structural)]
pub struct TransactionStreamProgress {
    pub count: usize,
    pub commitment: TransactionCommitment,
    pub count_backup: usize,
}

impl TransactionStreamProgress {
    pub open spec fn wf(self) -> bool {
        self.count <= self.count_backup
    }

    pub open spec fn remaining(self) -> nat {
        self.count as nat
    }

    pub open spec fn checkpoint(self) -> nat {
        self.count_backup as nat
    }

    pub fn new(expectation: (usize, TransactionCommitment)) -> (r: TransactionStreamProgress)
        ensures
            r.wf(),
            r.remaining() == expectation.0,
            r.checkpoint() == expectation.0,
            r.commitment == expectation.1,
    {
        let (count, commitment) = expectation;
        TransactionStreamProgress { count, commitment, count_backup: count }
    }

    pub fn count(&self) -> (r: usize)
        ensures
            r == self.remaining(),
    {
        self.count
    }

    pub fn commitment(&self) -> (r: TransactionCommitment)
        ensures
            r == self.commitment,
    {
        self.commitment
    }

    pub fn rollback(&mut self) -> (r: TransactionStreamProgress)
        ensures
            final(self).wf(),
            final(self).remaining() == old(self).checkpoint(),
            final(self).checkpoint() == old(self).checkpoint(),
            final(self).commitment == old(self).commitment,
            r == *final(self),
    {
        self.count = self.count_backup;
        *self
    }

    /// Consumes one expected item.
    pub fn decrement(&mut self)
        requires
            old(self).wf(),
            old(self).remaining() > 0,
        ensures
            final(self).wf(),
            final(self).remaining() == old(self).remaining() - 1,
            final(self).checkpoint() == old(self).checkpoint(),
            final(self).commitment == old(self).commitment,
    {
        self.count = self.count - 1;
    }
}

/// Budget for one block of the state-diff streamer, carrying the expected
/// state-diff commitment through to the yielded artifact.
#[derive(Clone, Copy, Debug, PartialEq, Eq, Structural)]
pub struct StateDiffStreamProgress {
    pub count: usize,
    pub commitment: StateDiffCommitment,
    pub count_backup: usize,
}

impl StateDiffStreamProgress {
    pub open spec fn wf(self) -> bool {
        self.count <= self.count_backup
    }

    pub open spec fn remaining(self) -> nat {
        self.count as nat
    }

    pub open spec fn checkpoint(self) -> nat {
        self.count_backup as nat
    }

    pub fn new(expectation: (usize, StateDiffCommitment)) -> (r: StateDiffStreamProgress)
        ensures
            r.wf(),
            r.remaining() == expectation.0,
            r.checkpoint() == expectation.0,
            r.commitment == expectation.1,
    {
        let (count, commitment) = expectation;
        StateDiffStreamProgress { count, commitment, count_backup: count }
    }

    pub fn count(&self) -> (r: usize)
        ensures
            r == self.remaining(),
    {
        self.count
    }

    pub fn commitment(&self) -> (r: StateDiffCommitment)
        ensures
            r == self.commitment,
    {
        self.commitment
    }

    pub fn rollback(&mut self) -> (r: StateDiffStreamProgress)
        ensures
            final(self).wf(),
            final(self).remaining() == old(self).checkpoint(),
            final(self).checkpoint() == old(self).checkpoint(),
            final(self).commitment == old(self).commitment,
            r == *final(self),
    {
        self.count = self.count_backup;
        *self
    }

    /// Consumes `n` expected items.
    pub fn consume(&mut self, n: usize)
        requires
            old(self).wf(),
            n <= old(self).remaining(),
        ensures
            final(self).wf(),
            final(self).remaining() == old(self).remaining() - n,
            final(self).checkpoint() == old(self).checkpoint(),
            final(self).commitment == old(self).commitment,
    {
        self.count = self.count - n;
    }
}

} // verus!
