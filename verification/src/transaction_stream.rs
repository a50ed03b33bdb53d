//! Per-block transaction streamer.
//!
//! One machine walks the inclusive range `[start, stop]` forward. Each
//! expectation `(count, commitment)` pre-declares a block's transaction
//! count; every well-formed response consumes one unit of the budget and the
//! block is yielded exactly when the budget reaches zero, so no partial block
//! ever reaches the consumer. A peer failure mid-block leaves the cursor in
//! place; the next attempt rolls the budget back and re-collects the block
//! from scratch.

use vstd::prelude::*;

use crate::ids::{BlockNumber, PeerData, PeerId, Receipt, TransactionCommitment, TransactionVariant};
use crate::progress::TransactionStreamProgress;
use crate::proto::{Decoded, TransactionsRequest, TransactionsResponse, forward_iteration};
use crate::types::{AttemptOutcome, ExpectationQueue, UnverifiedTransactionData, UnverifiedTransactionDataWithBlockNumber};
use crate::types::block_expectation;

verus! {

/// What the runtime must do after handing the machine one response.
#[derive(Debug)]
pub enum TransactionStreamAction {
    /// Keep consuming this peer's responses.
    NextResponse,
    /// Abandon this peer; the next attempt re-serves the current block.
    NextPeer,
    /// The stream is done; stop the walk.
    TerminateStream,
    /// Send this completed block to the consumer, then, if the machine now
    /// awaits an expectation, pull one and supply it.
    Yield(PeerData<UnverifiedTransactionDataWithBlockNumber>),
}

/// The abstract state of the machine; contracts and laws speak of it.
#[verifier::ext_equal]
pub ghost struct TransactionStreamState {
    pub start: BlockNumber,
    pub stop: BlockNumber,
    pub remaining: nat,
    pub checkpoint: nat,
    pub commitment: TransactionCommitment,
    pub transactions: Seq<(TransactionVariant, Receipt)>,
    pub awaiting_expectation: bool,
}

/// State machine of the transaction streamer.
pub struct TransactionStreamMachine {
    pub start: BlockNumber,
    pub stop: BlockNumber,
    pub progress: TransactionStreamProgress,
    pub transactions: Vec<(TransactionVariant, Receipt)>,
    pub awaiting_expectation: bool,
}

impl TransactionStreamMachine {
    pub open spec fn model(self) -> TransactionStreamState {
        TransactionStreamState {
            start: self.start,
            stop: self.stop,
            remaining: self.progress.remaining(),
            checkpoint: self.progress.checkpoint(),
            commitment: self.progress.commitment,
            transactions: self.transactions@,
            awaiting_expectation: self.awaiting_expectation,
        }
    }

    /// The final block was assembled and yielded; only termination events
    /// can follow.
    pub open spec fn at_final_completion(self) -> bool {
        &&& self.start == self.stop
        &&& self.progress.remaining() == 0
        &&& self.transactions@.len() == 0
    }

    pub open spec fn wf(self) -> bool {
        &&& self.progress.wf()
        &&& self.start <= self.stop
        &&& self.stop - self.start < u64::MAX
        &&& self.awaiting_expectation ==> self.transactions@.len() == 0 && self.start <= self.stop
        &&& !self.awaiting_expectation ==> (self.transactions@.len() + self.progress.remaining()
            == self.progress.checkpoint() || self.at_final_completion())
        &&& forall|i: int|
            0 <= i < self.transactions@.len() ==> (#[trigger] self.transactions@[i]).1.transaction_index
                == i
    }

    /// A fresh attempt at the current block: the budget is at its checkpoint
    /// and nothing from a previous peer is retained.
    pub open spec fn is_fresh_attempt(self) -> bool {
        &&& !self.awaiting_expectation
        &&& self.progress.remaining() == self.progress.checkpoint()
        &&& self.transactions@.len() == 0
    }

    /// Starts a stream over `[start, stop]` whose first block expects
    /// `first_expectation`.
    pub fn new(
        start: BlockNumber,
        stop: BlockNumber,
        first_expectation: (usize, TransactionCommitment),
    ) -> (r: TransactionStreamMachine)
        requires
            start <= stop,
            stop - start < u64::MAX,
        ensures
            r.wf(),
            r.is_fresh_attempt(),
            r.start == start,
            r.stop == stop,
            r.progress.checkpoint() == first_expectation.0,
            r.progress.commitment == first_expectation.1,
    {
        TransactionStreamMachine {
            start,
            stop,
            progress: TransactionStreamProgress::new(first_expectation),
            transactions: Vec::new(),
            awaiting_expectation: false,
        }
    }

    /// The request for the remaining range, sent to each peer in turn.
    pub fn make_request(&self) -> (r: TransactionsRequest)
        requires
            self.wf(),
        ensures
            r.iteration.start == self.start,
            r.iteration.limit == self.stop - self.start + 1,
            r.iteration.direction is Forward,
            r.iteration.step == 1,
    {
        TransactionsRequest { iteration: forward_iteration(self.start, self.stop) }
    }

    /// Rolls back to a fresh attempt at the current block: the budget returns
    /// to its checkpoint and the accumulator is emptied, so nothing served by
    /// a failed peer leaks into this attempt.
    pub fn begin_attempt(&mut self)
        requires
            old(self).wf(),
            !old(self).awaiting_expectation,
        ensures
            final(self).wf(),
            final(self).is_fresh_attempt(),
            final(self).start == old(self).start,
            final(self).stop == old(self).stop,
            final(self).progress.checkpoint() == old(self).progress.checkpoint(),
            final(self).progress.commitment == old(self).progress.commitment,
    {
        self.progress.rollback();
        self.transactions = Vec::new();
    }

    /// Decides what one response means for the current block.
    pub fn on_response(&mut self, peer: PeerId, resp: TransactionsResponse) -> (a:
        TransactionStreamAction)
        requires
            old(self).wf(),
            !old(self).awaiting_expectation,
        ensures
            final(self).wf(),
            ({
                let pre = *old(self);
                let post = *final(self);
                post.stop == pre.stop && match resp {
                    TransactionsResponse::Fin => post == pre && (if pre.progress.remaining() > 0 {
                        a is NextPeer
                    } else if pre.start == pre.stop {
                        a is TerminateStream
                    } else {
                        a is NextPeer
                    }),
                    TransactionsResponse::TransactionWithReceipt(d) => match d {
                        Decoded::Malformed => post == pre && a is NextPeer,
                        Decoded::Valid(tr) => {
                            if pre.progress.remaining() == 0 {
                                post == pre && (if pre.start == pre.stop {
                                    a is TerminateStream
                                } else {
                                    a is NextPeer
                                })
                            } else {
                                let txn = (
                                    tr.0,
                                    (Receipt {
                                        body: tr.1,
                                        transaction_index: pre.transactions@.len() as u64,
                                    }),
                                );
                                if pre.progress.remaining() == 1 {
                                    &&& (a matches TransactionStreamAction::Yield(pd)
                                        && pd.peer == peer
                                        && pd.data.1 == pre.start
                                        && pd.data.0.expected_commitment == pre.progress.commitment
                                        && pd.data.0.transactions@ == pre.transactions@.push(txn))
                                    &&& post.transactions@.len() == 0
                                    &&& post.progress.remaining() == 0
                                    &&& if pre.start < pre.stop {
                                        &&& post.start == pre.start + 1
                                        &&& post.awaiting_expectation
                                        &&& post.progress.checkpoint() == pre.progress.checkpoint()
                                        &&& post.progress.commitment == pre.progress.commitment
                                    } else {
                                        &&& post.start == pre.start
                                        &&& !post.awaiting_expectation
                                        &&& post.progress.checkpoint() == pre.progress.checkpoint()
                                        &&& post.progress.commitment == pre.progress.commitment
                                    }
                                } else {
                                    &&& a is NextResponse
                                    &&& post.transactions@ == pre.transactions@.push(txn)
                                    &&& post.progress.remaining() == pre.progress.remaining() - 1
                                    &&& post.progress.checkpoint() == pre.progress.checkpoint()
                                    &&& post.progress.commitment == pre.progress.commitment
                                    &&& post.start == pre.start
                                    &&& !post.awaiting_expectation
                                }
                            }
                        },
                    },
                }
            }),
    {
        match resp {
            TransactionsResponse::TransactionWithReceipt(d) => match d {
                Decoded::Malformed => TransactionStreamAction::NextPeer,
                Decoded::Valid((t, receipt_body)) => {
                    if self.progress.count() == 0 {
                        // Over-delivery: on the final block the stream cannot
                        // recover and terminates; on an earlier block the
                        // next peer re-serves the block cleanly.
                        if self.start == self.stop {
                            TransactionStreamAction::TerminateStream
                        } else {
                            TransactionStreamAction::NextPeer
                        }
                    } else {
                        let txn_idx = self.transactions.len() as u64;
                        self.progress.decrement();
                        self.transactions.push(
                            (t, Receipt { body: receipt_body, transaction_index: txn_idx }),
                        );
                        if self.progress.count() == 0 {
                            let mut taken: Vec<(TransactionVariant, Receipt)> = Vec::new();
                            core::mem::swap(&mut taken, &mut self.transactions);
                            let done = UnverifiedTransactionData {
                                expected_commitment: self.progress.commitment(),
                                transactions: taken,
                            };
                            let block = self.start;
                            if self.start < self.stop {
                                self.start = self.start + 1;
                                self.awaiting_expectation = true;
                            }
                            TransactionStreamAction::Yield(PeerData::new(peer, (done, block)))
                        } else {
                            TransactionStreamAction::NextResponse
                        }
                    }
                },
            },
            TransactionsResponse::Fin => {
                if self.progress.count() > 0 {
                    TransactionStreamAction::NextPeer
                } else if self.start == self.stop {
                    TransactionStreamAction::TerminateStream
                } else {
                    TransactionStreamAction::NextPeer
                }
            },
        }
    }

    /// Installs the next block's expectation after a yield, or reports that
    /// the expectation sequence ended and the stream must terminate.
    pub fn supply_expectation(&mut self, expectation: Option<(usize, TransactionCommitment)>) -> (terminate:
        bool)
        requires
            old(self).wf(),
            old(self).awaiting_expectation,
        ensures
            final(self).wf(),
            final(self).start == old(self).start,
            final(self).stop == old(self).stop,
            match expectation {
                Some(e) => {
                    &&& !terminate
                    &&& final(self).is_fresh_attempt()
                    &&& final(self).progress.checkpoint() == e.0
                    &&& final(self).progress.commitment == e.1
                },
                None => terminate && *final(self) == *old(self),
            },
    {
        match expectation {
            Some(e) => {
                self.progress = TransactionStreamProgress::new(e);
                self.awaiting_expectation = false;
                false
            },
            None => true,
        }
    }

    /// Whether the walk is done when a peer's responses end without `Fin`:
    /// only a drained final block terminates the stream.
    pub fn on_responses_end(&self) -> (terminate: bool)
        requires
            self.wf(),
            !self.awaiting_expectation,
        ensures
            terminate == (self.progress.remaining() == 0 && self.start == self.stop),
    {
        self.progress.count() == 0 && self.start == self.stop
    }
}


/// What one completed block looks like, at the level contracts speak of.
#[verifier::ext_equal]
pub ghost struct TransactionYield {
    pub peer: PeerId,
    pub block: BlockNumber,
    pub commitment: TransactionCommitment,
    pub transactions: Seq<(TransactionVariant, Receipt)>,
}

/// The completed block a sent artifact denotes.
pub open spec fn transaction_yield_of(pd: PeerData<UnverifiedTransactionDataWithBlockNumber>) -> TransactionYield {
    TransactionYield {
        peer: pd.peer,
        block: pd.data.1,
        commitment: pd.data.0.expected_commitment,
        transactions: pd.data.0.transactions@,
    }
}

/// The completed blocks a sequence of sent artifacts denotes.
pub open spec fn transaction_yields_of(
    ys: Seq<PeerData<UnverifiedTransactionDataWithBlockNumber>>,
) -> Seq<TransactionYield> {
    ys.map_values(|pd: PeerData<UnverifiedTransactionDataWithBlockNumber>| transaction_yield_of(pd))
}

/// The result of one peer attempt: the blocks completed in walk order, how
/// the attempt ended, the machine state afterwards and the expectation
/// cursor afterwards.
#[verifier::ext_equal]
pub ghost struct TransactionAttempt {
    pub yields: Seq<TransactionYield>,
    pub outcome: AttemptOutcome,
    pub state: TransactionStreamState,
    pub next: int,
}

/// The machine state a fresh attempt at the current block starts from.
pub open spec fn fresh_attempt_state(m: TransactionStreamMachine) -> TransactionStreamState {
    TransactionStreamState {
        start: m.start,
        stop: m.stop,
        remaining: m.progress.checkpoint(),
        checkpoint: m.progress.checkpoint(),
        commitment: m.progress.commitment,
        transactions: Seq::empty(),
        awaiting_expectation: false,
    }
}

/// One peer attempt as a function of the machine state, the responses and
/// the expectation queue: every well-formed transaction consumes one unit of
/// the block's budget; the block is yielded when the budget drains, the next
/// expectation is pulled, and the walk continues; a malformed item, an early
/// `Fin` or over-delivery before the final block ends the attempt; the
/// stream completes on the final block's `Fin` or over-delivery, or when the
/// responses end with the final block drained.
pub open spec fn transaction_attempt(
    s: TransactionStreamState,
    peer: PeerId,
    rs: Seq<TransactionsResponse>,
    items: Seq<(usize, TransactionCommitment)>,
    next: int,
) -> TransactionAttempt
    decreases rs.len(),
{
    if rs.len() == 0 {
        TransactionAttempt {
            yields: Seq::empty(),
            outcome: if s.remaining == 0 && s.start == s.stop {
                AttemptOutcome::Completed
            } else {
                AttemptOutcome::RotatePeer
            },
            state: s,
            next,
        }
    } else {
        match rs.first() {
            TransactionsResponse::Fin => TransactionAttempt {
                yields: Seq::empty(),
                outcome: if s.remaining == 0 && s.start == s.stop {
                    AttemptOutcome::Completed
                } else {
                    AttemptOutcome::RotatePeer
                },
                state: s,
                next,
            },
            TransactionsResponse::TransactionWithReceipt(d) => match d {
                Decoded::Malformed => TransactionAttempt {
                    yields: Seq::empty(),
                    outcome: AttemptOutcome::RotatePeer,
                    state: s,
                    next,
                },
                Decoded::Valid(tr) => {
                    if s.remaining == 0 {
                        TransactionAttempt {
                            yields: Seq::empty(),
                            outcome: if s.start == s.stop {
                                AttemptOutcome::Completed
                            } else {
                                AttemptOutcome::RotatePeer
                            },
                            state: s,
                            next,
                        }
                    } else {
                        let txn = (
                            tr.0,
                            Receipt { body: tr.1, transaction_index: s.transactions.len() as u64 },
                        );
                        if s.remaining == 1 {
                            let y = TransactionYield {
                                peer,
                                block: s.start,
                                commitment: s.commitment,
                                transactions: s.transactions.push(txn),
                            };
                            if s.start >= s.stop {
                                let s2 = TransactionStreamState {
                                    start: s.start,
                                    stop: s.stop,
                                    remaining: 0,
                                    checkpoint: s.checkpoint,
                                    commitment: s.commitment,
                                    transactions: Seq::empty(),
                                    awaiting_expectation: false,
                                };
                                let rest = transaction_attempt(s2, peer, rs.drop_first(), items, next);
                                TransactionAttempt {
                                    yields: seq![y] + rest.yields,
                                    outcome: rest.outcome,
                                    state: rest.state,
                                    next: rest.next,
                                }
                            } else if next < items.len() {
                                let e = items[next];
                                let s2 = TransactionStreamState {
                                    start: (s.start + 1) as u64,
                                    stop: s.stop,
                                    remaining: e.0 as nat,
                                    checkpoint: e.0 as nat,
                                    commitment: e.1,
                                    transactions: Seq::empty(),
                                    awaiting_expectation: false,
                                };
                                let rest = transaction_attempt(
                                    s2,
                                    peer,
                                    rs.drop_first(),
                                    items,
                                    next + 1,
                                );
                                TransactionAttempt {
                                    yields: seq![y] + rest.yields,
                                    outcome: rest.outcome,
                                    state: rest.state,
                                    next: rest.next,
                                }
                            } else {
                                TransactionAttempt {
                                    yields: seq![y],
                                    outcome: AttemptOutcome::ExpectationsEnded,
                                    state: TransactionStreamState {
                                        start: (s.start + 1) as u64,
                                        stop: s.stop,
                                        remaining: 0,
                                        checkpoint: s.checkpoint,
                                        commitment: s.commitment,
                                        transactions: Seq::empty(),
                                        awaiting_expectation: true,
                                    },
                                    next,
                                }
                            }
                        } else {
                            let s2 = TransactionStreamState {
                                start: s.start,
                                stop: s.stop,
                                remaining: (s.remaining - 1) as nat,
                                checkpoint: s.checkpoint,
                                commitment: s.commitment,
                                transactions: s.transactions.push(txn),
                                awaiting_expectation: false,
                            };
                            transaction_attempt(s2, peer, rs.drop_first(), items, next)
                        }
                    }
                },
            },
        }
    }
}

impl TransactionStreamMachine {
    /// Consumes one peer's responses: a fresh attempt at the current block,
    /// then one decision per response, pulling the next expectation after
    /// each completed block. The yielded blocks, the outcome, the machine
    /// state and the expectation cursor afterwards are exactly
    /// [`transaction_attempt`] of the rolled-back state and the responses.
    ///
    /// The contract also spells out the range arithmetic that follows:
    /// completed blocks are numbered consecutively from the cursor, each
    /// carries the peer that finished it and exactly the expected number of
    /// transactions under the expected commitment, and the stream completes
    /// only with the cursor on `stop` and that block's budget drained.
    #[verifier::loop_isolation(false)]
    pub fn run_attempt(
        &mut self,
        peer: PeerId,
        responses: &Vec<TransactionsResponse>,
        expectations: &mut ExpectationQueue<TransactionCommitment>,
    ) -> (r: (Vec<PeerData<UnverifiedTransactionDataWithBlockNumber>>, AttemptOutcome))
        requires
            old(self).wf(),
            !old(self).awaiting_expectation,
            old(expectations).wf(),
        ensures
            final(self).wf(),
            final(expectations).wf(),
            final(expectations).items == old(expectations).items,
            ({
                let f = transaction_attempt(
                    fresh_attempt_state(*old(self)),
                    peer,
                    responses@,
                    old(expectations).items@,
                    old(expectations).next as int,
                );
                &&& transaction_yields_of(r.0@) == f.yields
                &&& r.1 == f.outcome
                &&& final(self).model() == f.state
                &&& final(expectations).next == f.next
            }),
            ({
                let ys = r.0@;
                let pre = *old(self);
                let post = *final(self);
                let first = (pre.progress.count_backup, pre.progress.commitment);
                let items = old(expectations).items@;
                let next0 = old(expectations).next as int;
                &&& post.stop == pre.stop
                &&& forall|i: int| 0 <= i < ys.len() ==> (#[trigger] ys[i]).peer == peer
                &&& forall|i: int| 0 <= i < ys.len() ==> (#[trigger] ys[i]).data.1 == pre.start + i
                &&& forall|i: int|
                    0 <= i < ys.len() ==> (#[trigger] ys[i]).data.0.transactions@.len()
                        == block_expectation(first, items, next0, i).0
                &&& forall|i: int|
                    0 <= i < ys.len() ==> (#[trigger] ys[i]).data.0.expected_commitment
                        == block_expectation(first, items, next0, i).1
                &&& post.start == (if pre.start + ys.len() <= pre.stop {
                    pre.start + ys.len()
                } else {
                    pre.stop as int
                })
                &&& !(r.1 is ExpectationsEnded) ==> final(expectations).next == next0 + (
                post.start - pre.start)
                &&& (r.1 is Completed ==> post.start == pre.stop && post.progress.remaining() == 0)
                &&& (r.1 is ExpectationsEnded ==> final(expectations).next == items.len())
            }),
    {
        let ghost pre = *old(self);
        let ghost first = (old(self).progress.count_backup, old(self).progress.commitment);
        let ghost items0 = old(expectations).items;
        let ghost items = old(expectations).items@;
        let ghost next0 = old(expectations).next as int;
        self.begin_attempt();
        proof {
            assert(self.model() =~= fresh_attempt_state(pre));
            assert(responses@.skip(0) =~= responses@);
            assert(transaction_yields_of(Seq::empty()) =~= Seq::<TransactionYield>::empty());
        }
        let mut ys: Vec<PeerData<UnverifiedTransactionDataWithBlockNumber>> = Vec::new();
        proof {
            let tail = transaction_attempt(self.model(), peer, responses@, items, next0);
            assert(transaction_yields_of(ys@) + tail.yields =~= tail.yields);
        }
        let mut k: usize = 0;
        while k < responses.len()
            invariant
                self.wf(),
                !self.awaiting_expectation,
                self.stop == pre.stop,
                expectations.wf(),
                expectations.items == items0,
                expectations.items@ == items,
                k <= responses.len(),
                ({
                    let f = transaction_attempt(fresh_attempt_state(pre), peer, responses@, items, next0);
                    let tail = transaction_attempt(
                        self.model(),
                        peer,
                        responses@.skip(k as int),
                        items,
                        expectations.next as int,
                    );
                    &&& f.yields == transaction_yields_of(ys@) + tail.yields
                    &&& f.outcome == tail.outcome
                    &&& f.state == tail.state
                    &&& f.next == tail.next
                }),
                forall|i: int| 0 <= i < ys@.len() ==> (#[trigger] ys@[i]).peer == peer,
                forall|i: int| 0 <= i < ys@.len() ==> (#[trigger] ys@[i]).data.1 == pre.start + i,
                forall|i: int|
                    0 <= i < ys@.len() ==> (#[trigger] ys@[i]).data.0.transactions@.len()
                        == block_expectation(first, items, next0, i).0,
                forall|i: int|
                    0 <= i < ys@.len() ==> (#[trigger] ys@[i]).data.0.expected_commitment
                        == block_expectation(first, items, next0, i).1,
                self.start == (if pre.start + ys@.len() <= pre.stop {
                    pre.start + ys@.len()
                } else {
                    pre.stop as int
                }),
                expectations.next == next0 + (self.start - pre.start),
                pre.start + ys@.len() <= pre.stop ==> self.progress.checkpoint()
                    == block_expectation(first, items, next0, ys@.len() as int).0
                    && self.progress.commitment == block_expectation(
                    first,
                    items,
                    next0,
                    ys@.len() as int,
                ).1,
                pre.start + ys@.len() > pre.stop ==> self.at_final_completion(),
            decreases responses.len() - k,
        {
            proof {
                assert(responses@.skip(k as int).first() == responses@[k as int]);
                assert(responses@.skip(k as int).drop_first() =~= responses@.skip(k + 1));
            }
            let ghost s_k = self.model();
            let ghost next_k = expectations.next as int;
            let ghost empty_yields = Seq::<TransactionYield>::empty();
            let resp = responses[k];
            match self.on_response(peer, resp) {
                TransactionStreamAction::NextResponse => {
                    proof {
                        if let TransactionsResponse::TransactionWithReceipt(
                            Decoded::Valid((t, rb)),
                        ) = resp {
                            let txn = (
                                t,
                                (Receipt {
                                    body: rb,
                                    transaction_index: s_k.transactions.len() as u64,
                                }),
                            );
                            assert(self.model() =~= (TransactionStreamState {
                                start: s_k.start,
                                stop: s_k.stop,
                                remaining: (s_k.remaining - 1) as nat,
                                checkpoint: s_k.checkpoint,
                                commitment: s_k.commitment,
                                transactions: s_k.transactions.push(txn),
                                awaiting_expectation: false,
                            }));
                        }
                    }
                },
                TransactionStreamAction::NextPeer => {
                    proof {
                        assert(transaction_yields_of(ys@) + empty_yields =~= transaction_yields_of(
                            ys@,
                        ));
                    }
                    return (ys, AttemptOutcome::RotatePeer);
                },
                TransactionStreamAction::TerminateStream => {
                    proof {
                        assert(transaction_yields_of(ys@) + empty_yields =~= transaction_yields_of(
                            ys@,
                        ));
                    }
                    return (ys, AttemptOutcome::Completed);
                },
                TransactionStreamAction::Yield(pd) => {
                    let ghost ys0 = ys@;
                    let ghost y_g = transaction_yield_of(pd);
                    proof {
                        if let TransactionsResponse::TransactionWithReceipt(
                            Decoded::Valid((t, rb)),
                        ) = resp {
                            let txn = (
                                t,
                                (Receipt {
                                    body: rb,
                                    transaction_index: s_k.transactions.len() as u64,
                                }),
                            );
                            assert(y_g =~= (TransactionYield {
                                peer,
                                block: s_k.start,
                                commitment: s_k.commitment,
                                transactions: s_k.transactions.push(txn),
                            }));
                        }
                    }
                    ys.push(pd);
                    proof {
                        assert(transaction_yields_of(ys@) =~= transaction_yields_of(ys0).push(y_g));
                    }
                    if self.awaiting_expectation {
                        let e = expectations.pull();
                        let terminate = self.supply_expectation(e);
                        if terminate {
                            proof {
                                assert(self.model() =~= (TransactionStreamState {
                                    start: (s_k.start + 1) as u64,
                                    stop: s_k.stop,
                                    remaining: 0,
                                    checkpoint: s_k.checkpoint,
                                    commitment: s_k.commitment,
                                    transactions: Seq::empty(),
                                    awaiting_expectation: true,
                                }));
                                assert(transaction_yields_of(ys0) + seq![y_g]
                                    =~= transaction_yields_of(ys@));
                            }
                            return (ys, AttemptOutcome::ExpectationsEnded);
                        }
                        proof {
                            let e_g = items[next_k];
                            assert(self.model() =~= (TransactionStreamState {
                                start: (s_k.start + 1) as u64,
                                stop: s_k.stop,
                                remaining: e_g.0 as nat,
                                checkpoint: e_g.0 as nat,
                                commitment: e_g.1,
                                transactions: Seq::empty(),
                                awaiting_expectation: false,
                            }));
                        }
                    } else {
                        proof {
                            assert(self.model() =~= (TransactionStreamState {
                                start: s_k.start,
                                stop: s_k.stop,
                                remaining: 0,
                                checkpoint: s_k.checkpoint,
                                commitment: s_k.commitment,
                                transactions: Seq::empty(),
                                awaiting_expectation: false,
                            }));
                        }
                    }
                    proof {
                        let tail1 = transaction_attempt(
                            self.model(),
                            peer,
                            responses@.skip(k + 1),
                            items,
                            expectations.next as int,
                        );
                        assert(transaction_yields_of(ys0) + (seq![y_g] + tail1.yields)
                            =~= transaction_yields_of(ys@) + tail1.yields);
                    }
                },
            }
            k = k + 1;
        }
        proof {
            assert(responses@.skip(responses@.len() as int)
                =~= Seq::<TransactionsResponse>::empty());
            assert(transaction_yields_of(ys@) + Seq::<TransactionYield>::empty()
                =~= transaction_yields_of(ys@));
        }
        if self.on_responses_end() {
            (ys, AttemptOutcome::Completed)
        } else {
            (ys, AttemptOutcome::RotatePeer)
        }
    }
}

/// A cooperative peer's responses from a block with `remaining` transactions
/// still expected: exactly the expected number of well-formed transactions
/// for every block through `stop` — each later block's count pulled from the
/// expectations and at least one, since a block expecting none never
/// completes in this streamer — and then `Fin`.
pub open spec fn serves_cooperatively(
    remaining: nat,
    start: u64,
    stop: u64,
    rs: Seq<TransactionsResponse>,
    items: Seq<(usize, TransactionCommitment)>,
    next: int,
) -> bool
    decreases rs.len(), stop - start,
{
    if rs.len() == 0 {
        false
    } else if remaining > 0 {
        &&& (rs.first() matches TransactionsResponse::TransactionWithReceipt(Decoded::Valid(_)))
        &&& serves_cooperatively((remaining - 1) as nat, start, stop, rs.drop_first(), items, next)
    } else if start < stop {
        &&& next < items.len()
        &&& items[next].0 > 0
        &&& serves_cooperatively(items[next].0 as nat, (start + 1) as u64, stop, rs, items, next + 1)
    } else {
        rs.first() is Fin
    }
}

/// Coverage: a cooperative peer serving exactly the expected blocks completes
/// the stream, which yields exactly one artifact per block of the range, in
/// walk order, all attributed to that peer, and then ends. The statement
/// leaves out blocks expecting zero transactions: on such a block (for
/// example a range whose final block has the expectation count zero) the
/// streamer yields nothing and moves to the next peer instead.
pub proof fn lemma_cooperative_coverage(
    s: TransactionStreamState,
    peer: PeerId,
    rs: Seq<TransactionsResponse>,
    items: Seq<(usize, TransactionCommitment)>,
    next: int,
)
    requires
        s.start <= s.stop,
        !s.awaiting_expectation,
        s.transactions.len() + s.remaining == s.checkpoint,
        s.remaining > 0,
        serves_cooperatively(s.remaining, s.start, s.stop, rs, items, next),
    ensures
        ({
            let f = transaction_attempt(s, peer, rs, items, next);
            &&& f.outcome == AttemptOutcome::Completed
            &&& f.yields.len() == s.stop - s.start + 1
            &&& forall|i: int|
                0 <= i < f.yields.len() ==> (#[trigger] f.yields[i]).peer == peer
                    && f.yields[i].block == s.start + i
        }),
    decreases rs.len(),
{
    reveal_with_fuel(serves_cooperatively, 3);
    let f = transaction_attempt(s, peer, rs, items, next);
    if s.remaining >= 2 {
        if let TransactionsResponse::TransactionWithReceipt(Decoded::Valid(tr)) = rs.first() {
            let txn = (tr.0, Receipt { body: tr.1, transaction_index: s.transactions.len() as u64 });
            let s2 = TransactionStreamState {
                start: s.start,
                stop: s.stop,
                remaining: (s.remaining - 1) as nat,
                checkpoint: s.checkpoint,
                commitment: s.commitment,
                transactions: s.transactions.push(txn),
                awaiting_expectation: false,
            };
            lemma_cooperative_coverage(s2, peer, rs.drop_first(), items, next);
        }
    } else {
        if let TransactionsResponse::TransactionWithReceipt(Decoded::Valid(tr)) = rs.first() {
            let txn = (tr.0, Receipt { body: tr.1, transaction_index: s.transactions.len() as u64 });
            let y = TransactionYield {
                peer,
                block: s.start,
                commitment: s.commitment,
                transactions: s.transactions.push(txn),
            };
            if s.start == s.stop {
                let s2 = TransactionStreamState {
                    start: s.start,
                    stop: s.stop,
                    remaining: 0,
                    checkpoint: s.checkpoint,
                    commitment: s.commitment,
                    transactions: Seq::empty(),
                    awaiting_expectation: false,
                };
                let rest = transaction_attempt(s2, peer, rs.drop_first(), items, next);
                assert(rs.drop_first().first() is Fin);
                assert(rest.outcome == AttemptOutcome::Completed);
                assert(rest.yields =~= Seq::<TransactionYield>::empty());
                assert(f.yields =~= seq![y]);
            } else {
                let e = items[next];
                let s2 = TransactionStreamState {
                    start: (s.start + 1) as u64,
                    stop: s.stop,
                    remaining: e.0 as nat,
                    checkpoint: e.0 as nat,
                    commitment: e.1,
                    transactions: Seq::empty(),
                    awaiting_expectation: false,
                };
                lemma_cooperative_coverage(s2, peer, rs.drop_first(), items, next + 1);
                let rest = transaction_attempt(s2, peer, rs.drop_first(), items, next + 1);
                assert(f.yields == seq![y] + rest.yields);
                assert(f.yields.len() == 1 + rest.yields.len());
                assert forall|i: int|
                    0 <= i < f.yields.len() implies (#[trigger] f.yields[i]).peer == peer
                    && f.yields[i].block == s.start + i by {
                    if i == 0 {
                        assert(f.yields[0] == y);
                    } else {
                        assert(f.yields[i] == rest.yields[i - 1]);
                    }
                }
            }
        }
    }
}

/// Idempotence under peer rotation: a fresh attempt at a block is the same
/// machine state whatever failed attempts preceded it, so a peer that then
/// serves the block fully produces the artifact the block would have had
/// from that peer alone.
pub proof fn lemma_rotation_idempotent(a: TransactionStreamMachine, b: TransactionStreamMachine)
    requires
        a.wf(),
        b.wf(),
        a.is_fresh_attempt(),
        b.is_fresh_attempt(),
        a.start == b.start,
        a.stop == b.stop,
        a.progress.checkpoint() == b.progress.checkpoint(),
        a.progress.commitment == b.progress.commitment,
    ensures
        a.model() == b.model(),
{
    assert(a.transactions@ =~= b.transactions@);
    assert(a.model() =~= b.model());
}

} // verus!
