//! Per-block state-diff streamer.
//!
//! One machine walks the inclusive range `[start, stop]` forward. Each
//! expectation `(count, commitment)` pre-declares the total number of
//! elementary items in a block's diff: every storage write, every nonce
//! update, every deployed or replaced class, every class declaration. A
//! contract diff consumes one unit per storage write plus one for a nonce
//! and one for a class hash; a class declaration consumes one. The block is
//! yielded exactly when the budget reaches zero. A peer that over-delivers
//! is dropped on a non-final block and terminates the stream on the final
//! one, where prior blocks were already emitted and cannot be rolled back.

use vstd::prelude::*;

use crate::ids::{
    BlockNumber,
    PeerData,
    PeerId,
    SierraHash,
    StateDiffCommitment,
    StorageAddress,
    StorageValue,
    system_contract_address,
};
use crate::ids::ContractAddress;
use crate::ids::Felt;
use crate::progress::StateDiffStreamProgress;
use crate::proto::{StateDiffsRequest, StateDiffsResponse, forward_iteration};
use crate::state_update::{
    ContractClassUpdate,
    ContractUpdateModel,
    StateUpdateData,
    contract_entry_or_empty,
    storage_after,
    system_entry_or_empty,
};
use crate::types::{
    AttemptOutcome,
    ExpectationQueue,
    UnverifiedStateUpdateData,
    UnverifiedStateUpdateDataWithBlockNumber,
    block_expectation,
};

verus! {

/// What the runtime must do after handing the machine one response.
#[derive(Debug)]
pub enum StateDiffStreamAction {
    /// Keep consuming this peer's responses.
    NextResponse,
    /// Abandon this peer; the next attempt re-serves the current block.
    NextPeer,
    /// The stream is done; stop the walk.
    TerminateStream,
    /// Send this completed block to the consumer, then, if the machine now
    /// awaits an expectation, pull one and supply it.
    Yield(PeerData<UnverifiedStateUpdateDataWithBlockNumber>),
}

/// The abstract state of the machine; contracts and laws speak of it.
#[verifier::ext_equal]
pub ghost struct StateDiffStreamState {
    pub start: BlockNumber,
    pub stop: BlockNumber,
    pub remaining: nat,
    pub checkpoint: nat,
    pub commitment: StateDiffCommitment,
    pub contracts: Map<ContractAddress, ContractUpdateModel>,
    pub systems: Map<ContractAddress, Map<StorageAddress, StorageValue>>,
    pub cairo_classes: Set<crate::ids::ClassHash>,
    pub sierra_classes: Map<SierraHash, crate::ids::CasmHash>,
    pub awaiting_expectation: bool,
    pub completed: bool,
}

/// State machine of the state-diff streamer.
pub struct StateDiffStreamMachine {
    pub start: BlockNumber,
    pub stop: BlockNumber,
    pub progress: StateDiffStreamProgress,
    pub state_diff: StateUpdateData,
    pub awaiting_expectation: bool,
    /// Set once the final block was yielded: a block is yielded at most
    /// once, so nothing may be emitted after that.
    pub completed: bool,
}

/// The action an over-delivering peer earns: on the final block the stream
/// terminates, on an earlier one the next peer re-serves the block.
pub open spec fn over_delivery_action(pre: StateDiffStreamMachine, a: StateDiffStreamAction) -> bool {
    if pre.start == pre.stop {
        a is TerminateStream
    } else {
        a is NextPeer
    }
}

/// What holds after a response that may have completed the block: either the
/// budget still has `rem1` items and the walk continues with the given
/// assembled maps, or the budget is drained and exactly those maps are
/// yielded for the cursor block.
pub open spec fn yield_tail(
    pre: StateDiffStreamMachine,
    post: StateDiffStreamMachine,
    a: StateDiffStreamAction,
    peer: PeerId,
    rem1: nat,
    contracts: Map<ContractAddress, ContractUpdateModel>,
    systems: Map<ContractAddress, Map<StorageAddress, StorageValue>>,
    cairo_classes: Set<crate::ids::ClassHash>,
    sierra_classes: Map<SierraHash, crate::ids::CasmHash>,
) -> bool {
    &&& post.stop == pre.stop
    &&& post.progress.checkpoint() == pre.progress.checkpoint()
    &&& if rem1 > 0 {
        &&& a is NextResponse
        &&& !post.completed
        &&& post.state_diff.contracts() == contracts
        &&& post.state_diff.systems() == systems
        &&& post.state_diff.cairo_classes() == cairo_classes
        &&& post.state_diff.sierra_classes() == sierra_classes
        &&& post.progress.remaining() == rem1
        &&& post.progress.commitment == pre.progress.commitment
        &&& post.start == pre.start
        &&& !post.awaiting_expectation
    } else {
        &&& (a matches StateDiffStreamAction::Yield(pd) && pd.peer == peer && pd.data.1 == pre.start
            && pd.data.0.expected_commitment == pre.progress.commitment
            && pd.data.0.state_diff.wf() && pd.data.0.state_diff.contracts() == contracts
            && pd.data.0.state_diff.systems() == systems && pd.data.0.state_diff.cairo_classes()
            == cairo_classes && pd.data.0.state_diff.sierra_classes() == sierra_classes)
        &&& post.state_diff_is_reset()
        &&& post.progress.remaining() == 0
        &&& if pre.start < pre.stop {
            &&& post.start == pre.start + 1
            &&& post.awaiting_expectation
            &&& !post.completed
            &&& post.progress.commitment == pre.progress.commitment
        } else {
            &&& post.start == pre.start
            &&& !post.awaiting_expectation
            &&& post.completed
            &&& post.progress.commitment == pre.progress.commitment
        }
    }
}

impl StateDiffStreamMachine {
    pub open spec fn model(self) -> StateDiffStreamState {
        StateDiffStreamState {
            start: self.start,
            stop: self.stop,
            remaining: self.progress.remaining(),
            checkpoint: self.progress.checkpoint(),
            commitment: self.progress.commitment,
            contracts: self.state_diff.contracts(),
            systems: self.state_diff.systems(),
            cairo_classes: self.state_diff.cairo_classes(),
            sierra_classes: self.state_diff.sierra_classes(),
            awaiting_expectation: self.awaiting_expectation,
            completed: self.completed,
        }
    }

    /// The accumulator holds nothing.
    pub open spec fn state_diff_is_reset(self) -> bool {
        &&& self.state_diff.contract_updates@.len() == 0
        &&& self.state_diff.system_contract_updates@.len() == 0
        &&& self.state_diff.declared_cairo_classes@.len() == 0
        &&& self.state_diff.declared_sierra_classes@.len() == 0
    }

    pub open spec fn wf(self) -> bool {
        &&& self.progress.wf()
        &&& self.start <= self.stop
        &&& self.stop - self.start < u64::MAX
        &&& self.state_diff.wf()
        &&& self.awaiting_expectation ==> self.state_diff_is_reset() && !self.completed
        &&& self.completed ==> self.start == self.stop && self.progress.remaining() == 0
    }

    /// A fresh attempt at the current block: the budget is at its checkpoint
    /// and nothing from a previous peer is retained.
    pub open spec fn is_fresh_attempt(self) -> bool {
        &&& !self.awaiting_expectation
        &&& !self.completed
        &&& self.progress.remaining() == self.progress.checkpoint()
        &&& self.state_diff_is_reset()
    }

    /// Starts a stream over `[start, stop]` whose first block expects
    /// `first_expectation`.
    pub fn new(
        start: BlockNumber,
        stop: BlockNumber,
        first_expectation: (usize, StateDiffCommitment),
    ) -> (r: StateDiffStreamMachine)
        requires
            start <= stop,
            stop - start < u64::MAX,
        ensures
            r.wf(),
            r.is_fresh_attempt(),
            r.start == start,
            r.stop == stop,
            r.progress.checkpoint() == first_expectation.0,
            r.progress.commitment == first_expectation.1,
    {
        StateDiffStreamMachine {
            start,
            stop,
            progress: StateDiffStreamProgress::new(first_expectation),
            state_diff: StateUpdateData::new(),
            awaiting_expectation: false,
            completed: false,
        }
    }

    /// The request for the remaining range, sent to each peer in turn.
    pub fn make_request(&self) -> (r: StateDiffsRequest)
        requires
            self.wf(),
        ensures
            r.iteration.start == self.start,
            r.iteration.limit == self.stop - self.start + 1,
            r.iteration.direction is Forward,
            r.iteration.step == 1,
    {
        StateDiffsRequest { iteration: forward_iteration(self.start, self.stop) }
    }

    /// Rolls back to a fresh attempt at the current block: the budget returns
    /// to its checkpoint and the accumulator is emptied, so nothing served by
    /// a failed peer leaks into this attempt.
    pub fn begin_attempt(&mut self)
        requires
            old(self).wf(),
            !old(self).awaiting_expectation,
            !old(self).completed,
        ensures
            final(self).wf(),
            final(self).is_fresh_attempt(),
            final(self).start == old(self).start,
            final(self).stop == old(self).stop,
            final(self).progress.checkpoint() == old(self).progress.checkpoint(),
            final(self).progress.commitment == old(self).progress.commitment,
    {
        self.progress.rollback();
        self.state_diff = StateUpdateData::new();
    }

    /// Installs the next block's expectation after a yield, or reports that
    /// the expectation sequence ended and the stream must terminate.
    pub fn supply_expectation(&mut self, expectation: Option<(usize, StateDiffCommitment)>) -> (terminate:
        bool)
        requires
            old(self).wf(),
            old(self).awaiting_expectation,
        ensures
            final(self).wf(),
            final(self).start == old(self).start,
            final(self).stop == old(self).stop,
            match expectation {
                Some(e) => {
                    &&& !terminate
                    &&& final(self).is_fresh_attempt()
                    &&& final(self).progress.checkpoint() == e.0
                    &&& final(self).progress.commitment == e.1
                },
                None => terminate && *final(self) == *old(self),
            },
    {
        match expectation {
            Some(e) => {
                self.progress = StateDiffStreamProgress::new(e);
                self.awaiting_expectation = false;
                false
            },
            None => true,
        }
    }

    /// Whether the walk is done when a peer's responses end without `Fin`:
    /// only a drained final block terminates the stream.
    pub fn on_responses_end(&self) -> (terminate: bool)
        requires
            self.wf(),
            !self.awaiting_expectation,
        ensures
            terminate == (self.progress.remaining() == 0 && self.start == self.stop),
    {
        self.progress.count() == 0 && self.start == self.stop
    }

    /// If the current block's budget is drained, takes the assembled state
    /// update, yields it for the cursor block and advances; otherwise keeps
    /// consuming responses.
    fn try_yield(&mut self, peer: PeerId) -> (a: StateDiffStreamAction)
        requires
            old(self).wf(),
            !old(self).awaiting_expectation,
            !old(self).completed,
        ensures
            final(self).wf(),
            yield_tail(
                *old(self),
                *final(self),
                a,
                peer,
                old(self).progress.remaining(),
                old(self).state_diff.contracts(),
                old(self).state_diff.systems(),
                old(self).state_diff.cairo_classes(),
                old(self).state_diff.sierra_classes(),
            ),
    {
        if self.progress.count() == 0 {
            let mut taken = StateUpdateData::new();
            core::mem::swap(&mut taken, &mut self.state_diff);
            let done = UnverifiedStateUpdateData {
                expected_commitment: self.progress.commitment(),
                state_diff: taken,
            };
            let block = self.start;
            if self.start < self.stop {
                self.start = self.start + 1;
                self.awaiting_expectation = true;
            } else {
                self.completed = true;
            }
            StateDiffStreamAction::Yield(PeerData::new(peer, (done, block)))
        } else {
            StateDiffStreamAction::NextResponse
        }
    }

    /// Decides what one response means for the current block.
    pub fn on_response(&mut self, peer: PeerId, resp: StateDiffsResponse) -> (a:
        StateDiffStreamAction)
        requires
            old(self).wf(),
            !old(self).awaiting_expectation,
        ensures
            final(self).wf(),
            ({
                let pre = *old(self);
                let post = *final(self);
                match resp {
                    StateDiffsResponse::ContractDiff(cd) => {
                        let n = cd.values@.len();
                        let e0 = contract_entry_or_empty(pre.state_diff.contracts(), cd.address);
                        let st1 = storage_after(e0.storage, cd.values@);
                        if pre.completed || n > pre.progress.remaining() {
                            post == pre && over_delivery_action(pre, a)
                        } else if cd.address == system_contract_address() {
                            yield_tail(
                                pre,
                                post,
                                a,
                                peer,
                                (pre.progress.remaining() - n) as nat,
                                pre.state_diff.contracts(),
                                pre.state_diff.systems().insert(
                                    cd.address,
                                    storage_after(
                                        system_entry_or_empty(pre.state_diff.systems(), cd.address),
                                        cd.values@,
                                    ),
                                ),
                                pre.state_diff.cairo_classes(),
                                pre.state_diff.sierra_classes(),
                            )
                        } else {
                            let rem_v = (pre.progress.remaining() - n) as nat;
                            match cd.nonce {
                                Some(nn) => {
                                    if rem_v == 0 {
                                        &&& over_delivery_action(pre, a)
                                        &&& post.state_diff.contracts()
                                            == pre.state_diff.contracts().insert(
                                            cd.address,
                                            (ContractUpdateModel {
                                                storage: st1,
                                                nonce: e0.nonce,
                                                class: e0.class,
                                            }),
                                        )
                                        &&& post.state_diff.systems() == pre.state_diff.systems()
                                        &&& post.state_diff.cairo_classes()
                                            == pre.state_diff.cairo_classes()
                                        &&& post.state_diff.sierra_classes()
                                            == pre.state_diff.sierra_classes()
                                        &&& post.progress.remaining() == 0
                                        &&& post.progress.checkpoint()
                                            == pre.progress.checkpoint()
                                        &&& post.progress.commitment == pre.progress.commitment
                                        &&& post.start == pre.start && post.stop == pre.stop
                                        &&& !post.awaiting_expectation && !post.completed
                                    } else {
                                        match cd.class_hash {
                                            Some(ch) => {
                                                if rem_v == 1 {
                                                    &&& over_delivery_action(pre, a)
                                                    &&& post.state_diff.contracts()
                                                        == pre.state_diff.contracts().insert(
                                                        cd.address,
                                                        (ContractUpdateModel {
                                                            storage: st1,
                                                            nonce: Some(nn),
                                                            class: e0.class,
                                                        }),
                                                    )
                                                    &&& post.state_diff.systems()
                                                        == pre.state_diff.systems()
                                                    &&& post.state_diff.cairo_classes()
                                                        == pre.state_diff.cairo_classes()
                                                    &&& post.state_diff.sierra_classes()
                                                        == pre.state_diff.sierra_classes()
                                                    &&& post.progress.remaining() == 0
                                                    &&& post.progress.checkpoint()
                                                        == pre.progress.checkpoint()
                                                    &&& post.progress.commitment
                                                        == pre.progress.commitment
                                                    &&& post.start == pre.start && post.stop
                                                        == pre.stop
                                                    &&& !post.awaiting_expectation
                                                    &&& !post.completed
                                                } else {
                                                    yield_tail(
                                                        pre,
                                                        post,
                                                        a,
                                                        peer,
                                                        (rem_v - 2) as nat,
                                                        pre.state_diff.contracts().insert(
                                                            cd.address,
                                                            (ContractUpdateModel {
                                                                storage: st1,
                                                                nonce: Some(nn),
                                                                class: Some(
                                                                    ContractClassUpdate::Deploy(ch),
                                                                ),
                                                            }),
                                                        ),
                                                        pre.state_diff.systems(),
                                                        pre.state_diff.cairo_classes(),
                                                        pre.state_diff.sierra_classes(),
                                                    )
                                                }
                                            },
                                            None => {
                                                yield_tail(
                                                    pre,
                                                    post,
                                                    a,
                                                    peer,
                                                    (rem_v - 1) as nat,
                                                    pre.state_diff.contracts().insert(
                                                        cd.address,
                                                        (ContractUpdateModel {
                                                            storage: st1,
                                                            nonce: Some(nn),
                                                            class: e0.class,
                                                        }),
                                                    ),
                                                    pre.state_diff.systems(),
                                                    pre.state_diff.cairo_classes(),
                                                    pre.state_diff.sierra_classes(),
                                                )
                                            },
                                        }
                                    }
                                },
                                None => {
                                    match cd.class_hash {
                                        Some(ch) => {
                                            if rem_v == 0 {
                                                &&& over_delivery_action(pre, a)
                                                &&& post.state_diff.contracts()
                                                    == pre.state_diff.contracts().insert(
                                                    cd.address,
                                                    (ContractUpdateModel {
                                                        storage: st1,
                                                        nonce: e0.nonce,
                                                        class: e0.class,
                                                    }),
                                                )
                                                &&& post.state_diff.systems()
                                                    == pre.state_diff.systems()
                                                &&& post.state_diff.cairo_classes()
                                                    == pre.state_diff.cairo_classes()
                                                &&& post.state_diff.sierra_classes()
                                                    == pre.state_diff.sierra_classes()
                                                &&& post.progress.remaining() == 0
                                                &&& post.progress.checkpoint()
                                                    == pre.progress.checkpoint()
                                                &&& post.progress.commitment
                                                    == pre.progress.commitment
                                                &&& post.start == pre.start && post.stop == pre.stop
                                                &&& !post.awaiting_expectation
                                                &&& !post.completed
                                            } else {
                                                yield_tail(
                                                    pre,
                                                    post,
                                                    a,
                                                    peer,
                                                    (rem_v - 1) as nat,
                                                    pre.state_diff.contracts().insert(
                                                        cd.address,
                                                        (ContractUpdateModel {
                                                            storage: st1,
                                                            nonce: e0.nonce,
                                                            class: Some(
                                                                ContractClassUpdate::Deploy(ch),
                                                            ),
                                                        }),
                                                    ),
                                                    pre.state_diff.systems(),
                                                    pre.state_diff.cairo_classes(),
                                                    pre.state_diff.sierra_classes(),
                                                )
                                            }
                                        },
                                        None => {
                                            yield_tail(
                                                pre,
                                                post,
                                                a,
                                                peer,
                                                rem_v,
                                                pre.state_diff.contracts().insert(
                                                    cd.address,
                                                    (ContractUpdateModel {
                                                        storage: st1,
                                                        nonce: e0.nonce,
                                                        class: e0.class,
                                                    }),
                                                ),
                                                pre.state_diff.systems(),
                                                pre.state_diff.cairo_classes(),
                                                pre.state_diff.sierra_classes(),
                                            )
                                        },
                                    }
                                },
                            }
                        }
                    },
                    StateDiffsResponse::DeclaredClass(dc) => {
                        let cairo1 = match dc.compiled_class_hash {
                            Some(_) => pre.state_diff.cairo_classes(),
                            None => pre.state_diff.cairo_classes().insert(dc.class_hash),
                        };
                        let sierra1 = match dc.compiled_class_hash {
                            Some(c) => pre.state_diff.sierra_classes().insert(
                                (SierraHash(dc.class_hash.0)),
                                c,
                            ),
                            None => pre.state_diff.sierra_classes(),
                        };
                        if pre.progress.remaining() == 0 {
                            &&& over_delivery_action(pre, a)
                            &&& post.state_diff.cairo_classes() == cairo1
                            &&& post.state_diff.sierra_classes() == sierra1
                            &&& post.state_diff.contracts() == pre.state_diff.contracts()
                            &&& post.state_diff.systems() == pre.state_diff.systems()
                            &&& post.progress.remaining() == 0
                            &&& post.progress.checkpoint() == pre.progress.checkpoint()
                            &&& post.progress.commitment == pre.progress.commitment
                            &&& post.start == pre.start && post.stop == pre.stop
                            &&& !post.awaiting_expectation
                            &&& post.completed == pre.completed
                        } else {
                            yield_tail(
                                pre,
                                post,
                                a,
                                peer,
                                (pre.progress.remaining() - 1) as nat,
                                pre.state_diff.contracts(),
                                pre.state_diff.systems(),
                                cairo1,
                                sierra1,
                            )
                        }
                    },
                    StateDiffsResponse::Fin => {
                        if pre.progress.remaining() > 0 {
                            post == pre && a is NextPeer
                        } else if pre.start == pre.stop {
                            post == pre && a is TerminateStream
                        } else {
                            yield_tail(
                                pre,
                                post,
                                a,
                                peer,
                                0,
                                pre.state_diff.contracts(),
                                pre.state_diff.systems(),
                                pre.state_diff.cairo_classes(),
                                pre.state_diff.sierra_classes(),
                            )
                        }
                    },
                }
            }),
    {
        match resp {
            StateDiffsResponse::ContractDiff(cd) => {
                let n = cd.values.len();
                if self.completed || n > self.progress.count() {
                    // Over-delivery: on the final block the stream cannot
                    // recover and terminates; on an earlier block the next
                    // peer re-serves the block cleanly.
                    if self.start == self.stop {
                        StateDiffStreamAction::TerminateStream
                    } else {
                        StateDiffStreamAction::NextPeer
                    }
                } else {
                    self.progress.consume(n);
                    if cd.address == ContractAddress::one() {
                        self.state_diff.apply_system_storage(cd.address, &cd.values);
                        self.try_yield(peer)
                    } else {
                        let ghost sd0 = self.state_diff;
                        let ghost e0 = contract_entry_or_empty(sd0.contracts(), cd.address);
                        let ghost st1 = storage_after(e0.storage, cd.values@);
                        self.state_diff.apply_contract_storage(cd.address, &cd.values);
                        let ghost sd1 = self.state_diff;
                        proof {
                            assert(sd1.contracts() == sd0.contracts().insert(
                                cd.address,
                                (ContractUpdateModel { storage: st1, nonce: e0.nonce, class: e0.class }),
                            ));
                        }
                        if let Some(nonce) = cd.nonce {
                            if self.progress.count() == 0 {
                                return if self.start == self.stop {
                                    StateDiffStreamAction::TerminateStream
                                } else {
                                    StateDiffStreamAction::NextPeer
                                };
                            }
                            self.progress.consume(1);
                            self.state_diff.set_contract_nonce(cd.address, nonce);
                            proof {
                                assert(contract_entry_or_empty(sd1.contracts(), cd.address)
                                    == (ContractUpdateModel {
                                    storage: st1,
                                    nonce: e0.nonce,
                                    class: e0.class,
                                }));
                                assert(self.state_diff.contracts() =~= sd0.contracts().insert(
                                    cd.address,
                                    (ContractUpdateModel {
                                        storage: st1,
                                        nonce: Some(nonce),
                                        class: e0.class,
                                    }),
                                ));
                            }
                        }
                        let ghost sd2 = self.state_diff;
                        let ghost e2 = contract_entry_or_empty(sd2.contracts(), cd.address);
                        if let Some(class_hash) = cd.class_hash {
                            if self.progress.count() == 0 {
                                return if self.start == self.stop {
                                    StateDiffStreamAction::TerminateStream
                                } else {
                                    StateDiffStreamAction::NextPeer
                                };
                            }
                            self.progress.consume(1);
                            self.state_diff.set_contract_class_deploy(cd.address, class_hash);
                            proof {
                                assert(e2 == (ContractUpdateModel {
                                    storage: st1,
                                    nonce: if cd.nonce is Some {
                                        cd.nonce
                                    } else {
                                        e0.nonce
                                    },
                                    class: e0.class,
                                }));
                                assert(self.state_diff.contracts() =~= sd0.contracts().insert(
                                    cd.address,
                                    (ContractUpdateModel {
                                        storage: st1,
                                        nonce: e2.nonce,
                                        class: Some(ContractClassUpdate::Deploy(class_hash)),
                                    }),
                                ));
                            }
                        }
                        self.try_yield(peer)
                    }
                }
            },
            StateDiffsResponse::DeclaredClass(dc) => {
                match dc.compiled_class_hash {
                    Some(casm) => {
                        self.state_diff.declare_sierra_class(SierraHash(dc.class_hash.0), casm);
                    },
                    None => {
                        self.state_diff.declare_cairo_class(dc.class_hash);
                    },
                }
                if self.progress.count() == 0 {
                    if self.start == self.stop {
                        StateDiffStreamAction::TerminateStream
                    } else {
                        StateDiffStreamAction::NextPeer
                    }
                } else {
                    self.progress.consume(1);
                    self.try_yield(peer)
                }
            },
            StateDiffsResponse::Fin => {
                if self.progress.count() > 0 {
                    StateDiffStreamAction::NextPeer
                } else if self.start == self.stop {
                    StateDiffStreamAction::TerminateStream
                } else {
                    self.try_yield(peer)
                }
            },
        }
    }
}

/// What one completed block looks like, at the level contracts speak of.
#[verifier::ext_equal]
pub ghost struct StateDiffYield {
    pub peer: PeerId,
    pub block: BlockNumber,
    pub commitment: StateDiffCommitment,
    pub contracts: Map<ContractAddress, ContractUpdateModel>,
    pub systems: Map<ContractAddress, Map<StorageAddress, StorageValue>>,
    pub cairo_classes: Set<crate::ids::ClassHash>,
    pub sierra_classes: Map<SierraHash, crate::ids::CasmHash>,
}

/// The completed block a sent artifact denotes.
pub open spec fn state_diff_yield_of(pd: PeerData<UnverifiedStateUpdateDataWithBlockNumber>) -> StateDiffYield {
    StateDiffYield {
        peer: pd.peer,
        block: pd.data.1,
        commitment: pd.data.0.expected_commitment,
        contracts: pd.data.0.state_diff.contracts(),
        systems: pd.data.0.state_diff.systems(),
        cairo_classes: pd.data.0.state_diff.cairo_classes(),
        sierra_classes: pd.data.0.state_diff.sierra_classes(),
    }
}

/// The completed blocks a sequence of sent artifacts denotes.
pub open spec fn state_diff_yields_of(
    ys: Seq<PeerData<UnverifiedStateUpdateDataWithBlockNumber>>,
) -> Seq<StateDiffYield> {
    ys.map_values(|pd: PeerData<UnverifiedStateUpdateDataWithBlockNumber>| state_diff_yield_of(pd))
}

/// The result of one peer attempt: the blocks completed in walk order, how
/// the attempt ended, the machine state afterwards and the expectation
/// cursor afterwards.
#[verifier::ext_equal]
pub ghost struct StateDiffAttempt {
    pub yields: Seq<StateDiffYield>,
    pub outcome: AttemptOutcome,
    pub state: StateDiffStreamState,
    pub next: int,
}

/// The machine state a fresh attempt at the current block starts from.
pub open spec fn sd_fresh_attempt_state(m: StateDiffStreamMachine) -> StateDiffStreamState {
    StateDiffStreamState {
        start: m.start,
        stop: m.stop,
        remaining: m.progress.checkpoint(),
        checkpoint: m.progress.checkpoint(),
        commitment: m.progress.commitment,
        contracts: Map::empty(),
        systems: Map::empty(),
        cairo_classes: Set::empty(),
        sierra_classes: Map::empty(),
        awaiting_expectation: false,
        completed: false,
    }
}

/// An attempt ended by the current response: nothing more is yielded.
pub open spec fn sd_halt(s: StateDiffStreamState, next: int, outcome: AttemptOutcome) -> StateDiffAttempt {
    StateDiffAttempt { yields: Seq::empty(), outcome, state: s, next }
}

/// The outcome over-delivery earns: termination on the final block, peer
/// rotation before it.
pub open spec fn sd_over_outcome(s: StateDiffStreamState) -> AttemptOutcome {
    if s.start == s.stop {
        AttemptOutcome::Completed
    } else {
        AttemptOutcome::RotatePeer
    }
}

/// Continues an attempt after a response left the block with `rem1` budget
/// and the given assembled maps: a drained budget yields the block for the
/// cursor and advances with the next pulled expectation; otherwise the walk
/// keeps consuming.
pub open spec fn sd_attempt_tail(
    s: StateDiffStreamState,
    peer: PeerId,
    rs: Seq<StateDiffsResponse>,
    items: Seq<(usize, StateDiffCommitment)>,
    next: int,
    rem1: nat,
    contracts: Map<ContractAddress, ContractUpdateModel>,
    systems: Map<ContractAddress, Map<StorageAddress, StorageValue>>,
    cairo_classes: Set<crate::ids::ClassHash>,
    sierra_classes: Map<SierraHash, crate::ids::CasmHash>,
) -> StateDiffAttempt
    decreases rs.len(), 1int,
{
    if rem1 > 0 {
        let s2 = StateDiffStreamState {
            start: s.start,
            stop: s.stop,
            remaining: rem1,
            checkpoint: s.checkpoint,
            commitment: s.commitment,
            contracts,
            systems,
            cairo_classes,
            sierra_classes,
            awaiting_expectation: false,
            completed: false,
        };
        state_diff_attempt(s2, peer, rs, items, next)
    } else {
        let y = StateDiffYield {
            peer,
            block: s.start,
            commitment: s.commitment,
            contracts,
            systems,
            cairo_classes,
            sierra_classes,
        };
        if s.start >= s.stop {
            let s2 = StateDiffStreamState {
                start: s.start,
                stop: s.stop,
                remaining: 0,
                checkpoint: s.checkpoint,
                commitment: s.commitment,
                contracts: Map::empty(),
                systems: Map::empty(),
                cairo_classes: Set::empty(),
                sierra_classes: Map::empty(),
                awaiting_expectation: false,
                completed: true,
            };
            let rest = state_diff_attempt(s2, peer, rs, items, next);
            StateDiffAttempt {
                yields: seq![y] + rest.yields,
                outcome: rest.outcome,
                state: rest.state,
                next: rest.next,
            }
        } else if next < items.len() {
            let e = items[next];
            let s2 = StateDiffStreamState {
                start: (s.start + 1) as u64,
                stop: s.stop,
                remaining: e.0 as nat,
                checkpoint: e.0 as nat,
                commitment: e.1,
                contracts: Map::empty(),
                systems: Map::empty(),
                cairo_classes: Set::empty(),
                sierra_classes: Map::empty(),
                awaiting_expectation: false,
                completed: false,
            };
            let rest = state_diff_attempt(s2, peer, rs, items, next + 1);
            StateDiffAttempt {
                yields: seq![y] + rest.yields,
                outcome: rest.outcome,
                state: rest.state,
                next: rest.next,
            }
        } else {
            StateDiffAttempt {
                yields: seq![y],
                outcome: AttemptOutcome::ExpectationsEnded,
                state: StateDiffStreamState {
                    start: (s.start + 1) as u64,
                    stop: s.stop,
                    remaining: 0,
                    checkpoint: s.checkpoint,
                    commitment: s.commitment,
                    contracts: Map::empty(),
                    systems: Map::empty(),
                    cairo_classes: Set::empty(),
                    sierra_classes: Map::empty(),
                    awaiting_expectation: true,
                    completed: false,
                },
                next,
            }
        }
    }
}

/// One peer attempt as a function of the machine state, the responses and
/// the expectation queue: contract diffs and class declarations consume the
/// block's budget and assemble the update; the block is yielded when the
/// budget drains; over-delivery ends the attempt, terminally on the final
/// block; a `Fin` completes or abandons the block by its remaining budget.
pub open spec fn state_diff_attempt(
    s: StateDiffStreamState,
    peer: PeerId,
    rs: Seq<StateDiffsResponse>,
    items: Seq<(usize, StateDiffCommitment)>,
    next: int,
) -> StateDiffAttempt
    decreases rs.len(), 0int,
{
    if rs.len() == 0 {
        sd_halt(
            s,
            next,
            if s.remaining == 0 && s.start == s.stop {
                AttemptOutcome::Completed
            } else {
                AttemptOutcome::RotatePeer
            },
        )
    } else {
        match rs.first() {
            StateDiffsResponse::Fin => {
                if s.remaining > 0 {
                    sd_halt(s, next, AttemptOutcome::RotatePeer)
                } else if s.start == s.stop {
                    sd_halt(s, next, AttemptOutcome::Completed)
                } else {
                    sd_attempt_tail(
                        s,
                        peer,
                        rs.drop_first(),
                        items,
                        next,
                        0,
                        s.contracts,
                        s.systems,
                        s.cairo_classes,
                        s.sierra_classes,
                    )
                }
            },
            StateDiffsResponse::ContractDiff(cd) => {
                let n = cd.values@.len();
                if s.completed || n > s.remaining {
                    sd_halt(s, next, sd_over_outcome(s))
                } else if cd.address == system_contract_address() {
                    sd_attempt_tail(
                        s,
                        peer,
                        rs.drop_first(),
                        items,
                        next,
                        (s.remaining - n) as nat,
                        s.contracts,
                        s.systems.insert(
                            cd.address,
                            storage_after(system_entry_or_empty(s.systems, cd.address), cd.values@),
                        ),
                        s.cairo_classes,
                        s.sierra_classes,
                    )
                } else {
                    let e0 = contract_entry_or_empty(s.contracts, cd.address);
                    let st1 = storage_after(e0.storage, cd.values@);
                    let rem_v = (s.remaining - n) as nat;
                    match cd.nonce {
                        Some(nn) => {
                            if rem_v == 0 {
                                sd_halt(
                                    StateDiffStreamState {
                                        start: s.start,
                                        stop: s.stop,
                                        remaining: 0,
                                        checkpoint: s.checkpoint,
                                        commitment: s.commitment,
                                        contracts: s.contracts.insert(
                                            cd.address,
                                            ContractUpdateModel {
                                                storage: st1,
                                                nonce: e0.nonce,
                                                class: e0.class,
                                            },
                                        ),
                                        systems: s.systems,
                                        cairo_classes: s.cairo_classes,
                                        sierra_classes: s.sierra_classes,
                                        awaiting_expectation: false,
                                        completed: false,
                                    },
                                    next,
                                    sd_over_outcome(s),
                                )
                            } else {
                                match cd.class_hash {
                                    Some(ch) => {
                                        if rem_v == 1 {
                                            sd_halt(
                                                StateDiffStreamState {
                                                    start: s.start,
                                                    stop: s.stop,
                                                    remaining: 0,
                                                    checkpoint: s.checkpoint,
                                                    commitment: s.commitment,
                                                    contracts: s.contracts.insert(
                                                        cd.address,
                                                        ContractUpdateModel {
                                                            storage: st1,
                                                            nonce: Some(nn),
                                                            class: e0.class,
                                                        },
                                                    ),
                                                    systems: s.systems,
                                                    cairo_classes: s.cairo_classes,
                                                    sierra_classes: s.sierra_classes,
                                                    awaiting_expectation: false,
                                                    completed: false,
                                                },
                                                next,
                                                sd_over_outcome(s),
                                            )
                                        } else {
                                            sd_attempt_tail(
                                                s,
                                                peer,
                                                rs.drop_first(),
                                                items,
                                                next,
                                                (rem_v - 2) as nat,
                                                s.contracts.insert(
                                                    cd.address,
                                                    ContractUpdateModel {
                                                        storage: st1,
                                                        nonce: Some(nn),
                                                        class: Some(
                                                            ContractClassUpdate::Deploy(ch),
                                                        ),
                                                    },
                                                ),
                                                s.systems,
                                                s.cairo_classes,
                                                s.sierra_classes,
                                            )
                                        }
                                    },
                                    None => sd_attempt_tail(
                                        s,
                                        peer,
                                        rs.drop_first(),
                                        items,
                                        next,
                                        (rem_v - 1) as nat,
                                        s.contracts.insert(
                                            cd.address,
                                            ContractUpdateModel {
                                                storage: st1,
                                                nonce: Some(nn),
                                                class: e0.class,
                                            },
                                        ),
                                        s.systems,
                                        s.cairo_classes,
                                        s.sierra_classes,
                                    ),
                                }
                            }
                        },
                        None => {
                            match cd.class_hash {
                                Some(ch) => {
                                    if rem_v == 0 {
                                        sd_halt(
                                            StateDiffStreamState {
                                                start: s.start,
                                                stop: s.stop,
                                                remaining: 0,
                                                checkpoint: s.checkpoint,
                                                commitment: s.commitment,
                                                contracts: s.contracts.insert(
                                                    cd.address,
                                                    ContractUpdateModel {
                                                        storage: st1,
                                                        nonce: e0.nonce,
                                                        class: e0.class,
                                                    },
                                                ),
                                                systems: s.systems,
                                                cairo_classes: s.cairo_classes,
                                                sierra_classes: s.sierra_classes,
                                                awaiting_expectation: false,
                                                completed: false,
                                            },
                                            next,
                                            sd_over_outcome(s),
                                        )
                                    } else {
                                        sd_attempt_tail(
                                            s,
                                            peer,
                                            rs.drop_first(),
                                            items,
                                            next,
                                            (rem_v - 1) as nat,
                                            s.contracts.insert(
                                                cd.address,
                                                ContractUpdateModel {
                                                    storage: st1,
                                                    nonce: e0.nonce,
                                                    class: Some(ContractClassUpdate::Deploy(ch)),
                                                },
                                            ),
                                            s.systems,
                                            s.cairo_classes,
                                            s.sierra_classes,
                                        )
                                    }
                                },
                                None => sd_attempt_tail(
                                    s,
                                    peer,
                                    rs.drop_first(),
                                    items,
                                    next,
                                    rem_v,
                                    s.contracts.insert(
                                        cd.address,
                                        ContractUpdateModel {
                                            storage: st1,
                                            nonce: e0.nonce,
                                            class: e0.class,
                                        },
                                    ),
                                    s.systems,
                                    s.cairo_classes,
                                    s.sierra_classes,
                                ),
                            }
                        },
                    }
                }
            },
            StateDiffsResponse::DeclaredClass(dc) => {
                let cairo1 = match dc.compiled_class_hash {
                    Some(_) => s.cairo_classes,
                    None => s.cairo_classes.insert(dc.class_hash),
                };
                let sierra1 = match dc.compiled_class_hash {
                    Some(c) => s.sierra_classes.insert((SierraHash(dc.class_hash.0)), c),
                    None => s.sierra_classes,
                };
                if s.remaining == 0 {
                    sd_halt(
                        StateDiffStreamState {
                            start: s.start,
                            stop: s.stop,
                            remaining: 0,
                            checkpoint: s.checkpoint,
                            commitment: s.commitment,
                            contracts: s.contracts,
                            systems: s.systems,
                            cairo_classes: cairo1,
                            sierra_classes: sierra1,
                            awaiting_expectation: false,
                            completed: s.completed,
                        },
                        next,
                        sd_over_outcome(s),
                    )
                } else {
                    sd_attempt_tail(
                        s,
                        peer,
                        rs.drop_first(),
                        items,
                        next,
                        (s.remaining - 1) as nat,
                        s.contracts,
                        s.systems,
                        cairo1,
                        sierra1,
                    )
                }
            },
        }
    }
}

impl StateDiffStreamMachine {
    /// Consumes one peer's responses: a fresh attempt at the current block,
    /// then one decision per response, pulling the next expectation after
    /// each completed block. The yielded blocks, the outcome, the machine
    /// state and the expectation cursor afterwards are exactly
    /// [`state_diff_attempt`] of the rolled-back state and the responses.
    ///
    /// The contract also spells out what follows: completed blocks are
    /// numbered consecutively from the cursor, each carries the peer that
    /// finished it and the commitment its expectation declared, and the
    /// stream completes only with the cursor on `stop`.
    #[verifier::loop_isolation(false)]
    #[verifier::rlimit(100)]
    #[verifier::spinoff_prover]
    pub fn run_attempt(
        &mut self,
        peer: PeerId,
        responses: Vec<StateDiffsResponse>,
        expectations: &mut ExpectationQueue<StateDiffCommitment>,
    ) -> (r: (Vec<PeerData<UnverifiedStateUpdateDataWithBlockNumber>>, AttemptOutcome))
        requires
            old(self).wf(),
            !old(self).awaiting_expectation,
            !old(self).completed,
            old(expectations).wf(),
        ensures
            final(self).wf(),
            final(expectations).wf(),
            final(expectations).items == old(expectations).items,
            ({
                let f = state_diff_attempt(
                    sd_fresh_attempt_state(*old(self)),
                    peer,
                    responses@,
                    old(expectations).items@,
                    old(expectations).next as int,
                );
                &&& state_diff_yields_of(r.0@) == f.yields
                &&& r.1 == f.outcome
                &&& final(self).model() == f.state
                &&& final(expectations).next == f.next
            }),
            ({
                let ys = r.0@;
                let pre = *old(self);
                let post = *final(self);
                let first = (pre.progress.count_backup, pre.progress.commitment);
                let items = old(expectations).items@;
                let next0 = old(expectations).next as int;
                &&& post.stop == pre.stop
                &&& forall|i: int| 0 <= i < ys.len() ==> (#[trigger] ys[i]).peer == peer
                &&& forall|i: int| 0 <= i < ys.len() ==> (#[trigger] ys[i]).data.1 == pre.start + i
                &&& forall|i: int|
                    0 <= i < ys.len() ==> (#[trigger] ys[i]).data.0.expected_commitment
                        == block_expectation(first, items, next0, i).1
                &&& post.start == (if pre.start + ys.len() <= pre.stop {
                    pre.start + ys.len()
                } else {
                    pre.stop as int
                })
                &&& !(r.1 is ExpectationsEnded) ==> final(expectations).next == next0 + (
                post.start - pre.start)
                &&& (r.1 is Completed ==> post.start == pre.stop)
                &&& (r.1 is ExpectationsEnded ==> final(expectations).next == items.len())
            }),
    {
        let ghost pre = *old(self);
        let ghost rs_full = responses@;
        let ghost first = (old(self).progress.count_backup, old(self).progress.commitment);
        let ghost items0 = old(expectations).items;
        let ghost items = old(expectations).items@;
        let ghost next0 = old(expectations).next as int;
        self.begin_attempt();
        proof {
            assert(self.state_diff.contracts() =~= Map::<ContractAddress, ContractUpdateModel>::empty());
            assert(self.state_diff.systems() =~= Map::<
                ContractAddress,
                Map<StorageAddress, StorageValue>,
            >::empty());
            assert(self.state_diff.cairo_classes() =~= Set::<crate::ids::ClassHash>::empty());
            assert(self.state_diff.sierra_classes() =~= Map::<
                SierraHash,
                crate::ids::CasmHash,
            >::empty());
            assert(self.model() =~= sd_fresh_attempt_state(pre));
            assert(rs_full.skip(0) =~= rs_full);
            assert(state_diff_yields_of(Seq::empty()) =~= Seq::<StateDiffYield>::empty());
        }
        let mut ys: Vec<PeerData<UnverifiedStateUpdateDataWithBlockNumber>> = Vec::new();
        proof {
            let tail = state_diff_attempt(self.model(), peer, rs_full, items, next0);
            assert(state_diff_yields_of(ys@) + tail.yields =~= tail.yields);
        }
        let mut k: usize = 0;
        let count = responses.len();
        let mut rest = responses;
        while k < count
            invariant
                self.wf(),
                !self.awaiting_expectation,
                self.stop == pre.stop,
                expectations.wf(),
                expectations.items == items0,
                expectations.items@ == items,
                k <= count,
                count == rest@.len() + k,
                rest@ == rs_full.skip(k as int),
                ({
                    let f = state_diff_attempt(sd_fresh_attempt_state(pre), peer, rs_full, items, next0);
                    let tail = state_diff_attempt(
                        self.model(),
                        peer,
                        rs_full.skip(k as int),
                        items,
                        expectations.next as int,
                    );
                    &&& f.yields == state_diff_yields_of(ys@) + tail.yields
                    &&& f.outcome == tail.outcome
                    &&& f.state == tail.state
                    &&& f.next == tail.next
                }),
                forall|i: int| 0 <= i < ys@.len() ==> (#[trigger] ys@[i]).peer == peer,
                forall|i: int| 0 <= i < ys@.len() ==> (#[trigger] ys@[i]).data.1 == pre.start + i,
                forall|i: int|
                    0 <= i < ys@.len() ==> (#[trigger] ys@[i]).data.0.expected_commitment
                        == block_expectation(first, items, next0, i).1,
                self.start == (if pre.start + ys@.len() <= pre.stop {
                    pre.start + ys@.len()
                } else {
                    pre.stop as int
                }),
                expectations.next == next0 + (self.start - pre.start),
                pre.start + ys@.len() <= pre.stop ==> self.progress.checkpoint()
                    == block_expectation(first, items, next0, ys@.len() as int).0
                    && self.progress.commitment == block_expectation(
                    first,
                    items,
                    next0,
                    ys@.len() as int,
                ).1,
                pre.start + ys@.len() <= pre.stop ==> !self.completed,
                pre.start + ys@.len() > pre.stop ==> self.completed,
            decreases count - k,
        {
            proof {
                assert(rs_full.skip(k as int).first() == rs_full[k as int]);
                assert(rs_full.skip(k as int).drop_first() =~= rs_full.skip(k + 1));
            }
            let ghost s_k = self.model();
            let ghost next_k = expectations.next as int;
            let ghost empty_yields = Seq::<StateDiffYield>::empty();
            let resp = rest.remove(0);
            proof {
                assert(rest@ =~= rs_full.skip(k + 1));
            }
            let ghost resp_g = resp;
            match self.on_response(peer, resp) {
                StateDiffStreamAction::NextResponse => {
                    proof {
                        let tail_k = state_diff_attempt(
                            s_k,
                            peer,
                            rs_full.skip(k as int),
                            items,
                            next_k,
                        );
                        let tail_k1 = state_diff_attempt(
                            self.model(),
                            peer,
                            rs_full.skip(k + 1),
                            items,
                            next_k,
                        );
                        assert(tail_k == tail_k1);
                    }
                },
                StateDiffStreamAction::NextPeer => {
                    proof {
                        assert(state_diff_yields_of(ys@) + empty_yields =~= state_diff_yields_of(
                            ys@,
                        ));
                        let tail_k = state_diff_attempt(
                            s_k,
                            peer,
                            rs_full.skip(k as int),
                            items,
                            next_k,
                        );
                        assert(self.model() == tail_k.state);
                    }
                    return (ys, AttemptOutcome::RotatePeer);
                },
                StateDiffStreamAction::TerminateStream => {
                    proof {
                        assert(state_diff_yields_of(ys@) + empty_yields =~= state_diff_yields_of(
                            ys@,
                        ));
                        let tail_k = state_diff_attempt(
                            s_k,
                            peer,
                            rs_full.skip(k as int),
                            items,
                            next_k,
                        );
                        assert(self.model() == tail_k.state);
                    }
                    return (ys, AttemptOutcome::Completed);
                },
                StateDiffStreamAction::Yield(pd) => {
                    let ghost ys0 = ys@;
                    let ghost y_g = state_diff_yield_of(pd);
                    ys.push(pd);
                    proof {
                        assert(state_diff_yields_of(ys@) =~= state_diff_yields_of(ys0).push(y_g));
                    }
                    if self.awaiting_expectation {
                        let e = expectations.pull();
                        let terminate = self.supply_expectation(e);
                        if terminate {
                            proof {
                                assert(state_diff_yields_of(ys0) + seq![y_g]
                                    =~= state_diff_yields_of(ys@));
                                assert(self.model() =~= (StateDiffStreamState {
                                    start: (s_k.start + 1) as u64,
                                    stop: s_k.stop,
                                    remaining: 0,
                                    checkpoint: s_k.checkpoint,
                                    commitment: s_k.commitment,
                                    contracts: Map::empty(),
                                    systems: Map::empty(),
                                    cairo_classes: Set::empty(),
                                    sierra_classes: Map::empty(),
                                    awaiting_expectation: true,
                                    completed: false,
                                }));
                            }
                            return (ys, AttemptOutcome::ExpectationsEnded);
                        }
                        proof {
                            let e_g = items[next_k];
                            assert(self.state_diff.contracts() =~= Map::<
                                ContractAddress,
                                ContractUpdateModel,
                            >::empty());
                            assert(self.state_diff.systems() =~= Map::<
                                ContractAddress,
                                Map<StorageAddress, StorageValue>,
                            >::empty());
                            assert(self.state_diff.cairo_classes() =~= Set::<
                                crate::ids::ClassHash,
                            >::empty());
                            assert(self.state_diff.sierra_classes() =~= Map::<
                                SierraHash,
                                crate::ids::CasmHash,
                            >::empty());
                            assert(self.model() =~= (StateDiffStreamState {
                                start: (s_k.start + 1) as u64,
                                stop: s_k.stop,
                                remaining: e_g.0 as nat,
                                checkpoint: e_g.0 as nat,
                                commitment: e_g.1,
                                contracts: Map::empty(),
                                systems: Map::empty(),
                                cairo_classes: Set::empty(),
                                sierra_classes: Map::empty(),
                                awaiting_expectation: false,
                                completed: false,
                            }));
                        }
                    } else {
                        proof {
                            assert(self.state_diff.contracts() =~= Map::<
                                ContractAddress,
                                ContractUpdateModel,
                            >::empty());
                            assert(self.state_diff.systems() =~= Map::<
                                ContractAddress,
                                Map<StorageAddress, StorageValue>,
                            >::empty());
                            assert(self.state_diff.cairo_classes() =~= Set::<
                                crate::ids::ClassHash,
                            >::empty());
                            assert(self.state_diff.sierra_classes() =~= Map::<
                                SierraHash,
                                crate::ids::CasmHash,
                            >::empty());
                            assert(self.model() =~= (StateDiffStreamState {
                                start: s_k.start,
                                stop: s_k.stop,
                                remaining: 0,
                                checkpoint: s_k.checkpoint,
                                commitment: s_k.commitment,
                                contracts: Map::empty(),
                                systems: Map::empty(),
                                cairo_classes: Set::empty(),
                                sierra_classes: Map::empty(),
                                awaiting_expectation: false,
                                completed: true,
                            }));
                        }
                    }
                    proof {
                        let tail1 = state_diff_attempt(
                            self.model(),
                            peer,
                            rs_full.skip(k + 1),
                            items,
                            expectations.next as int,
                        );
                        assert(state_diff_yields_of(ys0) + (seq![y_g] + tail1.yields)
                            =~= state_diff_yields_of(ys@) + tail1.yields);
                    }
                },
            }
            k = k + 1;
        }
        proof {
            assert(rs_full.skip(count as int) =~= Seq::<StateDiffsResponse>::empty());
            assert(state_diff_yields_of(ys@) + Seq::<StateDiffYield>::empty()
                =~= state_diff_yields_of(ys@));
        }
        if self.on_responses_end() {
            (ys, AttemptOutcome::Completed)
        } else {
            (ys, AttemptOutcome::RotatePeer)
        }
    }
}

/// The budget one response consumes: one unit per storage write, plus one
/// for a nonce and one for a class hash on an ordinary contract; one for a
/// class declaration. `Fin` consumes nothing.
pub open spec fn response_cost(resp: StateDiffsResponse) -> int {
    match resp {
        StateDiffsResponse::ContractDiff(cd) => {
            if cd.address == system_contract_address() {
                cd.values@.len() as int
            } else {
                cd.values@.len() + (if cd.nonce is Some {
                    1int
                } else {
                    0int
                }) + (if cd.class_hash is Some {
                    1int
                } else {
                    0int
                })
            }
        },
        StateDiffsResponse::DeclaredClass(_) => 1,
        StateDiffsResponse::Fin => 0,
    }
}

/// A cooperative peer's responses from a block with `remaining` items still
/// expected: diff items whose costs drain each block's budget exactly, every
/// later block's expectation pulled in turn and at least one item — a block
/// expecting none completes only through another response's tail — and, once
/// the final block drains, at most a closing `Fin`.
pub open spec fn serves_state_diffs_cooperatively(
    remaining: nat,
    start: u64,
    stop: u64,
    rs: Seq<StateDiffsResponse>,
    items: Seq<(usize, StateDiffCommitment)>,
    next: int,
) -> bool
    decreases rs.len(),
{
    if rs.len() == 0 {
        false
    } else if rs.first() is Fin {
        false
    } else {
        let c = response_cost(rs.first());
        &&& c <= remaining
        &&& if remaining - c > 0 {
            serves_state_diffs_cooperatively(
                (remaining - c) as nat,
                start,
                stop,
                rs.drop_first(),
                items,
                next,
            )
        } else if start == stop {
            rs.drop_first().len() == 0 || rs.drop_first().first() is Fin
        } else {
            &&& next < items.len()
            &&& items[next].0 > 0
            &&& serves_state_diffs_cooperatively(
                items[next].0 as nat,
                (start + 1) as u64,
                stop,
                rs.drop_first(),
                items,
                next + 1,
            )
        }
    }
}

/// Coverage: a cooperative peer serving exactly the expected diff items
/// completes the stream, which yields exactly one artifact per block of the
/// range, in walk order, all attributed to that peer, and then ends. The
/// statement leaves out blocks expecting zero items (for example a middle
/// block with the expectation count zero), whose yield rides on a later
/// response.
pub proof fn lemma_cooperative_coverage(
    s: StateDiffStreamState,
    peer: PeerId,
    rs: Seq<StateDiffsResponse>,
    items: Seq<(usize, StateDiffCommitment)>,
    next: int,
)
    requires
        s.start <= s.stop,
        !s.awaiting_expectation,
        !s.completed,
        s.remaining > 0,
        serves_state_diffs_cooperatively(s.remaining, s.start, s.stop, rs, items, next),
    ensures
        ({
            let f = state_diff_attempt(s, peer, rs, items, next);
            &&& f.outcome == AttemptOutcome::Completed
            &&& f.yields.len() == s.stop - s.start + 1
            &&& forall|i: int|
                0 <= i < f.yields.len() ==> (#[trigger] f.yields[i]).peer == peer
                    && f.yields[i].block == s.start + i
        }),
    decreases rs.len(), 0int,
{
    reveal_with_fuel(serves_state_diffs_cooperatively, 2);
    let c = response_cost(rs.first());
    let rem1 = (s.remaining - c) as nat;
    match rs.first() {
        StateDiffsResponse::ContractDiff(cd) => {
            let n = cd.values@.len() as int;
            if cd.address == system_contract_address() {
                assert((s.remaining - n) as nat == rem1);
                lemma_sd_tail_coverage(
                    s,
                    peer,
                    rs.drop_first(),
                    items,
                    next,
                    rem1,
                    s.contracts,
                    s.systems.insert(
                        cd.address,
                        storage_after(system_entry_or_empty(s.systems, cd.address), cd.values@),
                    ),
                    s.cairo_classes,
                    s.sierra_classes,
                );
            } else {
                let e0 = contract_entry_or_empty(s.contracts, cd.address);
                let st1 = storage_after(e0.storage, cd.values@);
                let rem_v = (s.remaining - n) as nat;
                match cd.nonce {
                    Some(nn) => {
                        match cd.class_hash {
                            Some(ch) => {
                                assert((rem_v - 2) as nat == rem1);
                                lemma_sd_tail_coverage(
                                    s,
                                    peer,
                                    rs.drop_first(),
                                    items,
                                    next,
                                    rem1,
                                    s.contracts.insert(
                                        cd.address,
                                        ContractUpdateModel {
                                            storage: st1,
                                            nonce: Some(nn),
                                            class: Some(ContractClassUpdate::Deploy(ch)),
                                        },
                                    ),
                                    s.systems,
                                    s.cairo_classes,
                                    s.sierra_classes,
                                );
                            },
                            None => {
                                assert((rem_v - 1) as nat == rem1);
                                lemma_sd_tail_coverage(
                                    s,
                                    peer,
                                    rs.drop_first(),
                                    items,
                                    next,
                                    rem1,
                                    s.contracts.insert(
                                        cd.address,
                                        ContractUpdateModel {
                                            storage: st1,
                                            nonce: Some(nn),
                                            class: e0.class,
                                        },
                                    ),
                                    s.systems,
                                    s.cairo_classes,
                                    s.sierra_classes,
                                );
                            },
                        }
                    },
                    None => {
                        match cd.class_hash {
                            Some(ch) => {
                                assert((rem_v - 1) as nat == rem1);
                                lemma_sd_tail_coverage(
                                    s,
                                    peer,
                                    rs.drop_first(),
                                    items,
                                    next,
                                    rem1,
                                    s.contracts.insert(
                                        cd.address,
                                        ContractUpdateModel {
                                            storage: st1,
                                            nonce: e0.nonce,
                                            class: Some(ContractClassUpdate::Deploy(ch)),
                                        },
                                    ),
                                    s.systems,
                                    s.cairo_classes,
                                    s.sierra_classes,
                                );
                            },
                            None => {
                                assert(rem_v == rem1);
                                lemma_sd_tail_coverage(
                                    s,
                                    peer,
                                    rs.drop_first(),
                                    items,
                                    next,
                                    rem1,
                                    s.contracts.insert(
                                        cd.address,
                                        ContractUpdateModel {
                                            storage: st1,
                                            nonce: e0.nonce,
                                            class: e0.class,
                                        },
                                    ),
                                    s.systems,
                                    s.cairo_classes,
                                    s.sierra_classes,
                                );
                            },
                        }
                    },
                }
            }
        },
        StateDiffsResponse::DeclaredClass(dc) => {
            assert((s.remaining - 1) as nat == rem1);
            let cairo1 = match dc.compiled_class_hash {
                Some(_) => s.cairo_classes,
                None => s.cairo_classes.insert(dc.class_hash),
            };
            let sierra1 = match dc.compiled_class_hash {
                Some(cc) => s.sierra_classes.insert((SierraHash(dc.class_hash.0)), cc),
                None => s.sierra_classes,
            };
            lemma_sd_tail_coverage(
                s,
                peer,
                rs.drop_first(),
                items,
                next,
                rem1,
                s.contracts,
                s.systems,
                cairo1,
                sierra1,
            );
        },
        StateDiffsResponse::Fin => {},
    }
}

/// The tail of one cooperative response: with budget left the walk keeps
/// collecting cooperatively; with the block drained it is yielded and the
/// walk continues at the next block, or ends after the final one.
proof fn lemma_sd_tail_coverage(
    s: StateDiffStreamState,
    peer: PeerId,
    rs_rest: Seq<StateDiffsResponse>,
    items: Seq<(usize, StateDiffCommitment)>,
    next: int,
    rem1: nat,
    contracts: Map<ContractAddress, ContractUpdateModel>,
    systems: Map<ContractAddress, Map<StorageAddress, StorageValue>>,
    cairo_classes: Set<crate::ids::ClassHash>,
    sierra_classes: Map<SierraHash, crate::ids::CasmHash>,
)
    requires
        s.start <= s.stop,
        !s.awaiting_expectation,
        !s.completed,
        rem1 > 0 ==> serves_state_diffs_cooperatively(rem1, s.start, s.stop, rs_rest, items, next),
        rem1 == 0 && s.start == s.stop ==> rs_rest.len() == 0 || rs_rest.first() is Fin,
        rem1 == 0 && s.start < s.stop ==> next < items.len() && items[next].0 > 0
            && serves_state_diffs_cooperatively(
            items[next].0 as nat,
            (s.start + 1) as u64,
            s.stop,
            rs_rest,
            items,
            next + 1,
        ),
    ensures
        ({
            let t = sd_attempt_tail(
                s,
                peer,
                rs_rest,
                items,
                next,
                rem1,
                contracts,
                systems,
                cairo_classes,
                sierra_classes,
            );
            &&& t.outcome == AttemptOutcome::Completed
            &&& t.yields.len() == s.stop - s.start + 1
            &&& forall|i: int|
                0 <= i < t.yields.len() ==> (#[trigger] t.yields[i]).peer == peer
                    && t.yields[i].block == s.start + i
        }),
    decreases rs_rest.len(), 1int,
{
    let t = sd_attempt_tail(
        s,
        peer,
        rs_rest,
        items,
        next,
        rem1,
        contracts,
        systems,
        cairo_classes,
        sierra_classes,
    );
    if rem1 > 0 {
        let s2 = StateDiffStreamState {
            start: s.start,
            stop: s.stop,
            remaining: rem1,
            checkpoint: s.checkpoint,
            commitment: s.commitment,
            contracts,
            systems,
            cairo_classes,
            sierra_classes,
            awaiting_expectation: false,
            completed: false,
        };
        lemma_cooperative_coverage(s2, peer, rs_rest, items, next);
    } else {
        let y = StateDiffYield {
            peer,
            block: s.start,
            commitment: s.commitment,
            contracts,
            systems,
            cairo_classes,
            sierra_classes,
        };
        if s.start == s.stop {
            assert(t.yields =~= seq![y]);
        } else {
            let e = items[next];
            let s2 = StateDiffStreamState {
                start: (s.start + 1) as u64,
                stop: s.stop,
                remaining: e.0 as nat,
                checkpoint: e.0 as nat,
                commitment: e.1,
                contracts: Map::empty(),
                systems: Map::empty(),
                cairo_classes: Set::empty(),
                sierra_classes: Map::empty(),
                awaiting_expectation: false,
                completed: false,
            };
            lemma_cooperative_coverage(s2, peer, rs_rest, items, next + 1);
            let rest = state_diff_attempt(s2, peer, rs_rest, items, next + 1);
            assert(t.yields == seq![y] + rest.yields);
            assert forall|i: int|
                0 <= i < t.yields.len() implies (#[trigger] t.yields[i]).peer == peer
                && t.yields[i].block == s.start + i by {
                if i == 0 {
                    assert(t.yields[0] == y);
                } else {
                    assert(t.yields[i] == rest.yields[i - 1]);
                }
            }
        }
    }
}

impl ContractAddress {
    /// The address of the distinguished system contract.
    pub fn one() -> (r: ContractAddress)
        ensures
            r == system_contract_address(),
    {
        ContractAddress(Felt { hi: 0, lo: 1 })
    }
}

/// Idempotence under peer rotation: a fresh attempt at a block is the same
/// machine state whatever failed attempts preceded it, so a peer that then
/// serves the block fully produces the artifact the block would have had
/// from that peer alone.
pub proof fn lemma_rotation_idempotent(a: StateDiffStreamMachine, b: StateDiffStreamMachine)
    requires
        a.wf(),
        b.wf(),
        a.is_fresh_attempt(),
        b.is_fresh_attempt(),
        a.start == b.start,
        a.stop == b.stop,
        a.progress.checkpoint() == b.progress.checkpoint(),
        a.progress.commitment == b.progress.commitment,
    ensures
        a.model() == b.model(),
{
    assert(a.state_diff.contracts() =~= b.state_diff.contracts());
    assert(a.state_diff.systems() =~= b.state_diff.systems());
    assert(a.state_diff.cairo_classes() =~= b.state_diff.cairo_classes());
    assert(a.state_diff.sierra_classes() =~= b.state_diff.sierra_classes());
    assert(a.model() =~= b.model());
}

} // verus!
