//! Per-block class-definition streamer.
//!
//! One machine walks the inclusive range `[start, stop]` forward. Each
//! expectation pre-declares the number of classes a block declares. Unlike
//! the other streamers, a block's definitions are accumulated in full before
//! any of them is emitted, each as a separate artifact carrying its block
//! number, so a partial block can be discarded on rollback without any
//! consumer observing it. A block that declares no classes emits nothing and
//! the walk moves on.

use vstd::prelude::*;

use crate::ids::{BlockNumber, PeerData, PeerId};
use crate::progress::BlockProgress;
use crate::proto::{ClassesRequest, ClassesResponse, Decoded, forward_iteration};
use crate::types::{AttemptOutcome, ClassDefinition, CountQueue};

verus! {

/// Where the machine stands within the walk.
#[derive(Clone, Copy, Debug, PartialEq, Eq, Structural)]
pub enum ClassStreamPhase {
    /// The current block still expects definitions from the peer.
    Collecting,
    /// The current block's definitions are complete and must be flushed with
    /// [`ClassStreamMachine::take_block`].
    ReadyToFlush,
    /// The next block's expected count must be supplied.
    AwaitingExpectation,
    /// Every block of the range was flushed; the stream is done.
    Done,
}

/// The block number a class definition carries.
pub open spec fn class_definition_block(d: ClassDefinition) -> BlockNumber {
    match d {
        ClassDefinition::Cairo { block_number, .. } => block_number,
        ClassDefinition::Sierra { block_number, .. } => block_number,
    }
}

/// State machine of the class-definition streamer.
pub struct ClassStreamMachine {
    pub start: BlockNumber,
    pub stop: BlockNumber,
    pub progress: BlockProgress,
    pub class_definitions: Vec<ClassDefinition>,
    pub phase: ClassStreamPhase,
}

impl ClassStreamMachine {
    pub open spec fn wf(self) -> bool {
        &&& self.progress.wf()
        &&& self.start <= self.stop
        &&& self.stop - self.start < u64::MAX
        &&& (self.phase is AwaitingExpectation || self.phase is Done)
            ==> self.class_definitions@.len() == 0
        &&& (self.phase is Collecting || self.phase is ReadyToFlush)
            ==> self.class_definitions@.len() + self.progress.remaining()
            == self.progress.checkpoint()
        &&& (self.phase is Collecting ==> self.progress.remaining() > 0)
        &&& (self.phase is ReadyToFlush ==> self.progress.remaining() == 0)
        &&& (self.phase is Done ==> self.start == self.stop)
        &&& forall|i: int|
            0 <= i < self.class_definitions@.len() ==> class_definition_block(
                #[trigger] self.class_definitions@[i],
            ) == self.start
    }

    /// A fresh attempt at the current block: the budget is at its checkpoint
    /// and nothing from a previous peer is retained.
    pub open spec fn is_fresh_attempt(self) -> bool {
        &&& !(self.phase is AwaitingExpectation) && !(self.phase is Done)
        &&& self.progress.remaining() == self.progress.checkpoint()
        &&& self.class_definitions@.len() == 0
    }

    /// Starts a stream over `[start, stop]` whose first block declares
    /// `first_count` classes.
    pub fn new(start: BlockNumber, stop: BlockNumber, first_count: usize) -> (r: ClassStreamMachine)
        requires
            start <= stop,
            stop - start < u64::MAX,
        ensures
            r.wf(),
            r.is_fresh_attempt(),
            r.start == start,
            r.stop == stop,
            r.progress.checkpoint() == first_count,
            first_count > 0 ==> r.phase is Collecting,
            first_count == 0 ==> r.phase is ReadyToFlush,
    {
        ClassStreamMachine {
            start,
            stop,
            progress: BlockProgress::new(first_count),
            class_definitions: Vec::new(),
            phase: if first_count > 0 {
                ClassStreamPhase::Collecting
            } else {
                ClassStreamPhase::ReadyToFlush
            },
        }
    }

    /// The request for the remaining range, sent to each peer in turn.
    pub fn make_request(&self) -> (r: ClassesRequest)
        requires
            self.wf(),
        ensures
            r.iteration.start == self.start,
            r.iteration.limit == self.stop - self.start + 1,
            r.iteration.direction is Forward,
            r.iteration.step == 1,
    {
        ClassesRequest { iteration: forward_iteration(self.start, self.stop) }
    }

    /// Rolls back to a fresh attempt at the current block: the budget returns
    /// to its checkpoint and the accumulator is emptied, so nothing served by
    /// a failed peer leaks into this attempt.
    pub fn begin_attempt(&mut self)
        requires
            old(self).wf(),
            !(old(self).phase is AwaitingExpectation),
            !(old(self).phase is Done),
        ensures
            final(self).wf(),
            final(self).is_fresh_attempt(),
            final(self).start == old(self).start,
            final(self).stop == old(self).stop,
            final(self).progress.checkpoint() == old(self).progress.checkpoint(),
            old(self).progress.checkpoint() > 0 ==> final(self).phase is Collecting,
            old(self).progress.checkpoint() == 0 ==> final(self).phase is ReadyToFlush,
    {
        self.progress.rollback();
        self.class_definitions = Vec::new();
        self.phase = if self.progress.get() > 0 {
            ClassStreamPhase::Collecting
        } else {
            ClassStreamPhase::ReadyToFlush
        };
    }

    /// Decides what one response means for the current block. Returns true
    /// when the peer must be abandoned: a malformed definition, or `Fin`
    /// while the block still expects definitions.
    pub fn on_response(&mut self, resp: ClassesResponse) -> (rotate: bool)
        requires
            old(self).wf(),
            old(self).phase is Collecting,
        ensures
            final(self).wf(),
            final(self).start == old(self).start,
            final(self).stop == old(self).stop,
            final(self).progress.checkpoint() == old(self).progress.checkpoint(),
            ({
                let pre = *old(self);
                let post = *final(self);
                match resp {
                    ClassesResponse::Cairo0Class(d) => match d {
                        Decoded::Valid(definition) => {
                            &&& !rotate
                            &&& post.class_definitions@ == pre.class_definitions@.push(
                                (ClassDefinition::Cairo {
                                    block_number: pre.start,
                                    definition,
                                }),
                            )
                            &&& post.progress.remaining() == pre.progress.remaining() - 1
                            &&& (post.progress.remaining() == 0 <==> post.phase is ReadyToFlush)
                            &&& (post.progress.remaining() > 0 <==> post.phase is Collecting)
                        },
                        Decoded::Malformed => rotate && post == pre,
                    },
                    ClassesResponse::Cairo1Class(d) => match d {
                        Decoded::Valid(definition) => {
                            &&& !rotate
                            &&& post.class_definitions@ == pre.class_definitions@.push(
                                (ClassDefinition::Sierra {
                                    block_number: pre.start,
                                    sierra_definition: definition,
                                }),
                            )
                            &&& post.progress.remaining() == pre.progress.remaining() - 1
                            &&& (post.progress.remaining() == 0 <==> post.phase is ReadyToFlush)
                            &&& (post.progress.remaining() > 0 <==> post.phase is Collecting)
                        },
                        Decoded::Malformed => rotate && post == pre,
                    },
                    ClassesResponse::Fin => rotate && post == pre,
                }
            }),
    {
        match resp {
            ClassesResponse::Cairo0Class(d) => match d {
                Decoded::Valid(definition) => {
                    self.class_definitions.push(
                        ClassDefinition::Cairo { block_number: self.start, definition },
                    );
                    self.progress.decrement();
                    if self.progress.get() == 0 {
                        self.phase = ClassStreamPhase::ReadyToFlush;
                    }
                    false
                },
                Decoded::Malformed => true,
            },
            ClassesResponse::Cairo1Class(d) => match d {
                Decoded::Valid(definition) => {
                    self.class_definitions.push(
                        ClassDefinition::Sierra {
                            block_number: self.start,
                            sierra_definition: definition,
                        },
                    );
                    self.progress.decrement();
                    if self.progress.get() == 0 {
                        self.phase = ClassStreamPhase::ReadyToFlush;
                    }
                    false
                },
                Decoded::Malformed => true,
            },
            ClassesResponse::Fin => true,
        }
    }

    /// Takes the completed block's definitions for emission, one artifact per
    /// class, and advances the walk: past the final block the stream is done,
    /// otherwise the next block's expected count must be supplied.
    pub fn take_block(&mut self) -> (r: Vec<ClassDefinition>)
        requires
            old(self).wf(),
            old(self).phase is ReadyToFlush,
        ensures
            final(self).wf(),
            final(self).stop == old(self).stop,
            r@ == old(self).class_definitions@,
            r@.len() == old(self).progress.checkpoint(),
            final(self).progress == old(self).progress,
            forall|i: int|
                0 <= i < r@.len() ==> class_definition_block(#[trigger] r@[i]) == old(self).start,
            final(self).class_definitions@.len() == 0,
            old(self).start == old(self).stop ==> final(self).phase is Done && final(self).start
                == old(self).start,
            old(self).start < old(self).stop ==> (final(self).phase is AwaitingExpectation
                && final(self).start == old(self).start + 1),
    {
        let mut taken: Vec<ClassDefinition> = Vec::new();
        core::mem::swap(&mut taken, &mut self.class_definitions);
        if self.start == self.stop {
            self.phase = ClassStreamPhase::Done;
        } else {
            self.start = self.start + 1;
            self.phase = ClassStreamPhase::AwaitingExpectation;
        }
        taken
    }

    /// Installs the next block's expected count after a flush, or reports
    /// that the expectation sequence ended and the stream must terminate.
    pub fn supply_expectation(&mut self, count: Option<usize>) -> (terminate: bool)
        requires
            old(self).wf(),
            old(self).phase is AwaitingExpectation,
        ensures
            final(self).wf(),
            final(self).start == old(self).start,
            final(self).stop == old(self).stop,
            match count {
                Some(n) => {
                    &&& !terminate
                    &&& final(self).is_fresh_attempt()
                    &&& final(self).progress.checkpoint() == n
                    &&& (n > 0 ==> final(self).phase is Collecting)
                    &&& (n == 0 ==> final(self).phase is ReadyToFlush)
                },
                None => terminate && *final(self) == *old(self),
            },
    {
        match count {
            Some(n) => {
                self.progress = BlockProgress::new(n);
                self.phase = if n > 0 {
                    ClassStreamPhase::Collecting
                } else {
                    ClassStreamPhase::ReadyToFlush
                };
                false
            },
            None => true,
        }
    }

    /// Consumes one peer's responses: a fresh attempt at the current block,
    /// then one decision per response, flushing each completed block and
    /// pulling the next expected count. The emitted definitions, the outcome,
    /// the machine state and the count cursor afterwards are exactly
    /// [`class_attempt`] of the rolled-back state and the responses.
    ///
    /// The contract also spells out what follows: every emitted definition
    /// carries the peer that served its block and a block number inside the
    /// range; block numbers never decrease along the emitted sequence, and
    /// the stream completes only with the walk past the final block.
    #[verifier::loop_isolation(false)]
    pub fn run_attempt(
        &mut self,
        peer: PeerId,
        responses: Vec<ClassesResponse>,
        counts: &mut CountQueue,
    ) -> (r: (Vec<PeerData<ClassDefinition>>, AttemptOutcome))
        requires
            old(self).wf(),
            !(old(self).phase is AwaitingExpectation),
            !(old(self).phase is Done),
            old(counts).wf(),
        ensures
            final(self).wf(),
            final(counts).wf(),
            final(counts).items == old(counts).items,
            ({
                let f = class_attempt(
                    class_fresh_attempt_state(*old(self)),
                    peer,
                    responses@,
                    old(counts).items@,
                    old(counts).next as int,
                );
                &&& r.0@ == f.yields
                &&& r.1 == f.outcome
                &&& final(self).model() == f.state
                &&& final(counts).next == f.next
            }),
            ({
                let ys = r.0@;
                let pre = *old(self);
                let post = *final(self);
                &&& post.stop == pre.stop
                &&& forall|i: int| 0 <= i < ys.len() ==> (#[trigger] ys[i]).peer == peer
                &&& forall|i: int|
                    0 <= i < ys.len() ==> pre.start <= class_definition_block(
                        (#[trigger] ys[i]).data,
                    ) <= pre.stop
                &&& forall|i: int, j: int|
                    0 <= i < j < ys.len() ==> class_definition_block((#[trigger] ys[i]).data)
                        <= class_definition_block((#[trigger] ys[j]).data)
                &&& (r.1 is Completed ==> post.phase is Done && post.start == pre.stop)
                &&& (r.1 is ExpectationsEnded ==> final(counts).next == final(counts).items@.len())
            }),
    {
        let ghost pre = *old(self);
        let ghost rs_full = responses@;
        let ghost items0 = old(counts).items;
        let ghost items = old(counts).items@;
        let ghost next0 = old(counts).next as int;
        self.begin_attempt();
        proof {
            assert(self.model() =~= class_fresh_attempt_state(pre));
            assert(rs_full.skip(0) =~= rs_full);
        }
        let mut ys: Vec<PeerData<ClassDefinition>> = Vec::new();
        proof {
            let tail = class_attempt(self.model(), peer, rs_full, items, next0);
            assert(ys@ + tail.yields =~= tail.yields);
        }
        let count = responses.len();
        let mut rest = responses;
        let mut k: usize = 0;
        loop
            invariant
                self.wf(),
                !(self.phase is AwaitingExpectation),
                !(self.phase is Done),
                self.stop == pre.stop,
                pre.start <= self.start,
                counts.wf(),
                counts.items == items0,
                k <= count,
                count == rest@.len() + k,
                rest@ == rs_full.skip(k as int),
                ({
                    let f = class_attempt(class_fresh_attempt_state(pre), peer, rs_full, items, next0);
                    let tail = class_attempt(
                        self.model(),
                        peer,
                        rs_full.skip(k as int),
                        items,
                        counts.next as int,
                    );
                    &&& f.yields == ys@ + tail.yields
                    &&& f.outcome == tail.outcome
                    &&& f.state == tail.state
                    &&& f.next == tail.next
                }),
                forall|i: int| 0 <= i < ys@.len() ==> (#[trigger] ys@[i]).peer == peer,
                forall|i: int|
                    0 <= i < ys@.len() ==> pre.start <= class_definition_block(
                        (#[trigger] ys@[i]).data,
                    ) <= pre.stop,
                forall|i: int, j: int|
                    0 <= i < j < ys@.len() ==> class_definition_block((#[trigger] ys@[i]).data)
                        <= class_definition_block((#[trigger] ys@[j]).data),
                forall|i: int|
                    0 <= i < ys@.len() ==> class_definition_block((#[trigger] ys@[i]).data)
                        <= self.start,
            decreases count - k, self.stop - self.start,
        {
            let ghost s_k = self.model();
            let ghost next_k = counts.next as int;
            let ghost empty_yields = Seq::<PeerData<ClassDefinition>>::empty();
            if matches!(self.phase, ClassStreamPhase::ReadyToFlush) {
                let ghost flushed_block = self.start;
                let defs = self.take_block();
                let ghost flushed = defs@;
                let ghost ys_entry = ys@;
                let mut d: usize = 0;
                let n = defs.len();
                let mut rest_defs = defs;
                while d < n
                    invariant
                        d <= n,
                        n == rest_defs@.len() + d,
                        n == flushed.len(),
                        rest_defs@ == flushed.skip(d as int),
                        ys@ == ys_entry + class_peer_yields(peer, flushed.take(d as int)),
                        forall|i: int|
                            0 <= i < rest_defs@.len() ==> class_definition_block(
                                #[trigger] rest_defs@[i],
                            ) == flushed_block,
                        pre.start <= flushed_block <= pre.stop,
                        forall|i: int| 0 <= i < ys@.len() ==> (#[trigger] ys@[i]).peer == peer,
                        forall|i: int|
                            0 <= i < ys@.len() ==> pre.start <= class_definition_block(
                                (#[trigger] ys@[i]).data,
                            ) <= pre.stop,
                        forall|i: int, j: int|
                            0 <= i < j < ys@.len() ==> class_definition_block(
                                (#[trigger] ys@[i]).data,
                            ) <= class_definition_block((#[trigger] ys@[j]).data),
                        forall|i: int|
                            0 <= i < ys@.len() ==> class_definition_block((#[trigger] ys@[i]).data)
                                <= flushed_block,
                    decreases n - d,
                {
                    let def = rest_defs.remove(0);
                    proof {
                        assert(rest_defs@ =~= flushed.skip(d + 1));
                    }
                    let ghost def_g = def;
                    ys.push(PeerData::new(peer, def));
                    proof {
                        assert(def_g == flushed[d as int]);
                        assert(class_peer_yields(peer, flushed.take(d + 1))
                            =~= class_peer_yields(peer, flushed.take(d as int)).push(
                            (PeerData { peer, data: def_g }),
                        ));
                        assert(ys@ =~= ys_entry + class_peer_yields(peer, flushed.take(d + 1)));
                    }
                    d = d + 1;
                }
                proof {
                    assert(flushed.take(n as int) =~= flushed);
                    assert(ys@ == ys_entry + class_peer_yields(peer, s_k.definitions));
                }
                if matches!(self.phase, ClassStreamPhase::Done) {
                    proof {
                        assert(self.model() =~= (ClassStreamState {
                            start: s_k.start,
                            stop: s_k.stop,
                            remaining: 0,
                            checkpoint: s_k.checkpoint,
                            definitions: Seq::empty(),
                            phase: ClassStreamPhase::Done,
                        }));
                    }
                    return (ys, AttemptOutcome::Completed);
                }
                let c = counts.pull();
                if self.supply_expectation(c) {
                    proof {
                        assert(self.model() =~= (ClassStreamState {
                            start: (s_k.start + 1) as u64,
                            stop: s_k.stop,
                            remaining: 0,
                            checkpoint: s_k.checkpoint,
                            definitions: Seq::empty(),
                            phase: ClassStreamPhase::AwaitingExpectation,
                        }));
                    }
                    return (ys, AttemptOutcome::ExpectationsEnded);
                }
                proof {
                    let n_g = items[next_k];
                    assert(self.model() =~= (ClassStreamState {
                        start: (s_k.start + 1) as u64,
                        stop: s_k.stop,
                        remaining: n_g as nat,
                        checkpoint: n_g as nat,
                        definitions: Seq::empty(),
                        phase: if n_g > 0 {
                            ClassStreamPhase::Collecting
                        } else {
                            ClassStreamPhase::ReadyToFlush
                        },
                    }));
                    let tail1 = class_attempt(
                        self.model(),
                        peer,
                        rs_full.skip(k as int),
                        items,
                        counts.next as int,
                    );
                    assert(ys_entry + (class_peer_yields(peer, s_k.definitions) + tail1.yields)
                        =~= ys@ + tail1.yields);
                }
            } else {
                if k == count {
                    proof {
                        assert(rs_full.skip(k as int).len() == 0);
                        assert(ys@ + empty_yields =~= ys@);
                    }
                    return (ys, AttemptOutcome::RotatePeer);
                }
                proof {
                    assert(rs_full.skip(k as int).first() == rs_full[k as int]);
                    assert(rs_full.skip(k as int).drop_first() =~= rs_full.skip(k + 1));
                }
                let resp = rest.remove(0);
                proof {
                    assert(rest@ =~= rs_full.skip(k + 1));
                }
                let ghost resp_g = resp;
                k = k + 1;
                if self.on_response(resp) {
                    proof {
                        assert(ys@ + empty_yields =~= ys@);
                    }
                    return (ys, AttemptOutcome::RotatePeer);
                }
                proof {
                    if let ClassesResponse::Cairo0Class(Decoded::Valid(definition)) = resp_g {
                        assert(self.model() =~= (ClassStreamState {
                            start: s_k.start,
                            stop: s_k.stop,
                            remaining: (s_k.remaining - 1) as nat,
                            checkpoint: s_k.checkpoint,
                            definitions: s_k.definitions.push(
                                (ClassDefinition::Cairo {
                                    block_number: s_k.start,
                                    definition,
                                }),
                            ),
                            phase: if s_k.remaining == 1 {
                                ClassStreamPhase::ReadyToFlush
                            } else {
                                ClassStreamPhase::Collecting
                            },
                        }));
                    }
                    if let ClassesResponse::Cairo1Class(Decoded::Valid(definition)) = resp_g {
                        assert(self.model() =~= (ClassStreamState {
                            start: s_k.start,
                            stop: s_k.stop,
                            remaining: (s_k.remaining - 1) as nat,
                            checkpoint: s_k.checkpoint,
                            definitions: s_k.definitions.push(
                                (ClassDefinition::Sierra {
                                    block_number: s_k.start,
                                    sierra_definition: definition,
                                }),
                            ),
                            phase: if s_k.remaining == 1 {
                                ClassStreamPhase::ReadyToFlush
                            } else {
                                ClassStreamPhase::Collecting
                            },
                        }));
                    }
                }
            }
        }
    }
}

/// The abstract state of the machine; contracts and laws speak of it.
#[verifier::ext_equal]
pub ghost struct ClassStreamState {
    pub start: BlockNumber,
    pub stop: BlockNumber,
    pub remaining: nat,
    pub checkpoint: nat,
    pub definitions: Seq<ClassDefinition>,
    pub phase: ClassStreamPhase,
}

impl ClassStreamMachine {
    pub open spec fn model(self) -> ClassStreamState {
        ClassStreamState {
            start: self.start,
            stop: self.stop,
            remaining: self.progress.remaining(),
            checkpoint: self.progress.checkpoint(),
            definitions: self.class_definitions@,
            phase: self.phase,
        }
    }
}

/// The machine state a fresh attempt at the current block starts from.
pub open spec fn class_fresh_attempt_state(m: ClassStreamMachine) -> ClassStreamState {
    ClassStreamState {
        start: m.start,
        stop: m.stop,
        remaining: m.progress.checkpoint(),
        checkpoint: m.progress.checkpoint(),
        definitions: Seq::empty(),
        phase: if m.progress.checkpoint() > 0 {
            ClassStreamPhase::Collecting
        } else {
            ClassStreamPhase::ReadyToFlush
        },
    }
}

/// A block's definitions as the artifacts a flush emits for `peer`.
pub open spec fn class_peer_yields(peer: PeerId, defs: Seq<ClassDefinition>) -> Seq<
    PeerData<ClassDefinition>,
> {
    defs.map_values(|d: ClassDefinition| PeerData { peer, data: d })
}

/// The result of one peer attempt: the definitions emitted in walk order,
/// how the attempt ended, the machine state afterwards and the count cursor
/// afterwards.
#[verifier::ext_equal]
pub ghost struct ClassAttempt {
    pub yields: Seq<PeerData<ClassDefinition>>,
    pub outcome: AttemptOutcome,
    pub state: ClassStreamState,
    pub next: int,
}

/// One peer attempt as a function of the machine state, the responses and
/// the count queue: a completed block is flushed one artifact per definition
/// and the walk advances with the next pulled count; while a block is short,
/// each well-formed definition joins it; a malformed definition or `Fin`
/// mid-block ends the attempt; the stream completes when the final block was
/// flushed.
pub open spec fn class_attempt(
    s: ClassStreamState,
    peer: PeerId,
    rs: Seq<ClassesResponse>,
    items: Seq<usize>,
    next: int,
) -> ClassAttempt
    decreases rs.len(), s.stop - s.start,
{
    if s.phase is ReadyToFlush {
        let flushed = class_peer_yields(peer, s.definitions);
        if s.start >= s.stop {
            ClassAttempt {
                yields: flushed,
                outcome: AttemptOutcome::Completed,
                state: ClassStreamState {
                    start: s.start,
                    stop: s.stop,
                    remaining: 0,
                    checkpoint: s.checkpoint,
                    definitions: Seq::empty(),
                    phase: ClassStreamPhase::Done,
                },
                next,
            }
        } else if next < items.len() {
            let n = items[next];
            let s2 = ClassStreamState {
                start: (s.start + 1) as u64,
                stop: s.stop,
                remaining: n as nat,
                checkpoint: n as nat,
                definitions: Seq::empty(),
                phase: if n > 0 {
                    ClassStreamPhase::Collecting
                } else {
                    ClassStreamPhase::ReadyToFlush
                },
            };
            let rest = class_attempt(s2, peer, rs, items, next + 1);
            ClassAttempt {
                yields: flushed + rest.yields,
                outcome: rest.outcome,
                state: rest.state,
                next: rest.next,
            }
        } else {
            ClassAttempt {
                yields: flushed,
                outcome: AttemptOutcome::ExpectationsEnded,
                state: ClassStreamState {
                    start: (s.start + 1) as u64,
                    stop: s.stop,
                    remaining: 0,
                    checkpoint: s.checkpoint,
                    definitions: Seq::empty(),
                    phase: ClassStreamPhase::AwaitingExpectation,
                },
                next,
            }
        }
    } else {
        if rs.len() == 0 {
            ClassAttempt {
                yields: Seq::empty(),
                outcome: AttemptOutcome::RotatePeer,
                state: s,
                next,
            }
        } else {
            match rs.first() {
                ClassesResponse::Fin => ClassAttempt {
                    yields: Seq::empty(),
                    outcome: AttemptOutcome::RotatePeer,
                    state: s,
                    next,
                },
                ClassesResponse::Cairo0Class(d) => match d {
                    Decoded::Malformed => ClassAttempt {
                        yields: Seq::empty(),
                        outcome: AttemptOutcome::RotatePeer,
                        state: s,
                        next,
                    },
                    Decoded::Valid(definition) => {
                        let s2 = ClassStreamState {
                            start: s.start,
                            stop: s.stop,
                            remaining: (s.remaining - 1) as nat,
                            checkpoint: s.checkpoint,
                            definitions: s.definitions.push(
                                ClassDefinition::Cairo { block_number: s.start, definition },
                            ),
                            phase: if s.remaining == 1 {
                                ClassStreamPhase::ReadyToFlush
                            } else {
                                ClassStreamPhase::Collecting
                            },
                        };
                        class_attempt(s2, peer, rs.drop_first(), items, next)
                    },
                },
                ClassesResponse::Cairo1Class(d) => match d {
                    Decoded::Malformed => ClassAttempt {
                        yields: Seq::empty(),
                        outcome: AttemptOutcome::RotatePeer,
                        state: s,
                        next,
                    },
                    Decoded::Valid(definition) => {
                        let s2 = ClassStreamState {
                            start: s.start,
                            stop: s.stop,
                            remaining: (s.remaining - 1) as nat,
                            checkpoint: s.checkpoint,
                            definitions: s.definitions.push(
                                ClassDefinition::Sierra {
                                    block_number: s.start,
                                    sierra_definition: definition,
                                },
                            ),
                            phase: if s.remaining == 1 {
                                ClassStreamPhase::ReadyToFlush
                            } else {
                                ClassStreamPhase::Collecting
                            },
                        };
                        class_attempt(s2, peer, rs.drop_first(), items, next)
                    },
                },
            }
        }
    }
}

/// A cooperative peer's responses from a block with `remaining` definitions
/// still expected: exactly the declared number of well-formed definitions for
/// every block through `stop`, each later block's count pulled from the
/// expectations. No closing `Fin` is needed: the final block's flush
/// completes the stream.
pub open spec fn serves_classes_cooperatively(
    remaining: nat,
    start: u64,
    stop: u64,
    rs: Seq<ClassesResponse>,
    items: Seq<usize>,
    next: int,
) -> bool
    decreases rs.len(), stop - start,
{
    if remaining > 0 {
        &&& rs.len() > 0
        &&& ((rs.first() matches ClassesResponse::Cairo0Class(d) && d is Valid) || (rs.first()
            matches ClassesResponse::Cairo1Class(d) && d is Valid))
        &&& serves_classes_cooperatively(
            (remaining - 1) as nat,
            start,
            stop,
            rs.drop_first(),
            items,
            next,
        )
    } else if start < stop {
        &&& next < items.len()
        &&& serves_classes_cooperatively(
            items[next] as nat,
            (start + 1) as u64,
            stop,
            rs,
            items,
            next + 1,
        )
    } else {
        true
    }
}

/// Coverage: a cooperative peer serving exactly the declared definitions
/// completes the stream; combined with this function's other clauses on
/// [`ClassStreamMachine::run_attempt`], the emitted artifacts are the served
/// definitions in walk order. A block declaring no classes emits nothing and
/// the walk still completes.
pub proof fn lemma_cooperative_coverage(
    s: ClassStreamState,
    peer: PeerId,
    rs: Seq<ClassesResponse>,
    items: Seq<usize>,
    next: int,
)
    requires
        s.start <= s.stop,
        (s.phase is Collecting && s.remaining > 0) || (s.phase is ReadyToFlush && s.remaining
            == 0),
        serves_classes_cooperatively(s.remaining, s.start, s.stop, rs, items, next),
    ensures
        ({
            let f = class_attempt(s, peer, rs, items, next);
            &&& f.outcome == AttemptOutcome::Completed
            &&& f.state.phase is Done
            &&& f.state.start == s.stop
        }),
    decreases rs.len(), s.stop - s.start,
{
    reveal_with_fuel(serves_classes_cooperatively, 3);
    if s.phase is ReadyToFlush {
        if s.start == s.stop {
        } else {
            let n = items[next];
            let s2 = ClassStreamState {
                start: (s.start + 1) as u64,
                stop: s.stop,
                remaining: n as nat,
                checkpoint: n as nat,
                definitions: Seq::empty(),
                phase: if n > 0 {
                    ClassStreamPhase::Collecting
                } else {
                    ClassStreamPhase::ReadyToFlush
                },
            };
            lemma_cooperative_coverage(s2, peer, rs, items, next + 1);
        }
    } else {
        if let ClassesResponse::Cairo0Class(d) = rs.first() {
            if let Decoded::Valid(definition) = d {
                let s2 = ClassStreamState {
                    start: s.start,
                    stop: s.stop,
                    remaining: (s.remaining - 1) as nat,
                    checkpoint: s.checkpoint,
                    definitions: s.definitions.push(
                        ClassDefinition::Cairo { block_number: s.start, definition },
                    ),
                    phase: if s.remaining == 1 {
                        ClassStreamPhase::ReadyToFlush
                    } else {
                        ClassStreamPhase::Collecting
                    },
                };
                lemma_cooperative_coverage(s2, peer, rs.drop_first(), items, next);
            }
        }
        if let ClassesResponse::Cairo1Class(d) = rs.first() {
            if let Decoded::Valid(definition) = d {
                let s2 = ClassStreamState {
                    start: s.start,
                    stop: s.stop,
                    remaining: (s.remaining - 1) as nat,
                    checkpoint: s.checkpoint,
                    definitions: s.definitions.push(
                        ClassDefinition::Sierra {
                            block_number: s.start,
                            sierra_definition: definition,
                        },
                    ),
                    phase: if s.remaining == 1 {
                        ClassStreamPhase::ReadyToFlush
                    } else {
                        ClassStreamPhase::Collecting
                    },
                };
                lemma_cooperative_coverage(s2, peer, rs.drop_first(), items, next);
            }
        }
    }
}

/// Idempotence under peer rotation: a fresh attempt at a block is the same
/// machine state whatever failed attempts preceded it, so a peer that then
/// serves the block fully produces the definitions the block would have had
/// from that peer alone.
pub proof fn lemma_rotation_idempotent(a: ClassStreamMachine, b: ClassStreamMachine)
    requires
        a.wf(),
        b.wf(),
        a.is_fresh_attempt(),
        b.is_fresh_attempt(),
        a.start == b.start,
        a.stop == b.stop,
        a.progress.checkpoint() == b.progress.checkpoint(),
        (a.phase is Collecting <==> b.phase is Collecting),
    ensures
        a.start == b.start && a.stop == b.stop && a.progress == b.progress
            && a.class_definitions@ == b.class_definitions@ && a.phase == b.phase,
{
    assert(a.class_definitions@ =~= b.class_definitions@);
}

} // verus!
