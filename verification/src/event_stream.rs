//! Per-block event streamer.
//!
//! One machine walks the inclusive range `[start, stop]` forward. Each
//! expectation pre-declares a block's total event count. Events arrive in
//! block order with the hash of the transaction that emitted them; the
//! machine groups consecutive events that share a hash into one entry, so a
//! block's artifact is a list of `(transaction, events)` groups whose
//! flattening is exactly the arrival sequence. The grouping is trusted: for
//! blocks older than Starknet 0.13.2 the per-transaction event count is
//! covered by neither signature nor block hash, so intra-block grouping
//! reflects peer claims.

use vstd::prelude::*;

use crate::ids::{BlockNumber, Event, PeerData, PeerId, TransactionHash};
use crate::progress::BlockProgress;
use crate::proto::{Decoded, EventsRequest, EventsResponse, forward_iteration};
use crate::types::{AttemptOutcome, CountQueue, EventsForBlockByTransaction, block_count_expectation};

verus! {

/// Where the machine stands within the walk.
#[derive(Clone, Copy, Debug, PartialEq, Eq, Structural)]
pub enum EventStreamPhase {
    /// The current block still expects events from the peer.
    Collecting,
    /// The current block's events are complete and must be flushed with
    /// [`EventStreamMachine::take_block`].
    ReadyToFlush,
    /// The next block's expected count must be supplied.
    AwaitingExpectation,
    /// Every block of the range was flushed; the stream is done.
    Done,
}

/// The arrival sequence a grouped block denotes: each group contributes its
/// events, each tagged with the group's transaction hash.
pub open spec fn flat_of(groups: Seq<(TransactionHash, Vec<Event>)>) -> Seq<
    (TransactionHash, Event),
>
    decreases groups.len(),
{
    if groups.len() == 0 {
        Seq::empty()
    } else {
        flat_of(groups.drop_last()) + groups.last().1@.map_values(
            |e: Event| (groups.last().0, e),
        )
    }
}

/// The shape consecutive grouping guarantees: no empty group and no two
/// adjacent groups with the same transaction hash.
pub open spec fn groups_wf(groups: Seq<(TransactionHash, Vec<Event>)>) -> bool {
    &&& forall|i: int| 0 <= i < groups.len() ==> (#[trigger] groups[i]).1@.len() > 0
    &&& forall|i: int|
        0 <= i < groups.len() - 1 ==> (#[trigger] groups[i]).0 != groups[i + 1].0
}

/// The groups a block artifact carries, at the level contracts speak of.
pub open spec fn groups_view(gs: Seq<(TransactionHash, Vec<Event>)>) -> Seq<
    (TransactionHash, Seq<Event>),
> {
    gs.map_values(|g: (TransactionHash, Vec<Event>)| (g.0, g.1@))
}

/// State machine of the event streamer.
pub struct EventStreamMachine {
    pub start: BlockNumber,
    pub stop: BlockNumber,
    pub progress: BlockProgress,
    pub events: Vec<(TransactionHash, Vec<Event>)>,
    pub current_txn: Option<TransactionHash>,
    pub phase: EventStreamPhase,
}

impl EventStreamMachine {
    pub open spec fn wf(self) -> bool {
        &&& self.progress.wf()
        &&& self.start <= self.stop
        &&& self.stop - self.start < u64::MAX
        &&& (self.phase is AwaitingExpectation || self.phase is Done) ==> self.events@.len() == 0
            && self.current_txn is None
        &&& (self.phase is Collecting || self.phase is ReadyToFlush) ==> flat_of(
            self.events@,
        ).len() + self.progress.remaining() == self.progress.checkpoint()
        &&& (self.phase is Collecting ==> self.progress.remaining() > 0)
        &&& (self.phase is ReadyToFlush ==> self.progress.remaining() == 0)
        &&& (self.phase is Done ==> self.start == self.stop)
        &&& groups_wf(self.events@)
        &&& self.events@.len() > 0 ==> self.current_txn == Some(self.events@.last().0)
        &&& self.events@.len() == 0 ==> self.current_txn is None
    }

    /// A fresh attempt at the current block: the budget is at its checkpoint
    /// and nothing from a previous peer is retained.
    pub open spec fn is_fresh_attempt(self) -> bool {
        &&& !(self.phase is AwaitingExpectation) && !(self.phase is Done)
        &&& self.progress.remaining() == self.progress.checkpoint()
        &&& self.events@.len() == 0
    }

    /// Starts a stream over `[start, stop]` whose first block expects
    /// `first_count` events.
    pub fn new(start: BlockNumber, stop: BlockNumber, first_count: usize) -> (r: EventStreamMachine)
        requires
            start <= stop,
            stop - start < u64::MAX,
        ensures
            r.wf(),
            r.is_fresh_attempt(),
            r.start == start,
            r.stop == stop,
            r.progress.checkpoint() == first_count,
            first_count > 0 ==> r.phase is Collecting,
            first_count == 0 ==> r.phase is ReadyToFlush,
    {
        EventStreamMachine {
            start,
            stop,
            progress: BlockProgress::new(first_count),
            events: Vec::new(),
            current_txn: None,
            phase: if first_count > 0 {
                EventStreamPhase::Collecting
            } else {
                EventStreamPhase::ReadyToFlush
            },
        }
    }

    /// The request for the remaining range, sent to each peer in turn.
    pub fn make_request(&self) -> (r: EventsRequest)
        requires
            self.wf(),
        ensures
            r.iteration.start == self.start,
            r.iteration.limit == self.stop - self.start + 1,
            r.iteration.direction is Forward,
            r.iteration.step == 1,
    {
        EventsRequest { iteration: forward_iteration(self.start, self.stop) }
    }

    /// Rolls back to a fresh attempt at the current block: the budget returns
    /// to its checkpoint and the accumulator and grouping cursor are emptied,
    /// so nothing served by a failed peer leaks into this attempt.
    pub fn begin_attempt(&mut self)
        requires
            old(self).wf(),
            !(old(self).phase is AwaitingExpectation),
            !(old(self).phase is Done),
        ensures
            final(self).wf(),
            final(self).is_fresh_attempt(),
            final(self).start == old(self).start,
            final(self).stop == old(self).stop,
            final(self).progress.checkpoint() == old(self).progress.checkpoint(),
            old(self).progress.checkpoint() > 0 ==> final(self).phase is Collecting,
            old(self).progress.checkpoint() == 0 ==> final(self).phase is ReadyToFlush,
    {
        self.progress.rollback();
        self.events = Vec::new();
        self.current_txn = None;
        self.phase = if self.progress.get() > 0 {
            EventStreamPhase::Collecting
        } else {
            EventStreamPhase::ReadyToFlush
        };
        proof {
            assert(flat_of(self.events@) =~= Seq::<(TransactionHash, Event)>::empty());
        }
    }

    /// Decides what one response means for the current block. Returns true
    /// when the peer must be abandoned: a malformed event, or `Fin` while the
    /// block still expects events. A well-formed event joins the last group
    /// when it shares that group's transaction hash and opens a new group
    /// otherwise; the flattened groups are exactly the events in arrival
    /// order.
    pub fn on_response(&mut self, resp: EventsResponse) -> (rotate: bool)
        requires
            old(self).wf(),
            old(self).phase is Collecting,
        ensures
            final(self).wf(),
            final(self).start == old(self).start,
            final(self).stop == old(self).stop,
            final(self).progress.checkpoint() == old(self).progress.checkpoint(),
            ({
                let pre = *old(self);
                let post = *final(self);
                match resp {
                    EventsResponse::Event(item) => match item.payload {
                        Decoded::Valid(ev) => {
                            &&& !rotate
                            &&& flat_of(post.events@) == flat_of(pre.events@).push(
                                (item.transaction_hash, ev),
                            )
                            &&& groups_view(post.events@) == (if pre.current_txn == Some(
                                item.transaction_hash,
                            ) && pre.events@.len() > 0 {
                                groups_view(pre.events@).update(
                                    pre.events@.len() - 1,
                                    (
                                        item.transaction_hash,
                                        groups_view(pre.events@).last().1.push(ev),
                                    ),
                                )
                            } else {
                                groups_view(pre.events@).push((item.transaction_hash, seq![ev]))
                            })
                            &&& post.current_txn == Some(item.transaction_hash)
                            &&& post.progress.remaining() == pre.progress.remaining() - 1
                            &&& (post.progress.remaining() == 0 <==> post.phase is ReadyToFlush)
                            &&& (post.progress.remaining() > 0 <==> post.phase is Collecting)
                        },
                        Decoded::Malformed => rotate && post == pre,
                    },
                    EventsResponse::Fin => rotate && post == pre,
                }
            }),
    {
        match resp {
            EventsResponse::Event(item) => match item.payload {
                Decoded::Valid(ev) => {
                    let same = match &self.current_txn {
                        Some(h) => *h == item.transaction_hash,
                        None => false,
                    };
                    let ghost groups0 = self.events@;
                    if same && self.events.len() > 0 {
                        let i = self.events.len() - 1;
                        let last = &mut self.events[i];
                        last.1.push(ev);
                        proof {
                            let g0 = groups0.last();
                            let g1 = self.events@.last();
                            assert(self.events@.drop_last() =~= groups0.drop_last());
                            assert(g1.1@ == g0.1@.push(ev));
                            assert(g1.1@.map_values(|e: Event| (g1.0, e)) =~= g0.1@.map_values(
                                |e: Event| (g0.0, e),
                            ).push((item.transaction_hash, ev)));
                            assert(flat_of(self.events@) =~= flat_of(groups0).push(
                                (item.transaction_hash, ev),
                            ));
                            assert(groups_view(self.events@) =~= groups_view(groups0).update(
                                groups0.len() - 1,
                                (item.transaction_hash, groups_view(groups0).last().1.push(ev)),
                            ));
                        }
                    } else {
                        self.events.push((item.transaction_hash, vec![ev]));
                        self.current_txn = Some(item.transaction_hash);
                        proof {
                            let g1 = self.events@.last();
                            assert(self.events@.drop_last() =~= groups0);
                            assert(g1.1@ =~= Seq::<Event>::empty().push(ev));
                            assert(g1.1@.map_values(|e: Event| (g1.0, e)) =~= Seq::<
                                (TransactionHash, Event),
                            >::empty().push((item.transaction_hash, ev)));
                            assert(flat_of(self.events@) =~= flat_of(groups0).push(
                                (item.transaction_hash, ev),
                            ));
                            assert(groups_view(self.events@) =~= groups_view(groups0).push(
                                (item.transaction_hash, seq![ev]),
                            ));
                            assert(groups_wf(self.events@));
                        }
                    }
                    self.progress.decrement();
                    if self.progress.get() == 0 {
                        self.phase = EventStreamPhase::ReadyToFlush;
                    }
                    false
                },
                Decoded::Malformed => true,
            },
            EventsResponse::Fin => true,
        }
    }

    /// Takes the completed block's grouped events as one artifact and
    /// advances the walk: past the final block the stream is done, otherwise
    /// the next block's expected count must be supplied.
    pub fn take_block(&mut self) -> (r: EventsForBlockByTransaction)
        requires
            old(self).wf(),
            old(self).phase is ReadyToFlush,
        ensures
            final(self).wf(),
            final(self).stop == old(self).stop,
            r.0 == old(self).start,
            r.1@ == old(self).events@,
            final(self).progress == old(self).progress,
            flat_of(r.1@).len() == old(self).progress.checkpoint(),
            groups_wf(r.1@),
            final(self).events@.len() == 0,
            old(self).start == old(self).stop ==> final(self).phase is Done && final(self).start
                == old(self).start,
            old(self).start < old(self).stop ==> (final(self).phase is AwaitingExpectation
                && final(self).start == old(self).start + 1),
    {
        let mut taken: Vec<(TransactionHash, Vec<Event>)> = Vec::new();
        core::mem::swap(&mut taken, &mut self.events);
        self.current_txn = None;
        let block = self.start;
        if self.start == self.stop {
            self.phase = EventStreamPhase::Done;
        } else {
            self.start = self.start + 1;
            self.phase = EventStreamPhase::AwaitingExpectation;
        }
        (block, taken)
    }

    /// Installs the next block's expected count after a flush, or reports
    /// that the expectation sequence ended and the stream must terminate.
    pub fn supply_expectation(&mut self, count: Option<usize>) -> (terminate: bool)
        requires
            old(self).wf(),
            old(self).phase is AwaitingExpectation,
        ensures
            final(self).wf(),
            final(self).start == old(self).start,
            final(self).stop == old(self).stop,
            match count {
                Some(n) => {
                    &&& !terminate
                    &&& final(self).is_fresh_attempt()
                    &&& final(self).progress.checkpoint() == n
                    &&& (n > 0 ==> final(self).phase is Collecting)
                    &&& (n == 0 ==> final(self).phase is ReadyToFlush)
                },
                None => terminate && *final(self) == *old(self),
            },
    {
        match count {
            Some(n) => {
                self.progress = BlockProgress::new(n);
                self.phase = if n > 0 {
                    EventStreamPhase::Collecting
                } else {
                    EventStreamPhase::ReadyToFlush
                };
                false
            },
            None => true,
        }
    }

    /// Consumes one peer's responses: a fresh attempt at the current block,
    /// then one decision per response, flushing each completed block and
    /// pulling the next expected count. The flushed blocks, the outcome, the
    /// machine state and the count cursor afterwards are exactly
    /// [`event_attempt`] of the rolled-back state and the responses.
    ///
    /// The contract also spells out what follows: flushed blocks are numbered
    /// consecutively from the cursor, each carries the peer that served it
    /// and groups whose flattening has exactly the expected event count.
    #[verifier::loop_isolation(false)]
    pub fn run_attempt(
        &mut self,
        peer: PeerId,
        responses: Vec<EventsResponse>,
        counts: &mut CountQueue,
    ) -> (r: (Vec<PeerData<EventsForBlockByTransaction>>, AttemptOutcome))
        requires
            old(self).wf(),
            !(old(self).phase is AwaitingExpectation),
            !(old(self).phase is Done),
            old(counts).wf(),
        ensures
            final(self).wf(),
            final(counts).wf(),
            final(counts).items == old(counts).items,
            ({
                let f = event_attempt(
                    event_fresh_attempt_state(*old(self)),
                    peer,
                    responses@,
                    old(counts).items@,
                    old(counts).next as int,
                );
                &&& event_yields_of(r.0@) == f.yields
                &&& r.1 == f.outcome
                &&& final(self).model() == f.state
                &&& final(counts).next == f.next
            }),
            ({
                let ys = r.0@;
                let pre = *old(self);
                let post = *final(self);
                &&& post.stop == pre.stop
                &&& forall|i: int| 0 <= i < ys.len() ==> (#[trigger] ys[i]).peer == peer
                &&& forall|i: int| 0 <= i < ys.len() ==> (#[trigger] ys[i]).data.0 == pre.start + i
                &&& forall|i: int| 0 <= i < ys.len() ==> groups_wf((#[trigger] ys[i]).data.1@)
                &&& forall|i: int|
                    0 <= i < ys.len() ==> flat_of((#[trigger] ys[i]).data.1@).len()
                        == block_count_expectation(
                        pre.progress.count_backup,
                        old(counts).items@,
                        old(counts).next as int,
                        i,
                    )
                &&& (r.1 is Completed ==> post.phase is Done && post.start == pre.stop)
                &&& (r.1 is ExpectationsEnded ==> final(counts).next == final(counts).items@.len())
            }),
    {
        let ghost pre = *old(self);
        let ghost rs_full = responses@;
        let ghost items0 = old(counts).items;
        let ghost items = old(counts).items@;
        let ghost next0 = old(counts).next as int;
        self.begin_attempt();
        proof {
            assert(groups_view(self.events@) =~= Seq::<(TransactionHash, Seq<Event>)>::empty());
            assert(self.model() =~= event_fresh_attempt_state(pre));
            assert(rs_full.skip(0) =~= rs_full);
            assert(event_yields_of(Seq::empty()) =~= Seq::<EventYield>::empty());
        }
        let mut ys: Vec<PeerData<EventsForBlockByTransaction>> = Vec::new();
        proof {
            let tail = event_attempt(self.model(), peer, rs_full, items, next0);
            assert(event_yields_of(ys@) + tail.yields =~= tail.yields);
        }
        let count = responses.len();
        let mut rest = responses;
        let mut k: usize = 0;
        loop
            invariant
                self.wf(),
                !(self.phase is AwaitingExpectation),
                !(self.phase is Done),
                self.stop == pre.stop,
                pre.start <= self.start,
                self.start == pre.start + ys@.len(),
                counts.wf(),
                counts.items == items0,
                counts.next == next0 + ys@.len(),
                k <= count,
                count == rest@.len() + k,
                rest@ == rs_full.skip(k as int),
                ({
                    let f = event_attempt(event_fresh_attempt_state(pre), peer, rs_full, items, next0);
                    let tail = event_attempt(
                        self.model(),
                        peer,
                        rs_full.skip(k as int),
                        items,
                        counts.next as int,
                    );
                    &&& f.yields == event_yields_of(ys@) + tail.yields
                    &&& f.outcome == tail.outcome
                    &&& f.state == tail.state
                    &&& f.next == tail.next
                }),
                forall|i: int| 0 <= i < ys@.len() ==> (#[trigger] ys@[i]).peer == peer,
                forall|i: int| 0 <= i < ys@.len() ==> (#[trigger] ys@[i]).data.0 == pre.start + i,
                forall|i: int| 0 <= i < ys@.len() ==> groups_wf((#[trigger] ys@[i]).data.1@),
                forall|i: int|
                    0 <= i < ys@.len() ==> flat_of((#[trigger] ys@[i]).data.1@).len()
                        == block_count_expectation(
                        pre.progress.count_backup,
                        items,
                        next0,
                        i,
                    ),
                self.progress.checkpoint() == block_count_expectation(
                    pre.progress.count_backup,
                    items,
                    next0,
                    ys@.len() as int,
                ),
            decreases count - k, self.stop - self.start, (if self.phase is ReadyToFlush {
                1int
            } else {
                0int
            }),
        {
            let ghost s_k = self.model();
            let ghost next_k = counts.next as int;
            let ghost empty_yields = Seq::<EventYield>::empty();
            if matches!(self.phase, EventStreamPhase::ReadyToFlush) {
                let artifact = self.take_block();
                let ghost ys0 = ys@;
                ys.push(PeerData::new(peer, artifact));
                let ghost y_g = event_yield_of(ys@.last());
                proof {
                    assert(y_g =~= (EventYield { peer, block: s_k.start, groups: s_k.groups }));
                    assert(event_yields_of(ys@) =~= event_yields_of(ys0).push(y_g));
                }
                if matches!(self.phase, EventStreamPhase::Done) {
                    proof {
                        assert(groups_view(self.events@) =~= Seq::<
                            (TransactionHash, Seq<Event>),
                        >::empty());
                        assert(self.model() =~= (EventStreamState {
                            start: s_k.start,
                            stop: s_k.stop,
                            remaining: 0,
                            checkpoint: s_k.checkpoint,
                            groups: Seq::empty(),
                            current_txn: None,
                            phase: EventStreamPhase::Done,
                        }));
                        assert(event_yields_of(ys0) + seq![y_g] =~= event_yields_of(ys@));
                    }
                    return (ys, AttemptOutcome::Completed);
                }
                let c = counts.pull();
                if self.supply_expectation(c) {
                    proof {
                        assert(groups_view(self.events@) =~= Seq::<
                            (TransactionHash, Seq<Event>),
                        >::empty());
                        assert(self.model() =~= (EventStreamState {
                            start: (s_k.start + 1) as u64,
                            stop: s_k.stop,
                            remaining: 0,
                            checkpoint: s_k.checkpoint,
                            groups: Seq::empty(),
                            current_txn: None,
                            phase: EventStreamPhase::AwaitingExpectation,
                        }));
                        assert(event_yields_of(ys0) + seq![y_g] =~= event_yields_of(ys@));
                    }
                    return (ys, AttemptOutcome::ExpectationsEnded);
                }
                proof {
                    let n_g = items[next_k];
                    assert(groups_view(self.events@) =~= Seq::<
                        (TransactionHash, Seq<Event>),
                    >::empty());
                    assert(self.model() =~= (EventStreamState {
                        start: (s_k.start + 1) as u64,
                        stop: s_k.stop,
                        remaining: n_g as nat,
                        checkpoint: n_g as nat,
                        groups: Seq::empty(),
                        current_txn: None,
                        phase: if n_g > 0 {
                            EventStreamPhase::Collecting
                        } else {
                            EventStreamPhase::ReadyToFlush
                        },
                    }));
                    let tail1 = event_attempt(
                        self.model(),
                        peer,
                        rs_full.skip(k as int),
                        items,
                        counts.next as int,
                    );
                    assert(event_yields_of(ys0) + (seq![y_g] + tail1.yields) =~= event_yields_of(
                        ys@,
                    ) + tail1.yields);
                }
            } else {
                if k == count {
                    proof {
                        assert(rs_full.skip(k as int).len() == 0);
                        assert(event_yields_of(ys@) + empty_yields =~= event_yields_of(ys@));
                    }
                    return (ys, AttemptOutcome::RotatePeer);
                }
                proof {
                    assert(rs_full.skip(k as int).first() == rs_full[k as int]);
                    assert(rs_full.skip(k as int).drop_first() =~= rs_full.skip(k + 1));
                }
                let resp = rest.remove(0);
                proof {
                    assert(rest@ =~= rs_full.skip(k + 1));
                }
                k = k + 1;
                if self.on_response(resp) {
                    proof {
                        assert(event_yields_of(ys@) + empty_yields =~= event_yields_of(ys@));
                    }
                    return (ys, AttemptOutcome::RotatePeer);
                }
                proof {
                    if let EventsResponse::Event(item) = resp {
                        if let Decoded::Valid(ev) = item.payload {
                            let groups2 = if s_k.current_txn == Some(item.transaction_hash)
                                && s_k.groups.len() > 0 {
                                s_k.groups.update(
                                    s_k.groups.len() - 1,
                                    (item.transaction_hash, s_k.groups.last().1.push(ev)),
                                )
                            } else {
                                s_k.groups.push((item.transaction_hash, seq![ev]))
                            };
                            assert(self.model() =~= (EventStreamState {
                                start: s_k.start,
                                stop: s_k.stop,
                                remaining: (s_k.remaining - 1) as nat,
                                checkpoint: s_k.checkpoint,
                                groups: groups2,
                                current_txn: Some(item.transaction_hash),
                                phase: if s_k.remaining == 1 {
                                    EventStreamPhase::ReadyToFlush
                                } else {
                                    EventStreamPhase::Collecting
                                },
                            }));
                        }
                    }
                }
            }
        }
    }
}

/// The abstract state of the machine; contracts and laws speak of it.
#[verifier::ext_equal]
pub ghost struct EventStreamState {
    pub start: BlockNumber,
    pub stop: BlockNumber,
    pub remaining: nat,
    pub checkpoint: nat,
    pub groups: Seq<(TransactionHash, Seq<Event>)>,
    pub current_txn: Option<TransactionHash>,
    pub phase: EventStreamPhase,
}

impl EventStreamMachine {
    pub open spec fn model(self) -> EventStreamState {
        EventStreamState {
            start: self.start,
            stop: self.stop,
            remaining: self.progress.remaining(),
            checkpoint: self.progress.checkpoint(),
            groups: groups_view(self.events@),
            current_txn: self.current_txn,
            phase: self.phase,
        }
    }
}

/// The machine state a fresh attempt at the current block starts from.
pub open spec fn event_fresh_attempt_state(m: EventStreamMachine) -> EventStreamState {
    EventStreamState {
        start: m.start,
        stop: m.stop,
        remaining: m.progress.checkpoint(),
        checkpoint: m.progress.checkpoint(),
        groups: Seq::empty(),
        current_txn: None,
        phase: if m.progress.checkpoint() > 0 {
            EventStreamPhase::Collecting
        } else {
            EventStreamPhase::ReadyToFlush
        },
    }
}

/// What one flushed block looks like, at the level contracts speak of.
#[verifier::ext_equal]
pub ghost struct EventYield {
    pub peer: PeerId,
    pub block: BlockNumber,
    pub groups: Seq<(TransactionHash, Seq<Event>)>,
}

/// The flushed block a sent artifact denotes.
pub open spec fn event_yield_of(pd: PeerData<EventsForBlockByTransaction>) -> EventYield {
    EventYield { peer: pd.peer, block: pd.data.0, groups: groups_view(pd.data.1@) }
}

/// The flushed blocks a sequence of sent artifacts denotes.
pub open spec fn event_yields_of(ys: Seq<PeerData<EventsForBlockByTransaction>>) -> Seq<EventYield> {
    ys.map_values(|pd: PeerData<EventsForBlockByTransaction>| event_yield_of(pd))
}

/// The result of one peer attempt: the blocks flushed in walk order, how the
/// attempt ended, the machine state afterwards and the count cursor
/// afterwards.
#[verifier::ext_equal]
pub ghost struct EventAttempt {
    pub yields: Seq<EventYield>,
    pub outcome: AttemptOutcome,
    pub state: EventStreamState,
    pub next: int,
}

/// One peer attempt as a function of the machine state, the responses and
/// the count queue: each well-formed event joins the last group when it
/// shares that group's transaction hash and opens a new group otherwise; a
/// completed block is flushed as one artifact and the walk advances with the
/// next pulled count; a malformed event or `Fin` mid-block ends the attempt;
/// the stream completes when the final block was flushed.
pub open spec fn event_attempt(
    s: EventStreamState,
    peer: PeerId,
    rs: Seq<EventsResponse>,
    items: Seq<usize>,
    next: int,
) -> EventAttempt
    decreases rs.len(), s.stop - s.start,
{
    if s.phase is ReadyToFlush {
        let y = EventYield { peer, block: s.start, groups: s.groups };
        if s.start >= s.stop {
            EventAttempt {
                yields: seq![y],
                outcome: AttemptOutcome::Completed,
                state: EventStreamState {
                    start: s.start,
                    stop: s.stop,
                    remaining: 0,
                    checkpoint: s.checkpoint,
                    groups: Seq::empty(),
                    current_txn: None,
                    phase: EventStreamPhase::Done,
                },
                next,
            }
        } else if next < items.len() {
            let n = items[next];
            let s2 = EventStreamState {
                start: (s.start + 1) as u64,
                stop: s.stop,
                remaining: n as nat,
                checkpoint: n as nat,
                groups: Seq::empty(),
                current_txn: None,
                phase: if n > 0 {
                    EventStreamPhase::Collecting
                } else {
                    EventStreamPhase::ReadyToFlush
                },
            };
            let rest = event_attempt(s2, peer, rs, items, next + 1);
            EventAttempt {
                yields: seq![y] + rest.yields,
                outcome: rest.outcome,
                state: rest.state,
                next: rest.next,
            }
        } else {
            EventAttempt {
                yields: seq![y],
                outcome: AttemptOutcome::ExpectationsEnded,
                state: EventStreamState {
                    start: (s.start + 1) as u64,
                    stop: s.stop,
                    remaining: 0,
                    checkpoint: s.checkpoint,
                    groups: Seq::empty(),
                    current_txn: None,
                    phase: EventStreamPhase::AwaitingExpectation,
                },
                next,
            }
        }
    } else {
        if rs.len() == 0 {
            EventAttempt {
                yields: Seq::empty(),
                outcome: AttemptOutcome::RotatePeer,
                state: s,
                next,
            }
        } else {
            match rs.first() {
                EventsResponse::Fin => EventAttempt {
                    yields: Seq::empty(),
                    outcome: AttemptOutcome::RotatePeer,
                    state: s,
                    next,
                },
                EventsResponse::Event(item) => match item.payload {
                    Decoded::Malformed => EventAttempt {
                        yields: Seq::empty(),
                        outcome: AttemptOutcome::RotatePeer,
                        state: s,
                        next,
                    },
                    Decoded::Valid(ev) => {
                        let groups2 = if s.current_txn == Some(item.transaction_hash)
                            && s.groups.len() > 0 {
                            s.groups.update(
                                s.groups.len() - 1,
                                (item.transaction_hash, s.groups.last().1.push(ev)),
                            )
                        } else {
                            s.groups.push((item.transaction_hash, seq![ev]))
                        };
                        let s2 = EventStreamState {
                            start: s.start,
                            stop: s.stop,
                            remaining: (s.remaining - 1) as nat,
                            checkpoint: s.checkpoint,
                            groups: groups2,
                            current_txn: Some(item.transaction_hash),
                            phase: if s.remaining == 1 {
                                EventStreamPhase::ReadyToFlush
                            } else {
                                EventStreamPhase::Collecting
                            },
                        };
                        event_attempt(s2, peer, rs.drop_first(), items, next)
                    },
                },
            }
        }
    }
}

/// A cooperative peer's responses from a block with `remaining` events still
/// expected: exactly the expected number of well-formed events for every
/// block through `stop`, each later block's count pulled from the
/// expectations. No closing `Fin` is needed: the final block's flush
/// completes the stream.
pub open spec fn serves_events_cooperatively(
    remaining: nat,
    start: u64,
    stop: u64,
    rs: Seq<EventsResponse>,
    items: Seq<usize>,
    next: int,
) -> bool
    decreases rs.len(), stop - start,
{
    if remaining > 0 {
        &&& rs.len() > 0
        &&& (rs.first() matches EventsResponse::Event(item) && item.payload is Valid)
        &&& serves_events_cooperatively(
            (remaining - 1) as nat,
            start,
            stop,
            rs.drop_first(),
            items,
            next,
        )
    } else if start < stop {
        &&& next < items.len()
        &&& serves_events_cooperatively(items[next] as nat, (start + 1) as u64, stop, rs, items, next + 1)
    } else {
        true
    }
}

/// Coverage: a cooperative peer serving exactly the expected events completes
/// the stream, which yields exactly one artifact per block of the range, in
/// walk order, all attributed to that peer, and then ends. A block expecting
/// no events still yields its empty artifact.
pub proof fn lemma_cooperative_coverage(
    s: EventStreamState,
    peer: PeerId,
    rs: Seq<EventsResponse>,
    items: Seq<usize>,
    next: int,
)
    requires
        s.start <= s.stop,
        (s.phase is Collecting && s.remaining > 0) || (s.phase is ReadyToFlush && s.remaining
            == 0),
        serves_events_cooperatively(s.remaining, s.start, s.stop, rs, items, next),
    ensures
        ({
            let f = event_attempt(s, peer, rs, items, next);
            &&& f.outcome == AttemptOutcome::Completed
            &&& f.yields.len() == s.stop - s.start + 1
            &&& forall|i: int|
                0 <= i < f.yields.len() ==> (#[trigger] f.yields[i]).peer == peer
                    && f.yields[i].block == s.start + i
        }),
    decreases rs.len(), s.stop - s.start,
{
    reveal_with_fuel(serves_events_cooperatively, 3);
    let f = event_attempt(s, peer, rs, items, next);
    if s.phase is ReadyToFlush {
        let y = EventYield { peer, block: s.start, groups: s.groups };
        if s.start == s.stop {
            assert(f.yields =~= seq![y]);
        } else {
            let n = items[next];
            let s2 = EventStreamState {
                start: (s.start + 1) as u64,
                stop: s.stop,
                remaining: n as nat,
                checkpoint: n as nat,
                groups: Seq::empty(),
                current_txn: None,
                phase: if n > 0 {
                    EventStreamPhase::Collecting
                } else {
                    EventStreamPhase::ReadyToFlush
                },
            };
            lemma_cooperative_coverage(s2, peer, rs, items, next + 1);
            let rest = event_attempt(s2, peer, rs, items, next + 1);
            assert(f.yields == seq![y] + rest.yields);
            assert forall|i: int|
                0 <= i < f.yields.len() implies (#[trigger] f.yields[i]).peer == peer
                && f.yields[i].block == s.start + i by {
                if i == 0 {
                    assert(f.yields[0] == y);
                } else {
                    assert(f.yields[i] == rest.yields[i - 1]);
                }
            }
        }
    } else {
        if let EventsResponse::Event(item) = rs.first() {
            if let Decoded::Valid(ev) = item.payload {
                let groups2 = if s.current_txn == Some(item.transaction_hash) && s.groups.len()
                    > 0 {
                    s.groups.update(
                        s.groups.len() - 1,
                        (item.transaction_hash, s.groups.last().1.push(ev)),
                    )
                } else {
                    s.groups.push((item.transaction_hash, seq![ev]))
                };
                let s2 = EventStreamState {
                    start: s.start,
                    stop: s.stop,
                    remaining: (s.remaining - 1) as nat,
                    checkpoint: s.checkpoint,
                    groups: groups2,
                    current_txn: Some(item.transaction_hash),
                    phase: if s.remaining == 1 {
                        EventStreamPhase::ReadyToFlush
                    } else {
                        EventStreamPhase::Collecting
                    },
                };
                lemma_cooperative_coverage(s2, peer, rs.drop_first(), items, next);
            }
        }
    }
}

/// Consecutive grouping is canonical: two group lists with the grouping
/// shape and the same flattening agree group by group. Together with the
/// machine's contract — every artifact has the grouping shape and flattens
/// to the events in arrival order — this determines a block's artifact
/// uniquely from what the peer served.
pub proof fn lemma_grouping_unique(
    a: Seq<(TransactionHash, Vec<Event>)>,
    b: Seq<(TransactionHash, Vec<Event>)>,
)
    requires
        groups_wf(a),
        groups_wf(b),
        flat_of(a) == flat_of(b),
    ensures
        a.len() == b.len(),
        forall|i: int| 0 <= i < a.len() ==> (#[trigger] a[i]).0 == b[i].0 && a[i].1@ == b[i].1@,
    decreases a.len(),
{
    let fa = flat_of(a);
    if a.len() == 0 {
        if b.len() > 0 {
            assert((b[b.len() - 1]).1@.len() > 0);
            assert(flat_of(b).len() >= b.last().1@.len());
            assert(false);
        }
    } else if b.len() == 0 {
        assert((a[a.len() - 1]).1@.len() > 0);
        assert(flat_of(a).len() >= a.last().1@.len());
        assert(false);
    } else {
        let la = a.last().1@.len() as int;
        let lb = b.last().1@.len() as int;
        let pa = flat_of(a.drop_last());
        let pb = flat_of(b.drop_last());
        let amap = a.last().1@.map_values(|e: Event| (a.last().0, e));
        let bmap = b.last().1@.map_values(|e: Event| (b.last().0, e));
        assert(fa == pa + amap);
        assert(fa == pb + bmap);
        assert((a[a.len() - 1]).1@.len() > 0);
        assert((b[b.len() - 1]).1@.len() > 0);
        assert forall|j: int| 0 <= j < la implies fa[pa.len() + j] == amap[j] by {}
        assert forall|j: int| 0 <= j < lb implies fa[pb.len() + j] == bmap[j] by {}
        lemma_last_group_no_shorter(a, b, fa, pa, pb);
        lemma_last_group_no_shorter(b, a, fa, pb, pa);
        assert(la == lb);
        assert(pa.len() == pb.len());
        assert forall|j: int| 0 <= j < la implies a.last().1@[j] == b.last().1@[j] by {
            assert(fa[pa.len() + j] == amap[j]);
            assert(fa[pa.len() + j] == bmap[j]);
        }
        assert(a.last().1@ =~= b.last().1@);
        assert(a.last().0 == amap[0].0);
        assert(b.last().0 == bmap[0].0);
        assert(fa[pa.len() + 0int] == amap[0]);
        assert(fa[pb.len() + 0int] == bmap[0]);
        assert(a.last().0 == b.last().0);
        assert forall|i: int| 0 <= i < pa.len() implies pa[i] == pb[i] by {
            assert(fa[i] == pa[i]);
            assert(fa[i] == pb[i]);
        }
        assert(pa =~= pb);
        lemma_groups_wf_prefix(a);
        lemma_groups_wf_prefix(b);
        lemma_grouping_unique(a.drop_last(), b.drop_last());
        assert forall|i: int| 0 <= i < a.len() implies (#[trigger] a[i]).0 == b[i].0 && a[i].1@
            == b[i].1@ by {
            if i < a.len() - 1 {
                assert(a.drop_last()[i] == a[i]);
                assert(b.drop_last()[i] == b[i]);
            }
        }
    }
}

/// The shape survives dropping the last group.
proof fn lemma_groups_wf_prefix(a: Seq<(TransactionHash, Vec<Event>)>)
    requires
        groups_wf(a),
        a.len() > 0,
    ensures
        groups_wf(a.drop_last()),
{
    let p = a.drop_last();
    assert forall|i: int| 0 <= i < p.len() implies (#[trigger] p[i]).1@.len() > 0 by {
        assert(p[i] == a[i]);
    }
    assert forall|i: int| 0 <= i < p.len() - 1 implies (#[trigger] p[i]).0 != p[i + 1].0 by {
        assert(p[i] == a[i]);
        assert(p[i + 1] == a[i + 1]);
    }
}

/// A last group cannot be strictly shorter in `a` than in `b`: the event
/// just before `a`'s last group belongs to `a`'s second-to-last group, whose
/// hash differs from the last one's, yet it would land inside `b`'s last
/// group, whose hash is the same.
proof fn lemma_last_group_no_shorter(
    a: Seq<(TransactionHash, Vec<Event>)>,
    b: Seq<(TransactionHash, Vec<Event>)>,
    fa: Seq<(TransactionHash, Event)>,
    pa: Seq<(TransactionHash, Event)>,
    pb: Seq<(TransactionHash, Event)>,
)
    requires
        groups_wf(a),
        groups_wf(b),
        a.len() > 0,
        b.len() > 0,
        fa == flat_of(a),
        fa == flat_of(b),
        pa == flat_of(a.drop_last()),
        pb == flat_of(b.drop_last()),
    ensures
        a.last().1@.len() >= b.last().1@.len(),
{
    let la = a.last().1@.len() as int;
    let lb = b.last().1@.len() as int;
    if la < lb {
        let amap = a.last().1@.map_values(|e: Event| (a.last().0, e));
        let bmap = b.last().1@.map_values(|e: Event| (b.last().0, e));
        assert(fa == pa + amap);
        assert(fa == pb + bmap);
        assert((a[a.len() - 1]).1@.len() > 0);
        assert((b[b.len() - 1]).1@.len() > 0);
        assert(pa.len() + la == pb.len() + lb);
        assert(pa.len() >= 1);
        let a2 = a.drop_last();
        // a flattening with an element comes from at least one group
        if a2.len() == 0 {
            assert(pa.len() == 0);
        } else {
            lemma_groups_wf_prefix(a);
            assert((a2[a2.len() - 1]).1@.len() > 0);
            let a2map = a2.last().1@.map_values(|e: Event| (a2.last().0, e));
            assert(pa == flat_of(a2.drop_last()) + a2map);
            assert(pa[pa.len() - 1] == a2map[a2map.len() - 1]);
            assert(pa[pa.len() - 1].0 == a2.last().0);
            assert(fa[pa.len() - 1] == pa[pa.len() - 1]);
            // that position lies inside b's last group
            assert(pa.len() - 1 >= pb.len());
            let j = pa.len() - 1 - pb.len();
            assert(0 <= j < lb);
            assert(fa[pb.len() + j] == bmap[j]);
            assert(fa[pa.len() - 1].0 == b.last().0);
            // but the groups adjacent in a carry different hashes
            assert(a2.last() == a[a.len() - 2]);
            assert((a[a.len() - 2]).0 != (a[a.len() - 2 + 1]).0);
            // while a's last group shares b's last hash
            assert(fa[fa.len() - 1] == amap[la - 1]);
            assert(fa[fa.len() - 1] == bmap[lb - 1]);
            assert(a.last().0 == b.last().0);
        }
    }
}

/// Idempotence under peer rotation: a fresh attempt at a block is the same
/// machine state whatever failed attempts preceded it, so a peer that then
/// serves the block fully produces the artifact the block would have had
/// from that peer alone.
pub proof fn lemma_rotation_idempotent(a: EventStreamMachine, b: EventStreamMachine)
    requires
        a.wf(),
        b.wf(),
        a.is_fresh_attempt(),
        b.is_fresh_attempt(),
        a.start == b.start,
        a.stop == b.stop,
        a.progress.checkpoint() == b.progress.checkpoint(),
        (a.phase is Collecting <==> b.phase is Collecting),
    ensures
        a.start == b.start && a.stop == b.stop && a.progress == b.progress && a.events@
            == b.events@ && a.current_txn == b.current_txn && a.phase == b.phase,
{
    assert(a.events@ =~= b.events@);
}

} // verus!
