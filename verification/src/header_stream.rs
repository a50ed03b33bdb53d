//! Block header streamer.
//!
//! Headers carry no expectation sequence: one header per block is implied by
//! the range. The walk is bidirectional: forward over `[start, stop]`, or
//! backward from `stop` down to `start` when reversed. Each well-formed
//! header advances the cursor by one and is yielded immediately; the walk is
//! done when the cursor passes the far end. The cursor is signed so the
//! backward walk can step past block zero; block numbers therefore must fit
//! in a signed 64-bit integer, as the walk arithmetic requires.

use vstd::prelude::*;

use crate::ids::{PeerData, PeerId, SignedBlockHeader};
use crate::proto::{BlockHeadersRequest, BlockHeadersResponse, Decoded, Direction, Iteration};

verus! {

/// What the runtime must do after handing the machine one response.
#[derive(Debug)]
pub enum HeaderStreamAction {
    /// Send this header to the consumer, then keep consuming responses.
    Yield(PeerData<SignedBlockHeader>),
    /// Abandon this peer; the next attempt continues at the cursor.
    NextPeer,
    /// The stream is done; stop the walk.
    TerminateStream,
}

/// State machine of the header streamer. `start` is the moving cursor and
/// `stop` the far end of the walk, after the direction swap for a reversed
/// range.
pub struct HeaderStreamMachine {
    pub start: i64,
    pub stop: i64,
    pub direction: Direction,
}

impl HeaderStreamMachine {
    pub open spec fn wf(self) -> bool {
        &&& self.stop >= 0
        &&& self.stop < i64::MAX
        &&& match self.direction {
            Direction::Forward => 0 <= self.start,
            Direction::Backward => -1 <= self.start && self.start < i64::MAX,
        }
    }

    /// The cursor walked past the far end: every block was yielded.
    pub open spec fn is_done(self) -> bool {
        match self.direction {
            Direction::Forward => self.start > self.stop,
            Direction::Backward => self.start < self.stop,
        }
    }

    /// Starts a walk over the inclusive range; with `reverse` the cursor
    /// begins at `stop` and moves down to `start`.
    pub fn new(start: u64, stop: u64, reverse: bool) -> (r: HeaderStreamMachine)
        requires
            start < i64::MAX,
            stop < i64::MAX,
        ensures
            r.wf(),
            !reverse ==> r.start == start && r.stop == stop && r.direction is Forward,
            reverse ==> r.start == stop && r.stop == start && r.direction is Backward,
            start <= stop ==> !r.is_done(),
    {
        let s = start as i64;
        let t = stop as i64;
        if reverse {
            HeaderStreamMachine { start: t, stop: s, direction: Direction::Backward }
        } else {
            HeaderStreamMachine { start: s, stop: t, direction: Direction::Forward }
        }
    }

    /// The request for the remaining range, sent to each peer in turn.
    pub fn make_request(&self) -> (r: BlockHeadersRequest)
        requires
            self.wf(),
            !self.is_done(),
        ensures
            r.iteration.start == self.start,
            r.iteration.direction == self.direction,
            r.iteration.limit == (if self.start >= self.stop {
                self.start - self.stop + 1
            } else {
                self.stop - self.start + 1
            }),
            r.iteration.step == 1,
    {
        let lo = if self.start <= self.stop {
            self.start
        } else {
            self.stop
        };
        let hi = if self.start >= self.stop {
            self.start
        } else {
            self.stop
        };
        BlockHeadersRequest {
            iteration: Iteration {
                start: self.start as u64,
                direction: self.direction,
                limit: (hi - lo + 1) as u64,
                step: 1,
            },
        }
    }

    /// Decides what one response means for the walk. A well-formed header
    /// advances the cursor and is yielded at once; a header past the end of
    /// the walk, or any response after the end, terminates the stream.
    pub fn on_response(&mut self, peer: PeerId, resp: BlockHeadersResponse) -> (a:
        HeaderStreamAction)
        requires
            old(self).wf(),
        ensures
            final(self).wf(),
            final(self).stop == old(self).stop,
            final(self).direction == old(self).direction,
            ({
                let pre = *old(self);
                let post = *final(self);
                match resp {
                    BlockHeadersResponse::Header(d) => match d {
                        Decoded::Valid(hdr) => {
                            if pre.is_done() {
                                post == pre && a is TerminateStream
                            } else {
                                &&& (a matches HeaderStreamAction::Yield(pd) && pd.peer == peer
                                    && pd.data == hdr)
                                &&& post.start == (if pre.direction is Forward {
                                    pre.start + 1
                                } else {
                                    pre.start - 1
                                })
                            }
                        },
                        Decoded::Malformed => post == pre && (if pre.is_done() {
                            a is TerminateStream
                        } else {
                            a is NextPeer
                        }),
                    },
                    BlockHeadersResponse::Fin => post == pre && (if pre.is_done() {
                        a is TerminateStream
                    } else {
                        a is NextPeer
                    }),
                }
            }),
    {
        match resp {
            BlockHeadersResponse::Header(d) => match d {
                Decoded::Valid(hdr) => {
                    let done = self.is_done_exec();
                    if done {
                        HeaderStreamAction::TerminateStream
                    } else {
                        match self.direction {
                            Direction::Forward => {
                                self.start = self.start + 1;
                            },
                            Direction::Backward => {
                                self.start = self.start - 1;
                            },
                        }
                        HeaderStreamAction::Yield(PeerData::new(peer, hdr))
                    }
                },
                Decoded::Malformed => {
                    if self.is_done_exec() {
                        HeaderStreamAction::TerminateStream
                    } else {
                        HeaderStreamAction::NextPeer
                    }
                },
            },
            BlockHeadersResponse::Fin => {
                if self.is_done_exec() {
                    HeaderStreamAction::TerminateStream
                } else {
                    HeaderStreamAction::NextPeer
                }
            },
        }
    }

    /// Whether the walk is done when a peer's responses end without `Fin`.
    pub fn on_responses_end(&self) -> (terminate: bool)
        requires
            self.wf(),
        ensures
            terminate == self.is_done(),
    {
        self.is_done_exec()
    }

    fn is_done_exec(&self) -> (r: bool)
        requires
            self.wf(),
        ensures
            r == self.is_done(),
    {
        match self.direction {
            Direction::Forward => self.start > self.stop,
            Direction::Backward => self.start < self.stop,
        }
    }

    /// Consumes one peer's responses, yielding each well-formed header as it
    /// arrives. The result and the machine afterwards are exactly
    /// [`header_attempt`] of the machine before and the responses: headers
    /// come out one per cursor step, in walk order, each at most once.
    #[verifier::loop_isolation(false)]
    pub fn run_attempt(&mut self, peer: PeerId, responses: &Vec<BlockHeadersResponse>) -> (r: (
        Vec<PeerData<SignedBlockHeader>>,
        bool,
    ))
        requires
            old(self).wf(),
        ensures
            final(self).wf(),
            final(self).stop == old(self).stop,
            final(self).direction == old(self).direction,
            ({
                let f = header_attempt(*old(self), peer, responses@);
                r.0@ == f.0 && r.1 == f.1 && *final(self) == f.2
            }),
            ({
                let ys = r.0@;
                let pre = *old(self);
                let post = *final(self);
                &&& forall|i: int| 0 <= i < ys.len() ==> (#[trigger] ys[i]).peer == peer
                &&& post.start == (if pre.direction is Forward {
                    pre.start + ys.len()
                } else {
                    pre.start - ys.len()
                })
                &&& (pre.direction is Forward ==> post.start <= pre.stop + 1 || post.start
                    == pre.start)
                &&& (pre.direction is Backward ==> post.start >= pre.stop - 1 || post.start
                    == pre.start)
                &&& (r.1 == post.is_done())
            }),
    {
        let ghost pre = *old(self);
        proof {
            assert(responses@.skip(0) =~= responses@);
        }
        let mut ys: Vec<PeerData<SignedBlockHeader>> = Vec::new();
        let mut k: usize = 0;
        while k < responses.len()
            invariant
                self.wf(),
                self.stop == pre.stop,
                self.direction == pre.direction,
                k <= responses.len(),
                ({
                    let f = header_attempt(pre, peer, responses@);
                    let tail = header_attempt(*self, peer, responses@.skip(k as int));
                    f.0 == ys@ + tail.0 && f.1 == tail.1 && f.2 == tail.2
                }),
                forall|i: int| 0 <= i < ys@.len() ==> (#[trigger] ys@[i]).peer == peer,
                self.start == (if pre.direction is Forward {
                    pre.start + ys@.len()
                } else {
                    pre.start - ys@.len()
                }),
                pre.direction is Forward ==> self.start <= pre.stop + 1 || self.start
                    == pre.start,
                pre.direction is Backward ==> self.start >= pre.stop - 1 || self.start
                    == pre.start,
            decreases responses.len() - k,
        {
            proof {
                assert(responses@.skip(k as int).first() == responses@[k as int]);
                assert(responses@.skip(k as int).drop_first() =~= responses@.skip(k + 1));
            }
            let ghost empty_tail = Seq::<PeerData<SignedBlockHeader>>::empty();
            let resp = responses[k];
            match self.on_response(peer, resp) {
                HeaderStreamAction::Yield(pd) => {
                    proof {
                        let tail1 = header_attempt(*self, peer, responses@.skip(k + 1));
                        assert(pd == (PeerData { peer, data: pd.data }));
                        assert(ys@ + (seq![pd] + tail1.0) =~= ys@.push(pd) + tail1.0);
                    }
                    ys.push(pd);
                },
                HeaderStreamAction::NextPeer => {
                    proof {
                        assert(ys@ + empty_tail =~= ys@);
                    }
                    let done = self.is_done_exec();
                    return (ys, done);
                },
                HeaderStreamAction::TerminateStream => {
                    proof {
                        assert(ys@ + empty_tail =~= ys@);
                    }
                    return (ys, true);
                },
            }
            k = k + 1;
        }
        proof {
            assert(responses@.skip(responses@.len() as int) =~= Seq::<BlockHeadersResponse>::empty());
            assert(ys@ + Seq::<PeerData<SignedBlockHeader>>::empty() =~= ys@);
        }
        let done = self.is_done_exec();
        (ys, done)
    }
}

/// One peer attempt as a function of the walk state and the responses: the
/// headers yielded in walk order, whether the walk is done afterwards, and
/// the walk state after the attempt. A well-formed header before the end of
/// the walk is yielded and moves the cursor; anything else ends the attempt
/// with the state as it stands.
pub open spec fn header_attempt(
    m: HeaderStreamMachine,
    peer: PeerId,
    rs: Seq<BlockHeadersResponse>,
) -> (Seq<PeerData<SignedBlockHeader>>, bool, HeaderStreamMachine)
    decreases rs.len(),
{
    if rs.len() == 0 {
        (Seq::empty(), m.is_done(), m)
    } else {
        match rs.first() {
            BlockHeadersResponse::Header(d) => match d {
                Decoded::Valid(hdr) => {
                    if m.is_done() {
                        (Seq::empty(), true, m)
                    } else {
                        let m2 = HeaderStreamMachine {
                            start: (if m.direction is Forward {
                                m.start + 1
                            } else {
                                m.start - 1
                            }) as i64,
                            stop: m.stop,
                            direction: m.direction,
                        };
                        let rest = header_attempt(m2, peer, rs.drop_first());
                        (seq![(PeerData { peer, data: hdr })] + rest.0, rest.1, rest.2)
                    }
                },
                Decoded::Malformed => (Seq::empty(), m.is_done(), m),
            },
            BlockHeadersResponse::Fin => (Seq::empty(), m.is_done(), m),
        }
    }
}

/// A cooperative peer's responses for the walk: one well-formed header per
/// remaining block. No closing `Fin` is needed: the walk ends when the
/// cursor passes the far end.
pub open spec fn serves_headers_cooperatively(
    m: HeaderStreamMachine,
    rs: Seq<BlockHeadersResponse>,
) -> bool
    decreases rs.len(),
{
    if m.is_done() {
        true
    } else {
        &&& rs.len() > 0
        &&& (rs.first() matches BlockHeadersResponse::Header(d) && d is Valid)
        &&& serves_headers_cooperatively(
            HeaderStreamMachine {
                start: (if m.direction is Forward {
                    m.start + 1
                } else {
                    m.start - 1
                }) as i64,
                stop: m.stop,
                direction: m.direction,
            },
            rs.drop_first(),
        )
    }
}

/// Coverage: a cooperative peer serving one well-formed header per remaining
/// block finishes the walk, which yields exactly one header per block, in
/// walk order — forward from the cursor, or downward for a reversed range —
/// all attributed to that peer, and then ends.
pub proof fn lemma_cooperative_coverage(
    m: HeaderStreamMachine,
    peer: PeerId,
    rs: Seq<BlockHeadersResponse>,
)
    requires
        m.wf(),
        serves_headers_cooperatively(m, rs),
    ensures
        ({
            let f = header_attempt(m, peer, rs);
            &&& f.1
            &&& f.2.is_done()
            &&& f.0.len() == (if m.is_done() {
                0int
            } else if m.direction is Forward {
                m.stop + 1 - m.start
            } else {
                m.start + 1 - m.stop
            })
            &&& forall|i: int| 0 <= i < f.0.len() ==> (#[trigger] f.0[i]).peer == peer
        }),
    decreases rs.len(),
{
    reveal_with_fuel(serves_headers_cooperatively, 2);
    let f = header_attempt(m, peer, rs);
    if m.is_done() {
        if rs.len() > 0 {
        }
    } else {
        if let BlockHeadersResponse::Header(d) = rs.first() {
            if let Decoded::Valid(hdr) = d {
                let m2 = HeaderStreamMachine {
                    start: (if m.direction is Forward {
                        m.start + 1
                    } else {
                        m.start - 1
                    }) as i64,
                    stop: m.stop,
                    direction: m.direction,
                };
                lemma_cooperative_coverage(m2, peer, rs.drop_first());
                let rest = header_attempt(m2, peer, rs.drop_first());
                assert(f.0 == seq![(PeerData { peer, data: hdr })] + rest.0);
                assert forall|i: int| 0 <= i < f.0.len() implies (#[trigger] f.0[i]).peer
                    == peer by {
                    if i > 0 {
                        assert(f.0[i] == rest.0[i - 1]);
                    }
                }
            }
        }
    }
}

} // verus!
