//! Peer-set provider logic.
//!
//! The provider keeps a time-decayed cache of the known peer set. A fresh
//! cache answers with a shuffled copy; a stale one is refreshed from the
//! transport's closest-peers query, with this node's own id removed before
//! the set is installed. The surrounding runtime serializes refreshes behind
//! a write lock and re-checks freshness after acquiring it, so at most one
//! query fires per cache lifetime; the decisions either side of the lock are
//! taken here.

use vstd::prelude::*;

use rand::seq::SliceRandom;

use crate::decaying::Decaying;
use crate::ids::PeerId;

verus! {

/// The peer list without every occurrence of `target`.
pub open spec fn without_peer(peers: Seq<PeerId>, target: PeerId) -> Seq<PeerId> {
    peers.filter(|p: PeerId| p != target)
}

/// Relies on rand's `SliceRandom::shuffle`: an in-place Fisher-Yates walk of
/// element swaps, so the list afterwards holds exactly the elements it held
/// before, in an order drawn from the thread's generator.
#[verifier::external_body]
fn shuffle_peers(peers: &mut Vec<PeerId>)
    ensures
        final(peers)@.to_multiset() == old(peers)@.to_multiset(),
{
    peers.shuffle(&mut rand::thread_rng());
}

fn copy_peers(src: &Vec<PeerId>) -> (r: Vec<PeerId>)
    ensures
        r@ == src@,
{
    let mut r: Vec<PeerId> = Vec::new();
    let mut i: usize = 0;
    while i < src.len()
        invariant
            i <= src.len(),
            r@ == src@.subrange(0, i as int),
        decreases src.len() - i,
    {
        r.push(src[i]);
        proof {
            assert(r@ =~= src@.subrange(0, i + 1));
        }
        i = i + 1;
    }
    proof {
        assert(src@.subrange(0, src@.len() as int) =~= src@);
    }
    r
}

/// Answers from the cache: a fresh cache yields a shuffled copy of the
/// cached set, a stale one yields nothing and the caller must refresh.
pub fn cached_peers(cache: &Decaying<Vec<PeerId>>, now: u64) -> (r: Option<Vec<PeerId>>)
    ensures
        r is Some <==> cache.is_fresh(now),
        r matches Some(v) ==> v@.to_multiset() == cache.data@.to_multiset(),
{
    match cache.get(now) {
        Some(peers) => {
            let mut copy = copy_peers(peers);
            shuffle_peers(&mut copy);
            Some(copy)
        },
        None => None,
    }
}

/// Installs a refreshed peer set: the peers the transport found closest to a
/// random target, with this node's own id removed, stamped at `now`; returns
/// a shuffled copy of the installed set.
pub fn install_refreshed(
    cache: &mut Decaying<Vec<PeerId>>,
    closest: Vec<PeerId>,
    self_id: PeerId,
    now: u64,
) -> (r: Vec<PeerId>)
    ensures
        final(cache).data@ == without_peer(closest@, self_id),
        final(cache).last_update == now,
        final(cache).timeout == old(cache).timeout,
        final(cache).is_fresh(now),
        r@.to_multiset() == without_peer(closest@, self_id).to_multiset(),
{
    let mut kept: Vec<PeerId> = Vec::new();
    let mut i: usize = 0;
    while i < closest.len()
        invariant
            i <= closest.len(),
            kept@ == without_peer(closest@.subrange(0, i as int), self_id),
        decreases closest.len() - i,
    {
        let ghost prefix = closest@.subrange(0, i as int);
        let p = closest[i];
        if !(p == self_id) {
            kept.push(p);
        }
        proof {
            assert(closest@.subrange(0, i + 1).drop_last() =~= prefix);
            assert(closest@.subrange(0, i + 1).last() == closest@[i as int]);
            reveal_with_fuel(Seq::filter, 2);
        }
        i = i + 1;
    }
    proof {
        assert(closest@.subrange(0, closest@.len() as int) =~= closest@);
    }
    let mut out = copy_peers(&kept);
    shuffle_peers(&mut out);
    cache.update(kept, now);
    out
}

} // verus!
