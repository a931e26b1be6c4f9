use vstd::prelude::*;
use dashmap::DashMap;
use crate::handler::PeerState;
use crate::peer::PeerAddr;
use crate::swarm::{with_reserved, TorrentDownloadedState};

verus! {

#[verifier::external_type_specification]
#[verifier::external_body]
#[verifier::reject_recursive_types(K)]
#[verifier::reject_recursive_types(V)]
#[verifier::reject_recursive_types(S)]
pub struct ExDashMap<K, V, S>(DashMap<K, V, S>);

/// The peers that a peer map holds as keys.
pub uninterp spec fn tracked_peers(m: DashMap<PeerAddr, PeerState>) -> Set<PeerAddr>;

/// Relies on `DashMap::new`: a map with no entry.
#[verifier::external_body]
fn map_new() -> (r: DashMap<PeerAddr, PeerState>)
    ensures
        tracked_peers(r) == Set::<PeerAddr>::empty(),
{
    DashMap::new()
}

/// Relies on `DashMap::contains_key`: whether the map holds the key.
#[verifier::external_body]
fn map_contains(m: &DashMap<PeerAddr, PeerState>, peer: &PeerAddr) -> (r: bool)
    ensures
        r == tracked_peers(*m).contains(*peer),
{
    m.contains_key(peer)
}

/// Relies on `DashMap::insert`: afterwards the map holds the key, and no other key changes.
#[verifier::external_body]
fn map_insert(m: &mut DashMap<PeerAddr, PeerState>, peer: PeerAddr, state: PeerState)
    ensures
        tracked_peers(*final(m)) == tracked_peers(*old(m)).insert(peer),
{
    m.insert(peer, state);
}

/// Relies on `DashMap::remove`: afterwards the map lacks the key, and no other key changes.
#[verifier::external_body]
fn map_remove(m: &mut DashMap<PeerAddr, PeerState>, peer: &PeerAddr)
    ensures
        tracked_peers(*final(m)) == tracked_peers(*old(m)).remove(*peer),
{
    m.remove(peer);
}

/// Seconds to wait before the next announce when a tracker gave no answer.
pub const ANNOUNCE_BACKOFF_SECS: u64 = 30;

/// What a tracker answered: the peers it knows and the seconds to wait before
/// announcing again.
pub struct TrackerAnswer {
    pub peers: Vec<PeerAddr>,
    pub interval: u64,
}

/// The peers of `found` that are not in `known`, in order, each once.
pub open spec fn fresh_peers(known: Set<PeerAddr>, found: Seq<PeerAddr>) -> Seq<PeerAddr>
    decreases found.len(),
{
    if found.len() == 0 {
        Seq::empty()
    } else {
        let r = fresh_peers(known, found.drop_last());
        let p = found.last();
        if known.contains(p) || r.contains(p) {
            r
        } else {
            r.push(p)
        }
    }
}

/// The peers this client has a task for, with what is known of each.
pub struct PeerStates {
    pub states: DashMap<PeerAddr, PeerState>,
}

impl PeerStates {
    /// The peers held.
    pub open spec fn peers(&self) -> Set<PeerAddr> {
        tracked_peers(self.states)
    }

    pub fn new() -> (r: PeerStates)
        ensures
            r.peers() == Set::<PeerAddr>::empty(),
    {
        PeerStates { states: map_new() }
    }

    /// Whether `peer` is held.
    pub fn contains(&self, peer: &PeerAddr) -> (r: bool)
        ensures
            r == self.peers().contains(*peer),
    {
        map_contains(&self.states, peer)
    }

    /// Adds `peer` with a fresh state unless it is held already; says whether it was added.
    pub fn add_if_not_seen(&mut self, peer: PeerAddr) -> (r: bool)
        ensures
            r == !old(self).peers().contains(peer),
            final(self).peers() == old(self).peers().insert(peer),
    {
        if map_contains(&self.states, &peer) {
            assert(old(self).peers().insert(peer) =~= old(self).peers());
            return false;
        }
        map_insert(&mut self.states, peer, PeerState::default());
        true
    }

    /// Takes in a tracker's answer, or its absence: the peers to start a task for
    /// are those not held yet, in the answer's order and each once, and they are
    /// held from now on. The wait before the next announce is the tracker's
    /// interval, or the back-off when there was no answer.
    pub fn on_announce(&mut self, answer: Option<TrackerAnswer>) -> (r: (Vec<PeerAddr>, u64))
        ensures
            answer is None ==> r.0@.len() == 0 && r.1 == ANNOUNCE_BACKOFF_SECS && final(self).peers()
                == old(self).peers(),
            answer matches Some(a) ==> {
                &&& r.0@ == fresh_peers(old(self).peers(), a.peers@)
                &&& r.0@.no_duplicates()
                &&& forall|k: int| 0 <= k < r.0@.len() ==> !old(self).peers().contains(#[trigger] r.0@[k])
                &&& final(self).peers() == old(self).peers().union(r.0@.to_set())
                &&& r.1 == a.interval
            },
    {
        match answer {
            None => (Vec::new(), ANNOUNCE_BACKOFF_SECS),
            Some(a) => {
                let ghost known = self.peers();
                let mut out: Vec<PeerAddr> = Vec::new();
                let mut i: usize = 0;
                while i < a.peers.len()
                    invariant
                        i <= a.peers@.len(),
                        out@ == fresh_peers(known, a.peers@.subrange(0, i as int)),
                        out@.no_duplicates(),
                        forall|k: int| 0 <= k < out@.len() ==> !known.contains(#[trigger] out@[k]),
                        self.peers() == known.union(out@.to_set()),
                    decreases a.peers@.len() - i,
                {
                    let p = a.peers[i];
                    assert(a.peers@.subrange(0, i + 1).drop_last() =~= a.peers@.subrange(0, i as int));
                    if !self.contains(&p) {
                        map_insert(&mut self.states, p, PeerState::default());
                        proof {
                            assert(!out@.contains(p));
                        }
                        let ghost prev = out@;
                        out.push(p);
                        proof {
                            assert forall|x: PeerAddr| out@.contains(x) <==> (prev.contains(x) || x == p) by {
                                if out@.contains(x) {
                                    let k = choose|k: int| 0 <= k < out@.len() && out@[k] == x;
                                    if k < prev.len() {
                                        assert(prev[k] == x);
                                    }
                                }
                                if prev.contains(x) {
                                    let k = choose|k: int| 0 <= k < prev.len() && prev[k] == x;
                                    assert(out@[k] == x);
                                }
                                if x == p {
                                    assert(out@[prev.len() as int] == x);
                                }
                            }
                            assert(out@.to_set() =~= prev.to_set().insert(p));
                        }
                        assert(self.peers() =~= known.union(out@.to_set()));
                    } else {
                        assert(known.contains(p) || out@.contains(p));
                    }
                    i = i + 1;
                }
                assert(a.peers@.subrange(0, i as int) =~= a.peers@);
                (out, a.interval)
            },
        }
    }

    /// Forgets a peer whose task ended, and releases the pieces it had reserved.
    pub fn on_peer_died(&mut self, table: &mut TorrentDownloadedState, peer: PeerAddr)
        requires
            old(table).wf(),
        ensures
            final(self).peers() == old(self).peers().remove(peer),
            final(table).wf(),
            final(table).pieces@.len() == old(table).pieces@.len(),
            forall|i: int|
                0 <= i < old(table).pieces@.len() ==> #[trigger] final(table).pieces@[i] == with_reserved(
                    old(table).pieces@[i],
                    if old(table).pieces@[i].reserved == Some(peer) {
                        None
                    } else {
                        old(table).pieces@[i].reserved
                    },
                ),
    {
        map_remove(&mut self.states, &peer);
        table.remove_reserved(peer);
    }
}

} // verus!
