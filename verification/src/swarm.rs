//! One swarm: the peers that currently share a torrent, and the counters
//! derived from them.

use vstd::prelude::*;
use crate::primitives::{AnnounceEvent, PeerId, SocketAddress};

verus! {

/// A member of a swarm, as of its last announce.
#[derive(Clone, Copy, Debug)]
pub struct Peer {
    pub peer_id: PeerId,
    pub peer_addr: SocketAddress,
    /// Seconds on the tracker's clock at which the peer last announced.
    pub updated_at: u64,
    pub uploaded: u64,
    pub downloaded: u64,
    pub left: u64,
    pub event: AnnounceEvent,
}

impl Peer {
    pub open spec fn spec_is_seeder(&self) -> bool {
        self.left == 0
    }

    /// A peer that has nothing left to download is a seeder.
    #[verifier::when_used_as_spec(spec_is_seeder)]
    pub fn is_seeder(&self) -> (r: bool)
        ensures
            r == self.spec_is_seeder(),
    {
        self.left == 0
    }

    /// Whether the peer has been silent for longer than `threshold` at `now`.
    pub open spec fn spec_is_inactive(&self, now: u64, threshold: u64) -> bool {
        now > self.updated_at && now - self.updated_at > threshold
    }

    #[verifier::when_used_as_spec(spec_is_inactive)]
    pub fn is_inactive(&self, now: u64, threshold: u64) -> (r: bool)
        ensures
            r == self.spec_is_inactive(now, threshold),
    {
        now > self.updated_at && now - self.updated_at > threshold
    }
}

/// The three counters that describe a swarm to the outside.
#[derive(Clone, Copy, Debug, PartialEq, Eq, Structural)]
pub struct TorrentStats {
    pub seeders: u64,
    pub leechers: u64,
    pub completed: u64,
}

/// The members of `s` that `keep` accepts, in their order in `s`.
pub open spec fn retain(s: Seq<Peer>, keep: spec_fn(Peer) -> bool) -> Seq<Peer>
    decreases s.len(),
{
    if s.len() == 0 {
        Seq::empty()
    } else if keep(s.last()) {
        retain(s.drop_last(), keep).push(s.last())
    } else {
        retain(s.drop_last(), keep)
    }
}

pub open spec fn seeding() -> spec_fn(Peer) -> bool {
    |p: Peer| p.left == 0
}

pub open spec fn leeching() -> spec_fn(Peer) -> bool {
    |p: Peer| p.left != 0
}

pub open spec fn away_from(requester: SocketAddress) -> spec_fn(Peer) -> bool {
    |p: Peer| p.peer_addr != requester
}

pub open spec fn active_at(now: u64, threshold: u64) -> spec_fn(Peer) -> bool {
    |p: Peer| !p.spec_is_inactive(now, threshold)
}

pub open spec fn count_seeders(s: Seq<Peer>) -> nat {
    retain(s, seeding()).len()
}

pub open spec fn count_leechers(s: Seq<Peer>) -> nat {
    retain(s, leeching()).len()
}

/// No two members of `s` carry the same peer id.
pub open spec fn unique_ids(s: Seq<Peer>) -> bool {
    forall|i: int, j: int| 0 <= i < j < s.len() ==> (#[trigger] s[i]).peer_id != (#[trigger] s[j]).peer_id
}

/// No member of `s` is recorded as stopped.
pub open spec fn none_stopped(s: Seq<Peer>) -> bool {
    forall|i: int| 0 <= i < s.len() ==> (#[trigger] s[i]).event != AnnounceEvent::Stopped
}

pub open spec fn has_id(s: Seq<Peer>, id: PeerId) -> bool {
    exists|i: int| 0 <= i < s.len() && (#[trigger] s[i]).peer_id == id
}

/// Where the peer with `id` stands in `s`; meaningful when `has_id(s, id)`.
pub open spec fn position(s: Seq<Peer>, id: PeerId) -> int {
    choose|i: int| 0 <= i < s.len() && (#[trigger] s[i]).peer_id == id
}

/// The record that is kept for `p`: its own, with a time of last announce that
/// never runs backwards against the record `prev` that it replaces.
pub open spec fn refreshed(prev: Option<Peer>, p: Peer) -> Peer {
    match prev {
        Some(q) if q.updated_at > p.updated_at => Peer { updated_at: q.updated_at, ..p },
        _ => p,
    }
}

/// The members of a swarm after `p` has announced to it.
pub open spec fn upserted(s: Seq<Peer>, p: Peer) -> Seq<Peer> {
    if has_id(s, p.peer_id) {
        let at = position(s, p.peer_id);
        if p.event == AnnounceEvent::Stopped {
            s.remove(at)
        } else {
            s.update(at, refreshed(Some(s[at]), p))
        }
    } else if p.event == AnnounceEvent::Stopped {
        s
    } else {
        s.push(p)
    }
}

/// Whether the announce `p` counts as a new completion in a swarm with members `s`:
/// it reports completion, and the swarm does not already hold that peer as completed.
pub open spec fn counts_as_completion(s: Seq<Peer>, p: Peer) -> bool {
    p.event == AnnounceEvent::Completed && !(has_id(s, p.peer_id) && s[position(s, p.peer_id)].event
        == AnnounceEvent::Completed)
}

/// The completion counter after `p` has announced; it stops at the largest value.
pub open spec fn completed_after(s: Seq<Peer>, completed: u64, p: Peer) -> u64 {
    if counts_as_completion(s, p) && completed < u64::MAX {
        (completed + 1) as u64
    } else {
        completed
    }
}

/// `s`, read from position `off` on and around its end.
pub open spec fn rotated(s: Seq<Peer>, off: int) -> Seq<Peer> {
    s.subrange(off, s.len() as int) + s.subrange(0, off)
}

/// The position at which a request with `seed` starts to read a swarm of `len` peers.
pub open spec fn start_offset(len: nat, seed: u64) -> int {
    if len == 0 {
        0
    } else {
        seed as int % len as int
    }
}

/// The peers handed to `requester`: the first `limit` of the swarm, read from the
/// offset that `seed` gives, that do not sit at the requester's own address.
pub open spec fn selected(s: Seq<Peer>, requester: SocketAddress, limit: nat, seed: u64) -> Seq<Peer> {
    let e = retain(rotated(s, start_offset(s.len(), seed)), away_from(requester));
    if e.len() <= limit {
        e
    } else {
        e.subrange(0, limit as int)
    }
}

/// What `retain` keeps of a prefix is a prefix of what it keeps of the whole.
pub proof fn lemma_retain_prefix(s: Seq<Peer>, k: int, keep: spec_fn(Peer) -> bool)
    requires
        0 <= k <= s.len(),
    ensures
        retain(s.subrange(0, k), keep).len() <= retain(s, keep).len(),
        retain(s, keep).subrange(0, retain(s.subrange(0, k), keep).len() as int) == retain(
            s.subrange(0, k),
            keep,
        ),
    decreases s.len(),
{
    if k == s.len() {
        assert(s.subrange(0, k) =~= s);
        assert(retain(s, keep).subrange(0, retain(s, keep).len() as int) =~= retain(s, keep));
    } else {
        lemma_retain_prefix(s.drop_last(), k, keep);
        assert(s.drop_last().subrange(0, k) =~= s.subrange(0, k));
        let a = retain(s.subrange(0, k), keep);
        assert(retain(s, keep).subrange(0, a.len() as int) =~= retain(s.drop_last(), keep).subrange(
            0,
            a.len() as int,
        ));
    }
}

/// Every peer that `retain` keeps is a member of `s` that `keep` accepts, no
/// accepted member is lost, and distinct ids stay distinct.
pub proof fn lemma_retain_members(s: Seq<Peer>, keep: spec_fn(Peer) -> bool)
    ensures
        retain(s, keep).len() <= s.len(),
        forall|k: int|
            0 <= k < retain(s, keep).len() ==> keep(#[trigger] retain(s, keep)[k]) && s.contains(
                retain(s, keep)[k],
            ),
        forall|i: int| 0 <= i < s.len() && keep(#[trigger] s[i]) ==> retain(s, keep).contains(s[i]),
        unique_ids(s) ==> unique_ids(retain(s, keep)),
        none_stopped(s) ==> none_stopped(retain(s, keep)),
    decreases s.len(),
{
    let r = retain(s, keep);
    if s.len() > 0 {
        let t = s.drop_last();
        let rt = retain(t, keep);
        lemma_retain_members(t, keep);
        assert forall|k: int| 0 <= k < r.len() implies keep(#[trigger] r[k]) && s.contains(r[k]) by {
            if k < rt.len() {
                assert(r[k] == rt[k]);
                let i = choose|i: int| 0 <= i < t.len() && t[i] == rt[k];
                assert(s[i] == r[k]);
            } else {
                assert(r[k] == s[s.len() - 1]);
            }
        }
        assert forall|i: int| 0 <= i < s.len() && keep(#[trigger] s[i]) implies r.contains(s[i]) by {
            if i < t.len() {
                assert(t[i] == s[i]);
                let k = choose|k: int| 0 <= k < rt.len() && rt[k] == t[i];
                assert(r[k] == s[i]);
            } else {
                assert(r[r.len() - 1] == s[i]);
            }
        }
        if unique_ids(s) {
            assert(unique_ids(t)) by {
                assert forall|i: int, j: int| 0 <= i < j < t.len() implies (#[trigger] t[i]).peer_id
                    != (#[trigger] t[j]).peer_id by {
                    assert(t[i] == s[i] && t[j] == s[j]);
                }
            }
            assert forall|i: int, j: int| 0 <= i < j < r.len() implies (#[trigger] r[i]).peer_id
                != (#[trigger] r[j]).peer_id by {
                if j < rt.len() {
                    assert(r[i] == rt[i] && r[j] == rt[j]);
                } else {
                    assert(r[i] == rt[i]);
                    let a = choose|a: int| 0 <= a < t.len() && t[a] == rt[i];
                    assert(s[a] == rt[i]);
                    assert(r[j] == s[s.len() - 1]);
                }
            }
        }
        if none_stopped(s) {
            assert forall|k: int| 0 <= k < r.len() implies (#[trigger] r[k]).event
                != AnnounceEvent::Stopped by {
                let i = choose|i: int| 0 <= i < s.len() && s[i] == r[k];
                assert(s[i].event != AnnounceEvent::Stopped);
            }
        }
    }
}

/// Every member of a swarm is either a seeder or a leecher, never both.
pub proof fn lemma_seeders_and_leechers_partition(s: Seq<Peer>)
    ensures
        count_seeders(s) + count_leechers(s) == s.len(),
    decreases s.len(),
{
    if s.len() > 0 {
        lemma_seeders_and_leechers_partition(s.drop_last());
    }
}

/// Rotating a swarm neither adds nor loses a member.
pub proof fn lemma_rotated_members(s: Seq<Peer>, off: int)
    requires
        0 <= off <= s.len(),
    ensures
        rotated(s, off).len() == s.len(),
        forall|k: int| 0 <= k < s.len() ==> s.contains(#[trigger] rotated(s, off)[k]),
        forall|k: int|
            0 <= k < s.len() ==> #[trigger] rotated(s, off)[k] == s[if k < s.len() - off {
                off + k
            } else {
                k - (s.len() - off)
            }],
        unique_ids(s) ==> unique_ids(rotated(s, off)),
{
    let r = rotated(s, off);
    let idx = |k: int| if k < s.len() - off { off + k } else { k - (s.len() - off) };
    assert forall|k: int| 0 <= k < s.len() implies s.contains(#[trigger] r[k]) && r[k] == s[idx(k)] by {
        assert(r[k] == s[idx(k)]);
    }
    if unique_ids(s) {
        assert forall|i: int, j: int| 0 <= i < j < r.len() implies (#[trigger] r[i]).peer_id != (
        #[trigger] r[j]).peer_id by {
            assert(r[i] == s[idx(i)] && r[j] == s[idx(j)]);
            assert(idx(i) != idx(j));
            if idx(i) < idx(j) {
                assert(s[idx(i)].peer_id != s[idx(j)].peer_id);
            } else {
                assert(s[idx(j)].peer_id != s[idx(i)].peer_id);
            }
        }
    }
}

/// What is handed to a requester: at most `limit` members of the swarm, none of
/// them at the requester's own address, none of them twice.
pub proof fn lemma_selected_properties(s: Seq<Peer>, requester: SocketAddress, limit: nat, seed: u64)
    ensures
        selected(s, requester, limit, seed).len() <= limit,
        selected(s, requester, limit, seed).len() <= s.len(),
        forall|k: int|
            0 <= k < selected(s, requester, limit, seed).len() ==> (#[trigger] selected(
                s,
                requester,
                limit,
                seed,
            )[k]).peer_addr != requester,
        forall|k: int|
            0 <= k < selected(s, requester, limit, seed).len() ==> s.contains(
                #[trigger] selected(s, requester, limit, seed)[k],
            ),
        unique_ids(s) ==> unique_ids(selected(s, requester, limit, seed)),
{
    let off = start_offset(s.len(), seed);
    assert(0 <= off <= s.len()) by {
        if s.len() > 0 {
            assert(0 <= (seed as int) % (s.len() as int) < s.len()) by (nonlinear_arith)
                requires
                    s.len() > 0,
                    seed >= 0,
            ;
        }
    }
    let rot = rotated(s, off);
    let e = retain(rot, away_from(requester));
    let sel = selected(s, requester, limit, seed);
    lemma_rotated_members(s, off);
    lemma_retain_members(rot, away_from(requester));
    assert forall|k: int| 0 <= k < sel.len() implies (#[trigger] sel[k]).peer_addr != requester
        && s.contains(sel[k]) by {
        assert(sel[k] == e[k]);
        assert(away_from(requester)(e[k]));
        let i = choose|i: int| 0 <= i < rot.len() && rot[i] == e[k];
        assert(s.contains(rot[i]));
    }
    if unique_ids(s) {
        assert forall|i: int, j: int| 0 <= i < j < sel.len() implies (#[trigger] sel[i]).peer_id != (
        #[trigger] sel[j]).peer_id by {
            assert(sel[i] == e[i] && sel[j] == e[j]);
        }
    }
}

/// What `upsert` leaves of a well-formed swarm: ids stay distinct, nobody is
/// recorded as stopped, and the announcing peer is a member exactly when it did
/// not announce that it stopped.
pub proof fn lemma_upserted_properties(s: Seq<Peer>, p: Peer)
    requires
        unique_ids(s),
        none_stopped(s),
    ensures
        unique_ids(upserted(s, p)),
        none_stopped(upserted(s, p)),
        has_id(upserted(s, p), p.peer_id) == (p.event != AnnounceEvent::Stopped),
        forall|id: PeerId| id != p.peer_id ==> has_id(upserted(s, p), id) == has_id(s, id),
        has_id(s, p.peer_id) && p.event != AnnounceEvent::Stopped ==> upserted(s, p).len() == s.len(),
{
    let t = upserted(s, p);
    if has_id(s, p.peer_id) {
        let at = position(s, p.peer_id);
        if p.event == AnnounceEvent::Stopped {
            assert forall|i: int, j: int| 0 <= i < j < t.len() implies (#[trigger] t[i]).peer_id != (
            #[trigger] t[j]).peer_id by {
                let a = if i < at { i } else { i + 1 };
                let b = if j < at { j } else { j + 1 };
                assert(t[i] == s[a] && t[j] == s[b]);
            }
            assert forall|i: int| 0 <= i < t.len() implies (#[trigger] t[i]).event
                != AnnounceEvent::Stopped by {
                let a = if i < at { i } else { i + 1 };
                assert(t[i] == s[a]);
            }
            if has_id(t, p.peer_id) {
                let i = choose|i: int| 0 <= i < t.len() && (#[trigger] t[i]).peer_id == p.peer_id;
                let a = if i < at { i } else { i + 1 };
                assert(t[i] == s[a]);
                if a < at {
                    assert(s[a].peer_id != s[at].peer_id);
                } else {
                    assert(s[at].peer_id != s[a].peer_id);
                }
            }
            assert forall|id: PeerId| id != p.peer_id implies has_id(t, id) == has_id(s, id) by {
                if has_id(s, id) {
                    let a = choose|a: int| 0 <= a < s.len() && (#[trigger] s[a]).peer_id == id;
                    let i = if a < at { a } else { a - 1 };
                    assert(t[i] == s[a]);
                }
                if has_id(t, id) {
                    let i = choose|i: int| 0 <= i < t.len() && (#[trigger] t[i]).peer_id == id;
                    let a = if i < at { i } else { i + 1 };
                    assert(t[i] == s[a]);
                }
            }
        } else {
            assert forall|i: int, j: int| 0 <= i < j < t.len() implies (#[trigger] t[i]).peer_id != (
            #[trigger] t[j]).peer_id by {
                assert(t[i].peer_id == s[i].peer_id && t[j].peer_id == s[j].peer_id);
            }
            assert forall|i: int| 0 <= i < t.len() implies (#[trigger] t[i]).event
                != AnnounceEvent::Stopped by {
                if i != at {
                    assert(t[i] == s[i]);
                }
            }
            assert(t[at].peer_id == p.peer_id);
            assert forall|id: PeerId| id != p.peer_id implies has_id(t, id) == has_id(s, id) by {
                if has_id(s, id) {
                    let a = choose|a: int| 0 <= a < s.len() && (#[trigger] s[a]).peer_id == id;
                    assert(t[a].peer_id == id);
                }
                if has_id(t, id) {
                    let i = choose|i: int| 0 <= i < t.len() && (#[trigger] t[i]).peer_id == id;
                    assert(s[i].peer_id == id);
                }
            }
        }
    } else if p.event != AnnounceEvent::Stopped {
        assert forall|i: int, j: int| 0 <= i < j < t.len() implies (#[trigger] t[i]).peer_id != (
        #[trigger] t[j]).peer_id by {
            if j < s.len() {
                assert(t[i] == s[i] && t[j] == s[j]);
            } else {
                assert(t[i] == s[i]);
            }
        }
        assert forall|i: int| 0 <= i < t.len() implies (#[trigger] t[i]).event
            != AnnounceEvent::Stopped by {
            if i < s.len() {
                assert(t[i] == s[i]);
            }
        }
        assert(t[t.len() - 1].peer_id == p.peer_id);
        assert forall|id: PeerId| id != p.peer_id implies has_id(t, id) == has_id(s, id) by {
            if has_id(s, id) {
                let a = choose|a: int| 0 <= a < s.len() && (#[trigger] s[a]).peer_id == id;
                assert(t[a].peer_id == id);
            }
            if has_id(t, id) {
                let i = choose|i: int| 0 <= i < t.len() && (#[trigger] t[i]).peer_id == id;
                assert(s[i].peer_id == id);
            }
        }
    }
}

} // verus!

verus! {

/// What a swarm is, mathematically: its members in the order in which they
/// joined, and how many completions were ever counted.
pub struct SwarmModel {
    pub peers: Seq<Peer>,
    pub completed: u64,
}

/// The swarm of one torrent.
#[derive(Debug)]
pub struct SwarmEntry {
    peers: Vec<Peer>,
    completed: u64,
}

impl View for SwarmEntry {
    type V = SwarmModel;

    closed spec fn view(&self) -> SwarmModel {
        SwarmModel { peers: self.peers@, completed: self.completed }
    }
}

impl SwarmEntry {
    /// Peer ids are unique within the swarm, and a peer that stopped is gone.
    pub open spec fn wf(&self) -> bool {
        unique_ids(self@.peers) && none_stopped(self@.peers)
    }

    /// A swarm without members, with `completed` completions on record.
    pub fn new(completed: u64) -> (r: SwarmEntry)
        ensures
            r.wf(),
            r@.peers == Seq::<Peer>::empty(),
            r@.completed == completed,
    {
        SwarmEntry { peers: Vec::new(), completed }
    }

    /// Where the peer with `id` stands among the members, if it is one.
    fn find(&self, id: &PeerId) -> (r: Option<usize>)
        requires
            self.wf(),
        ensures
            r.is_some() == has_id(self@.peers, *id),
            r.is_some() ==> r.unwrap() == position(self@.peers, *id) && r.unwrap() < self@.peers.len(),
    {
        let mut i: usize = 0;
        while i < self.peers.len()
            invariant
                i <= self.peers@.len(),
                self.wf(),
                forall|j: int| 0 <= j < i ==> (#[trigger] self.peers@[j]).peer_id != *id,
            decreases self.peers@.len() - i,
        {
            if self.peers[i].peer_id.same(id) {
                proof {
                    let s = self.peers@;
                    assert(s[i as int].peer_id == *id);
                    let at = position(s, *id);
                    if at < i {
                        assert(s[at].peer_id != s[i as int].peer_id);
                    } else if at > i {
                        assert(s[i as int].peer_id != s[at].peer_id);
                    }
                }
                return Some(i);
            }
            i += 1;
        }
        None
    }

    /// Records the announce of `peer` and reports `(seeders, leechers, completed_delta)`.
    ///
    /// A peer that announces `Stopped` leaves the swarm. Any other announce puts
    /// the peer in, in place of an earlier record under the same peer id. An
    /// announce of `Completed` is counted once per peer: not again while the swarm
    /// holds that peer as completed.
    pub fn upsert(&mut self, peer: Peer) -> (r: (u64, u64, u64))
        requires
            old(self).wf(),
        ensures
            final(self).wf(),
            final(self)@.peers == upserted(old(self)@.peers, peer),
            final(self)@.completed == completed_after(old(self)@.peers, old(self)@.completed, peer),
            r.0 == count_seeders(final(self)@.peers),
            r.1 == count_leechers(final(self)@.peers),
            r.2 == final(self)@.completed - old(self)@.completed,
            final(self)@.completed >= old(self)@.completed,
    {
        proof {
            lemma_upserted_properties(self.peers@, peer);
        }
        let before = self.completed;
        let found = self.find(&peer.peer_id);
        let stopped = match peer.event {
            AnnounceEvent::Stopped => true,
            _ => false,
        };
        let completes = match peer.event {
            AnnounceEvent::Completed => true,
            _ => false,
        };
        match found {
            Some(at) => {
                let prev = self.peers[at];
                let was_completed = match prev.event {
                    AnnounceEvent::Completed => true,
                    _ => false,
                };
                if completes && !was_completed && self.completed < u64::MAX {
                    self.completed = self.completed + 1;
                }
                if stopped {
                    self.peers.remove(at);
                } else {
                    let mut kept = peer;
                    if prev.updated_at > peer.updated_at {
                        kept.updated_at = prev.updated_at;
                    }
                    assert(kept == refreshed(Some(prev), peer));
                    self.peers.set(at, kept);
                }
            },
            None => {
                if completes && self.completed < u64::MAX {
                    self.completed = self.completed + 1;
                }
                if !stopped {
                    self.peers.push(peer);
                }
            },
        }
        let stats = self.stats();
        (stats.seeders, stats.leechers, self.completed - before)
    }

    /// The members to hand to the peer at `requester`: at most `limit`, none at
    /// the requester's own address, read from the offset that `seed` selects.
    pub fn peers_for(&self, requester: &SocketAddress, limit: usize, seed: u64) -> (r: Vec<Peer>)
        ensures
            r@ == selected(self@.peers, *requester, limit as nat, seed),
    {
        let len = self.peers.len();
        let mut out: Vec<Peer> = Vec::new();
        if len == 0 {
            assert(rotated(self.peers@, 0) =~= self.peers@);
            return out;
        }
        let off: usize = (seed % (len as u64)) as usize;
        let ghost rot = rotated(self.peers@, off as int);
        let ghost keep = away_from(*requester);
        proof {
            lemma_rotated_members(self.peers@, off as int);
            assert(rot.subrange(0, 0) =~= Seq::<Peer>::empty());
        }
        let mut k: usize = 0;
        while k < len && out.len() < limit
            invariant
                k <= len,
                len == self.peers@.len(),
                off < len,
                rot == rotated(self.peers@, off as int),
                rot.len() == len,
                keep == away_from(*requester),
                forall|j: int|
                    0 <= j < len ==> #[trigger] rot[j] == self.peers@[if j < len - off {
                        off + j
                    } else {
                        j - (len - off)
                    }],
                out@ == retain(rot.subrange(0, k as int), keep),
                out@.len() <= limit,
            decreases len - k,
        {
            let idx: usize = if k < len - off {
                off + k
            } else {
                k - (len - off)
            };
            let p = self.peers[idx];
            proof {
                assert(rot[k as int] == p);
                assert(rot.subrange(0, k + 1).drop_last() =~= rot.subrange(0, k as int));
                assert(rot.subrange(0, k + 1).last() == p);
            }
            if !p.peer_addr.same(requester) {
                out.push(p);
            }
            k += 1;
        }
        proof {
            lemma_retain_prefix(rot, k as int, keep);
            if k == len {
                assert(rot.subrange(0, k as int) =~= rot);
            } else {
                let e = retain(rot, keep);
                if e.len() == limit {
                    assert(e.subrange(0, limit as int) =~= e);
                }
            }
        }
        out
    }

    /// The counters of the swarm.
    pub fn stats(&self) -> (r: TorrentStats)
        ensures
            r.seeders == count_seeders(self@.peers),
            r.leechers == count_leechers(self@.peers),
            r.completed == self@.completed,
            r.seeders + r.leechers == self@.peers.len(),
    {
        let mut seeders: u64 = 0;
        let mut leechers: u64 = 0;
        let mut i: usize = 0;
        assert(self.peers@.subrange(0, 0) =~= Seq::<Peer>::empty());
        while i < self.peers.len()
            invariant
                i <= self.peers@.len(),
                seeders == count_seeders(self.peers@.subrange(0, i as int)),
                leechers == count_leechers(self.peers@.subrange(0, i as int)),
                seeders + leechers == i,
            decreases self.peers@.len() - i,
        {
            proof {
                let s = self.peers@;
                assert(s.subrange(0, i + 1).drop_last() =~= s.subrange(0, i as int));
                assert(s.subrange(0, i + 1).last() == s[i as int]);
            }
            if self.peers[i].is_seeder() {
                seeders += 1;
            } else {
                leechers += 1;
            }
            i += 1;
        }
        assert(self.peers@.subrange(0, i as int) =~= self.peers@);
        TorrentStats { seeders, leechers, completed: self.completed }
    }

    /// How many peers the swarm holds.
    pub fn len(&self) -> (r: usize)
        ensures
            r == self@.peers.len(),
    {
        self.peers.len()
    }

    /// Drops every peer that has been silent for longer than `threshold` at
    /// `now`, and reports how many were dropped. The completion counter stays.
    pub fn remove_inactive(&mut self, now: u64, threshold: u64) -> (r: usize)
        requires
            old(self).wf(),
        ensures
            final(self).wf(),
            final(self)@.peers == retain(old(self)@.peers, active_at(now, threshold)),
            final(self)@.completed == old(self)@.completed,
            r == old(self)@.peers.len() - final(self)@.peers.len(),
    {
        let ghost s = self.peers@;
        let ghost keep = active_at(now, threshold);
        let mut kept: Vec<Peer> = Vec::new();
        let mut i: usize = 0;
        assert(s.subrange(0, 0) =~= Seq::<Peer>::empty());
        while i < self.peers.len()
            invariant
                i <= s.len(),
                s == self.peers@,
                keep == active_at(now, threshold),
                kept@ == retain(s.subrange(0, i as int), keep),
                kept@.len() <= i,
            decreases s.len() - i,
        {
            proof {
                assert(s.subrange(0, i + 1).drop_last() =~= s.subrange(0, i as int));
                assert(s.subrange(0, i + 1).last() == s[i as int]);
            }
            let p = self.peers[i];
            if !p.is_inactive(now, threshold) {
                kept.push(p);
            }
            i += 1;
        }
        proof {
            assert(s.subrange(0, i as int) =~= s);
            lemma_retain_members(s, keep);
        }
        let removed = self.peers.len() - kept.len();
        self.peers = kept;
        removed
    }
}

} // verus!

verus! {

/// Two announces in a row under one peer id, neither of them a stop, leave
/// exactly one peer with that id in the swarm, and the second adds no member.
pub proof fn lemma_reannounce_keeps_one_peer(s: Seq<Peer>, first: Peer, second: Peer)
    requires
        unique_ids(s),
        none_stopped(s),
        first.peer_id == second.peer_id,
        first.event != AnnounceEvent::Stopped,
        second.event != AnnounceEvent::Stopped,
    ensures
        has_id(upserted(upserted(s, first), second), first.peer_id),
        unique_ids(upserted(upserted(s, first), second)),
        upserted(upserted(s, first), second).len() == upserted(s, first).len(),
        forall|i: int, j: int|
            0 <= i < upserted(upserted(s, first), second).len() && 0 <= j < upserted(
                upserted(s, first),
                second,
            ).len() && (#[trigger] upserted(upserted(s, first), second)[i]).peer_id == first.peer_id && (
            #[trigger] upserted(upserted(s, first), second)[j]).peer_id == first.peer_id ==> i == j,
{
    let t = upserted(s, first);
    lemma_upserted_properties(s, first);
    lemma_upserted_properties(t, second);
    let u = upserted(t, second);
    assert forall|i: int, j: int|
        0 <= i < u.len() && 0 <= j < u.len() && (#[trigger] u[i]).peer_id == first.peer_id && (
        #[trigger] u[j]).peer_id == first.peer_id implies i == j by {
        if i < j {
            assert(u[i].peer_id != u[j].peer_id);
        } else if j < i {
            assert(u[j].peer_id != u[i].peer_id);
        }
    }
}

/// A peer that announced that it stopped is not handed out afterwards, to
/// whomever asks, with whatever limit and seed.
pub proof fn lemma_stopped_peer_is_not_handed_out(
    s: Seq<Peer>,
    stopped: Peer,
    requester: SocketAddress,
    limit: nat,
    seed: u64,
)
    requires
        unique_ids(s),
        none_stopped(s),
        stopped.event == AnnounceEvent::Stopped,
    ensures
        forall|k: int|
            0 <= k < selected(upserted(s, stopped), requester, limit, seed).len() ==> (#[trigger] selected(
                upserted(s, stopped),
                requester,
                limit,
                seed,
            )[k]).peer_id != stopped.peer_id,
{
    let t = upserted(s, stopped);
    lemma_upserted_properties(s, stopped);
    lemma_selected_properties(t, requester, limit, seed);
    let sel = selected(t, requester, limit, seed);
    assert forall|k: int| 0 <= k < sel.len() implies (#[trigger] sel[k]).peer_id != stopped.peer_id by {
        assert(t.contains(sel[k]));
        let i = choose|i: int| 0 <= i < t.len() && t[i] == sel[k];
        if t[i].peer_id == stopped.peer_id {
            assert(has_id(t, stopped.peer_id));
        }
    }
}

/// An announce never lowers the completion counter of a swarm.
pub proof fn lemma_announce_keeps_completions(s: Seq<Peer>, completed: u64, p: Peer)
    ensures
        completed_after(s, completed, p) >= completed,
        completed_after(s, completed, p) - completed <= 1,
{
}

} // verus!
