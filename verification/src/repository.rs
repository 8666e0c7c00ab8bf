//! The mapping from info-hash to swarm that backs every request.

use vstd::prelude::*;
use crate::primitives::{AnnounceEvent, InfoHash, SocketAddress};
use crate::swarm::{
    active_at, completed_after, count_leechers, count_seeders, lemma_retain_members,
    lemma_stopped_peer_is_not_handed_out, none_stopped, retain, selected, unique_ids, upserted, Peer,
    SwarmEntry, TorrentStats,
};

verus! {

/// One torrent as the repository sees it.
pub struct TorrentModel {
    pub info_hash: InfoHash,
    pub peers: Seq<Peer>,
    pub completed: u64,
}

pub open spec fn unique_hashes(s: Seq<TorrentModel>) -> bool {
    forall|i: int, j: int|
        0 <= i < j < s.len() ==> (#[trigger] s[i]).info_hash != (#[trigger] s[j]).info_hash
}

pub open spec fn has_torrent(s: Seq<TorrentModel>, h: InfoHash) -> bool {
    exists|i: int| 0 <= i < s.len() && (#[trigger] s[i]).info_hash == h
}

/// Where the torrent `h` stands in `s`; meaningful when `has_torrent(s, h)`.
pub open spec fn torrent_at(s: Seq<TorrentModel>, h: InfoHash) -> int {
    choose|i: int| 0 <= i < s.len() && (#[trigger] s[i]).info_hash == h
}

/// The members of the swarm of `h`; none when the torrent is unknown.
pub open spec fn peers_of(s: Seq<TorrentModel>, h: InfoHash) -> Seq<Peer> {
    if has_torrent(s, h) {
        s[torrent_at(s, h)].peers
    } else {
        Seq::empty()
    }
}

/// The completions counted for `h`; zero when the torrent is unknown.
pub open spec fn completed_of(s: Seq<TorrentModel>, h: InfoHash) -> u64 {
    if has_torrent(s, h) {
        s[torrent_at(s, h)].completed
    } else {
        0
    }
}

/// The counters of `h`; all zero when the torrent is unknown.
pub open spec fn stats_of(s: Seq<TorrentModel>, h: InfoHash) -> TorrentStats {
    TorrentStats {
        seeders: count_seeders(peers_of(s, h)) as u64,
        leechers: count_leechers(peers_of(s, h)) as u64,
        completed: completed_of(s, h),
    }
}

/// Whether `after` is `before` with the announce of `peer` for `h` recorded: the
/// swarm of `h` has taken the announce, an unknown torrent has been created
/// unless the peer stopped, and every other torrent is as it was.
pub open spec fn updated_with(before: Seq<TorrentModel>, after: Seq<TorrentModel>, h: InfoHash, peer: Peer) -> bool {
    &&& has_torrent(after, h) == (has_torrent(before, h) || peer.event != AnnounceEvent::Stopped)
    &&& peers_of(after, h) == upserted(peers_of(before, h), peer)
    &&& completed_of(after, h) == completed_after(peers_of(before, h), completed_of(before, h), peer)
    &&& forall|g: InfoHash| g != h ==> #[trigger] has_torrent(after, g) == has_torrent(before, g)
    &&& forall|g: InfoHash| g != h ==> #[trigger] peers_of(after, g) == peers_of(before, g)
    &&& forall|g: InfoHash| g != h ==> #[trigger] completed_of(after, g) == completed_of(before, g)
}

/// Whether a torrent with these members and completions outlives a sweep: one
/// without peers and without completions goes, unless peerless torrents are kept.
pub open spec fn survives(peers: Seq<Peer>, completed: u64, persistent: bool) -> bool {
    persistent || peers.len() > 0 || completed > 0
}

/// The torrent `t` after the peers that are inactive at `now` have left it.
pub open spec fn expired(t: TorrentModel, now: u64, threshold: u64) -> TorrentModel {
    TorrentModel { peers: retain(t.peers, active_at(now, threshold)), ..t }
}

/// The repository after a sweep: every swarm without its inactive peers, and
/// without the torrents that do not survive.
pub open spec fn swept(s: Seq<TorrentModel>, now: u64, threshold: u64, persistent: bool) -> Seq<
    TorrentModel,
>
    decreases s.len(),
{
    if s.len() == 0 {
        Seq::empty()
    } else {
        let t = expired(s.last(), now, threshold);
        let rest = swept(s.drop_last(), now, threshold, persistent);
        if survives(t.peers, t.completed, persistent) {
            rest.push(t)
        } else {
            rest
        }
    }
}

/// How many peers of `s` are inactive at `now`, over all torrents.
pub open spec fn inactive_total(s: Seq<TorrentModel>, now: u64, threshold: u64) -> nat
    decreases s.len(),
{
    if s.len() == 0 {
        0
    } else {
        (inactive_total(s.drop_last(), now, threshold) + s.last().peers.len() - retain(
            s.last().peers,
            active_at(now, threshold),
        ).len()) as nat
    }
}

/// `n`, or the largest `u64` where `n` does not fit.
pub open spec fn clamp_u64(n: nat) -> u64 {
    if n <= u64::MAX {
        n as u64
    } else {
        u64::MAX
    }
}

/// Every swarm of `s` has distinct peer ids and holds no stopped peer.
pub open spec fn swarms_wf(s: Seq<TorrentModel>) -> bool {
    forall|i: int| 0 <= i < s.len() ==> unique_ids((#[trigger] s[i]).peers) && none_stopped(s[i].peers)
}

/// With distinct hashes, the torrent at a position is the one found under its hash.
pub proof fn lemma_lookup(s: Seq<TorrentModel>, i: int)
    requires
        unique_hashes(s),
        0 <= i < s.len(),
    ensures
        has_torrent(s, s[i].info_hash),
        torrent_at(s, s[i].info_hash) == i,
        peers_of(s, s[i].info_hash) == s[i].peers,
        completed_of(s, s[i].info_hash) == s[i].completed,
{
    let h = s[i].info_hash;
    let at = torrent_at(s, h);
    if at < i {
        assert(s[at].info_hash != s[i].info_hash);
    } else if at > i {
        assert(s[i].info_hash != s[at].info_hash);
    }
}

/// What a sweep does to the mapping: a torrent is known afterwards exactly when
/// it was known and survives; its peers are the active ones among those it had;
/// its completion counter is what it was.
pub proof fn lemma_swept_lookup(s: Seq<TorrentModel>, now: u64, threshold: u64, persistent: bool)
    requires
        unique_hashes(s),
    ensures
        unique_hashes(swept(s, now, threshold, persistent)),
        swept(s, now, threshold, persistent).len() <= s.len(),
        forall|h: InfoHash|
            #![trigger has_torrent(swept(s, now, threshold, persistent), h)]
            has_torrent(swept(s, now, threshold, persistent), h) == (has_torrent(s, h) && survives(
                retain(peers_of(s, h), active_at(now, threshold)),
                completed_of(s, h),
                persistent,
            )),
        forall|h: InfoHash|
            #![trigger peers_of(swept(s, now, threshold, persistent), h)]
            peers_of(swept(s, now, threshold, persistent), h) == retain(
                peers_of(s, h),
                active_at(now, threshold),
            ),
        forall|h: InfoHash|
            #![trigger completed_of(swept(s, now, threshold, persistent), h)]
            completed_of(swept(s, now, threshold, persistent), h) == completed_of(s, h),
        swarms_wf(s) ==> swarms_wf(swept(s, now, threshold, persistent)),
    decreases s.len(),
{
    let w = swept(s, now, threshold, persistent);
    let keep = active_at(now, threshold);
    if s.len() > 0 {
        let d = s.drop_last();
        let wd = swept(d, now, threshold, persistent);
        let last = s.last();
        let t = expired(last, now, threshold);
        assert(unique_hashes(d)) by {
            assert forall|i: int, j: int| 0 <= i < j < d.len() implies (#[trigger] d[i]).info_hash != (
            #[trigger] d[j]).info_hash by {
                assert(d[i] == s[i] && d[j] == s[j]);
            }
        }
        lemma_swept_lookup(d, now, threshold, persistent);
        assert(!has_torrent(d, last.info_hash)) by {
            if has_torrent(d, last.info_hash) {
                let a = torrent_at(d, last.info_hash);
                assert(d[a] == s[a]);
                assert(s[a].info_hash != s[s.len() - 1].info_hash);
            }
        }
        assert(!has_torrent(wd, last.info_hash));
        lemma_lookup(s, s.len() - 1);
        let kept = survives(t.peers, t.completed, persistent);
        assert(unique_hashes(w)) by {
            assert forall|i: int, j: int| 0 <= i < j < w.len() implies (#[trigger] w[i]).info_hash != (
            #[trigger] w[j]).info_hash by {
                if j < wd.len() {
                    assert(w[i] == wd[i] && w[j] == wd[j]);
                } else {
                    assert(w[i] == wd[i]);
                }
            }
        }
        if kept {
            lemma_lookup(w, w.len() - 1);
        }
        assert forall|h: InfoHash|
            has_torrent(w, h) == (has_torrent(s, h) && survives(
                retain(peers_of(s, h), keep),
                completed_of(s, h),
                persistent,
            )) && peers_of(w, h) == retain(peers_of(s, h), keep) && completed_of(w, h) == completed_of(
                s,
                h,
            ) by {
            assert(has_torrent(wd, h) == (has_torrent(d, h) && survives(
                retain(peers_of(d, h), keep),
                completed_of(d, h),
                persistent,
            )));
            assert(peers_of(wd, h) == retain(peers_of(d, h), keep));
            assert(completed_of(wd, h) == completed_of(d, h));
            if h == last.info_hash {
                if !kept {
                    assert(w == wd);
                    assert(t.peers.len() == 0);
                    assert(t.peers =~= Seq::<Peer>::empty());
                }
            } else {
                if has_torrent(s, h) {
                    let a = torrent_at(s, h);
                    assert(d[a] == s[a]);
                    lemma_lookup(d, a);
                } else if has_torrent(d, h) {
                    let a = torrent_at(d, h);
                    assert(d[a] == s[a]);
                }
                if has_torrent(wd, h) {
                    let a = torrent_at(wd, h);
                    assert(w[a] == wd[a]);
                    lemma_lookup(w, a);
                } else if has_torrent(w, h) {
                    let a = torrent_at(w, h);
                    assert(w[a] == wd[a]);
                }
                assert(retain(Seq::<Peer>::empty(), keep) =~= Seq::<Peer>::empty());
            }
        }
        if swarms_wf(s) {
            assert(swarms_wf(d)) by {
                assert forall|i: int| 0 <= i < d.len() implies unique_ids((#[trigger] d[i]).peers)
                    && none_stopped(d[i].peers) by {
                    assert(d[i] == s[i]);
                }
            }
            assert(unique_ids(last.peers) && none_stopped(last.peers));
            lemma_retain_members(last.peers, keep);
            assert forall|i: int| 0 <= i < w.len() implies unique_ids((#[trigger] w[i]).peers)
                && none_stopped(w[i].peers) by {
                if i < wd.len() {
                    assert(w[i] == wd[i]);
                }
            }
        }
    } else {
        assert(retain(Seq::<Peer>::empty(), keep) =~= Seq::<Peer>::empty());
    }
}

} // verus!

verus! {

#[derive(Debug)]
struct TorrentEntry {
    info_hash: InfoHash,
    swarm: SwarmEntry,
}

impl TorrentEntry {
    spec fn model(&self) -> TorrentModel {
        TorrentModel { info_hash: self.info_hash, peers: self.swarm@.peers, completed: self.swarm@.completed }
    }
}

/// Every swarm that the tracker knows, by info-hash.
#[derive(Debug)]
pub struct TorrentRepository {
    entries: Vec<TorrentEntry>,
    persistent_torrents: bool,
}

impl View for TorrentRepository {
    type V = Seq<TorrentModel>;

    closed spec fn view(&self) -> Seq<TorrentModel> {
        Seq::new(self.entries@.len(), |i: int| self.entries@[i].model())
    }
}

impl TorrentRepository {
    /// No info-hash occurs twice, and every swarm is well formed.
    pub open spec fn wf(&self) -> bool {
        unique_hashes(self@) && swarms_wf(self@)
    }

    /// Whether torrents without peers and without completions are kept by a sweep.
    pub closed spec fn keeps_peerless(&self) -> bool {
        self.persistent_torrents
    }

    /// A repository without torrents.
    pub fn new(persistent_torrents: bool) -> (r: TorrentRepository)
        ensures
            r.wf(),
            r@ == Seq::<TorrentModel>::empty(),
            r.keeps_peerless() == persistent_torrents,
    {
        let r = TorrentRepository { entries: Vec::new(), persistent_torrents };
        assert(r@ =~= Seq::<TorrentModel>::empty());
        r
    }

    /// How many torrents are known.
    pub fn len(&self) -> (r: usize)
        ensures
            r == self@.len(),
    {
        self.entries.len()
    }

    fn find(&self, h: &InfoHash) -> (r: Option<usize>)
        requires
            self.wf(),
        ensures
            r.is_some() == has_torrent(self@, *h),
            r.is_some() ==> r.unwrap() == torrent_at(self@, *h) && r.unwrap() < self@.len(),
    {
        let mut i: usize = 0;
        while i < self.entries.len()
            invariant
                i <= self.entries@.len(),
                self.wf(),
                forall|j: int| 0 <= j < i ==> (#[trigger] self@[j]).info_hash != *h,
            decreases self.entries@.len() - i,
        {
            if self.entries[i].info_hash.same(h) {
                proof {
                    assert(self@[i as int].info_hash == *h);
                    lemma_lookup(self@, i as int);
                }
                return Some(i);
            }
            i += 1;
        }
        None
    }

    /// Records the announce of `peer` for the torrent `info_hash` and returns the
    /// torrent's counters afterwards, with the change of its completion counter.
    ///
    /// An unknown torrent is created, unless the peer announces that it stopped:
    /// then nothing changes and the counters are zero.
    pub fn update_with_peer(&mut self, info_hash: &InfoHash, peer: Peer) -> (r: (TorrentStats, u64))
        requires
            old(self).wf(),
        ensures
            final(self).wf(),
            final(self).keeps_peerless() == old(self).keeps_peerless(),
            updated_with(old(self)@, final(self)@, *info_hash, peer),
            r.0 == stats_of(final(self)@, *info_hash),
            r.1 == completed_of(final(self)@, *info_hash) - completed_of(old(self)@, *info_hash),
    {
        let ghost before = self@;
        let found = self.find(info_hash);
        let stopped = match peer.event {
            AnnounceEvent::Stopped => true,
            _ => false,
        };
        let mut entry = match found {
            Some(at) => self.entries.remove(at),
            None => {
                if stopped {
                    proof {
                        assert(upserted(Seq::<Peer>::empty(), peer) =~= Seq::<Peer>::empty());
                        assert(retain(Seq::<Peer>::empty(), crate::swarm::seeding()) =~= Seq::<Peer>::empty());
                        assert(retain(Seq::<Peer>::empty(), crate::swarm::leeching()) =~= Seq::<Peer>::empty());
                    }
                    return (TorrentStats { seeders: 0, leechers: 0, completed: 0 }, 0);
                }
                TorrentEntry { info_hash: *info_hash, swarm: SwarmEntry::new(0) }
            },
        };
        let ghost prior = entry.model();
        proof {
            match found {
                Some(at) => {
                    assert(prior == before[at as int]);
                },
                None => {},
            }
            assert(prior.peers == peers_of(before, *info_hash));
            assert(prior.completed == completed_of(before, *info_hash));
        }
        let ghost rest = self@;
        let (seeders, leechers, delta) = entry.swarm.upsert(peer);
        let completed = entry.swarm.stats().completed;
        let ghost after = entry.model();
        self.entries.push(entry);
        proof {
            let now = self@;
            assert(now =~= rest.push(after));
            assert(rest =~= match found {
                Some(at) => before.remove(at as int),
                None => before,
            });
            assert forall|i: int| 0 <= i < rest.len() implies (#[trigger] rest[i]).info_hash
                != *info_hash && before.contains(rest[i]) && unique_ids(rest[i].peers) && none_stopped(
                rest[i].peers,
            ) by {
                match found {
                    Some(at) => {
                        let a = if i < at { i } else { i + 1 };
                        assert(rest[i] == before[a]);
                        if a < at {
                            assert(before[a].info_hash != before[at as int].info_hash);
                        } else {
                            assert(before[at as int].info_hash != before[a].info_hash);
                        }
                    },
                    None => {
                        assert(rest[i] == before[i]);
                    },
                }
            }
            assert(unique_hashes(now)) by {
                assert forall|i: int, j: int| 0 <= i < j < now.len() implies (#[trigger] now[i]).info_hash
                    != (#[trigger] now[j]).info_hash by {
                    assert(now[i] == rest[i]);
                    if j < rest.len() {
                        assert(now[j] == rest[j]);
                        match found {
                            Some(at) => {
                                let a = if i < at { i } else { i + 1 };
                                let b = if j < at { j } else { j + 1 };
                                assert(rest[i] == before[a] && rest[j] == before[b]);
                            },
                            None => {
                                assert(rest[i] == before[i] && rest[j] == before[j]);
                            },
                        }
                    }
                }
            }
            assert(swarms_wf(now)) by {
                assert forall|i: int| 0 <= i < now.len() implies unique_ids((#[trigger] now[i]).peers)
                    && none_stopped(now[i].peers) by {
                    if i < rest.len() {
                        assert(now[i] == rest[i]);
                    }
                }
            }
            lemma_lookup(now, now.len() - 1);
            assert forall|h: InfoHash| h != *info_hash implies has_torrent(now, h) == has_torrent(
                before,
                h,
            ) && peers_of(now, h) == peers_of(before, h) && completed_of(now, h) == completed_of(
                before,
                h,
            ) by {
                if has_torrent(before, h) {
                    let a = torrent_at(before, h);
                    let i = match found {
                        Some(at) => if a < at { a } else { a - 1 },
                        None => a,
                    };
                    assert(rest[i] == before[a]);
                    assert(now[i] == rest[i]);
                    lemma_lookup(now, i);
                } else if has_torrent(now, h) {
                    let i = torrent_at(now, h);
                    assert(now[i] == rest[i]);
                    let m = rest[i];
                    assert(before.contains(m));
                    let a = choose|a: int| 0 <= a < before.len() && before[a] == m;
                    assert(before[a].info_hash == h);
                }
            }
        }
        (TorrentStats { seeders, leechers, completed }, delta)
    }

    /// The peers of `info_hash` to hand to the peer at `requester`: at most
    /// `limit`, never one at the requester's own address. An unknown torrent has
    /// none.
    pub fn get_peers(&self, info_hash: &InfoHash, requester: &SocketAddress, limit: usize, seed: u64) -> (r:
        Vec<Peer>)
        requires
            self.wf(),
        ensures
            r@ == selected(peers_of(self@, *info_hash), *requester, limit as nat, seed),
    {
        match self.find(info_hash) {
            Some(at) => self.entries[at].swarm.peers_for(requester, limit, seed),
            None => {
                proof {
                    let e = Seq::<Peer>::empty();
                    assert(crate::swarm::rotated(e, 0) =~= e);
                    assert(retain(e, crate::swarm::away_from(*requester)) =~= e);
                }
                Vec::new()
            },
        }
    }

    /// The counters of `info_hash`: zeros when the torrent is unknown.
    pub fn get_stats(&self, info_hash: &InfoHash) -> (r: TorrentStats)
        requires
            self.wf(),
        ensures
            r == stats_of(self@, *info_hash),
            r.seeders + r.leechers == peers_of(self@, *info_hash).len(),
    {
        match self.find(info_hash) {
            Some(at) => self.entries[at].swarm.stats(),
            None => {
                proof {
                    let e = Seq::<Peer>::empty();
                    assert(retain(e, crate::swarm::seeding()) =~= e);
                    assert(retain(e, crate::swarm::leeching()) =~= e);
                }
                TorrentStats { seeders: 0, leechers: 0, completed: 0 }
            },
        }
    }

    /// The counters of each of `info_hashes`, in the order asked.
    pub fn snapshot_for_scrape(&self, info_hashes: &Vec<InfoHash>) -> (r: Vec<(InfoHash, TorrentStats)>)
        requires
            self.wf(),
        ensures
            r@.len() == info_hashes@.len(),
            forall|i: int|
                0 <= i < r@.len() ==> (#[trigger] r@[i]).0 == info_hashes@[i] && r@[i].1 == stats_of(
                    self@,
                    info_hashes@[i],
                ),
    {
        let mut out: Vec<(InfoHash, TorrentStats)> = Vec::new();
        let mut i: usize = 0;
        while i < info_hashes.len()
            invariant
                i <= info_hashes@.len(),
                self.wf(),
                out@.len() == i,
                forall|j: int|
                    0 <= j < i ==> (#[trigger] out@[j]).0 == info_hashes@[j] && out@[j].1 == stats_of(
                        self@,
                        info_hashes@[j],
                    ),
            decreases info_hashes@.len() - i,
        {
            let h = info_hashes[i];
            let stats = self.get_stats(&h);
            out.push((h, stats));
            i += 1;
        }
        out
    }

    /// Drops every peer that has been silent for longer than `threshold` at `now`,
    /// then every torrent that is left without peers and without completions,
    /// unless peerless torrents are kept. Returns how many peers and how many
    /// torrents went.
    pub fn remove_inactive(&mut self, now: u64, threshold: u64) -> (r: (u64, usize))
        requires
            old(self).wf(),
        ensures
            final(self).wf(),
            final(self).keeps_peerless() == old(self).keeps_peerless(),
            final(self)@ == swept(old(self)@, now, threshold, old(self).keeps_peerless()),
            r.0 == clamp_u64(inactive_total(old(self)@, now, threshold)),
            r.1 == old(self)@.len() - final(self)@.len(),
    {
        let ghost before = self@;
        let persistent = self.persistent_torrents;
        let mut source: Vec<TorrentEntry> = Vec::new();
        std::mem::swap(&mut self.entries, &mut source);
        let total = source.len();
        let mut kept: Vec<TorrentEntry> = Vec::new();
        let mut rest: Vec<TorrentEntry> = Vec::new();
        let mut peers_removed: u64 = 0;
        assert(before.subrange(0, total as int) =~= before);
        // The entries are taken from the end of `source`, so `rest` collects the
        // survivors in reverse order.
        while source.len() > 0
            invariant
                source@.len() <= total == before.len(),
                forall|i: int| 0 <= i < source@.len() ==> (#[trigger] source@[i]).model() == before[i],
                swarms_wf(before),
                rest@.len() <= total - source@.len(),
                peers_removed == clamp_u64(
                    (inactive_total(before, now, threshold) - inactive_total(
                        before.subrange(0, source@.len() as int),
                        now,
                        threshold,
                    )) as nat,
                ),
                inactive_total(before, now, threshold) >= inactive_total(
                    before.subrange(0, source@.len() as int),
                    now,
                    threshold,
                ),
                swept(before, now, threshold, persistent) =~= swept(
                    before.subrange(0, source@.len() as int),
                    now,
                    threshold,
                    persistent,
                ) + Seq::new(rest@.len(), |i: int| rest@[rest@.len() - 1 - i].model()),
            decreases source@.len(),
        {
            let ghost n = source@.len() as int;
            let ghost prefix = before.subrange(0, n);
            let ghost revd = Seq::new(rest@.len(), |i: int| rest@[rest@.len() - 1 - i].model());
            let mut entry = source.pop().unwrap();
            proof {
                assert(entry.model() == before[n - 1]);
                assert(prefix.last() == before[n - 1]);
                assert(prefix.drop_last() =~= before.subrange(0, n - 1));
                assert(unique_ids(before[n - 1].peers) && none_stopped(before[n - 1].peers));
            }
            let gone = entry.swarm.remove_inactive(now, threshold);
            peers_removed = peers_removed.saturating_add(gone as u64);
            let stats = entry.swarm.stats();
            if persistent || entry.swarm.len() > 0 || stats.completed > 0 {
                rest.push(entry);
                proof {
                    let revd2 = Seq::new(rest@.len(), |i: int| rest@[rest@.len() - 1 - i].model());
                    assert(revd2 =~= seq![expired(before[n - 1], now, threshold)] + revd);
                }
            }
        }
        proof {
            assert(before.subrange(0, 0) =~= Seq::<TorrentModel>::empty());
        }
        while rest.len() > 0
            invariant
                swept(before, now, threshold, persistent) =~= Seq::new(
                    kept@.len(),
                    |i: int| kept@[i].model(),
                ) + Seq::new(rest@.len(), |i: int| rest@[rest@.len() - 1 - i].model()),
            decreases rest@.len(),
        {
            let entry = rest.pop().unwrap();
            kept.push(entry);
        }
        self.entries = kept;
        proof {
            assert(self@ =~= swept(before, now, threshold, persistent));
            lemma_swept_lookup(before, now, threshold, persistent);
        }
        (peers_removed, total - self.entries.len())
    }
}

} // verus!

verus! {

/// The completion counter of a torrent never goes down: not by an announce,
/// for any torrent, and not by a sweep.
pub proof fn lemma_completed_never_decreases(
    before: Seq<TorrentModel>,
    after: Seq<TorrentModel>,
    announced: InfoHash,
    peer: Peer,
    now: u64,
    threshold: u64,
    persistent: bool,
    h: InfoHash,
)
    requires
        unique_hashes(before),
        updated_with(before, after, announced, peer),
    ensures
        completed_of(after, h) >= completed_of(before, h),
        completed_of(swept(before, now, threshold, persistent), h) == completed_of(before, h),
{
    lemma_swept_lookup(before, now, threshold, persistent);
    if h != announced {
        assert(completed_of(after, h) == completed_of(before, h));
    }
}

/// After a sweep no peer is left that was silent for longer than the threshold,
/// and every peer that is left was there before.
pub proof fn lemma_swept_peers_are_active(
    s: Seq<TorrentModel>,
    now: u64,
    threshold: u64,
    persistent: bool,
    h: InfoHash,
)
    requires
        unique_hashes(s),
    ensures
        forall|k: int|
            0 <= k < peers_of(swept(s, now, threshold, persistent), h).len() ==> !(#[trigger] peers_of(
                swept(s, now, threshold, persistent),
                h,
            )[k]).spec_is_inactive(now, threshold) && peers_of(s, h).contains(
                peers_of(swept(s, now, threshold, persistent), h)[k],
            ),
{
    lemma_swept_lookup(s, now, threshold, persistent);
    let kept = peers_of(swept(s, now, threshold, persistent), h);
    assert(kept == retain(peers_of(s, h), active_at(now, threshold)));
    lemma_retain_members(peers_of(s, h), active_at(now, threshold));
    assert forall|k: int| 0 <= k < kept.len() implies !(#[trigger] kept[k]).spec_is_inactive(now, threshold)
        && peers_of(s, h).contains(kept[k]) by {
        assert(active_at(now, threshold)(kept[k]));
    }
}

/// Once a peer has announced for a torrent that it stopped, asking for the
/// peers of that torrent never gives that peer, to whomever asks.
pub proof fn lemma_stopped_peer_is_gone_from_torrent(
    before: Seq<TorrentModel>,
    after: Seq<TorrentModel>,
    h: InfoHash,
    stopped: Peer,
    requester: SocketAddress,
    limit: nat,
    seed: u64,
)
    requires
        swarms_wf(before),
        stopped.event == AnnounceEvent::Stopped,
        updated_with(before, after, h, stopped),
    ensures
        forall|k: int|
            0 <= k < selected(peers_of(after, h), requester, limit, seed).len() ==> (#[trigger] selected(
                peers_of(after, h),
                requester,
                limit,
                seed,
            )[k]).peer_id != stopped.peer_id,
{
    let had = peers_of(before, h);
    if has_torrent(before, h) {
        assert(unique_ids(before[torrent_at(before, h)].peers));
    }
    lemma_stopped_peer_is_not_handed_out(had, stopped, requester, limit, seed);
}

} // verus!
