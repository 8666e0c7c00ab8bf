//! The tracker: settings, access control and swarms under one roof, and the
//! handling of UDP requests against them.

use vstd::prelude::*;
use crate::auth::{request_decision, AuthService, TorrentError};
use crate::config::Configuration;
use crate::primitives::{InfoHash, IpAddress, SocketAddress};
use crate::repository::{inactive_total, clamp_u64, stats_of, swept, peers_of, updated_with, TorrentRepository};
use crate::stats::{IpVersion, Protocol, RequestKind, StatsEvent};
use crate::swarm::{selected, Peer, TorrentStats};
use crate::udp::{
    connection_id_for, connection_id_valid, is_request_of, mint_connection_id, parse_failure, parse_request,
    time_bucket, verify_connection_id, AnnounceRequest, ConnectRequest, ParseFailure, ScrapeRequest, ScrapeStats,
    UdpError, UdpRequest, UdpResponse, UdpResponseModel,
};

verus! {

/// How many peers an announce is answered with at most, and by default.
pub const MAX_PEERS: usize = 74;

/// The address under which a peer is advertised: the one it announced from, or
/// the tracker's external address for a peer on the tracker's own loopback.
pub open spec fn advertised_ip(remote: IpAddress, external: Option<IpAddress>) -> IpAddress {
    if remote.spec_is_loopback() && external is Some {
        external->0
    } else {
        remote
    }
}

pub open spec fn is_unspecified(ip: [u8; 4]) -> bool {
    ip[0] == 0 && ip[1] == 0 && ip[2] == 0 && ip[3] == 0
}

/// The address of a peer that announced over UDP: the one it names, when it
/// names one and the tracker trusts that; else the advertised one.
pub open spec fn udp_peer_ip(config: Configuration, remote: IpAddress, announced: [u8; 4]) -> IpAddress {
    if config.trust_announced_ip && !is_unspecified(announced) {
        IpAddress::V4(announced)
    } else {
        advertised_ip(remote, config.external_ip)
    }
}

/// How many peers to hand out for a wish of `num_want`: a wish that is
/// negative as a signed number, or larger than the most, gets the most.
pub open spec fn peer_limit(num_want: u32) -> nat {
    if num_want > MAX_PEERS {
        MAX_PEERS as nat
    } else {
        num_want as nat
    }
}

/// A counter as the wire carries it: `n`, or the largest signed 32-bit number.
pub open spec fn wire_count(n: u64) -> u32 {
    if n > 0x7fff_ffff {
        0x7fff_ffff
    } else {
        n as u32
    }
}

pub open spec fn version_of(ip: IpAddress) -> IpVersion {
    if ip is V4 {
        IpVersion::V4
    } else {
        IpVersion::V6
    }
}

/// The IPv4 peers among `peers`, in order, as address and port.
pub open spec fn v4_peers(peers: Seq<Peer>) -> Seq<([u8; 4], u16)>
    decreases peers.len(),
{
    if peers.len() == 0 {
        Seq::empty()
    } else {
        match peers.last().peer_addr.ip {
            IpAddress::V4(a) => v4_peers(peers.drop_last()).push((a, peers.last().peer_addr.port)),
            IpAddress::V6(_) => v4_peers(peers.drop_last()),
        }
    }
}

/// The IPv6 peers among `peers`, in order, as address and port.
pub open spec fn v6_peers(peers: Seq<Peer>) -> Seq<([u8; 16], u16)>
    decreases peers.len(),
{
    if peers.len() == 0 {
        Seq::empty()
    } else {
        match peers.last().peer_addr.ip {
            IpAddress::V6(a) => v6_peers(peers.drop_last()).push((a, peers.last().peer_addr.port)),
            IpAddress::V4(_) => v6_peers(peers.drop_last()),
        }
    }
}

/// The record of the peer that sent the announce `request` from `remote` at `now`.
pub open spec fn udp_announce_peer(config: Configuration, remote: SocketAddress, request: AnnounceRequest, now: u64) -> Peer {
    Peer {
        peer_id: request.peer_id,
        peer_addr: SocketAddress { ip: udp_peer_ip(config, remote.ip, request.ip), port: request.port },
        updated_at: now,
        uploaded: request.uploaded,
        downloaded: request.downloaded,
        left: request.left,
        event: request.event,
    }
}

/// The answer to an accepted announce: the interval, the counters of the swarm,
/// and of `peers` those of the family that the request came over.
pub open spec fn udp_announce_response(
    interval: u32,
    remote: SocketAddress,
    transaction_id: u32,
    stats: TorrentStats,
    peers: Seq<Peer>,
) -> UdpResponseModel {
    if remote.ip is V4 {
        UdpResponseModel::AnnounceIpv4 {
            transaction_id,
            interval,
            leechers: wire_count(stats.leechers),
            seeders: wire_count(stats.seeders),
            peers: v4_peers(peers),
        }
    } else {
        UdpResponseModel::AnnounceIpv6 {
            transaction_id,
            interval,
            leechers: wire_count(stats.leechers),
            seeders: wire_count(stats.seeders),
            peers: v6_peers(peers),
        }
    }
}

pub open spec fn scrape_stats_of(stats: TorrentStats) -> ScrapeStats {
    ScrapeStats {
        seeders: wire_count(stats.seeders),
        completed: wire_count(stats.completed),
        leechers: wire_count(stats.leechers),
    }
}

fn to_wire(n: u64) -> (r: u32)
    ensures
        r == wire_count(n),
{
    if n > 0x7fff_ffff {
        0x7fff_ffff
    } else {
        n as u32
    }
}

/// The IPv4 peers among `peers`.
pub fn only_v4(peers: &Vec<Peer>) -> (r: Vec<([u8; 4], u16)>)
    ensures
        r@ == v4_peers(peers@),
{
    let mut out: Vec<([u8; 4], u16)> = Vec::new();
    let mut i: usize = 0;
    assert(peers@.subrange(0, 0) =~= Seq::<Peer>::empty());
    while i < peers.len()
        invariant
            i <= peers@.len(),
            out@ == v4_peers(peers@.subrange(0, i as int)),
        decreases peers@.len() - i,
    {
        proof {
            let s = peers@;
            assert(s.subrange(0, i + 1).drop_last() =~= s.subrange(0, i as int));
            assert(s.subrange(0, i + 1).last() == s[i as int]);
        }
        let p = peers[i];
        match p.peer_addr.ip {
            IpAddress::V4(a) => {
                out.push((a, p.peer_addr.port));
            },
            IpAddress::V6(_) => {},
        }
        i += 1;
    }
    assert(peers@.subrange(0, i as int) =~= peers@);
    out
}

/// The IPv6 peers among `peers`.
pub fn only_v6(peers: &Vec<Peer>) -> (r: Vec<([u8; 16], u16)>)
    ensures
        r@ == v6_peers(peers@),
{
    let mut out: Vec<([u8; 16], u16)> = Vec::new();
    let mut i: usize = 0;
    assert(peers@.subrange(0, 0) =~= Seq::<Peer>::empty());
    while i < peers.len()
        invariant
            i <= peers@.len(),
            out@ == v6_peers(peers@.subrange(0, i as int)),
        decreases peers@.len() - i,
    {
        proof {
            let s = peers@;
            assert(s.subrange(0, i + 1).drop_last() =~= s.subrange(0, i as int));
            assert(s.subrange(0, i + 1).last() == s[i as int]);
        }
        let p = peers[i];
        match p.peer_addr.ip {
            IpAddress::V6(a) => {
                out.push((a, p.peer_addr.port));
            },
            IpAddress::V4(_) => {},
        }
        i += 1;
    }
    assert(peers@.subrange(0, i as int) =~= peers@);
    out
}

/// The address under which the peer at `remote` is advertised.
pub fn advertise(remote: &IpAddress, external: &Option<IpAddress>) -> (r: IpAddress)
    ensures
        r == advertised_ip(*remote, *external),
{
    match external {
        Some(e) => if remote.is_loopback() {
            *e
        } else {
            *remote
        },
        None => *remote,
    }
}

/// The family of `ip`.
pub fn version(ip: &IpAddress) -> (r: IpVersion)
    ensures
        r == version_of(*ip),
{
    match ip {
        IpAddress::V4(_) => IpVersion::V4,
        IpAddress::V6(_) => IpVersion::V6,
    }
}

/// What comes of one datagram: the response to send, if any, and the event to
/// report to the statistics, if the request was served.
#[derive(Debug)]
pub struct UdpOutcome {
    pub response: Option<UdpResponse>,
    pub event: Option<StatsEvent>,
}

pub open spec fn udp_event(remote: SocketAddress, kind: RequestKind) -> StatsEvent {
    StatsEvent { protocol: Protocol::Udp, ip_version: version_of(remote.ip), kind }
}

/// A tracker: its settings, its keys and whitelist, its swarms, and the secret
/// under which it mints connection ids.
#[derive(Debug)]
pub struct Tracker {
    pub config: Configuration,
    pub auth: AuthService,
    pub torrents: TorrentRepository,
    /// The secret under which connection ids are minted.
    pub secret: Vec<u8>,
}

impl Tracker {
    pub open spec fn secret(&self) -> Seq<u8> {
        self.secret@
    }

    pub open spec fn wf(&self) -> bool {
        &&& self.auth.wf()
        &&& self.torrents.wf()
        &&& self.torrents.keeps_peerless() == !self.config.remove_peerless_torrents
    }

    /// A tracker without torrents, keys or whitelist entries.
    pub fn new(config: Configuration, secret: Vec<u8>) -> (r: Tracker)
        ensures
            r.wf(),
            r.config == config,
            r.secret() == secret@,
            r.torrents@.len() == 0,
            r.auth@.keys.len() == 0,
            r.auth@.whitelist == Set::<InfoHash>::empty(),
    {
        let torrents = TorrentRepository::new(!config.remove_peerless_torrents);
        Tracker { config, auth: AuthService::new(), torrents, secret }
    }

    /// The decision of access control on a request for `info_hash` that supplied `token`.
    pub open spec fn decision(&self, info_hash: InfoHash, token: Option<Seq<u8>>, now: u64) -> Result<
        (),
        TorrentError,
    > {
        request_decision(self.config.mode, self.auth@.whitelist, self.auth@.keys, info_hash, token, now)
    }

    /// Whether everything but the swarms is the same in `self` and `before`.
    pub open spec fn same_setup_as(&self, before: &Tracker) -> bool {
        &&& self.config == before.config
        &&& self.auth@ == before.auth@
        &&& self.secret() == before.secret()
    }

    /// One sweep of the janitor at `now`: peers that were silent for longer than
    /// the configured timeout go, and with them the torrents that do not survive.
    /// Returns how many peers and torrents went.
    pub fn cleanup(&mut self, now: u64) -> (r: (u64, usize))
        requires
            old(self).wf(),
        ensures
            final(self).wf(),
            final(self).same_setup_as(old(self)),
            final(self).torrents@ == swept(
                old(self).torrents@,
                now,
                old(self).config.max_peer_timeout as u64,
                !old(self).config.remove_peerless_torrents,
            ),
            r.0 == clamp_u64(inactive_total(old(self).torrents@, now, old(self).config.max_peer_timeout as u64)),
            r.1 == old(self).torrents@.len() - final(self).torrents@.len(),
    {
        let threshold = self.config.max_peer_timeout as u64;
        self.torrents.remove_inactive(now, threshold)
    }

    /// Answers a connect request with a connection id for the sender's address.
    pub fn handle_connect(&self, remote: &SocketAddress, request: &ConnectRequest, now: u64) -> (r: UdpResponse)
        ensures
            r@ == (UdpResponseModel::Connect {
                transaction_id: request.transaction_id,
                connection_id: connection_id_for(self.secret(), remote.ip, time_bucket(now)),
            }),
    {
        let connection_id = mint_connection_id(self.secret.as_slice(), &remote.ip, now);
        UdpResponse::Connect { transaction_id: request.transaction_id, connection_id }
    }

    /// Whether `after` and `r` are what an announce makes of `self`.
    pub open spec fn announce_outcome(
        &self,
        after: &Tracker,
        remote: SocketAddress,
        request: AnnounceRequest,
        now: u64,
        seed: u64,
        r: UdpResponseModel,
    ) -> bool {
        let peer = udp_announce_peer(self.config, remote, request, now);
        let gate = self.decision(request.info_hash, None, now);
        if !connection_id_valid(self.secret(), remote.ip, now, request.connection_id) {
            &&& after.torrents@ == self.torrents@
            &&& r == (UdpResponseModel::Error {
                transaction_id: request.transaction_id,
                error: UdpError::ConnectionIdMismatch,
            })
        } else if gate is Err {
            &&& after.torrents@ == self.torrents@
            &&& r == (UdpResponseModel::Error {
                transaction_id: request.transaction_id,
                error: UdpError::Rejected(gate->Err_0),
            })
        } else {
            &&& updated_with(self.torrents@, after.torrents@, request.info_hash, peer)
            &&& r == udp_announce_response(
                self.config.announce_interval,
                remote,
                request.transaction_id,
                stats_of(after.torrents@, request.info_hash),
                selected(
                    peers_of(after.torrents@, request.info_hash),
                    peer.peer_addr,
                    peer_limit(request.num_want),
                    seed,
                ),
            )
        }
    }

    /// Handles an announce: checks the connection id and access control, records the
    /// peer, and answers with the swarm's counters and some of its peers.
    pub fn handle_announce(&mut self, remote: &SocketAddress, request: &AnnounceRequest, now: u64, seed: u64) -> (r:
        UdpResponse)
        requires
            old(self).wf(),
        ensures
            final(self).wf(),
            final(self).same_setup_as(old(self)),
            old(self).announce_outcome(final(self), *remote, *request, now, seed, r@),
    {
        let transaction_id = request.transaction_id;
        if !verify_connection_id(self.secret.as_slice(), &remote.ip, now, request.connection_id) {
            return UdpResponse::Error { transaction_id, error: UdpError::ConnectionIdMismatch };
        }
        match self.auth.authenticate_request(self.config.mode, &request.info_hash, None, now) {
            Err(e) => {
                return UdpResponse::Error { transaction_id, error: UdpError::Rejected(e) };
            },
            Ok(_) => {},
        }
        let unspecified = request.ip[0] == 0 && request.ip[1] == 0 && request.ip[2] == 0 && request.ip[3] == 0;
        let ip = if self.config.trust_announced_ip && !unspecified {
            IpAddress::V4(request.ip)
        } else {
            advertise(&remote.ip, &self.config.external_ip)
        };
        let peer = Peer {
            peer_id: request.peer_id,
            peer_addr: SocketAddress { ip, port: request.port },
            updated_at: now,
            uploaded: request.uploaded,
            downloaded: request.downloaded,
            left: request.left,
            event: request.event,
        };
        let (stats, _) = self.torrents.update_with_peer(&request.info_hash, peer);
        let limit: usize = if request.num_want > MAX_PEERS as u32 {
            MAX_PEERS
        } else {
            request.num_want as usize
        };
        let peers = self.torrents.get_peers(&request.info_hash, &peer.peer_addr, limit, seed);
        let interval = self.config.announce_interval;
        let leechers = to_wire(stats.leechers);
        let seeders = to_wire(stats.seeders);
        match remote.ip {
            IpAddress::V4(_) => UdpResponse::AnnounceIpv4 {
                transaction_id,
                interval,
                leechers,
                seeders,
                peers: only_v4(&peers),
            },
            IpAddress::V6(_) => UdpResponse::AnnounceIpv6 {
                transaction_id,
                interval,
                leechers,
                seeders,
                peers: only_v6(&peers),
            },
        }
    }

    /// The counters that a scrape reports for `info_hash`: those of its swarm, or
    /// zeros where access control turns the torrent down.
    pub open spec fn scraped(&self, info_hash: InfoHash, now: u64) -> ScrapeStats {
        if self.decision(info_hash, None, now) is Ok {
            scrape_stats_of(stats_of(self.torrents@, info_hash))
        } else {
            ScrapeStats { seeders: 0, completed: 0, leechers: 0 }
        }
    }

    /// Whether `r` is the answer to the scrape `request`.
    pub open spec fn scrape_outcome(&self, remote: SocketAddress, request: ScrapeRequest, now: u64, r: UdpResponseModel) -> bool {
        if !connection_id_valid(self.secret(), remote.ip, now, request.connection_id) {
            r == (UdpResponseModel::Error {
                transaction_id: request.transaction_id,
                error: UdpError::ConnectionIdMismatch,
            })
        } else {
            &&& r is Scrape
            &&& r->Scrape_transaction_id == request.transaction_id
            &&& r->Scrape_stats.len() == request.info_hashes@.len()
            &&& forall|i: int|
                0 <= i < request.info_hashes@.len() ==> #[trigger] r->Scrape_stats[i] == self.scraped(
                    request.info_hashes@[i],
                    now,
                )
        }
    }

    /// Handles a scrape: checks the connection id, and reports the counters of
    /// each torrent asked for, in the order asked.
    pub fn handle_scrape(&self, remote: &SocketAddress, request: &ScrapeRequest, now: u64) -> (r: UdpResponse)
        requires
            self.wf(),
        ensures
            self.scrape_outcome(*remote, *request, now, r@),
    {
        let transaction_id = request.transaction_id;
        if !verify_connection_id(self.secret.as_slice(), &remote.ip, now, request.connection_id) {
            return UdpResponse::Error { transaction_id, error: UdpError::ConnectionIdMismatch };
        }
        let mut stats: Vec<ScrapeStats> = Vec::new();
        let mut i: usize = 0;
        while i < request.info_hashes.len()
            invariant
                i <= request.info_hashes@.len(),
                self.wf(),
                stats@.len() == i,
                forall|j: int| 0 <= j < i ==> #[trigger] stats@[j] == self.scraped(request.info_hashes@[j], now),
            decreases request.info_hashes@.len() - i,
        {
            let h = request.info_hashes[i];
            let entry = match self.auth.authenticate_request(self.config.mode, &h, None, now) {
                Ok(_) => {
                    let s = self.torrents.get_stats(&h);
                    ScrapeStats {
                        seeders: to_wire(s.seeders),
                        completed: to_wire(s.completed),
                        leechers: to_wire(s.leechers),
                    }
                },
                Err(_) => ScrapeStats { seeders: 0, completed: 0, leechers: 0 },
            };
            stats.push(entry);
            i += 1;
        }
        UdpResponse::Scrape { transaction_id, stats }
    }
}

} // verus!

verus! {

impl Tracker {
    /// Whether `after` and `r` are what the request makes of `self`. A request
    /// that is answered with an error is not reported to the statistics.
    pub open spec fn request_outcome(
        &self,
        after: &Tracker,
        remote: SocketAddress,
        request: UdpRequest,
        now: u64,
        seed: u64,
        r: UdpOutcome,
    ) -> bool {
        &&& r.response is Some
        &&& match request {
            UdpRequest::Connect(c) => {
                &&& after.torrents@ == self.torrents@
                &&& r.response->0@ == (UdpResponseModel::Connect {
                    transaction_id: c.transaction_id,
                    connection_id: connection_id_for(self.secret(), remote.ip, time_bucket(now)),
                })
                &&& r.event == Some(udp_event(remote, RequestKind::Connect))
            },
            UdpRequest::Announce(a) => {
                &&& self.announce_outcome(after, remote, a, now, seed, r.response->0@)
                &&& r.event == if r.response->0@ is Error {
                    None
                } else {
                    Some(udp_event(remote, RequestKind::Announce))
                }
            },
            UdpRequest::Scrape(s) => {
                &&& after.torrents@ == self.torrents@
                &&& self.scrape_outcome(remote, s, now, r.response->0@)
                &&& r.event == if r.response->0@ is Error {
                    None
                } else {
                    Some(udp_event(remote, RequestKind::Scrape))
                }
            },
        }
    }

    /// Handles a request that was read from a datagram sent by `remote`.
    pub fn handle_request(&mut self, remote: &SocketAddress, request: &UdpRequest, now: u64, seed: u64) -> (r:
        UdpOutcome)
        requires
            old(self).wf(),
        ensures
            final(self).wf(),
            final(self).same_setup_as(old(self)),
            old(self).request_outcome(final(self), *remote, *request, now, seed, r),
    {
        let ip_version = version(&remote.ip);
        let (response, kind) = match request {
            UdpRequest::Connect(c) => (self.handle_connect(remote, c, now), RequestKind::Connect),
            UdpRequest::Announce(a) => (self.handle_announce(remote, a, now, seed), RequestKind::Announce),
            UdpRequest::Scrape(s) => (self.handle_scrape(remote, s, now), RequestKind::Scrape),
        };
        let failed = match &response {
            UdpResponse::Error { .. } => true,
            _ => false,
        };
        let event = if failed {
            None
        } else {
            Some(StatsEvent { protocol: Protocol::Udp, ip_version, kind })
        };
        UdpOutcome { response: Some(response), event }
    }

    /// Handles one datagram from `remote`. A datagram that is no request is
    /// dropped, or answered with an error where it carried a transaction id;
    /// either way the tracker stays as it is.
    pub fn handle_packet(&mut self, remote: &SocketAddress, datagram: &[u8], now: u64, seed: u64) -> (r: UdpOutcome)
        requires
            old(self).wf(),
        ensures
            final(self).wf(),
            final(self).same_setup_as(old(self)),
            match parse_failure(datagram@) {
                Some(ParseFailure::Drop) => {
                    &&& r.response is None
                    &&& r.event is None
                    &&& final(self).torrents@ == old(self).torrents@
                },
                Some(ParseFailure::Reply { transaction_id, error }) => {
                    &&& r.response is Some
                    &&& r.response->0@ == (UdpResponseModel::Error {
                        transaction_id,
                        error: UdpError::Framing(error),
                    })
                    &&& r.event is None
                    &&& final(self).torrents@ == old(self).torrents@
                },
                None => exists|request: UdpRequest|
                    is_request_of(datagram@, request) && old(self).request_outcome(
                        final(self),
                        *remote,
                        request,
                        now,
                        seed,
                        r,
                    ),
            },
    {
        match parse_request(datagram) {
            Err(ParseFailure::Drop) => UdpOutcome { response: None, event: None },
            Err(ParseFailure::Reply { transaction_id, error }) => UdpOutcome {
                response: Some(UdpResponse::Error { transaction_id, error: UdpError::Framing(error) }),
                event: None,
            },
            Ok(request) => self.handle_request(remote, &request, now, seed),
        }
    }
}

/// A connection id that is neither the one of the current time bucket nor the
/// one of the bucket before, for the address that the announce came from, gets
/// the announce turned down with `ConnectionIdMismatch`, and changes nothing.
pub proof fn lemma_stale_connection_id_is_rejected(
    before: Tracker,
    after: Tracker,
    remote: SocketAddress,
    request: AnnounceRequest,
    now: u64,
    seed: u64,
    r: UdpResponseModel,
)
    requires
        before.announce_outcome(&after, remote, request, now, seed, r),
        request.connection_id != connection_id_for(before.secret(), remote.ip, time_bucket(now)),
        time_bucket(now) >= 1 ==> request.connection_id != connection_id_for(
            before.secret(),
            remote.ip,
            (time_bucket(now) - 1) as u64,
        ),
    ensures
        r == (UdpResponseModel::Error {
            transaction_id: request.transaction_id,
            error: UdpError::ConnectionIdMismatch,
        }),
        after.torrents@ == before.torrents@,
{
}

} // verus!
