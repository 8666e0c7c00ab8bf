//! The HTTP tracker protocol: bencoded responses, and the handling of announce
//! and scrape requests.

use vstd::prelude::*;
use vstd::string::StringSliceAdditionalSpecFns;
use crate::auth::TorrentError;
use crate::bytes::{decimal, hexadecimal, push_all, push_decimal, push_hexadecimal};
use crate::compact::{compact_v4, compact_v6, encode_compact_v4, encode_compact_v6};
use crate::primitives::{lex_less, AnnounceEvent, InfoHash, IpAddress, PeerId, SocketAddress};
use crate::query::{
    decimal_number, find_byte, find_values, index_of, parse_decimal, percent_decode, percent_decoded, range_is,
    values_of,
};
use crate::repository::{peers_of, stats_of, updated_with};
use crate::stats::{Protocol, RequestKind, StatsEvent};
use crate::swarm::{selected, Peer, TorrentStats};
use crate::tracker::{advertise, advertised_ip, v4_peers, v6_peers, version_of, Tracker, MAX_PEERS};

verus! {

/// Why an HTTP request is answered with a failure.
#[derive(Clone, Copy, Debug, PartialEq, Eq, Structural)]
pub enum ServerError {
    InternalServerError,
    InvalidInfoHash,
    InvalidPeerId,
    AddressNotFound,
    TorrentNotWhitelisted,
    PeerNotAuthenticated,
    PeerKeyNotValid,
    NoPeersFound,
    BadRequest,
}

/// The failure with which HTTP answers a rejection by the tracker.
pub open spec fn server_error_of(e: TorrentError) -> ServerError {
    match e {
        TorrentError::TorrentNotWhitelisted => ServerError::TorrentNotWhitelisted,
        TorrentError::PeerNotAuthenticated => ServerError::PeerNotAuthenticated,
        TorrentError::PeerKeyNotValid => ServerError::PeerKeyNotValid,
        TorrentError::NoPeersFound => ServerError::NoPeersFound,
        TorrentError::CouldNotSendResponse => ServerError::InternalServerError,
        TorrentError::InvalidInfoHash => ServerError::InvalidInfoHash,
    }
}

/// The words of the failure reason for `e`.
pub open spec fn failure_text(e: ServerError) -> Seq<u8> {
    match e {
        ServerError::InternalServerError => "internal server error".spec_bytes(),
        ServerError::InvalidInfoHash => "info_hash is either missing or invalid".spec_bytes(),
        ServerError::InvalidPeerId => "peer_id is either missing or invalid".spec_bytes(),
        ServerError::AddressNotFound => "could not find remote address".spec_bytes(),
        ServerError::TorrentNotWhitelisted => "torrent not on whitelist".spec_bytes(),
        ServerError::PeerNotAuthenticated => "peer not authenticated".spec_bytes(),
        ServerError::PeerKeyNotValid => "invalid authentication key".spec_bytes(),
        ServerError::NoPeersFound => "torrent has no peers".spec_bytes(),
        ServerError::BadRequest => "bad request".spec_bytes(),
    }
}

impl ServerError {
    /// The failure reason, in words.
    pub fn message(&self) -> (r: &'static str)
        ensures
            r.spec_bytes() == failure_text(*self),
    {
        match self {
            ServerError::InternalServerError => "internal server error",
            ServerError::InvalidInfoHash => "info_hash is either missing or invalid",
            ServerError::InvalidPeerId => "peer_id is either missing or invalid",
            ServerError::AddressNotFound => "could not find remote address",
            ServerError::TorrentNotWhitelisted => "torrent not on whitelist",
            ServerError::PeerNotAuthenticated => "peer not authenticated",
            ServerError::PeerKeyNotValid => "invalid authentication key",
            ServerError::NoPeersFound => "torrent has no peers",
            ServerError::BadRequest => "bad request",
        }
    }
}

/// Asks the tracker whether a request for `info_hash` with `auth_key` is
/// admitted at `now`, and puts a rejection in HTTP's terms.
pub fn authenticate(info_hash: &InfoHash, auth_key: Option<&str>, tracker: &Tracker, now: u64) -> (r: Result<
    (),
    ServerError,
>)
    requires
        tracker.wf(),
    ensures
        r == http_decision(tracker, *info_hash, auth_key, now),
{
    match tracker.auth.authenticate_request(tracker.config.mode, info_hash, auth_key, now) {
        Ok(_) => Ok(()),
        Err(e) => {
            let err = match e {
                TorrentError::TorrentNotWhitelisted => ServerError::TorrentNotWhitelisted,
                TorrentError::PeerNotAuthenticated => ServerError::PeerNotAuthenticated,
                TorrentError::PeerKeyNotValid => ServerError::PeerKeyNotValid,
                TorrentError::NoPeersFound => ServerError::NoPeersFound,
                TorrentError::CouldNotSendResponse => ServerError::InternalServerError,
                TorrentError::InvalidInfoHash => ServerError::InvalidInfoHash,
            };
            Err(err)
        },
    }
}

pub open spec fn token_of(auth_key: Option<&str>) -> Option<Seq<u8>> {
    match auth_key {
        Some(k) => Some(k.spec_bytes()),
        None => None,
    }
}

/// The decision of access control on an HTTP request, in HTTP's terms.
pub open spec fn http_decision(tracker: &Tracker, info_hash: InfoHash, auth_key: Option<&str>, now: u64) -> Result<
    (),
    ServerError,
> {
    match tracker.decision(info_hash, token_of(auth_key), now) {
        Ok(_) => Ok(()),
        Err(e) => Err(server_error_of(e)),
    }
}

/// A bencoded integer: `i`, the number in decimal, `e`.
pub open spec fn ben_int(n: nat) -> Seq<u8> {
    seq![0x69u8] + decimal(n) + seq![0x65u8]
}

/// A bencoded byte string: its length in decimal, a colon, the bytes.
pub open spec fn ben_bytes(b: Seq<u8>) -> Seq<u8> {
    decimal(b.len()) + seq![0x3au8] + b
}

/// A bencoded dictionary key.
pub open spec fn ben_key(s: &str) -> Seq<u8> {
    ben_bytes(s.spec_bytes())
}

fn push_ben_int(out: &mut Vec<u8>, n: u64)
    ensures
        final(out)@ == old(out)@ + ben_int(n as nat),
{
    out.push(0x69);
    push_decimal(out, n);
    out.push(0x65);
    assert(out@ =~= old(out)@ + ben_int(n as nat));
}

fn push_ben_bytes(out: &mut Vec<u8>, b: &[u8])
    ensures
        final(out)@ == old(out)@ + ben_bytes(b@),
{
    push_decimal(out, b.len() as u64);
    out.push(0x3a);
    push_all(out, b);
    assert(out@ =~= old(out)@ + ben_bytes(b@));
}

fn push_ben_key(out: &mut Vec<u8>, s: &str)
    ensures
        final(out)@ == old(out)@ + ben_key(s),
{
    push_ben_bytes(out, s.as_bytes());
}

/// The body of a failure response with the reason `reason`.
pub open spec fn failure_body(reason: Seq<u8>) -> Seq<u8> {
    seq![0x64u8] + ben_key("failure reason") + ben_bytes(reason) + seq![0x65u8]
}

/// The body with which a failed request is answered: the failure's reason, or
/// "internal server error" where the failure is none of the tracker's own.
pub fn handle_error(r: Option<ServerError>) -> (body: Vec<u8>)
    ensures
        body@ == failure_body(
            failure_text(
                match r {
                    Some(e) => e,
                    None => ServerError::InternalServerError,
                },
            ),
        ),
{
    let reason = match r {
        Some(e) => e.message(),
        None => "internal server error",
    };
    let mut out: Vec<u8> = Vec::new();
    out.push(0x64);
    push_ben_key(&mut out, "failure reason");
    push_ben_bytes(&mut out, reason.as_bytes());
    out.push(0x65);
    assert(out@ =~= failure_body(reason.spec_bytes()));
    out
}

/// The number in the `i`-th pair of bytes of an IPv6 address.
pub open spec fn group(a: Seq<u8>, i: int) -> nat {
    (a[2 * i] * 256 + a[2 * i + 1]) as nat
}

/// The first `n` groups of an IPv6 address in hexadecimal, with colons between.
pub open spec fn hex_groups(a: Seq<u8>, n: nat) -> Seq<u8>
    decreases n,
{
    if n == 0 {
        Seq::empty()
    } else if n == 1 {
        hexadecimal(group(a, 0))
    } else {
        hex_groups(a, (n - 1) as nat) + seq![0x3au8] + hexadecimal(group(a, n - 1))
    }
}

/// An address in text: IPv4 as four decimal numbers with dots between; IPv6 as
/// eight hexadecimal groups with colons between, none of them abbreviated away.
pub open spec fn ip_text(ip: IpAddress) -> Seq<u8> {
    match ip {
        IpAddress::V4(a) => decimal(a[0] as nat) + seq![0x2eu8] + decimal(a[1] as nat) + seq![0x2eu8] + decimal(
            a[2] as nat,
        ) + seq![0x2eu8] + decimal(a[3] as nat),
        IpAddress::V6(a) => hex_groups(a@, 8),
    }
}

/// Writes an address in text.
pub fn format_ip(ip: &IpAddress) -> (r: Vec<u8>)
    ensures
        r@ == ip_text(*ip),
{
    let mut out: Vec<u8> = Vec::new();
    match ip {
        IpAddress::V4(a) => {
            push_decimal(&mut out, a[0] as u64);
            out.push(0x2e);
            push_decimal(&mut out, a[1] as u64);
            out.push(0x2e);
            push_decimal(&mut out, a[2] as u64);
            out.push(0x2e);
            push_decimal(&mut out, a[3] as u64);
            assert(out@ =~= ip_text(*ip));
        },
        IpAddress::V6(a) => {
            let mut i: usize = 0;
            while i < 8
                invariant
                    i <= 8,
                    *ip == IpAddress::V6(*a),
                    out@ == hex_groups(a@, i as nat),
                decreases 8 - i,
            {
                let ghost before = out@;
                if i > 0 {
                    out.push(0x3a);
                }
                let g: u64 = (a[2 * i] as u64) * 256 + (a[2 * i + 1] as u64);
                push_hexadecimal(&mut out, g);
                proof {
                    assert(g == group(a@, i as int));
                    if i == 0 {
                        assert(out@ =~= hexadecimal(group(a@, 0)));
                    } else {
                        assert(out@ =~= before + seq![0x3au8] + hexadecimal(group(a@, i as int)));
                    }
                }
                i += 1;
            }
        },
    }
    out
}

/// One peer of the long form: a dictionary of its address in text, its peer id
/// and its port.
pub open spec fn peer_dict(p: Peer) -> Seq<u8> {
    seq![0x64u8] + ben_key("ip") + ben_bytes(ip_text(p.peer_addr.ip)) + ben_key("peer id") + ben_bytes(
        p.peer_id@,
    ) + ben_key("port") + ben_int(p.peer_addr.port as nat) + seq![0x65u8]
}

pub open spec fn peer_dicts(peers: Seq<Peer>) -> Seq<u8>
    decreases peers.len(),
{
    if peers.len() == 0 {
        Seq::empty()
    } else {
        peer_dicts(peers.drop_last()) + peer_dict(peers.last())
    }
}

/// What every announce response starts with: the counters and the interval.
pub open spec fn announce_head(interval: u32, stats: TorrentStats) -> Seq<u8> {
    seq![0x64u8] + ben_key("complete") + ben_int(stats.seeders as nat) + ben_key("incomplete") + ben_int(
        stats.leechers as nat,
    ) + ben_key("interval") + ben_int(interval as nat)
}

/// The long form of an announce response: every peer as a dictionary.
pub open spec fn announce_body(interval: u32, stats: TorrentStats, peers: Seq<Peer>) -> Seq<u8> {
    announce_head(interval, stats) + ben_key("peers") + seq![0x6cu8] + peer_dicts(peers) + seq![0x65u8, 0x65u8]
}

/// The compact form of an announce response: the peers of the requester's
/// family as one byte string, under `peers` for IPv4 and `peers6` for IPv6.
pub open spec fn compact_body(interval: u32, stats: TorrentStats, peers: Seq<Peer>, requester: IpAddress) -> Seq<
    u8,
> {
    if requester is V4 {
        announce_head(interval, stats) + ben_key("peers") + ben_bytes(compact_v4(v4_peers(peers))) + seq![
            0x65u8,
        ]
    } else {
        announce_head(interval, stats) + ben_key("peers6") + ben_bytes(compact_v6(v6_peers(peers))) + seq![
            0x65u8,
        ]
    }
}

fn push_announce_head(out: &mut Vec<u8>, interval: u32, stats: &TorrentStats)
    requires
        old(out)@.len() == 0,
    ensures
        final(out)@ == announce_head(interval, *stats),
{
    out.push(0x64);
    push_ben_key(out, "complete");
    push_ben_int(out, stats.seeders);
    push_ben_key(out, "incomplete");
    push_ben_int(out, stats.leechers);
    push_ben_key(out, "interval");
    push_ben_int(out, interval as u64);
    assert(out@ =~= announce_head(interval, *stats));
}

fn push_peer_dict(out: &mut Vec<u8>, p: &Peer)
    ensures
        final(out)@ == old(out)@ + peer_dict(*p),
{
    out.push(0x64);
    push_ben_key(out, "ip");
    let text = format_ip(&p.peer_addr.ip);
    push_ben_bytes(out, text.as_slice());
    push_ben_key(out, "peer id");
    push_ben_bytes(out, vstd::array::array_as_slice(&p.peer_id.0));
    push_ben_key(out, "port");
    push_ben_int(out, p.peer_addr.port as u64);
    out.push(0x65);
    assert(out@ =~= old(out)@ + peer_dict(*p));
}

} // verus!

verus! {

/// An announce, as read from the query of a `GET /announce`.
#[derive(Clone, Copy, Debug)]
pub struct AnnounceRequest {
    pub info_hash: InfoHash,
    /// The address that the request came from.
    pub peer_addr: SocketAddress,
    /// The first address of `X-Forwarded-For`, if the header was there.
    pub forwarded_ip: Option<IpAddress>,
    pub downloaded: u64,
    pub uploaded: u64,
    pub peer_id: PeerId,
    pub port: u16,
    pub left: u64,
    pub event: AnnounceEvent,
    pub compact: Option<u8>,
    pub numwant: Option<u32>,
}

/// A scrape, as read from the query of a `GET /scrape`.
#[derive(Debug)]
pub struct ScrapeRequest {
    pub info_hashes: Vec<InfoHash>,
    pub forwarded_ip: Option<IpAddress>,
    pub remote_addr: SocketAddress,
}

/// What comes of a request that was served: the body of the response, and the
/// event to report to the statistics.
#[derive(Debug)]
pub struct HttpOutcome {
    pub body: Vec<u8>,
    pub event: StatsEvent,
}

/// The address that a request is taken to come from: behind a reverse proxy
/// the forwarded one, which then has to be there; else the one it came from.
pub open spec fn client_ip(on_reverse_proxy: bool, forwarded: Option<IpAddress>, remote: IpAddress) -> Result<
    IpAddress,
    ServerError,
> {
    if on_reverse_proxy {
        match forwarded {
            Some(ip) => Ok(ip),
            None => Err(ServerError::AddressNotFound),
        }
    } else {
        Ok(remote)
    }
}

fn select_client_ip(on_reverse_proxy: bool, forwarded: &Option<IpAddress>, remote: &IpAddress) -> (r: Result<
    IpAddress,
    ServerError,
>)
    ensures
        r == client_ip(on_reverse_proxy, *forwarded, *remote),
{
    if on_reverse_proxy {
        match forwarded {
            Some(ip) => Ok(*ip),
            None => Err(ServerError::AddressNotFound),
        }
    } else {
        Ok(*remote)
    }
}

/// How many peers an announce with this `numwant` is answered with at most.
pub open spec fn http_peer_limit(numwant: Option<u32>) -> nat {
    match numwant {
        Some(n) if n <= MAX_PEERS => n as nat,
        _ => MAX_PEERS as nat,
    }
}

/// The record of the peer that sent `request`, taken to come from `ip`, at `now`.
pub open spec fn http_announce_peer(request: AnnounceRequest, ip: IpAddress, external: Option<IpAddress>, now: u64) -> Peer {
    Peer {
        peer_id: request.peer_id,
        peer_addr: SocketAddress { ip: advertised_ip(ip, external), port: request.port },
        updated_at: now,
        uploaded: request.uploaded,
        downloaded: request.downloaded,
        left: request.left,
        event: request.event,
    }
}

/// The body of the response to an announce: compact where the request asks
/// for it with `compact=1`, else the long form.
pub open spec fn announce_response_body(
    request: AnnounceRequest,
    stats: TorrentStats,
    peers: Seq<Peer>,
    interval: u32,
    requester: IpAddress,
) -> Seq<u8> {
    if request.compact == Some(1u8) {
        compact_body(interval, stats, peers, requester)
    } else {
        announce_body(interval, stats, peers)
    }
}

/// Writes the response to an announce.
pub fn send_announce_response(
    announce_request: &AnnounceRequest,
    torrent_stats: TorrentStats,
    peers: &Vec<Peer>,
    interval: u32,
    requester: &IpAddress,
) -> (body: Vec<u8>)
    ensures
        body@ == announce_response_body(*announce_request, torrent_stats, peers@, interval, *requester),
{
    let mut out: Vec<u8> = Vec::new();
    push_announce_head(&mut out, interval, &torrent_stats);
    let compact = match announce_request.compact {
        Some(c) => c == 1,
        None => false,
    };
    if compact {
        match requester {
            IpAddress::V4(_) => {
                push_ben_key(&mut out, "peers");
                let bytes = encode_compact_v4(&crate::tracker::only_v4(peers));
                push_ben_bytes(&mut out, bytes.as_slice());
            },
            IpAddress::V6(_) => {
                push_ben_key(&mut out, "peers6");
                let bytes = encode_compact_v6(&crate::tracker::only_v6(peers));
                push_ben_bytes(&mut out, bytes.as_slice());
            },
        }
        out.push(0x65);
        assert(out@ =~= compact_body(interval, torrent_stats, peers@, *requester));
    } else {
        push_ben_key(&mut out, "peers");
        out.push(0x6c);
        let ghost head = out@;
        let mut i: usize = 0;
        assert(peers@.subrange(0, 0) =~= Seq::<Peer>::empty());
        assert(out@ =~= head + peer_dicts(peers@.subrange(0, 0)));
        while i < peers.len()
            invariant
                i <= peers@.len(),
                out@ == head + peer_dicts(peers@.subrange(0, i as int)),
            decreases peers@.len() - i,
        {
            proof {
                let s = peers@;
                assert(s.subrange(0, i + 1).drop_last() =~= s.subrange(0, i as int));
                assert(s.subrange(0, i + 1).last() == s[i as int]);
            }
            push_peer_dict(&mut out, &peers[i]);
            assert(out@ =~= head + peer_dicts(peers@.subrange(0, i + 1)));
            i += 1;
        }
        assert(peers@.subrange(0, i as int) =~= peers@);
        out.push(0x65);
        out.push(0x65);
        assert(out@ =~= announce_body(interval, torrent_stats, peers@));
    }
    out
}

/// Whether `after` and `r` are what the announce `request` makes of `before`.
pub open spec fn announce_outcome(
    before: &Tracker,
    after: &Tracker,
    request: AnnounceRequest,
    auth_key: Option<&str>,
    now: u64,
    seed: u64,
    r: Result<HttpOutcome, ServerError>,
) -> bool {
    let gate = http_decision(before, request.info_hash, auth_key, now);
    let ip = client_ip(before.config.on_reverse_proxy, request.forwarded_ip, request.peer_addr.ip);
    if gate is Err {
        after.torrents@ == before.torrents@ && r is Err && r->Err_0 == gate->Err_0
    } else if ip is Err {
        after.torrents@ == before.torrents@ && r is Err && r->Err_0 == ServerError::AddressNotFound
    } else {
        let peer = http_announce_peer(request, ip->Ok_0, before.config.external_ip, now);
        &&& updated_with(before.torrents@, after.torrents@, request.info_hash, peer)
        &&& r is Ok
        &&& r->Ok_0.event == (StatsEvent {
            protocol: Protocol::Tcp,
            ip_version: version_of(ip->Ok_0),
            kind: RequestKind::Announce,
        })
        &&& r->Ok_0.body@ == announce_response_body(
            request,
            stats_of(after.torrents@, request.info_hash),
            selected(
                peers_of(after.torrents@, request.info_hash),
                peer.peer_addr,
                http_peer_limit(request.numwant),
                seed,
            ),
            before.config.announce_interval,
            ip->Ok_0,
        )
    }
}

/// Handles an announce: asks access control, finds the address of the client, records
/// the peer, and answers with the swarm's counters and some of its peers.
pub fn handle_announce(
    announce_request: &AnnounceRequest,
    auth_key: Option<&str>,
    tracker: &mut Tracker,
    now: u64,
    seed: u64,
) -> (r: Result<HttpOutcome, ServerError>)
    requires
        old(tracker).wf(),
    ensures
        final(tracker).wf(),
        final(tracker).same_setup_as(old(tracker)),
        announce_outcome(old(tracker), final(tracker), *announce_request, auth_key, now, seed, r),
{
    if let Err(e) = authenticate(&announce_request.info_hash, auth_key, tracker, now) {
        return Err(e);
    }
    let peer_ip = match select_client_ip(
        tracker.config.on_reverse_proxy,
        &announce_request.forwarded_ip,
        &announce_request.peer_addr.ip,
    ) {
        Ok(ip) => ip,
        Err(e) => {
            return Err(e);
        },
    };
    let peer = Peer {
        peer_id: announce_request.peer_id,
        peer_addr: SocketAddress { ip: advertise(&peer_ip, &tracker.config.external_ip), port: announce_request.port },
        updated_at: now,
        uploaded: announce_request.uploaded,
        downloaded: announce_request.downloaded,
        left: announce_request.left,
        event: announce_request.event,
    };
    let (torrent_stats, _) = tracker.torrents.update_with_peer(&announce_request.info_hash, peer);
    let limit: usize = match announce_request.numwant {
        Some(n) => if n <= MAX_PEERS as u32 {
            n as usize
        } else {
            MAX_PEERS
        },
        None => MAX_PEERS,
    };
    // every peer but the client itself
    let peers = tracker.torrents.get_peers(&announce_request.info_hash, &peer.peer_addr, limit, seed);
    let event = StatsEvent {
        protocol: Protocol::Tcp,
        ip_version: crate::tracker::version(&peer_ip),
        kind: RequestKind::Announce,
    };
    let announce_interval = tracker.config.announce_interval;
    let body = send_announce_response(announce_request, torrent_stats, &peers, announce_interval, &peer_ip);
    Ok(HttpOutcome { body, event })
}

/// The counters of one torrent in a scrape response.
#[derive(Clone, Copy, Debug, PartialEq, Eq, Structural)]
pub struct ScrapeResponseEntry {
    pub complete: u64,
    pub downloaded: u64,
    pub incomplete: u64,
}

pub open spec fn entry_of(stats: TorrentStats) -> ScrapeResponseEntry {
    ScrapeResponseEntry { complete: stats.seeders, downloaded: stats.completed, incomplete: stats.leechers }
}

/// `files` with the entry for `h` put in its place by the order of the
/// info-hashes; unchanged where `h` has an entry already.
pub open spec fn with_file(files: Seq<(InfoHash, ScrapeResponseEntry)>, h: InfoHash, e: ScrapeResponseEntry) -> Seq<
    (InfoHash, ScrapeResponseEntry),
>
    decreases files.len(),
{
    if files.len() == 0 {
        seq![(h, e)]
    } else if lex_less(files.last().0@, h@) {
        files.push((h, e))
    } else if files.last().0 == h {
        files
    } else {
        with_file(files.drop_last(), h, e).push(files.last())
    }
}

/// The files of the response to a scrape of `hashes`: an entry for each hash
/// that access control admits, in the order of the hashes, each hash once.
pub open spec fn scrape_files(tracker: &Tracker, hashes: Seq<InfoHash>, auth_key: Option<&str>, now: u64) -> Seq<
    (InfoHash, ScrapeResponseEntry),
>
    decreases hashes.len(),
{
    if hashes.len() == 0 {
        Seq::empty()
    } else {
        let rest = scrape_files(tracker, hashes.drop_last(), auth_key, now);
        let h = hashes.last();
        if http_decision(tracker, h, auth_key, now) is Ok {
            with_file(rest, h, entry_of(stats_of(tracker.torrents@, h)))
        } else {
            rest
        }
    }
}

/// Where the tail of `files` sorts after `h`, the entry for `h` goes in front of it.
proof fn lemma_with_file_skips_tail(files: Seq<(InfoHash, ScrapeResponseEntry)>, at: int, h: InfoHash, e: ScrapeResponseEntry)
    requires
        0 <= at <= files.len(),
        forall|k: int| at <= k < files.len() ==> !lex_less((#[trigger] files[k]).0@, h@) && files[k].0 != h,
    ensures
        with_file(files, h, e) == with_file(files.subrange(0, at), h, e) + files.subrange(at, files.len() as int),
    decreases files.len() - at,
{
    if at == files.len() {
        assert(files.subrange(0, at) =~= files);
        assert(with_file(files, h, e) + files.subrange(at, files.len() as int) =~= with_file(files, h, e));
    } else {
        let d = files.drop_last();
        assert(!lex_less(files[files.len() - 1].0@, h@) && files[files.len() - 1].0 != h);
        assert forall|k: int| at <= k < d.len() implies !lex_less((#[trigger] d[k]).0@, h@) && d[k].0 != h by {
            assert(d[k] == files[k]);
        }
        lemma_with_file_skips_tail(d, at, h, e);
        assert(d.subrange(0, at) =~= files.subrange(0, at));
        assert((with_file(d.subrange(0, at), h, e) + d.subrange(at, d.len() as int)).push(files.last())
            =~= with_file(files.subrange(0, at), h, e) + files.subrange(at, files.len() as int));
    }
}

fn insert_file(files: &mut Vec<(InfoHash, ScrapeResponseEntry)>, h: InfoHash, e: ScrapeResponseEntry)
    ensures
        final(files)@ == with_file(old(files)@, h, e),
{
    let mut at: usize = files.len();
    while at > 0 && !files[at - 1].0.less_than(&h) && !files[at - 1].0.same(&h)
        invariant
            at <= files@.len(),
            files@ == old(files)@,
            forall|k: int| at <= k < files@.len() ==> !lex_less((#[trigger] files@[k]).0@, h@) && files@[k].0 != h,
        decreases at,
    {
        at -= 1;
    }
    proof {
        lemma_with_file_skips_tail(files@, at as int, h, e);
        let head = files@.subrange(0, at as int);
        if at > 0 {
            assert(head.last() == files@[at - 1]);
        }
    }
    if at > 0 && files[at - 1].0.same(&h) {
        proof {
            let head = files@.subrange(0, at as int);
            assert(!lex_less(head.last().0@, h@)) by {
                crate::primitives::lemma_lex_less_irreflexive(h@);
            }
            assert(head + files@.subrange(at as int, files@.len() as int) =~= files@);
        }
        return ;
    }
    let ghost before = files@;
    files.insert(at, (h, e));
    proof {
        let head = before.subrange(0, at as int);
        assert(with_file(head, h, e) =~= head.push((h, e)));
        assert(files@ =~= head.push((h, e)) + before.subrange(at as int, before.len() as int));
    }
}

/// One file of a scrape response: the raw info-hash, then its counters.
pub open spec fn file_entry(h: InfoHash, e: ScrapeResponseEntry) -> Seq<u8> {
    ben_bytes(h@) + seq![0x64u8] + ben_key("complete") + ben_int(e.complete as nat) + ben_key("downloaded")
        + ben_int(e.downloaded as nat) + ben_key("incomplete") + ben_int(e.incomplete as nat) + seq![0x65u8]
}

pub open spec fn file_entries(files: Seq<(InfoHash, ScrapeResponseEntry)>) -> Seq<u8>
    decreases files.len(),
{
    if files.len() == 0 {
        Seq::empty()
    } else {
        file_entries(files.drop_last()) + file_entry(files.last().0, files.last().1)
    }
}

/// The body of a scrape response.
pub open spec fn scrape_body(files: Seq<(InfoHash, ScrapeResponseEntry)>) -> Seq<u8> {
    seq![0x64u8] + ben_key("files") + seq![0x64u8] + file_entries(files) + seq![0x65u8, 0x65u8]
}

/// Writes the response to a scrape.
pub fn send_scrape_response(files: &Vec<(InfoHash, ScrapeResponseEntry)>) -> (body: Vec<u8>)
    ensures
        body@ == scrape_body(files@),
{
    let mut out: Vec<u8> = Vec::new();
    out.push(0x64);
    push_ben_key(&mut out, "files");
    out.push(0x64);
    let ghost head = out@;
    let mut i: usize = 0;
    assert(files@.subrange(0, 0) =~= Seq::<(InfoHash, ScrapeResponseEntry)>::empty());
    assert(out@ =~= head + file_entries(files@.subrange(0, 0)));
    while i < files.len()
        invariant
            i <= files@.len(),
            out@ == head + file_entries(files@.subrange(0, i as int)),
        decreases files@.len() - i,
    {
        proof {
            let s = files@;
            assert(s.subrange(0, i + 1).drop_last() =~= s.subrange(0, i as int));
            assert(s.subrange(0, i + 1).last() == s[i as int]);
        }
        let ghost before = out@;
        let f = &files[i];
        push_ben_bytes(&mut out, vstd::array::array_as_slice(&f.0.0));
        out.push(0x64);
        push_ben_key(&mut out, "complete");
        push_ben_int(&mut out, f.1.complete);
        push_ben_key(&mut out, "downloaded");
        push_ben_int(&mut out, f.1.downloaded);
        push_ben_key(&mut out, "incomplete");
        push_ben_int(&mut out, f.1.incomplete);
        out.push(0x65);
        assert(out@ =~= before + file_entry(f.0, f.1));
        assert(out@ =~= head + file_entries(files@.subrange(0, i + 1)));
        i += 1;
    }
    assert(files@.subrange(0, i as int) =~= files@);
    out.push(0x65);
    out.push(0x65);
    assert(out@ =~= scrape_body(files@));
    out
}

/// What a scrape is answered with.
pub open spec fn scrape_outcome(tracker: &Tracker, request: ScrapeRequest, auth_key: Option<&str>, now: u64) -> Result<
    (Seq<u8>, StatsEvent),
    ServerError,
> {
    match client_ip(tracker.config.on_reverse_proxy, request.forwarded_ip, request.remote_addr.ip) {
        Err(e) => Err(e),
        Ok(ip) => Ok(
            (
                scrape_body(scrape_files(tracker, request.info_hashes@, auth_key, now)),
                StatsEvent { protocol: Protocol::Tcp, ip_version: version_of(ip), kind: RequestKind::Scrape },
            ),
        ),
    }
}

/// Handles a scrape: reports the counters of every torrent asked for that the
/// gate admits, and leaves out the others.
pub fn handle_scrape(scrape_request: &ScrapeRequest, auth_key: Option<&str>, tracker: &Tracker, now: u64) -> (r:
    Result<HttpOutcome, ServerError>)
    requires
        tracker.wf(),
    ensures
        match scrape_outcome(tracker, *scrape_request, auth_key, now) {
            Ok(o) => r is Ok && r->Ok_0.body@ == o.0 && r->Ok_0.event == o.1,
            Err(e) => r is Err && r->Err_0 == e,
        },
{
    let ip = match select_client_ip(
        tracker.config.on_reverse_proxy,
        &scrape_request.forwarded_ip,
        &scrape_request.remote_addr.ip,
    ) {
        Ok(ip) => ip,
        Err(e) => {
            return Err(e);
        },
    };
    let mut files: Vec<(InfoHash, ScrapeResponseEntry)> = Vec::new();
    let mut i: usize = 0;
    assert(scrape_request.info_hashes@.subrange(0, 0) =~= Seq::<InfoHash>::empty());
    while i < scrape_request.info_hashes.len()
        invariant
            i <= scrape_request.info_hashes@.len(),
            tracker.wf(),
            files@ == scrape_files(tracker, scrape_request.info_hashes@.subrange(0, i as int), auth_key, now),
        decreases scrape_request.info_hashes@.len() - i,
    {
        proof {
            let s = scrape_request.info_hashes@;
            assert(s.subrange(0, i + 1).drop_last() =~= s.subrange(0, i as int));
            assert(s.subrange(0, i + 1).last() == s[i as int]);
        }
        let info_hash = scrape_request.info_hashes[i];
        // every info-hash is put to access control on its own
        if authenticate(&info_hash, auth_key, tracker, now).is_ok() {
            let stats = tracker.torrents.get_stats(&info_hash);
            let scrape_entry = ScrapeResponseEntry {
                complete: stats.seeders,
                downloaded: stats.completed,
                incomplete: stats.leechers,
            };
            insert_file(&mut files, info_hash, scrape_entry);
        }
        i += 1;
    }
    assert(scrape_request.info_hashes@.subrange(0, i as int) =~= scrape_request.info_hashes@);
    let event = StatsEvent { protocol: Protocol::Tcp, ip_version: crate::tracker::version(&ip), kind: RequestKind::Scrape };
    Ok(HttpOutcome { body: send_scrape_response(&files), event })
}

} // verus!

verus! {

/// The longest query string that is read.
pub const MAX_QUERY_LENGTH: usize = 8192;

/// The info-hash of an announce: there is exactly one `info_hash` parameter,
/// and it stands for twenty bytes.
pub open spec fn single_hash(values: Seq<Seq<u8>>) -> Option<Seq<u8>> {
    if values.len() == 1 {
        twenty_bytes(values[0])
    } else {
        None
    }
}

/// The twenty bytes that `value` stands for, percent-decoded.
pub open spec fn twenty_bytes(value: Seq<u8>) -> Option<Seq<u8>> {
    match percent_decoded(value) {
        Some(b) if b.len() == 20 => Some(b),
        _ => None,
    }
}

/// The twenty bytes of the first of `values`.
pub open spec fn first_twenty_bytes(values: Seq<Seq<u8>>) -> Option<Seq<u8>> {
    if values.len() >= 1 {
        twenty_bytes(values[0])
    } else {
        None
    }
}

/// The number, at most `max`, that the first of `values` spells.
pub open spec fn number_field(values: Seq<Seq<u8>>, max: u64) -> Option<u64> {
    if values.len() >= 1 {
        decimal_number(values[0], max)
    } else {
        None
    }
}

/// The event that the first of `values` names; a periodic announce where there
/// is none or it is empty.
pub open spec fn event_field(values: Seq<Seq<u8>>) -> Option<AnnounceEvent> {
    if values.len() == 0 || values[0].len() == 0 {
        Some(AnnounceEvent::Periodic)
    } else if values[0] == "started".spec_bytes() {
        Some(AnnounceEvent::Started)
    } else if values[0] == "completed".spec_bytes() {
        Some(AnnounceEvent::Completed)
    } else if values[0] == "stopped".spec_bytes() {
        Some(AnnounceEvent::Stopped)
    } else {
        None
    }
}

/// A number that may be left out: nothing where there is no value, the number
/// where the first value spells one of at most `max`.
pub open spec fn optional_number(values: Seq<Seq<u8>>, max: u64) -> Option<Option<u64>> {
    if values.len() == 0 {
        Some(None)
    } else {
        match decimal_number(values[0], max) {
            Some(n) => Some(Some(n)),
            None => None,
        }
    }
}

pub open spec fn param(q: Seq<u8>, name: &str) -> Seq<Seq<u8>> {
    values_of(q, name.spec_bytes())
}

/// What is wrong with the query of an announce, if anything.
pub open spec fn announce_query_error(q: Seq<u8>) -> Option<ServerError> {
    if q.len() > MAX_QUERY_LENGTH {
        Some(ServerError::BadRequest)
    } else if single_hash(param(q, "info_hash")) is None {
        Some(ServerError::InvalidInfoHash)
    } else if first_twenty_bytes(param(q, "peer_id")) is None {
        Some(ServerError::InvalidPeerId)
    } else if number_field(param(q, "port"), 65535) is None || number_field(param(q, "uploaded"), u64::MAX) is None
        || number_field(param(q, "downloaded"), u64::MAX) is None || number_field(param(q, "left"), u64::MAX) is None
        || event_field(param(q, "event")) is None || optional_number(param(q, "compact"), 1) is None
        || optional_number(param(q, "numwant"), 0xffff_ffff) is None {
        Some(ServerError::BadRequest)
    } else {
        None
    }
}

/// Whether `r` is the announce that the query `q` spells, for a request that
/// came from `peer_addr` with `forwarded_ip` in its header.
pub open spec fn is_announce_query_of(
    q: Seq<u8>,
    peer_addr: SocketAddress,
    forwarded_ip: Option<IpAddress>,
    r: AnnounceRequest,
) -> bool {
    &&& Some(r.info_hash@) == single_hash(param(q, "info_hash"))
    &&& Some(r.peer_id@) == first_twenty_bytes(param(q, "peer_id"))
    &&& Some(r.port as u64) == number_field(param(q, "port"), 65535)
    &&& Some(r.uploaded) == number_field(param(q, "uploaded"), u64::MAX)
    &&& Some(r.downloaded) == number_field(param(q, "downloaded"), u64::MAX)
    &&& Some(r.left) == number_field(param(q, "left"), u64::MAX)
    &&& Some(r.event) == event_field(param(q, "event"))
    &&& optional_number(param(q, "compact"), 1) == Some(
        match r.compact {
            Some(c) => Some(c as u64),
            None => None,
        },
    )
    &&& optional_number(param(q, "numwant"), 0xffff_ffff) == Some(
        match r.numwant {
            Some(n) => Some(n as u64),
            None => None,
        },
    )
    &&& r.peer_addr == peer_addr
    &&& r.forwarded_ip == forwarded_ip
}

fn decode_twenty(query: &[u8], range: (usize, usize)) -> (r: Option<[u8; 20]>)
    requires
        range.0 <= range.1 <= query@.len(),
    ensures
        match r {
            Some(a) => twenty_bytes(query@.subrange(range.0 as int, range.1 as int)) == Some(a@),
            None => twenty_bytes(query@.subrange(range.0 as int, range.1 as int)) is None,
        },
{
    match percent_decode(query, range.0, range.1) {
        Some(bytes) => {
            if bytes.len() == 20 {
                let a = crate::primitives::take20(bytes.as_slice(), 0);
                assert(bytes@.subrange(0, 20) =~= bytes@);
                Some(a)
            } else {
                None
            }
        },
        None => None,
    }
}

fn read_number(query: &[u8], name: &str, max: u64) -> (r: Option<u64>)
    ensures
        r == number_field(param(query@, name), max),
{
    let found = find_values(query, name.as_bytes());
    if found.len() == 0 {
        return None;
    }
    let range = found[0];
    parse_decimal(query, range.0, range.1, max)
}

fn read_optional_number(query: &[u8], name: &str, max: u64) -> (r: Option<Option<u64>>)
    ensures
        r == optional_number(param(query@, name), max),
{
    let found = find_values(query, name.as_bytes());
    if found.len() == 0 {
        return Some(None);
    }
    let range = found[0];
    match parse_decimal(query, range.0, range.1, max) {
        Some(n) => Some(Some(n)),
        None => None,
    }
}

fn read_event(query: &[u8]) -> (r: Option<AnnounceEvent>)
    ensures
        r == event_field(param(query@, "event")),
{
    let found = find_values(query, "event".as_bytes());
    if found.len() == 0 {
        return Some(AnnounceEvent::Periodic);
    }
    let range = found[0];
    if range.0 == range.1 {
        Some(AnnounceEvent::Periodic)
    } else if range_is(query, range.0, range.1, "started".as_bytes()) {
        Some(AnnounceEvent::Started)
    } else if range_is(query, range.0, range.1, "completed".as_bytes()) {
        Some(AnnounceEvent::Completed)
    } else if range_is(query, range.0, range.1, "stopped".as_bytes()) {
        Some(AnnounceEvent::Stopped)
    } else {
        None
    }
}

/// Reads an announce from the query string of a request that came from
/// `peer_addr` with `forwarded_ip` in its header.
pub fn parse_announce_query(query: &[u8], peer_addr: SocketAddress, forwarded_ip: Option<IpAddress>) -> (r: Result<
    AnnounceRequest,
    ServerError,
>)
    ensures
        match r {
            Ok(request) => announce_query_error(query@) is None && is_announce_query_of(
                query@,
                peer_addr,
                forwarded_ip,
                request,
            ),
            Err(e) => announce_query_error(query@) == Some(e),
        },
{
    if query.len() > MAX_QUERY_LENGTH {
        return Err(ServerError::BadRequest);
    }
    let hashes = find_values(query, "info_hash".as_bytes());
    if hashes.len() != 1 {
        return Err(ServerError::InvalidInfoHash);
    }
    let info_hash = match decode_twenty(query, hashes[0]) {
        Some(a) => InfoHash(a),
        None => {
            return Err(ServerError::InvalidInfoHash);
        },
    };
    let ids = find_values(query, "peer_id".as_bytes());
    if ids.len() == 0 {
        return Err(ServerError::InvalidPeerId);
    }
    let peer_id = match decode_twenty(query, ids[0]) {
        Some(a) => PeerId(a),
        None => {
            return Err(ServerError::InvalidPeerId);
        },
    };
    let port = read_number(query, "port", 65535);
    let uploaded = read_number(query, "uploaded", u64::MAX);
    let downloaded = read_number(query, "downloaded", u64::MAX);
    let left = read_number(query, "left", u64::MAX);
    let event = read_event(query);
    let compact = read_optional_number(query, "compact", 1);
    let numwant = read_optional_number(query, "numwant", 0xffff_ffff);
    match (port, uploaded, downloaded, left, event, compact, numwant) {
        (Some(port), Some(uploaded), Some(downloaded), Some(left), Some(event), Some(compact), Some(numwant)) => Ok(
            AnnounceRequest {
                info_hash,
                peer_addr,
                forwarded_ip,
                downloaded,
                uploaded,
                peer_id,
                port: port as u16,
                left,
                event,
                compact: match compact {
                    Some(c) => Some(c as u8),
                    None => None,
                },
                numwant: match numwant {
                    Some(n) => Some(n as u32),
                    None => None,
                },
            },
        ),
        _ => Err(ServerError::BadRequest),
    }
}

/// Whether every one of `values` stands for the twenty bytes of an info-hash,
/// and there is at least one.
pub open spec fn hashes_ok(values: Seq<Seq<u8>>) -> bool {
    values.len() > 0 && forall|k: int| 0 <= k < values.len() ==> twenty_bytes(#[trigger] values[k]) is Some
}

/// What is wrong with the query of a scrape, if anything.
pub open spec fn scrape_query_error(q: Seq<u8>) -> Option<ServerError> {
    if q.len() > MAX_QUERY_LENGTH {
        Some(ServerError::BadRequest)
    } else if !hashes_ok(param(q, "info_hash")) {
        Some(ServerError::InvalidInfoHash)
    } else {
        None
    }
}

/// Whether `r` is the scrape that the query `q` spells.
pub open spec fn is_scrape_query_of(
    q: Seq<u8>,
    remote_addr: SocketAddress,
    forwarded_ip: Option<IpAddress>,
    r: ScrapeRequest,
) -> bool {
    &&& r.info_hashes@.len() == param(q, "info_hash").len()
    &&& forall|k: int|
        0 <= k < r.info_hashes@.len() ==> Some((#[trigger] r.info_hashes@[k])@) == twenty_bytes(
            param(q, "info_hash")[k],
        )
    &&& r.remote_addr == remote_addr
    &&& r.forwarded_ip == forwarded_ip
}

/// Reads a scrape from the query string of a request that came from
/// `remote_addr` with `forwarded_ip` in its header.
pub fn parse_scrape_query(query: &[u8], remote_addr: SocketAddress, forwarded_ip: Option<IpAddress>) -> (r: Result<
    ScrapeRequest,
    ServerError,
>)
    ensures
        match r {
            Ok(request) => scrape_query_error(query@) is None && is_scrape_query_of(
                query@,
                remote_addr,
                forwarded_ip,
                request,
            ),
            Err(e) => scrape_query_error(query@) == Some(e),
        },
{
    if query.len() > MAX_QUERY_LENGTH {
        return Err(ServerError::BadRequest);
    }
    let found = find_values(query, "info_hash".as_bytes());
    if found.len() == 0 {
        return Err(ServerError::InvalidInfoHash);
    }
    let ghost values = param(query@, "info_hash");
    let mut info_hashes: Vec<InfoHash> = Vec::new();
    let mut i: usize = 0;
    while i < found.len()
        invariant
            i <= found@.len() == values.len(),
            values.len() > 0,
            query@.len() <= MAX_QUERY_LENGTH,
            values == param(query@, "info_hash"),
            forall|k: int|
                0 <= k < found@.len() ==> (#[trigger] found@[k]).0 <= found@[k].1 <= query@.len() && query@.subrange(
                    found@[k].0 as int,
                    found@[k].1 as int,
                ) == values[k],
            info_hashes@.len() == i,
            forall|k: int| 0 <= k < i ==> Some((#[trigger] info_hashes@[k])@) == twenty_bytes(values[k]),
        decreases found@.len() - i,
    {
        let range = found[i];
        match decode_twenty(query, range) {
            Some(a) => {
                info_hashes.push(InfoHash(a));
            },
            None => {
                assert(twenty_bytes(values[i as int]) is None);
                return Err(ServerError::InvalidInfoHash);
            },
        }
        i += 1;
    }
    proof {
        assert forall|k: int| 0 <= k < values.len() implies twenty_bytes(#[trigger] values[k]) is Some by {
            assert(Some(info_hashes@[k]@) == twenty_bytes(values[k]));
        }
    }
    Ok(ScrapeRequest { info_hashes, forwarded_ip, remote_addr })
}

/// The two endpoints of the HTTP tracker.
#[derive(Clone, Copy, Debug, PartialEq, Eq, Structural)]
pub enum Endpoint {
    Announce,
    Scrape,
}

/// Where a request goes: the endpoint, and the auth key that the path carries
/// ahead of it, if it carries one.
#[derive(Clone, Copy, Debug, PartialEq, Eq, Structural)]
pub struct Route {
    pub endpoint: Endpoint,
    /// Whether the thirty-two bytes after the first slash are an auth key.
    pub has_key: bool,
}

/// Where the path `p` leads: `/announce` and `/scrape`, each also behind a
/// first segment of thirty-two bytes, which is then the auth key.
pub open spec fn route_of(p: Seq<u8>) -> Option<Route> {
    if p == "/announce".spec_bytes() {
        Some(Route { endpoint: Endpoint::Announce, has_key: false })
    } else if p == "/scrape".spec_bytes() {
        Some(Route { endpoint: Endpoint::Scrape, has_key: false })
    } else if p.len() > 33 && p[0] == 0x2f && index_of(p.subrange(1, 33), 0x2f) == 32 {
        if p.skip(33) == "/announce".spec_bytes() {
            Some(Route { endpoint: Endpoint::Announce, has_key: true })
        } else if p.skip(33) == "/scrape".spec_bytes() {
            Some(Route { endpoint: Endpoint::Scrape, has_key: true })
        } else {
            None
        }
    } else {
        None
    }
}

/// Finds the endpoint that a path leads to. Where the route has a key, the key
/// is the bytes 1 to 32 of the path.
pub fn route(path: &[u8]) -> (r: Option<Route>)
    ensures
        r == route_of(path@),
{
    let len = path.len();
    assert(path@.subrange(0, len as int) =~= path@);
    if range_is(path, 0, len, "/announce".as_bytes()) {
        return Some(Route { endpoint: Endpoint::Announce, has_key: false });
    }
    if range_is(path, 0, len, "/scrape".as_bytes()) {
        return Some(Route { endpoint: Endpoint::Scrape, has_key: false });
    }
    if len <= 33 || path[0] != 0x2f {
        return None;
    }
    let slash = find_byte(path, 1, 0x2f);
    proof {
        crate::query::lemma_index_in_prefix(path@.skip(1), 32, 0x2f);
        assert(path@.skip(1).take(32) =~= path@.subrange(1, 33));
        assert(path@.subrange(33, len as int) =~= path@.skip(33));
    }
    if slash < 33 {
        return None;
    }
    if range_is(path, 33, len, "/announce".as_bytes()) {
        Some(Route { endpoint: Endpoint::Announce, has_key: true })
    } else if range_is(path, 33, len, "/scrape".as_bytes()) {
        Some(Route { endpoint: Endpoint::Scrape, has_key: true })
    } else {
        None
    }
}

} // verus!

verus! {

/// The files stand in the strict order of their info-hashes: none twice.
pub open spec fn files_sorted(files: Seq<(InfoHash, ScrapeResponseEntry)>) -> bool {
    forall|i: int, j: int| 0 <= i < j < files.len() ==> lex_less((#[trigger] files[i]).0@, (#[trigger] files[j]).0@)
}

/// Putting a file into sorted files leaves them sorted; the new info-hash is
/// among them, and every file is the new one or one that was there.
pub proof fn lemma_with_file_keeps_order(files: Seq<(InfoHash, ScrapeResponseEntry)>, h: InfoHash, e: ScrapeResponseEntry)
    requires
        files_sorted(files),
    ensures
        files_sorted(with_file(files, h, e)),
        exists|k: int| 0 <= k < with_file(files, h, e).len() && (#[trigger] with_file(files, h, e)[k]).0 == h,
        forall|k: int|
            0 <= k < with_file(files, h, e).len() ==> (#[trigger] with_file(files, h, e)[k]) == (h, e)
                || files.contains(with_file(files, h, e)[k]),
    decreases files.len(),
{
    let w = with_file(files, h, e);
    if files.len() == 0 {
        assert(w[0].0 == h);
    } else {
        let last = files.last();
        if lex_less(last.0@, h@) {
            assert forall|i: int, j: int| 0 <= i < j < w.len() implies lex_less(
                (#[trigger] w[i]).0@,
                (#[trigger] w[j]).0@,
            ) by {
                if j < files.len() {
                    assert(w[i] == files[i] && w[j] == files[j]);
                } else if i < files.len() - 1 {
                    assert(w[i] == files[i]);
                    assert(lex_less(files[i].0@, files[files.len() - 1].0@));
                    crate::primitives::lemma_lex_less_transitive(files[i].0@, last.0@, h@);
                } else {
                    assert(w[i] == last);
                }
            }
            assert(w[w.len() - 1].0 == h);
            assert forall|k: int| 0 <= k < w.len() implies (#[trigger] w[k]) == (h, e) || files.contains(w[k]) by {
                if k < files.len() {
                    assert(w[k] == files[k]);
                }
            }
        } else if last.0 == h {
            assert(w[w.len() - 1].0 == h);
            assert forall|k: int| 0 <= k < w.len() implies (#[trigger] w[k]) == (h, e) || files.contains(w[k]) by {
                assert(w[k] == files[k]);
            }
        } else {
            let d = files.drop_last();
            let wd = with_file(d, h, e);
            assert(files_sorted(d)) by {
                assert forall|i: int, j: int| 0 <= i < j < d.len() implies lex_less(
                    (#[trigger] d[i]).0@,
                    (#[trigger] d[j]).0@,
                ) by {
                    assert(d[i] == files[i] && d[j] == files[j]);
                }
            }
            lemma_with_file_keeps_order(d, h, e);
            crate::primitives::lemma_lex_less_total(last.0@, h@);
            assert(last.0@ != h@) by {
                if last.0@ == h@ {
                    assert(last.0.0 =~= h.0);
                }
            }
            assert(lex_less(h@, last.0@));
            assert forall|i: int, j: int| 0 <= i < j < w.len() implies lex_less(
                (#[trigger] w[i]).0@,
                (#[trigger] w[j]).0@,
            ) by {
                if j < wd.len() {
                    assert(w[i] == wd[i] && w[j] == wd[j]);
                } else {
                    assert(w[i] == wd[i] && w[j] == last);
                    if wd[i] != (h, e) {
                        assert(d.contains(wd[i]));
                        let a = choose|a: int| 0 <= a < d.len() && d[a] == wd[i];
                        assert(files[a] == wd[i]);
                        assert(lex_less(files[a].0@, files[files.len() - 1].0@));
                    }
                }
            }
            let k0 = choose|k: int| 0 <= k < wd.len() && (#[trigger] wd[k]).0 == h;
            assert(w[k0].0 == h);
            assert forall|k: int| 0 <= k < w.len() implies (#[trigger] w[k]) == (h, e) || files.contains(w[k]) by {
                if k < wd.len() {
                    assert(w[k] == wd[k]);
                    if wd[k] != (h, e) {
                        let a = choose|a: int| 0 <= a < d.len() && d[a] == wd[k];
                        assert(files[a] == wd[k]);
                    }
                } else {
                    assert(w[k] == files[files.len() - 1]);
                }
            }
        }
    }
}

/// The files of a scrape response stand in the strict order of their
/// info-hashes, as the keys of a bencoded dictionary have to.
pub proof fn lemma_scrape_files_are_sorted(tracker: &Tracker, hashes: Seq<InfoHash>, auth_key: Option<&str>, now: u64)
    ensures
        files_sorted(scrape_files(tracker, hashes, auth_key, now)),
    decreases hashes.len(),
{
    if hashes.len() > 0 {
        lemma_scrape_files_are_sorted(tracker, hashes.drop_last(), auth_key, now);
        let rest = scrape_files(tracker, hashes.drop_last(), auth_key, now);
        let h = hashes.last();
        lemma_with_file_keeps_order(rest, h, entry_of(stats_of(tracker.torrents@, h)));
    }
}

} // verus!
