//! The UDP tracker protocol: requests read from datagrams, connection ids, and
//! responses written as datagrams.

use vstd::prelude::*;
use vstd::string::StringSliceAdditionalSpecFns;
use aquatic_udp_protocol::{
    AnnounceInterval, AnnounceResponse, ConnectResponse, ConnectionId, ErrorResponse, NumberOfDownloads,
    NumberOfPeers, Port, Response, ResponsePeer, ScrapeResponse, TorrentScrapeStatistics, TransactionId,
};
use hmac::{Hmac, Mac};
use sha2::Sha256;
use crate::auth::TorrentError;
use crate::bytes::{be_bytes, be_value, lemma_be_bytes_len, push_all, push_u64, read_u16, read_u32, read_u64};
use crate::compact::{
    compact_v4, compact_v6, lemma_compact_v4_record, lemma_compact_v4_round_trip, lemma_compact_v6_record,
    lemma_compact_v6_round_trip,
};
use crate::primitives::{take20, AnnounceEvent, InfoHash, IpAddress, PeerId};

verus! {

/// The number that opens every connect request.
pub const PROTOCOL_ID: u64 = 0x0417_2710_1980;

/// The largest datagram that is read.
pub const MAX_PACKET_SIZE: usize = 1496;

/// The largest number of info-hashes in one scrape.
pub const MAX_SCRAPE_TORRENTS: usize = 74;

/// Seconds for which a connection id is good for certain.
pub const CONNECTION_TTL: u64 = 120;

#[derive(Clone, Copy, Debug)]
pub struct ConnectRequest {
    pub transaction_id: u32,
}

#[derive(Clone, Copy, Debug)]
pub struct AnnounceRequest {
    pub connection_id: u64,
    pub transaction_id: u32,
    pub info_hash: InfoHash,
    pub peer_id: PeerId,
    pub downloaded: u64,
    pub left: u64,
    pub uploaded: u64,
    pub event: AnnounceEvent,
    /// The address that the peer asks to be advertised; all zero for "the one I send from".
    pub ip: [u8; 4],
    pub key: u32,
    /// How many peers the client wants; a value that is negative as a signed
    /// number stands for "as many as the tracker gives by default".
    pub num_want: u32,
    pub port: u16,
}

#[derive(Debug)]
pub struct ScrapeRequest {
    pub connection_id: u64,
    pub transaction_id: u32,
    pub info_hashes: Vec<InfoHash>,
}

#[derive(Debug)]
pub enum UdpRequest {
    Connect(ConnectRequest),
    Announce(AnnounceRequest),
    Scrape(ScrapeRequest),
}

/// What is wrong with the framing of a datagram.
#[derive(Clone, Copy, Debug, PartialEq, Eq, Structural)]
pub enum FramingError {
    Truncated,
    UnknownAction,
    ScrapeTooLong,
}

/// What becomes of a datagram that is no request: it is dropped in silence, or
/// answered with an error under the transaction id that it carried.
#[derive(Clone, Copy, Debug, PartialEq, Eq, Structural)]
pub enum ParseFailure {
    Drop,
    Reply { transaction_id: u32, error: FramingError },
}

/// The number in the `n` bytes of `b` from `at` on.
pub open spec fn field(b: Seq<u8>, at: int, n: int) -> nat {
    be_value(b.subrange(at, at + n))
}

pub open spec fn event_of(v: nat) -> AnnounceEvent {
    if v == 1 {
        AnnounceEvent::Completed
    } else if v == 2 {
        AnnounceEvent::Started
    } else if v == 3 {
        AnnounceEvent::Stopped
    } else {
        AnnounceEvent::Periodic
    }
}

/// Why the datagram `b` is no request, if it is none.
pub open spec fn parse_failure(b: Seq<u8>) -> Option<ParseFailure> {
    if b.len() > MAX_PACKET_SIZE || b.len() < 16 {
        Some(ParseFailure::Drop)
    } else {
        let action = field(b, 8, 4);
        let transaction_id = field(b, 12, 4) as u32;
        if action == 0 {
            if field(b, 0, 8) == PROTOCOL_ID {
                None
            } else {
                Some(ParseFailure::Drop)
            }
        } else if action == 1 {
            if b.len() < 98 {
                Some(ParseFailure::Reply { transaction_id, error: FramingError::Truncated })
            } else {
                None
            }
        } else if action == 2 {
            if (b.len() - 16) % 20 != 0 || b.len() == 16 {
                Some(ParseFailure::Reply { transaction_id, error: FramingError::Truncated })
            } else if (b.len() - 16) / 20 > MAX_SCRAPE_TORRENTS {
                Some(ParseFailure::Reply { transaction_id, error: FramingError::ScrapeTooLong })
            } else {
                None
            }
        } else {
            Some(ParseFailure::Reply { transaction_id, error: FramingError::UnknownAction })
        }
    }
}

/// Whether `r` is the announce request that the datagram `b` spells.
pub open spec fn is_announce_of(b: Seq<u8>, r: AnnounceRequest) -> bool {
    &&& r.connection_id == field(b, 0, 8)
    &&& r.transaction_id == field(b, 12, 4)
    &&& r.info_hash@ == b.subrange(16, 36)
    &&& r.peer_id@ == b.subrange(36, 56)
    &&& r.downloaded == field(b, 56, 8)
    &&& r.left == field(b, 64, 8)
    &&& r.uploaded == field(b, 72, 8)
    &&& r.event == event_of(field(b, 80, 4))
    &&& r.ip@ == b.subrange(84, 88)
    &&& r.key == field(b, 88, 4)
    &&& r.num_want == field(b, 92, 4)
    &&& r.port == field(b, 96, 2)
}

/// Whether `r` is the scrape request that the datagram `b` spells.
pub open spec fn is_scrape_of(b: Seq<u8>, r: ScrapeRequest) -> bool {
    &&& r.connection_id == field(b, 0, 8)
    &&& r.transaction_id == field(b, 12, 4)
    &&& r.info_hashes@.len() == (b.len() - 16) / 20
    &&& forall|i: int|
        0 <= i < r.info_hashes@.len() ==> (#[trigger] r.info_hashes@[i])@ == b.subrange(
            16 + 20 * i,
            36 + 20 * i,
        )
}

/// Whether `r` is the request that the datagram `b` spells.
pub open spec fn is_request_of(b: Seq<u8>, r: UdpRequest) -> bool {
    match r {
        UdpRequest::Connect(c) => field(b, 8, 4) == 0 && c.transaction_id == field(b, 12, 4),
        UdpRequest::Announce(a) => field(b, 8, 4) == 1 && is_announce_of(b, a),
        UdpRequest::Scrape(s) => field(b, 8, 4) == 2 && is_scrape_of(b, s),
    }
}

fn event_from(v: u32) -> (r: AnnounceEvent)
    ensures
        r == event_of(v as nat),
{
    if v == 1 {
        AnnounceEvent::Completed
    } else if v == 2 {
        AnnounceEvent::Started
    } else if v == 3 {
        AnnounceEvent::Stopped
    } else {
        AnnounceEvent::Periodic
    }
}

/// Reads a request from a datagram.
pub fn parse_request(b: &[u8]) -> (r: Result<UdpRequest, ParseFailure>)
    ensures
        match r {
            Ok(request) => parse_failure(b@) is None && is_request_of(b@, request),
            Err(failure) => parse_failure(b@) == Some(failure),
        },
{
    let len = b.len();
    if len > MAX_PACKET_SIZE || len < 16 {
        return Err(ParseFailure::Drop);
    }
    let connection_id = read_u64(b, 0);
    let action = read_u32(b, 8);
    let transaction_id = read_u32(b, 12);
    if action == 0 {
        if connection_id == PROTOCOL_ID {
            Ok(UdpRequest::Connect(ConnectRequest { transaction_id }))
        } else {
            Err(ParseFailure::Drop)
        }
    } else if action == 1 {
        if len < 98 {
            return Err(ParseFailure::Reply { transaction_id, error: FramingError::Truncated });
        }
        let ip = [b[84], b[85], b[86], b[87]];
        assert(ip@ =~= b@.subrange(84, 88));
        Ok(
            UdpRequest::Announce(
                AnnounceRequest {
                    connection_id,
                    transaction_id,
                    info_hash: InfoHash(take20(b, 16)),
                    peer_id: PeerId(take20(b, 36)),
                    downloaded: read_u64(b, 56),
                    left: read_u64(b, 64),
                    uploaded: read_u64(b, 72),
                    event: event_from(read_u32(b, 80)),
                    ip,
                    key: read_u32(b, 88),
                    num_want: read_u32(b, 92),
                    port: read_u16(b, 96),
                },
            ),
        )
    } else if action == 2 {
        let rest = len - 16;
        if rest % 20 != 0 || rest == 0 {
            return Err(ParseFailure::Reply { transaction_id, error: FramingError::Truncated });
        }
        let count = rest / 20;
        if count > MAX_SCRAPE_TORRENTS {
            return Err(ParseFailure::Reply { transaction_id, error: FramingError::ScrapeTooLong });
        }
        let mut info_hashes: Vec<InfoHash> = Vec::new();
        let mut i: usize = 0;
        while i < count
            invariant
                i <= count,
                count == (len - 16) / 20,
                (len - 16) % 20 == 0,
                16 <= len == b@.len() <= MAX_PACKET_SIZE,
                info_hashes@.len() == i,
                forall|j: int|
                    0 <= j < i ==> (#[trigger] info_hashes@[j])@ == b@.subrange(16 + 20 * j, 36 + 20 * j),
            decreases count - i,
        {
            info_hashes.push(InfoHash(take20(b, 16 + 20 * i)));
            i += 1;
        }
        Ok(UdpRequest::Scrape(ScrapeRequest { connection_id, transaction_id, info_hashes }))
    } else {
        Err(ParseFailure::Reply { transaction_id, error: FramingError::UnknownAction })
    }
}

/// The tag that HMAC-SHA-256 gives `message` under `key`.
pub uninterp spec fn hmac_sha256_tag(key: Seq<u8>, message: Seq<u8>) -> Seq<u8>;

/// Calls `hmac::Hmac::<sha2::Sha256>`: `new_from_slice`, `update`, `finalize`.
/// The tag depends on the key and the message alone, and has thirty-two bytes.
/// Nothing else is claimed of it.
#[verifier::external_body]
fn hmac_sha256(key: &[u8], message: &[u8]) -> (tag: [u8; 32])
    ensures
        tag@ == hmac_sha256_tag(key@, message@),
{
    let mut mac = Hmac::<Sha256>::new_from_slice(key).expect("a key of any length is taken");
    mac.update(message);
    mac.finalize().into_bytes().into()
}

/// The stretch of time in which `now` lies: ids minted in one stretch are alike.
pub open spec fn time_bucket(now: u64) -> u64 {
    now / CONNECTION_TTL
}

/// What is authenticated for a connection id: the client's address, then the time bucket.
pub open spec fn mint_message(ip: IpAddress, bucket: u64) -> Seq<u8> {
    ip.octets() + be_bytes(bucket as nat, 8)
}

/// The connection id of the client at `ip` in the time bucket `bucket`: the
/// first eight bytes of the tag under the server's secret.
pub open spec fn connection_id_for(secret: Seq<u8>, ip: IpAddress, bucket: u64) -> u64 {
    be_value(hmac_sha256_tag(secret, mint_message(ip, bucket)).subrange(0, 8)) as u64
}

/// Whether `id` admits the client at `ip` at `now`: it is the id of the current
/// time bucket or of the one before.
pub open spec fn connection_id_valid(secret: Seq<u8>, ip: IpAddress, now: u64, id: u64) -> bool {
    id == connection_id_for(secret, ip, time_bucket(now)) || (time_bucket(now) >= 1 && id
        == connection_id_for(secret, ip, (time_bucket(now) - 1) as u64))
}

fn connection_id_in(secret: &[u8], ip: &IpAddress, bucket: u64) -> (r: u64)
    ensures
        r == connection_id_for(secret@, *ip, bucket),
{
    let mut message: Vec<u8> = Vec::new();
    match ip {
        IpAddress::V4(a) => push_all(&mut message, vstd::array::array_as_slice(a)),
        IpAddress::V6(a) => push_all(&mut message, vstd::array::array_as_slice(a)),
    }
    push_u64(&mut message, bucket);
    assert(message@ =~= mint_message(*ip, bucket));
    let tag = hmac_sha256(secret, message.as_slice());
    read_u64(vstd::array::array_as_slice(&tag), 0)
}

/// Mints the connection id for the client at `ip` at `now`.
pub fn mint_connection_id(secret: &[u8], ip: &IpAddress, now: u64) -> (r: u64)
    ensures
        r == connection_id_for(secret@, *ip, time_bucket(now)),
        connection_id_valid(secret@, *ip, now, r),
{
    connection_id_in(secret, ip, now / CONNECTION_TTL)
}

/// Whether `id` admits the client at `ip` at `now`.
pub fn verify_connection_id(secret: &[u8], ip: &IpAddress, now: u64, id: u64) -> (r: bool)
    ensures
        r == connection_id_valid(secret@, *ip, now, id),
{
    let bucket = now / CONNECTION_TTL;
    let current = connection_id_in(secret, ip, bucket);
    let prior = if bucket >= 1 {
        Some(connection_id_in(secret, ip, bucket - 1))
    } else {
        None
    };
    let hit_current = id == current;
    let hit_prior = match prior {
        Some(p) => id == p,
        None => false,
    };
    hit_current || hit_prior
}

/// An id minted for a client stays good for that client for at least the
/// length of one time bucket.
pub proof fn lemma_connection_id_lives(secret: Seq<u8>, ip: IpAddress, issued: u64, now: u64)
    requires
        issued <= now,
        now - issued <= CONNECTION_TTL,
    ensures
        connection_id_valid(secret, ip, now, connection_id_for(secret, ip, time_bucket(issued))),
{
    let a = time_bucket(issued);
    let b = time_bucket(now);
    assert(b == a || b == a + 1);
}

} // verus!

verus! {

/// The counters of one torrent in a scrape response.
#[derive(Clone, Copy, Debug, PartialEq, Eq, Structural)]
pub struct ScrapeStats {
    pub seeders: u32,
    pub completed: u32,
    pub leechers: u32,
}

/// Why a request is answered with an error.
#[derive(Clone, Copy, Debug, PartialEq, Eq, Structural)]
pub enum UdpError {
    ConnectionIdMismatch,
    Rejected(TorrentError),
    Framing(FramingError),
}

#[derive(Debug)]
#[allow(inconsistent_fields)]
pub enum UdpResponse {
    Connect { transaction_id: u32, connection_id: u64 },
    AnnounceIpv4 { transaction_id: u32, interval: u32, leechers: u32, seeders: u32, peers: Vec<([u8; 4], u16)> },
    AnnounceIpv6 { transaction_id: u32, interval: u32, leechers: u32, seeders: u32, peers: Vec<([u8; 16], u16)> },
    Scrape { transaction_id: u32, stats: Vec<ScrapeStats> },
    Error { transaction_id: u32, error: UdpError },
}

/// A response as plain values.
#[allow(inconsistent_fields)]
pub enum UdpResponseModel {
    Connect { transaction_id: u32, connection_id: u64 },
    AnnounceIpv4 { transaction_id: u32, interval: u32, leechers: u32, seeders: u32, peers: Seq<([u8; 4], u16)> },
    AnnounceIpv6 { transaction_id: u32, interval: u32, leechers: u32, seeders: u32, peers: Seq<([u8; 16], u16)> },
    Scrape { transaction_id: u32, stats: Seq<ScrapeStats> },
    Error { transaction_id: u32, error: UdpError },
}

impl View for UdpResponse {
    type V = UdpResponseModel;

    open spec fn view(&self) -> UdpResponseModel {
        match *self {
            UdpResponse::Connect { transaction_id, connection_id } => UdpResponseModel::Connect {
                transaction_id,
                connection_id,
            },
            UdpResponse::AnnounceIpv4 {
                transaction_id,
                interval,
                leechers,
                seeders,
                peers,
            } => UdpResponseModel::AnnounceIpv4 { transaction_id, interval, leechers, seeders, peers: peers@ },
            UdpResponse::AnnounceIpv6 {
                transaction_id,
                interval,
                leechers,
                seeders,
                peers,
            } => UdpResponseModel::AnnounceIpv6 { transaction_id, interval, leechers, seeders, peers: peers@ },
            UdpResponse::Scrape { transaction_id, stats } => UdpResponseModel::Scrape {
                transaction_id,
                stats: stats@,
            },
            UdpResponse::Error { transaction_id, error } => UdpResponseModel::Error { transaction_id, error },
        }
    }
}

/// The words that tell a client why it was turned down.
pub open spec fn rejection_text(e: TorrentError) -> Seq<char> {
    match e {
        TorrentError::TorrentNotWhitelisted => "torrent not on whitelist"@,
        TorrentError::PeerNotAuthenticated => "peer not authenticated"@,
        TorrentError::PeerKeyNotValid => "peer key not valid"@,
        TorrentError::NoPeersFound => "no peers found"@,
        TorrentError::CouldNotSendResponse => "could not send response"@,
        TorrentError::InvalidInfoHash => "invalid info_hash"@,
    }
}

pub open spec fn error_text(e: UdpError) -> Seq<char> {
    match e {
        UdpError::ConnectionIdMismatch => "Connection ID mismatch"@,
        UdpError::Rejected(t) => rejection_text(t),
        UdpError::Framing(FramingError::Truncated) => "request is truncated"@,
        UdpError::Framing(FramingError::UnknownAction) => "unknown action"@,
        UdpError::Framing(FramingError::ScrapeTooLong) => "too many info-hashes in scrape"@,
    }
}

/// The words for `e`.
pub fn rejection_message(e: TorrentError) -> (r: &'static str)
    ensures
        r@ == rejection_text(e),
{
    match e {
        TorrentError::TorrentNotWhitelisted => "torrent not on whitelist",
        TorrentError::PeerNotAuthenticated => "peer not authenticated",
        TorrentError::PeerKeyNotValid => "peer key not valid",
        TorrentError::NoPeersFound => "no peers found",
        TorrentError::CouldNotSendResponse => "could not send response",
        TorrentError::InvalidInfoHash => "invalid info_hash",
    }
}

impl UdpError {
    /// The message that the error response carries.
    pub fn message(&self) -> (r: &'static str)
        ensures
            r@ == error_text(*self),
    {
        match self {
            UdpError::ConnectionIdMismatch => "Connection ID mismatch",
            UdpError::Rejected(t) => rejection_message(*t),
            UdpError::Framing(FramingError::Truncated) => "request is truncated",
            UdpError::Framing(FramingError::UnknownAction) => "unknown action",
            UdpError::Framing(FramingError::ScrapeTooLong) => "too many info-hashes in scrape",
        }
    }
}

/// The counters of the scraped torrents, twelve bytes each.
pub open spec fn scrape_entries(stats: Seq<ScrapeStats>) -> Seq<u8>
    decreases stats.len(),
{
    if stats.len() == 0 {
        Seq::empty()
    } else {
        scrape_entries(stats.drop_last()) + be_bytes(stats.last().seeders as nat, 4) + be_bytes(
            stats.last().completed as nat,
            4,
        ) + be_bytes(stats.last().leechers as nat, 4)
    }
}

pub open spec fn connect_frame(transaction_id: u32, connection_id: u64) -> Seq<u8> {
    be_bytes(0, 4) + be_bytes(transaction_id as nat, 4) + be_bytes(connection_id as nat, 8)
}

pub open spec fn announce_frame(transaction_id: u32, interval: u32, leechers: u32, seeders: u32, peers: Seq<u8>) -> Seq<
    u8,
> {
    be_bytes(1, 4) + be_bytes(transaction_id as nat, 4) + be_bytes(interval as nat, 4) + be_bytes(
        leechers as nat,
        4,
    ) + be_bytes(seeders as nat, 4) + peers
}

pub open spec fn scrape_frame(transaction_id: u32, stats: Seq<ScrapeStats>) -> Seq<u8> {
    be_bytes(2, 4) + be_bytes(transaction_id as nat, 4) + scrape_entries(stats)
}

pub open spec fn error_frame(transaction_id: u32, message: Seq<u8>) -> Seq<u8> {
    be_bytes(3, 4) + be_bytes(transaction_id as nat, 4) + message
}

impl UdpResponse {
    /// The datagram that carries the response.
    pub open spec fn frame(&self) -> Seq<u8> {
        match *self {
            UdpResponse::Connect { transaction_id, connection_id } => connect_frame(
                transaction_id,
                connection_id,
            ),
            UdpResponse::AnnounceIpv4 { transaction_id, interval, leechers, seeders, peers } => announce_frame(
                transaction_id,
                interval,
                leechers,
                seeders,
                compact_v4(peers@),
            ),
            UdpResponse::AnnounceIpv6 { transaction_id, interval, leechers, seeders, peers } => announce_frame(
                transaction_id,
                interval,
                leechers,
                seeders,
                compact_v6(peers@),
            ),
            UdpResponse::Scrape { transaction_id, stats } => scrape_frame(transaction_id, stats@),
            UdpResponse::Error { transaction_id, error } => error_frame(
                transaction_id,
                error_text(error).map_values(|c: char| c as u8),
            ),
        }
    }

    /// Writes the response as a datagram.
    pub fn encode(&self) -> (r: Vec<u8>)
        ensures
            r@ == self.frame(),
    {
        match self {
            UdpResponse::Connect { transaction_id, connection_id } => write_connect(
                *transaction_id,
                *connection_id,
            ),
            UdpResponse::AnnounceIpv4 { transaction_id, interval, leechers, seeders, peers } => write_announce_v4(
                *transaction_id,
                *interval,
                *leechers,
                *seeders,
                peers,
            ),
            UdpResponse::AnnounceIpv6 { transaction_id, interval, leechers, seeders, peers } => write_announce_v6(
                *transaction_id,
                *interval,
                *leechers,
                *seeders,
                peers,
            ),
            UdpResponse::Scrape { transaction_id, stats } => write_scrape(*transaction_id, stats),
            UdpResponse::Error { transaction_id, error } => {
                let message = error.message();
                proof {
                    lemma_error_text_is_ascii(*error);
                    vstd::string::is_ascii_spec_bytes(message);
                    assert(message.spec_bytes() =~= error_text(*error).map_values(|c: char| c as u8));
                }
                write_error(*transaction_id, message)
            },
        }
    }
}

/// Every error message is plain ASCII, so its bytes are its characters.
pub proof fn lemma_error_text_is_ascii(e: UdpError)
    ensures
        vstd::utf8::is_ascii_chars(error_text(e)),
{
    reveal_strlit("Connection ID mismatch");
    reveal_strlit("torrent not on whitelist");
    reveal_strlit("peer not authenticated");
    reveal_strlit("peer key not valid");
    reveal_strlit("no peers found");
    reveal_strlit("could not send response");
    reveal_strlit("invalid info_hash");
    reveal_strlit("request is truncated");
    reveal_strlit("unknown action");
    reveal_strlit("too many info-hashes in scrape");
}

/// Calls `aquatic_udp_protocol::Response::write` on a connect response: the
/// action 0, the transaction id and the connection id, each big-endian.
#[verifier::external_body]
fn write_connect(transaction_id: u32, connection_id: u64) -> (out: Vec<u8>)
    ensures
        out@ == connect_frame(transaction_id, connection_id),
{
    let connection_id = ConnectionId(connection_id as i64);
    let transaction_id = TransactionId(transaction_id as i32);
    let mut out = Vec::new();
    let _ = Response::Connect(ConnectResponse { connection_id, transaction_id }).write(&mut out);
    out
}

/// Calls `aquatic_udp_protocol::Response::write` on an IPv4 announce response:
/// the action 1, the transaction id, the interval, the leechers and the seeders,
/// each in four bytes big-endian, then the peers in compact form.
#[verifier::external_body]
fn write_announce_v4(transaction_id: u32, interval: u32, leechers: u32, seeders: u32, peers: &Vec<([u8; 4], u16)>) -> (out:
    Vec<u8>)
    ensures
        out@ == announce_frame(transaction_id, interval, leechers, seeders, compact_v4(peers@)),
{
    let response = AnnounceResponse {
        transaction_id: TransactionId(transaction_id as i32),
        announce_interval: AnnounceInterval(interval as i32),
        leechers: NumberOfPeers(leechers as i32),
        seeders: NumberOfPeers(seeders as i32),
        peers: peers.iter().map(|p| ResponsePeer { ip_address: p.0.into(), port: Port(p.1) }).collect(),
    };
    let mut out = Vec::new();
    let _ = Response::AnnounceIpv4(response).write(&mut out);
    out
}

/// Calls `aquatic_udp_protocol::Response::write` on an IPv6 announce response:
/// as for IPv4, with sixteen bytes of address for each peer.
#[verifier::external_body]
fn write_announce_v6(transaction_id: u32, interval: u32, leechers: u32, seeders: u32, peers: &Vec<([u8; 16], u16)>) -> (out:
    Vec<u8>)
    ensures
        out@ == announce_frame(transaction_id, interval, leechers, seeders, compact_v6(peers@)),
{
    let response = AnnounceResponse {
        transaction_id: TransactionId(transaction_id as i32),
        announce_interval: AnnounceInterval(interval as i32),
        leechers: NumberOfPeers(leechers as i32),
        seeders: NumberOfPeers(seeders as i32),
        peers: peers.iter().map(|p| ResponsePeer { ip_address: p.0.into(), port: Port(p.1) }).collect(),
    };
    let mut out = Vec::new();
    let _ = Response::AnnounceIpv6(response).write(&mut out);
    out
}

/// Calls `aquatic_udp_protocol::Response::write` on a scrape response: the
/// action 2, the transaction id, then for each torrent its seeders, completed
/// and leechers, each in four bytes big-endian.
#[verifier::external_body]
fn write_scrape(transaction_id: u32, stats: &Vec<ScrapeStats>) -> (out: Vec<u8>)
    ensures
        out@ == scrape_frame(transaction_id, stats@),
{
    let torrent_stats = stats.iter().map(|s| TorrentScrapeStatistics {
        seeders: NumberOfPeers(s.seeders as i32),
        completed: NumberOfDownloads(s.completed as i32),
        leechers: NumberOfPeers(s.leechers as i32),
    }).collect();
    let transaction_id = TransactionId(transaction_id as i32);
    let mut out = Vec::new();
    let _ = Response::Scrape(ScrapeResponse { transaction_id, torrent_stats }).write(&mut out);
    out
}

/// Calls `aquatic_udp_protocol::Response::write` on an error response: the
/// action 3, the transaction id, then the bytes of the message.
#[verifier::external_body]
fn write_error(transaction_id: u32, message: &'static str) -> (out: Vec<u8>)
    ensures
        out@ == error_frame(transaction_id, message.spec_bytes()),
{
    let transaction_id = TransactionId(transaction_id as i32);
    let mut out = Vec::new();
    let _ = Response::Error(ErrorResponse { transaction_id, message: message.into() }).write(&mut out);
    out
}

/// The datagram of an IPv4 announce response is a header of twenty bytes and
/// then one record of six bytes for each peer, in the order of the peers: four
/// bytes of address, two of port. Peers read back from the records are the
/// peers that were written.
pub proof fn lemma_announce_v4_frame_records(
    transaction_id: u32,
    interval: u32,
    leechers: u32,
    seeders: u32,
    peers: Seq<([u8; 4], u16)>,
    read: Seq<([u8; 4], u16)>,
)
    ensures
        announce_frame(transaction_id, interval, leechers, seeders, compact_v4(peers)).len() == 20 + 6
            * peers.len(),
        announce_frame(transaction_id, interval, leechers, seeders, compact_v4(peers)).skip(20) == compact_v4(
            peers,
        ),
        forall|i: int|
            0 <= i < peers.len() ==> #[trigger] announce_frame(
                transaction_id,
                interval,
                leechers,
                seeders,
                compact_v4(peers),
            ).subrange(20 + 6 * i, 26 + 6 * i) == peers[i].0@ + be_bytes(peers[i].1 as nat, 2),
        compact_v4(read) == announce_frame(transaction_id, interval, leechers, seeders, compact_v4(peers)).skip(
            20,
        ) ==> read == peers,
{
    let body = compact_v4(peers);
    let frame = announce_frame(transaction_id, interval, leechers, seeders, body);
    lemma_be_bytes_len(1, 4);
    lemma_be_bytes_len(transaction_id as nat, 4);
    lemma_be_bytes_len(interval as nat, 4);
    lemma_be_bytes_len(leechers as nat, 4);
    lemma_be_bytes_len(seeders as nat, 4);
    crate::compact::lemma_compact_v4_len(peers);
    assert(frame.skip(20) =~= body);
    assert forall|i: int| 0 <= i < peers.len() implies #[trigger] frame.subrange(20 + 6 * i, 26 + 6 * i)
        == peers[i].0@ + be_bytes(peers[i].1 as nat, 2) by {
        lemma_compact_v4_record(peers, i);
        lemma_be_bytes_len(peers[i].1 as nat, 2);
        assert(frame.subrange(20 + 6 * i, 26 + 6 * i) =~= body.subrange(6 * i, 6 * i + 4) + body.subrange(
            6 * i + 4,
            6 * i + 6,
        ));
    }
    if compact_v4(read) == frame.skip(20) {
        lemma_compact_v4_round_trip(peers, read);
    }
}

/// As for IPv4, with records of eighteen bytes: sixteen of address, two of port.
pub proof fn lemma_announce_v6_frame_records(
    transaction_id: u32,
    interval: u32,
    leechers: u32,
    seeders: u32,
    peers: Seq<([u8; 16], u16)>,
    read: Seq<([u8; 16], u16)>,
)
    ensures
        announce_frame(transaction_id, interval, leechers, seeders, compact_v6(peers)).len() == 20 + 18
            * peers.len(),
        announce_frame(transaction_id, interval, leechers, seeders, compact_v6(peers)).skip(20) == compact_v6(
            peers,
        ),
        forall|i: int|
            0 <= i < peers.len() ==> #[trigger] announce_frame(
                transaction_id,
                interval,
                leechers,
                seeders,
                compact_v6(peers),
            ).subrange(20 + 18 * i, 38 + 18 * i) == peers[i].0@ + be_bytes(peers[i].1 as nat, 2),
        compact_v6(read) == announce_frame(transaction_id, interval, leechers, seeders, compact_v6(peers)).skip(
            20,
        ) ==> read == peers,
{
    let body = compact_v6(peers);
    let frame = announce_frame(transaction_id, interval, leechers, seeders, body);
    lemma_be_bytes_len(1, 4);
    lemma_be_bytes_len(transaction_id as nat, 4);
    lemma_be_bytes_len(interval as nat, 4);
    lemma_be_bytes_len(leechers as nat, 4);
    lemma_be_bytes_len(seeders as nat, 4);
    crate::compact::lemma_compact_v6_len(peers);
    assert(frame.skip(20) =~= body);
    assert forall|i: int| 0 <= i < peers.len() implies #[trigger] frame.subrange(20 + 18 * i, 38 + 18 * i)
        == peers[i].0@ + be_bytes(peers[i].1 as nat, 2) by {
        lemma_compact_v6_record(peers, i);
        lemma_be_bytes_len(peers[i].1 as nat, 2);
        assert(frame.subrange(20 + 18 * i, 38 + 18 * i) =~= body.subrange(18 * i, 18 * i + 16) + body.subrange(
            18 * i + 16,
            18 * i + 18,
        ));
    }
    if compact_v6(read) == frame.skip(20) {
        lemma_compact_v6_round_trip(peers, read);
    }
}

} // verus!
