use torrust_tracker::auth::TorrentError;
use torrust_tracker::config::ephemeral_mode_public;
use torrust_tracker::http::{
    authenticate, format_ip, handle_announce, handle_error, handle_scrape, parse_announce_query, parse_scrape_query,
    route, send_announce_response, send_scrape_response, AnnounceRequest, Endpoint, Route, ScrapeRequest,
    ScrapeResponseEntry, ServerError,
};
use torrust_tracker::primitives::{AnnounceEvent, InfoHash, IpAddress, PeerId, SocketAddress, TrackerMode};
use torrust_tracker::stats::{IpVersion, Protocol, RequestKind, StatsEvent};
use torrust_tracker::swarm::{Peer, TorrentStats};
use torrust_tracker::tracker::Tracker;

fn remote() -> SocketAddress {
    SocketAddress::new(IpAddress::V4([10, 0, 0, 1]), 40000)
}

fn tracker(mode: TrackerMode) -> Tracker {
    let mut config = ephemeral_mode_public("/tmp", "http");
    config.mode = mode;
    Tracker::new(config, b"secret".to_vec())
}

fn request(peer: u8, compact: Option<u8>) -> AnnounceRequest {
    AnnounceRequest {
        info_hash: InfoHash([b'H'; 20]),
        peer_addr: SocketAddress::new(IpAddress::V4([10, 0, 0, peer]), 40000),
        forwarded_ip: None,
        downloaded: 0,
        uploaded: 0,
        peer_id: PeerId([b'0' + peer; 20]),
        port: 6881,
        left: 100,
        event: AnnounceEvent::Started,
        compact,
        numwant: None,
    }
}

fn text(body: &[u8]) -> String {
    String::from_utf8(body.to_vec()).unwrap()
}

#[test]
fn failure_bodies() {
    assert_eq!(text(&handle_error(None)), "d14:failure reason21:internal server errore");
    let reasons = [
        (ServerError::InternalServerError, "internal server error"),
        (ServerError::InvalidInfoHash, "info_hash is either missing or invalid"),
        (ServerError::InvalidPeerId, "peer_id is either missing or invalid"),
        (ServerError::AddressNotFound, "could not find remote address"),
        (ServerError::TorrentNotWhitelisted, "torrent not on whitelist"),
        (ServerError::PeerNotAuthenticated, "peer not authenticated"),
        (ServerError::PeerKeyNotValid, "invalid authentication key"),
        (ServerError::NoPeersFound, "torrent has no peers"),
        (ServerError::BadRequest, "bad request"),
    ];
    for (error, reason) in reasons {
        assert_eq!(error.message(), reason);
        assert_eq!(
            text(&handle_error(Some(error))),
            format!("d14:failure reason{}:{}e", reason.len(), reason)
        );
    }
}

#[test]
fn addresses_in_text() {
    assert_eq!(text(&format_ip(&IpAddress::V4([10, 0, 0, 1]))), "10.0.0.1");
    assert_eq!(text(&format_ip(&IpAddress::V4([255, 255, 255, 255]))), "255.255.255.255");
    assert_eq!(text(&format_ip(&IpAddress::V4([0, 0, 0, 0]))), "0.0.0.0");
    let mut a = [0u8; 16];
    a[0] = 0x20;
    a[1] = 0x01;
    a[2] = 0x0d;
    a[3] = 0xb8;
    a[15] = 1;
    assert_eq!(text(&format_ip(&IpAddress::V6(a))), "2001:db8:0:0:0:0:0:1");
    assert_eq!(text(&format_ip(&IpAddress::V6([0xff; 16]))), "ffff:ffff:ffff:ffff:ffff:ffff:ffff:ffff");
}

fn two_peers() -> Vec<Peer> {
    let mut v6 = [0u8; 16];
    v6[15] = 2;
    vec![
        Peer {
            peer_id: PeerId([b'a'; 20]),
            peer_addr: SocketAddress::new(IpAddress::V4([10, 0, 0, 1]), 6881),
            updated_at: 0,
            uploaded: 0,
            downloaded: 0,
            left: 0,
            event: AnnounceEvent::Started,
        },
        Peer {
            peer_id: PeerId([b'b'; 20]),
            peer_addr: SocketAddress::new(IpAddress::V6(v6), 80),
            updated_at: 0,
            uploaded: 0,
            downloaded: 0,
            left: 5,
            event: AnnounceEvent::Started,
        },
    ]
}

#[test]
fn announce_response_long_form() {
    let stats = TorrentStats { seeders: 1, leechers: 1, completed: 7 };
    let body = send_announce_response(&request(9, None), stats, &two_peers(), 120, &IpAddress::V4([10, 0, 0, 9]));
    assert_eq!(
        text(&body),
        "d8:completei1e10:incompletei1e8:intervali120e5:peersl\
         d2:ip8:10.0.0.17:peer id20:aaaaaaaaaaaaaaaaaaaa4:porti6881ee\
         d2:ip15:0:0:0:0:0:0:0:27:peer id20:bbbbbbbbbbbbbbbbbbbb4:porti80ee\
         ee"
    );
    let same = send_announce_response(&request(9, Some(0)), stats, &two_peers(), 120, &IpAddress::V4([10, 0, 0, 9]));
    assert_eq!(same, body);
    let none = send_announce_response(&request(9, None), stats, &Vec::new(), 1800, &IpAddress::V4([10, 0, 0, 9]));
    assert_eq!(text(&none), "d8:completei1e10:incompletei1e8:intervali1800e5:peerslee");
}

#[test]
fn announce_response_compact_form() {
    let stats = TorrentStats { seeders: 1, leechers: 1, completed: 7 };
    let body = send_announce_response(&request(9, Some(1)), stats, &two_peers(), 120, &IpAddress::V4([10, 0, 0, 9]));
    let mut expected = b"d8:completei1e10:incompletei1e8:intervali120e5:peers6:".to_vec();
    expected.extend_from_slice(&[10, 0, 0, 1, 0x1a, 0xe1]);
    expected.push(b'e');
    assert_eq!(body, expected);
    let body = send_announce_response(&request(9, Some(1)), stats, &two_peers(), 120, &IpAddress::V6([0; 16]));
    let mut expected = b"d8:completei1e10:incompletei1e8:intervali120e6:peers618:".to_vec();
    let mut v6 = [0u8; 16];
    v6[15] = 2;
    expected.extend_from_slice(&v6);
    expected.extend_from_slice(&[0, 80]);
    expected.push(b'e');
    assert_eq!(body, expected);
}

#[test]
fn scrape_response_body() {
    let files = vec![
        (InfoHash([b'A'; 20]), ScrapeResponseEntry { complete: 1, downloaded: 2, incomplete: 3 }),
        (InfoHash([b'B'; 20]), ScrapeResponseEntry { complete: 0, downloaded: 0, incomplete: 0 }),
    ];
    assert_eq!(
        text(&send_scrape_response(&files)),
        "d5:filesd\
         20:AAAAAAAAAAAAAAAAAAAAd8:completei1e10:downloadedi2e10:incompletei3ee\
         20:BBBBBBBBBBBBBBBBBBBBd8:completei0e10:downloadedi0e10:incompletei0ee\
         ee"
    );
    assert_eq!(text(&send_scrape_response(&Vec::new())), "d5:filesdee");
}

#[test]
fn rejections_in_http_terms() {
    let mut t = tracker(TrackerMode::PrivateListed);
    let h = InfoHash([b'H'; 20]);
    assert_eq!(authenticate(&h, None, &t, 0), Err(ServerError::TorrentNotWhitelisted));
    t.auth.add_to_whitelist(h);
    assert_eq!(authenticate(&h, None, &t, 0), Err(ServerError::PeerNotAuthenticated));
    assert_eq!(authenticate(&h, Some("nope"), &t, 0), Err(ServerError::PeerKeyNotValid));
    t.auth.generate_key("YZSl4lMZupRuOpSRC3krIKR5BPB14nrJ", 0, Some(10)).unwrap();
    assert_eq!(authenticate(&h, Some("YZSl4lMZupRuOpSRC3krIKR5BPB14nrJ"), &t, 10), Ok(()));
    assert_eq!(authenticate(&h, Some("YZSl4lMZupRuOpSRC3krIKR5BPB14nrJ"), &t, 11), Err(ServerError::PeerKeyNotValid));
    assert_eq!(
        t.auth.authenticate_request(TrackerMode::Private, &h, None, 0),
        Err(TorrentError::PeerNotAuthenticated)
    );
}

#[test]
fn http_announce_records_the_peer_and_lists_the_others() {
    let mut t = tracker(TrackerMode::Public);
    let first = handle_announce(&request(1, None), None, &mut t, 1000, 0).unwrap();
    assert_eq!(text(&first.body), "d8:completei0e10:incompletei1e8:intervali120e5:peerslee");
    assert_eq!(
        first.event,
        StatsEvent { protocol: Protocol::Tcp, ip_version: IpVersion::V4, kind: RequestKind::Announce }
    );
    let second = handle_announce(&request(2, None), None, &mut t, 1001, 0).unwrap();
    assert_eq!(
        text(&second.body),
        "d8:completei0e10:incompletei2e8:intervali120e5:peersl\
         d2:ip8:10.0.0.17:peer id20:111111111111111111114:porti6881eeee"
    );
    let mut wants_none = request(3, Some(1));
    wants_none.numwant = Some(0);
    let third = handle_announce(&wants_none, None, &mut t, 1002, 0).unwrap();
    assert_eq!(text(&third.body), "d8:completei0e10:incompletei3e8:intervali120e5:peers0:e");
    let mut wants_one = request(3, Some(1));
    wants_one.numwant = Some(1);
    let again = handle_announce(&wants_one, None, &mut t, 1003, 1).unwrap();
    let mut expected = b"d8:completei0e10:incompletei3e8:intervali120e5:peers6:".to_vec();
    expected.extend_from_slice(&[10, 0, 0, 2, 0x1a, 0xe1]);
    expected.push(b'e');
    assert_eq!(again.body, expected);
}

#[test]
fn http_announce_behind_a_reverse_proxy() {
    let mut t = tracker(TrackerMode::Public);
    t.config.on_reverse_proxy = true;
    let mut r = request(1, None);
    assert_eq!(handle_announce(&r, None, &mut t, 0, 0).unwrap_err(), ServerError::AddressNotFound);
    assert_eq!(t.torrents.len(), 0);
    let mut v6 = [0u8; 16];
    v6[0] = 0xfe;
    v6[1] = 0x80;
    r.forwarded_ip = Some(IpAddress::V6(v6));
    let outcome = handle_announce(&r, None, &mut t, 0, 0).unwrap();
    assert_eq!(outcome.event.ip_version, IpVersion::V6);
    let listed = t.torrents.get_peers(&r.info_hash, &remote(), 74, 0);
    assert_eq!(listed.len(), 1);
    assert!(listed[0].peer_addr.same(&SocketAddress::new(IpAddress::V6(v6), 6881)));
}

#[test]
fn loopback_peer_is_advertised_under_the_external_address() {
    let mut t = tracker(TrackerMode::Public);
    t.config.external_ip = Some(IpAddress::V4([203, 0, 113, 7]));
    let mut r = request(1, None);
    r.peer_addr = SocketAddress::new(IpAddress::V4([127, 0, 0, 1]), 40000);
    handle_announce(&r, None, &mut t, 0, 0).unwrap();
    let listed = t.torrents.get_peers(&r.info_hash, &remote(), 74, 0);
    assert!(listed[0].peer_addr.same(&SocketAddress::new(IpAddress::V4([203, 0, 113, 7]), 6881)));
    handle_announce(&request(2, None), None, &mut t, 0, 0).unwrap();
    let listed = t.torrents.get_peers(&r.info_hash, &remote(), 74, 1);
    assert!(listed[0].peer_addr.same(&SocketAddress::new(IpAddress::V4([10, 0, 0, 2]), 6881)));
}

#[test]
fn http_scrape_sorts_and_merges_the_files() {
    let mut t = tracker(TrackerMode::Public);
    handle_announce(&request(1, None), None, &mut t, 0, 0).unwrap();
    let scrape = ScrapeRequest {
        info_hashes: vec![InfoHash([b'Z'; 20]), InfoHash([b'H'; 20]), InfoHash([b'Z'; 20]), InfoHash([b'A'; 20])],
        forwarded_ip: None,
        remote_addr: remote(),
    };
    let outcome = handle_scrape(&scrape, None, &t, 5).unwrap();
    assert_eq!(
        text(&outcome.body),
        "d5:filesd\
         20:AAAAAAAAAAAAAAAAAAAAd8:completei0e10:downloadedi0e10:incompletei0ee\
         20:HHHHHHHHHHHHHHHHHHHHd8:completei0e10:downloadedi0e10:incompletei1ee\
         20:ZZZZZZZZZZZZZZZZZZZZd8:completei0e10:downloadedi0e10:incompletei0ee\
         ee"
    );
    assert_eq!(
        outcome.event,
        StatsEvent { protocol: Protocol::Tcp, ip_version: IpVersion::V4, kind: RequestKind::Scrape }
    );
    t.config.on_reverse_proxy = true;
    assert_eq!(handle_scrape(&scrape, None, &t, 5).unwrap_err(), ServerError::AddressNotFound);
}

fn announce_query(extra: &str) -> String {
    format!(
        "info_hash=%3B%24U%04%CF%5F%11%BB%DB%E1%20%1C%EAjk%F4Z%EE%1B%C0&peer_id=-qB00000000000000001&port=17548&uploaded=1&downloaded=2&left=3{}",
        extra
    )
}

#[test]
fn parses_an_announce_query() {
    let q = announce_query("&event=completed&compact=1&numwant=50&key=ignored&no_peer_id=1");
    let r = parse_announce_query(q.as_bytes(), remote(), Some(IpAddress::V4([1, 1, 1, 1]))).unwrap();
    assert_eq!(
        r.info_hash.0,
        [
            0x3b, 0x24, 0x55, 0x04, 0xcf, 0x5f, 0x11, 0xbb, 0xdb, 0xe1, 0x20, 0x1c, 0xea, 0x6a, 0x6b, 0xf4, 0x5a, 0xee,
            0x1b, 0xc0
        ]
    );
    assert_eq!(&r.peer_id.0[..], b"-qB00000000000000001");
    assert_eq!((r.port, r.uploaded, r.downloaded, r.left), (17548, 1, 2, 3));
    assert_eq!(r.event, AnnounceEvent::Completed);
    assert_eq!(r.compact, Some(1));
    assert_eq!(r.numwant, Some(50));
    assert!(r.peer_addr.same(&remote()));
    assert!(r.forwarded_ip.unwrap().same(&IpAddress::V4([1, 1, 1, 1])));
    let plain = parse_announce_query(announce_query("").as_bytes(), remote(), None).unwrap();
    assert_eq!(plain.event, AnnounceEvent::Periodic);
    assert_eq!(plain.compact, None);
    assert_eq!(plain.numwant, None);
    assert!(plain.forwarded_ip.is_none());
    for (word, event) in [
        ("started", AnnounceEvent::Started),
        ("stopped", AnnounceEvent::Stopped),
        ("", AnnounceEvent::Periodic),
    ] {
        let q = announce_query(&format!("&event={}", word));
        assert_eq!(parse_announce_query(q.as_bytes(), remote(), None).unwrap().event, event);
    }
}

#[test]
fn announce_query_errors() {
    let bad = |q: &str| parse_announce_query(q.as_bytes(), remote(), None).unwrap_err();
    assert_eq!(bad(""), ServerError::InvalidInfoHash);
    assert_eq!(bad("peer_id=-qB00000000000000001&port=1&uploaded=1&downloaded=2&left=3"), ServerError::InvalidInfoHash);
    assert_eq!(bad(&announce_query("&info_hash=%3B%24U%04%CF%5F%11%BB%DB%E1%20%1C%EAjk%F4Z%EE%1B%C0")), ServerError::InvalidInfoHash);
    assert_eq!(bad("info_hash=short&peer_id=-qB00000000000000001&port=1&uploaded=1&downloaded=2&left=3"), ServerError::InvalidInfoHash);
    assert_eq!(bad("info_hash=%zzaaaaaaaaaaaaaaaaaaa&peer_id=-qB00000000000000001&port=1&uploaded=1&downloaded=2&left=3"), ServerError::InvalidInfoHash);
    assert_eq!(bad("info_hash=aaaaaaaaaaaaaaaaaaaa&port=1&uploaded=1&downloaded=2&left=3"), ServerError::InvalidPeerId);
    assert_eq!(bad("info_hash=aaaaaaaaaaaaaaaaaaaa&peer_id=tooshort&port=1&uploaded=1&downloaded=2&left=3"), ServerError::InvalidPeerId);
    let base = "info_hash=aaaaaaaaaaaaaaaaaaaa&peer_id=bbbbbbbbbbbbbbbbbbbb";
    assert_eq!(bad(&format!("{}&uploaded=1&downloaded=2&left=3", base)), ServerError::BadRequest);
    assert_eq!(bad(&format!("{}&port=65536&uploaded=1&downloaded=2&left=3", base)), ServerError::BadRequest);
    assert_eq!(bad(&format!("{}&port=1&downloaded=2&left=3", base)), ServerError::BadRequest);
    assert_eq!(bad(&format!("{}&port=1&uploaded=1&left=3", base)), ServerError::BadRequest);
    assert_eq!(bad(&format!("{}&port=1&uploaded=1&downloaded=2", base)), ServerError::BadRequest);
    assert_eq!(bad(&format!("{}&port=1&uploaded=1&downloaded=2&left=-3", base)), ServerError::BadRequest);
    let full = format!("{}&port=1&uploaded=1&downloaded=2&left=3", base);
    assert!(parse_announce_query(full.as_bytes(), remote(), None).is_ok());
    assert_eq!(bad(&format!("{}&event=paused", full)), ServerError::BadRequest);
    assert_eq!(bad(&format!("{}&compact=2", full)), ServerError::BadRequest);
    assert_eq!(bad(&format!("{}&numwant=4294967296", full)), ServerError::BadRequest);
    assert_eq!(bad(&format!("{}&numwant=-1", full)), ServerError::BadRequest);
    let long = format!("{}&pad={}", full, "x".repeat(8192));
    assert_eq!(bad(&long), ServerError::BadRequest);
}

#[test]
fn parses_a_scrape_query() {
    let q = "info_hash=aaaaaaaaaaaaaaaaaaaa&x=1&info_hash=%62bbbbbbbbbbbbbbbbbbb";
    let r = parse_scrape_query(q.as_bytes(), remote(), None).unwrap();
    assert_eq!(r.info_hashes.len(), 2);
    assert_eq!(r.info_hashes[0].0, [b'a'; 20]);
    assert_eq!(r.info_hashes[1].0, [b'b'; 20]);
    assert!(r.remote_addr.same(&remote()));
    assert_eq!(parse_scrape_query(b"", remote(), None).unwrap_err(), ServerError::InvalidInfoHash);
    assert_eq!(
        parse_scrape_query(b"info_hash=aaaaaaaaaaaaaaaaaaaa&info_hash=b", remote(), None).unwrap_err(),
        ServerError::InvalidInfoHash
    );
    let long = format!("info_hash=aaaaaaaaaaaaaaaaaaaa&pad={}", "x".repeat(8192));
    assert_eq!(parse_scrape_query(long.as_bytes(), remote(), None).unwrap_err(), ServerError::BadRequest);
}

#[test]
fn routes() {
    assert_eq!(route(b"/announce"), Some(Route { endpoint: Endpoint::Announce, has_key: false }));
    assert_eq!(route(b"/scrape"), Some(Route { endpoint: Endpoint::Scrape, has_key: false }));
    assert_eq!(
        route(b"/YZSl4lMZupRuOpSRC3krIKR5BPB14nrJ/announce"),
        Some(Route { endpoint: Endpoint::Announce, has_key: true })
    );
    assert_eq!(
        route(b"/YZSl4lMZupRuOpSRC3krIKR5BPB14nrJ/scrape"),
        Some(Route { endpoint: Endpoint::Scrape, has_key: true })
    );
    assert_eq!(route(b"/YZSl4lMZupRuOpSRC3krIKR5BPB14nr/announce"), None);
    assert_eq!(route(b"/YZSl4lMZupRuOpSRC3krIKR5BPB14nrJx/announce"), None);
    assert_eq!(route(b"/YZSl4lMZupRuOp/RC3krIKR5BPB14nrJ/announce"), None);
    assert_eq!(route(b"/YZSl4lMZupRuOpSRC3krIKR5BPB14nrJ/stats"), None);
    assert_eq!(route(b"YZSl4lMZupRuOpSRC3krIKR5BPB14nrJJ/announce"), None);
    assert_eq!(route(b"/"), None);
    assert_eq!(route(b""), None);
    assert_eq!(route(b"/announce/"), None);
}
