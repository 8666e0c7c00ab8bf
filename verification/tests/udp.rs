use hmac::{Hmac, Mac};
use sha2::Sha256;
use torrust_tracker::auth::TorrentError;
use torrust_tracker::compact::{decode_compact_v4, decode_compact_v6};
use torrust_tracker::primitives::{AnnounceEvent, IpAddress};
use torrust_tracker::udp::{
    mint_connection_id, parse_request, verify_connection_id, FramingError, ParseFailure, ScrapeStats, UdpError,
    UdpRequest, UdpResponse, MAX_PACKET_SIZE, PROTOCOL_ID,
};

fn connect_datagram(transaction_id: u32) -> Vec<u8> {
    let mut d = vec![0, 0, 0x04, 0x17, 0x27, 0x10, 0x19, 0x80, 0, 0, 0, 0];
    d.extend_from_slice(&transaction_id.to_be_bytes());
    d
}

fn announce_datagram(connection_id: u64, transaction_id: u32, event: u32, ip: [u8; 4], num_want: u32) -> Vec<u8> {
    let mut d = Vec::new();
    d.extend_from_slice(&connection_id.to_be_bytes());
    d.extend_from_slice(&1u32.to_be_bytes());
    d.extend_from_slice(&transaction_id.to_be_bytes());
    d.extend_from_slice(&[0xaa; 20]);
    d.extend_from_slice(&[0xbb; 20]);
    d.extend_from_slice(&1111u64.to_be_bytes());
    d.extend_from_slice(&2222u64.to_be_bytes());
    d.extend_from_slice(&3333u64.to_be_bytes());
    d.extend_from_slice(&event.to_be_bytes());
    d.extend_from_slice(&ip);
    d.extend_from_slice(&0xdead_beefu32.to_be_bytes());
    d.extend_from_slice(&num_want.to_be_bytes());
    d.extend_from_slice(&6881u16.to_be_bytes());
    d
}

#[test]
fn protocol_id_is_the_magic_number() {
    assert_eq!(PROTOCOL_ID, 0x41727101980);
    assert_eq!(PROTOCOL_ID, 4_497_486_125_440);
}

#[test]
fn parses_a_connect_request() {
    match parse_request(&connect_datagram(42)) {
        Ok(UdpRequest::Connect(c)) => assert_eq!(c.transaction_id, 42),
        other => panic!("{:?}", other),
    }
}

#[test]
fn connect_with_wrong_protocol_id_is_dropped() {
    let mut d = connect_datagram(42);
    d[7] = 0x81;
    assert_eq!(parse_request(&d).unwrap_err(), ParseFailure::Drop);
}

#[test]
fn short_and_oversized_datagrams_are_dropped() {
    assert_eq!(parse_request(&[]).unwrap_err(), ParseFailure::Drop);
    assert_eq!(parse_request(&connect_datagram(1)[..15]).unwrap_err(), ParseFailure::Drop);
    let mut big = connect_datagram(1);
    big.resize(MAX_PACKET_SIZE + 1, 0);
    assert_eq!(parse_request(&big).unwrap_err(), ParseFailure::Drop);
    big.truncate(MAX_PACKET_SIZE);
    assert!(parse_request(&big).is_ok());
}

#[test]
fn parses_an_announce_request() {
    let d = announce_datagram(0x0102_0304_0506_0708, 77, 2, [0, 0, 0, 0], 0xffff_ffff);
    assert_eq!(d.len(), 98);
    match parse_request(&d) {
        Ok(UdpRequest::Announce(a)) => {
            assert_eq!(a.connection_id, 0x0102_0304_0506_0708);
            assert_eq!(a.transaction_id, 77);
            assert_eq!(a.info_hash.0, [0xaa; 20]);
            assert_eq!(a.peer_id.0, [0xbb; 20]);
            assert_eq!(a.downloaded, 1111);
            assert_eq!(a.left, 2222);
            assert_eq!(a.uploaded, 3333);
            assert_eq!(a.event, AnnounceEvent::Started);
            assert_eq!(a.ip, [0, 0, 0, 0]);
            assert_eq!(a.key, 0xdead_beef);
            assert_eq!(a.num_want, 0xffff_ffff);
            assert_eq!(a.port, 6881);
        },
        other => panic!("{:?}", other),
    }
}

#[test]
fn announce_events_by_number() {
    let expected = [
        (0, AnnounceEvent::Periodic),
        (1, AnnounceEvent::Completed),
        (2, AnnounceEvent::Started),
        (3, AnnounceEvent::Stopped),
        (4, AnnounceEvent::Periodic),
    ];
    for (number, event) in expected {
        match parse_request(&announce_datagram(1, 1, number, [1, 2, 3, 4], 10)) {
            Ok(UdpRequest::Announce(a)) => {
                assert_eq!(a.event, event);
                assert_eq!(a.ip, [1, 2, 3, 4]);
            },
            other => panic!("{:?}", other),
        }
    }
}

#[test]
fn truncated_announce_is_answered_with_an_error() {
    let d = announce_datagram(1, 77, 2, [0, 0, 0, 0], 10);
    assert_eq!(
        parse_request(&d[..97]).unwrap_err(),
        ParseFailure::Reply { transaction_id: 77, error: FramingError::Truncated }
    );
}

#[test]
fn unknown_action_is_answered_with_an_error() {
    let mut d = connect_datagram(9);
    d[11] = 3;
    assert_eq!(
        parse_request(&d).unwrap_err(),
        ParseFailure::Reply { transaction_id: 9, error: FramingError::UnknownAction }
    );
}

fn scrape_datagram(transaction_id: u32, hashes: usize) -> Vec<u8> {
    let mut d = Vec::new();
    d.extend_from_slice(&5u64.to_be_bytes());
    d.extend_from_slice(&2u32.to_be_bytes());
    d.extend_from_slice(&transaction_id.to_be_bytes());
    for i in 0..hashes {
        d.extend_from_slice(&[i as u8; 20]);
    }
    d
}

#[test]
fn parses_a_scrape_request() {
    match parse_request(&scrape_datagram(3, 74)) {
        Ok(UdpRequest::Scrape(s)) => {
            assert_eq!(s.connection_id, 5);
            assert_eq!(s.transaction_id, 3);
            assert_eq!(s.info_hashes.len(), 74);
            assert_eq!(s.info_hashes[0].0, [0; 20]);
            assert_eq!(s.info_hashes[73].0, [73; 20]);
        },
        other => panic!("{:?}", other),
    }
}

#[test]
fn scrape_framing_errors() {
    assert_eq!(
        parse_request(&scrape_datagram(3, 0)).unwrap_err(),
        ParseFailure::Reply { transaction_id: 3, error: FramingError::Truncated }
    );
    let mut partial = scrape_datagram(3, 2);
    partial.pop();
    assert_eq!(
        parse_request(&partial).unwrap_err(),
        ParseFailure::Reply { transaction_id: 3, error: FramingError::Truncated }
    );
    // 75 info-hashes would make 1516 bytes, more than a datagram may have
    assert_eq!(parse_request(&scrape_datagram(3, 75)).unwrap_err(), ParseFailure::Drop);
}

fn expected_connection_id(secret: &[u8], ip: &[u8], bucket: u64) -> u64 {
    let mut mac = Hmac::<Sha256>::new_from_slice(secret).unwrap();
    mac.update(ip);
    mac.update(&bucket.to_be_bytes());
    let tag = mac.finalize().into_bytes();
    let mut first = [0u8; 8];
    first.copy_from_slice(&tag[..8]);
    u64::from_be_bytes(first)
}

#[test]
fn connection_id_is_the_head_of_the_tag() {
    let secret = b"server secret";
    let ip = IpAddress::V4([10, 0, 0, 1]);
    let id = mint_connection_id(secret, &ip, 1200);
    assert_eq!(id, expected_connection_id(secret, &[10, 0, 0, 1], 10));
    assert_eq!(mint_connection_id(secret, &ip, 1319), id);
    assert_ne!(mint_connection_id(secret, &ip, 1320), id);
    let v6 = IpAddress::V6([0, 0, 0, 0, 0, 0, 0, 0, 0, 0, 0, 0, 0, 0, 0, 1]);
    let mut octets = [0u8; 16];
    octets[15] = 1;
    assert_eq!(mint_connection_id(secret, &v6, 0), expected_connection_id(secret, &octets, 0));
}

#[test]
fn connection_id_is_bound_to_address_time_and_secret() {
    let secret = b"server secret";
    let ip = IpAddress::V4([10, 0, 0, 1]);
    let other = IpAddress::V4([10, 0, 0, 2]);
    let id = mint_connection_id(secret, &ip, 1250);
    assert!(verify_connection_id(secret, &ip, 1250, id));
    assert!(verify_connection_id(secret, &ip, 1250 + 120, id));
    assert!(verify_connection_id(secret, &ip, 1439, id));
    assert!(!verify_connection_id(secret, &ip, 1440, id));
    assert!(!verify_connection_id(secret, &ip, 1199, id));
    assert!(!verify_connection_id(secret, &other, 1250, id));
    assert!(!verify_connection_id(b"another secret", &ip, 1250, id));
    assert!(!verify_connection_id(secret, &ip, 1250, id ^ 1));
    let early = mint_connection_id(secret, &ip, 5);
    assert!(verify_connection_id(secret, &ip, 119, early));
    assert!(verify_connection_id(secret, &ip, 239, early));
    assert!(!verify_connection_id(secret, &ip, 240, early));
}

#[test]
fn connect_response_frame() {
    let r = UdpResponse::Connect { transaction_id: 42, connection_id: 0x0102_0304_0506_0708 };
    assert_eq!(r.encode(), vec![0, 0, 0, 0, 0, 0, 0, 42, 1, 2, 3, 4, 5, 6, 7, 8]);
    let r = UdpResponse::Connect { transaction_id: 0xffff_ffff, connection_id: 0xffff_ffff_ffff_fffe };
    assert_eq!(
        r.encode(),
        vec![0, 0, 0, 0, 255, 255, 255, 255, 255, 255, 255, 255, 255, 255, 255, 254]
    );
}

#[test]
fn announce_response_frames() {
    let r = UdpResponse::AnnounceIpv4 {
        transaction_id: 7,
        interval: 120,
        leechers: 2,
        seeders: 1,
        peers: vec![([10, 0, 0, 1], 6881), ([192, 168, 1, 20], 80)],
    };
    assert_eq!(
        r.encode(),
        vec![
            0, 0, 0, 1, 0, 0, 0, 7, 0, 0, 0, 120, 0, 0, 0, 2, 0, 0, 0, 1, 10, 0, 0, 1, 0x1a, 0xe1, 192, 168, 1,
            20, 0, 80
        ]
    );
    let mut ip = [0u8; 16];
    ip[0] = 0x20;
    ip[1] = 0x01;
    ip[15] = 9;
    let r = UdpResponse::AnnounceIpv6 { transaction_id: 7, interval: 120, leechers: 0, seeders: 3, peers: vec![(ip, 51413)] };
    let mut expected = vec![0, 0, 0, 1, 0, 0, 0, 7, 0, 0, 0, 120, 0, 0, 0, 0, 0, 0, 0, 3];
    expected.extend_from_slice(&ip);
    expected.extend_from_slice(&[0xc8, 0xd5]);
    assert_eq!(r.encode(), expected);
    let empty = UdpResponse::AnnounceIpv4 { transaction_id: 1, interval: 2, leechers: 3, seeders: 4, peers: vec![] };
    assert_eq!(empty.encode().len(), 20);
}

#[test]
fn scrape_response_frame() {
    let r = UdpResponse::Scrape {
        transaction_id: 9,
        stats: vec![
            ScrapeStats { seeders: 1, completed: 2, leechers: 3 },
            ScrapeStats { seeders: 0, completed: 0, leechers: 0 },
        ],
    };
    assert_eq!(
        r.encode(),
        vec![0, 0, 0, 2, 0, 0, 0, 9, 0, 0, 0, 1, 0, 0, 0, 2, 0, 0, 0, 3, 0, 0, 0, 0, 0, 0, 0, 0, 0, 0, 0, 0]
    );
}

#[test]
fn error_response_frames() {
    let r = UdpResponse::Error { transaction_id: 5, error: UdpError::ConnectionIdMismatch };
    let mut expected = vec![0, 0, 0, 3, 0, 0, 0, 5];
    expected.extend_from_slice(b"Connection ID mismatch");
    assert_eq!(r.encode(), expected);
    let texts = [
        (UdpError::Rejected(TorrentError::TorrentNotWhitelisted), "torrent not on whitelist"),
        (UdpError::Rejected(TorrentError::PeerNotAuthenticated), "peer not authenticated"),
        (UdpError::Rejected(TorrentError::PeerKeyNotValid), "peer key not valid"),
        (UdpError::Rejected(TorrentError::NoPeersFound), "no peers found"),
        (UdpError::Rejected(TorrentError::CouldNotSendResponse), "could not send response"),
        (UdpError::Rejected(TorrentError::InvalidInfoHash), "invalid info_hash"),
        (UdpError::Framing(FramingError::Truncated), "request is truncated"),
        (UdpError::Framing(FramingError::UnknownAction), "unknown action"),
        (UdpError::Framing(FramingError::ScrapeTooLong), "too many info-hashes in scrape"),
    ];
    for (error, text) in texts {
        assert_eq!(error.message(), text);
        let frame = UdpResponse::Error { transaction_id: 1, error }.encode();
        assert_eq!(&frame[8..], text.as_bytes());
    }
}

#[test]
fn announce_frame_is_a_header_and_one_record_per_peer() {
    let peers = vec![([10, 0, 0, 1], 6881u16), ([172, 16, 254, 3], 1), ([8, 8, 8, 8], 65535)];
    let frame =
        UdpResponse::AnnounceIpv4 { transaction_id: 7, interval: 120, leechers: 2, seeders: 1, peers: peers.clone() }
            .encode();
    assert_eq!(frame.len(), 20 + 6 * peers.len());
    for (i, (ip, port)) in peers.iter().enumerate() {
        let record = &frame[20 + 6 * i..26 + 6 * i];
        assert_eq!(&record[..4], &ip[..]);
        assert_eq!(&record[4..], &port.to_be_bytes()[..]);
    }
    assert_eq!(decode_compact_v4(&frame[20..]), Some(peers));
    let mut a = [0u8; 16];
    a[0] = 0xfe;
    a[15] = 0x42;
    let peers6 = vec![(a, 51413u16), ([1; 16], 80)];
    let frame =
        UdpResponse::AnnounceIpv6 { transaction_id: 7, interval: 120, leechers: 2, seeders: 1, peers: peers6.clone() }
            .encode();
    assert_eq!(frame.len(), 20 + 18 * peers6.len());
    for (i, (ip, port)) in peers6.iter().enumerate() {
        let record = &frame[20 + 18 * i..38 + 18 * i];
        assert_eq!(&record[..16], &ip[..]);
        assert_eq!(&record[16..], &port.to_be_bytes()[..]);
    }
    assert_eq!(decode_compact_v6(&frame[20..]), Some(peers6));
}
