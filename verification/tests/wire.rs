use torrust_tracker::bytes::{push_all, push_decimal, push_hexadecimal, push_u16, push_u32, push_u64, read_u16, read_u32, read_u64};
use torrust_tracker::compact::{decode_compact_v4, decode_compact_v6, encode_compact_v4, encode_compact_v6};
use torrust_tracker::primitives::{take20, InfoHash, IpAddress, PeerId, SocketAddress, TrackerMode};
use torrust_tracker::query::{find_byte, find_values, parse_decimal, percent_decode, range_is};

#[test]
fn big_endian_fields_round_trip() {
    let mut out = Vec::new();
    push_u16(&mut out, 0x1ae1);
    push_u32(&mut out, 0x0102_0304);
    push_u64(&mut out, 0x1122_3344_5566_7788);
    push_all(&mut out, &[9, 9]);
    assert_eq!(out, vec![0x1a, 0xe1, 1, 2, 3, 4, 0x11, 0x22, 0x33, 0x44, 0x55, 0x66, 0x77, 0x88, 9, 9]);
    assert_eq!(read_u16(&out, 0), 0x1ae1);
    assert_eq!(read_u32(&out, 2), 0x0102_0304);
    assert_eq!(read_u64(&out, 6), 0x1122_3344_5566_7788);
    let mut edge = Vec::new();
    push_u64(&mut edge, u64::MAX);
    push_u32(&mut edge, 0);
    assert_eq!(read_u64(&edge, 0), u64::MAX);
    assert_eq!(read_u32(&edge, 8), 0);
}

#[test]
fn numbers_in_decimal_and_hexadecimal() {
    let mut out = Vec::new();
    push_decimal(&mut out, 0);
    out.push(b' ');
    push_decimal(&mut out, 9);
    out.push(b' ');
    push_decimal(&mut out, 10);
    out.push(b' ');
    push_decimal(&mut out, 6881);
    out.push(b' ');
    push_decimal(&mut out, u64::MAX);
    out.push(b' ');
    push_hexadecimal(&mut out, 0);
    out.push(b' ');
    push_hexadecimal(&mut out, 0x2001);
    out.push(b' ');
    push_hexadecimal(&mut out, 0xdb8);
    out.push(b' ');
    push_hexadecimal(&mut out, 0xffff);
    assert_eq!(String::from_utf8(out).unwrap(), "0 9 10 6881 18446744073709551615 0 2001 db8 ffff");
}

#[test]
fn compact_peers_round_trip() {
    let v4 = vec![([10, 0, 0, 1], 6881u16), ([255, 255, 255, 255], 65535), ([0, 0, 0, 0], 0)];
    let bytes = encode_compact_v4(&v4);
    assert_eq!(bytes, vec![10, 0, 0, 1, 0x1a, 0xe1, 255, 255, 255, 255, 255, 255, 0, 0, 0, 0, 0, 0]);
    assert_eq!(decode_compact_v4(&bytes), Some(v4));
    assert_eq!(decode_compact_v4(&bytes[..17]), None);
    assert_eq!(decode_compact_v4(&[]), Some(vec![]));
    let mut a = [0u8; 16];
    for (i, b) in a.iter_mut().enumerate() {
        *b = i as u8 + 1;
    }
    let v6 = vec![(a, 51413u16), ([0xff; 16], 1)];
    let bytes = encode_compact_v6(&v6);
    assert_eq!(bytes.len(), 36);
    assert_eq!(&bytes[..16], &a[..]);
    assert_eq!(&bytes[16..18], &[0xc8, 0xd5]);
    assert_eq!(decode_compact_v6(&bytes), Some(v6));
    assert_eq!(decode_compact_v6(&bytes[..35]), None);
}

#[test]
fn info_hash_order_and_equality() {
    let a = InfoHash([1; 20]);
    let mut b = InfoHash([1; 20]);
    assert!(a.same(&b));
    assert!(!a.less_than(&b));
    b.0[19] = 2;
    assert!(!a.same(&b));
    assert!(a.less_than(&b));
    assert!(!b.less_than(&a));
    let mut c = InfoHash([1; 20]);
    c.0[0] = 0;
    c.0[19] = 255;
    assert!(c.less_than(&a));
    assert!(InfoHash::from_bytes(&[3; 20]).unwrap().same(&InfoHash([3; 20])));
    assert!(InfoHash::from_bytes(&[3; 19]).is_none());
    assert!(InfoHash::from_bytes(&[3; 21]).is_none());
    assert!(PeerId::from_bytes(&[4; 20]).unwrap().same(&PeerId([4; 20])));
    assert!(PeerId::from_bytes(&[]).is_none());
    assert!(!PeerId([4; 20]).same(&PeerId([5; 20])));
    let mut src = vec![0u8; 5];
    src.extend(1..=20u8);
    src.push(99);
    let taken = take20(&src, 5);
    assert_eq!(taken.to_vec(), (1..=20u8).collect::<Vec<u8>>());
}

#[test]
fn addresses_and_modes() {
    assert!(IpAddress::V4([127, 0, 0, 1]).is_loopback());
    assert!(IpAddress::V4([127, 9, 9, 9]).is_loopback());
    assert!(!IpAddress::V4([128, 0, 0, 1]).is_loopback());
    let mut one = [0u8; 16];
    one[15] = 1;
    assert!(IpAddress::V6(one).is_loopback());
    one[0] = 1;
    assert!(!IpAddress::V6(one).is_loopback());
    assert!(!IpAddress::V6([0; 16]).is_loopback());
    assert!(IpAddress::V4([1, 2, 3, 4]).is_ipv4());
    assert!(!IpAddress::V6([0; 16]).is_ipv4());
    assert!(IpAddress::V4([1, 2, 3, 4]).same(&IpAddress::V4([1, 2, 3, 4])));
    assert!(!IpAddress::V4([1, 2, 3, 4]).same(&IpAddress::V4([1, 2, 3, 5])));
    assert!(!IpAddress::V4([0, 0, 0, 0]).same(&IpAddress::V6([0; 16])));
    assert!(IpAddress::V6([7; 16]).same(&IpAddress::V6([7; 16])));
    let a = SocketAddress::new(IpAddress::V4([1, 2, 3, 4]), 80);
    assert!(a.same(&SocketAddress::new(IpAddress::V4([1, 2, 3, 4]), 80)));
    assert!(!a.same(&SocketAddress::new(IpAddress::V4([1, 2, 3, 4]), 81)));
    assert!(!TrackerMode::Public.is_listed() && !TrackerMode::Public.is_private());
    assert!(TrackerMode::Listed.is_listed() && !TrackerMode::Listed.is_private());
    assert!(!TrackerMode::Private.is_listed() && TrackerMode::Private.is_private());
    assert!(TrackerMode::PrivateListed.is_listed() && TrackerMode::PrivateListed.is_private());
}

#[test]
fn percent_decoding() {
    let q = b"%41b%2F%2f%00z";
    assert_eq!(percent_decode(q, 0, q.len()), Some(vec![0x41, b'b', 0x2f, 0x2f, 0, b'z']));
    assert_eq!(percent_decode(q, 3, 4), Some(vec![b'b']));
    assert_eq!(percent_decode(q, 0, 0), Some(vec![]));
    assert_eq!(percent_decode(b"%4", 0, 2), None);
    assert_eq!(percent_decode(b"%", 0, 1), None);
    assert_eq!(percent_decode(b"ab%4g", 0, 5), None);
    assert_eq!(percent_decode(b"a+b", 0, 3), Some(vec![b'a', b'+', b'b']));
}

#[test]
fn decimal_numbers_with_a_bound() {
    assert_eq!(parse_decimal(b"6881", 0, 4, 65535), Some(6881));
    assert_eq!(parse_decimal(b"65535", 0, 5, 65535), Some(65535));
    assert_eq!(parse_decimal(b"65536", 0, 5, 65535), None);
    assert_eq!(parse_decimal(b"007", 0, 3, 7), Some(7));
    assert_eq!(parse_decimal(b"", 0, 0, 7), None);
    assert_eq!(parse_decimal(b"-1", 0, 2, 7), None);
    assert_eq!(parse_decimal(b"1a", 0, 2, 100), None);
    assert_eq!(parse_decimal(b"18446744073709551615", 0, 20, u64::MAX), Some(u64::MAX));
    assert_eq!(parse_decimal(b"18446744073709551616", 0, 20, u64::MAX), None);
    assert_eq!(parse_decimal(b"99999999999999999999999", 0, 23, u64::MAX), None);
    assert_eq!(parse_decimal(b"x12y", 1, 3, 12), Some(12));
    assert_eq!(parse_decimal(b"9", 0, 1, 0), None);
    assert_eq!(parse_decimal(b"0", 0, 1, 0), Some(0));
}

#[test]
fn parameters_by_name() {
    let q = b"a=1&bb=2&a=&a&c==x&&a=3=4";
    let found = find_values(q, b"a");
    let values: Vec<&[u8]> = found.iter().map(|r| &q[r.0..r.1]).collect();
    assert_eq!(values, vec![&b"1"[..], &b""[..], &b""[..], &b"3=4"[..]]);
    let found = find_values(q, b"c");
    assert_eq!(found.iter().map(|r| &q[r.0..r.1]).collect::<Vec<&[u8]>>(), vec![&b"=x"[..]]);
    assert!(find_values(q, b"b").is_empty());
    assert_eq!(find_values(q, b"").len(), 1);
    assert!(find_values(b"", b"a").is_empty());
    assert_eq!(find_byte(q, 0, b'&'), 3);
    assert_eq!(find_byte(q, 4, b'&'), 8);
    assert_eq!(find_byte(b"abc", 1, b'z'), 3);
    assert!(range_is(q, 4, 6, b"bb"));
    assert!(!range_is(q, 4, 6, b"bc"));
    assert!(!range_is(q, 4, 6, b"b"));
}
