use torrust_tracker::auth::{authorize, AuthKey, AuthService, KeyCheck, TorrentError};
use torrust_tracker::primitives::{InfoHash, TrackerMode};

const TOKEN: &str = "YZSl4lMZupRuOpSRC3krIKR5BPB14nrJ";
const OTHER: &str = "aaaaaaaaaaaaaaaaaaaaaaaaaaaaaaaa";

#[test]
fn generated_key_is_valid_until_it_expires() {
    let mut auth = AuthService::new();
    let key = auth.generate_key(TOKEN, 1000, Some(3600)).unwrap();
    assert_eq!(&key.key[..], TOKEN.as_bytes());
    assert_eq!(key.valid_until, Some(4600));
    assert_eq!(auth.verify_key(TOKEN, 1000), KeyCheck::Valid);
    assert_eq!(auth.verify_key(TOKEN, 4600), KeyCheck::Valid);
    assert_eq!(auth.verify_key(TOKEN, 4601), KeyCheck::Expired);
}

#[test]
fn key_without_lifetime_never_expires() {
    let mut auth = AuthService::new();
    let key = auth.generate_key(TOKEN, 1000, None).unwrap();
    assert_eq!(key.valid_until, None);
    assert_eq!(auth.verify_key(TOKEN, u64::MAX), KeyCheck::Valid);
}

#[test]
fn lifetime_stops_at_the_end_of_the_clock() {
    let mut auth = AuthService::new();
    let key = auth.generate_key(TOKEN, u64::MAX - 5, Some(10)).unwrap();
    assert_eq!(key.valid_until, Some(u64::MAX));
}

#[test]
fn unknown_and_malformed_keys() {
    let mut auth = AuthService::new();
    auth.generate_key(TOKEN, 0, None).unwrap();
    assert_eq!(auth.verify_key(OTHER, 0), KeyCheck::Unknown);
    assert_eq!(auth.verify_key(&TOKEN[..31], 0), KeyCheck::Malformed);
    assert_eq!(auth.verify_key("", 0), KeyCheck::Malformed);
    assert_eq!(auth.verify_key("YZSl4lMZupRuOpSRC3krIKR5BPB14nr!", 0), KeyCheck::Malformed);
    assert_eq!(auth.verify_key("YZSl4lMZupRuOpSRC3krIKR5BPB14nrJx", 0), KeyCheck::Malformed);
    assert_eq!(auth.verify_key("éZSl4lMZupRuOpSRC3krIKR5BPB14nr", 0), KeyCheck::Malformed);
    // differs from the held token in the last byte only
    assert_eq!(auth.verify_key("YZSl4lMZupRuOpSRC3krIKR5BPB14nrK", 0), KeyCheck::Unknown);
}

#[test]
fn colliding_or_malformed_token_is_not_issued() {
    let mut auth = AuthService::new();
    assert!(auth.generate_key(TOKEN, 0, Some(10)).is_some());
    assert!(auth.generate_key(TOKEN, 5, Some(100)).is_none());
    assert_eq!(auth.verify_key(TOKEN, 11), KeyCheck::Expired);
    assert!(auth.generate_key("short", 0, None).is_none());
    assert!(auth.generate_key(OTHER, 0, None).is_some());
}

#[test]
fn add_key_takes_a_stored_key() {
    let mut auth = AuthService::new();
    let mut token = [0u8; 32];
    token.copy_from_slice(TOKEN.as_bytes());
    assert!(auth.add_key(AuthKey { key: token, valid_until: Some(50) }));
    assert!(!auth.add_key(AuthKey { key: token, valid_until: Some(90) }));
    assert!(!auth.add_key(AuthKey { key: [b'-'; 32], valid_until: None }));
    assert_eq!(auth.verify_key(TOKEN, 50), KeyCheck::Valid);
    assert_eq!(auth.verify_key(TOKEN, 51), KeyCheck::Expired);
}

#[test]
fn remove_key_is_idempotent() {
    let mut auth = AuthService::new();
    auth.generate_key(TOKEN, 0, None).unwrap();
    auth.generate_key(OTHER, 0, None).unwrap();
    assert!(auth.remove_key(TOKEN));
    assert!(!auth.remove_key(TOKEN));
    assert!(!auth.remove_key("not a key"));
    assert_eq!(auth.verify_key(TOKEN, 0), KeyCheck::Unknown);
    assert_eq!(auth.verify_key(OTHER, 0), KeyCheck::Valid);
}

#[test]
fn whitelist_add_remove_lookup() {
    let mut auth = AuthService::new();
    let a = InfoHash([1; 20]);
    let b = InfoHash([2; 20]);
    assert!(!auth.is_whitelisted(&a));
    assert!(auth.add_to_whitelist(a));
    assert!(!auth.add_to_whitelist(a));
    assert!(auth.is_whitelisted(&a));
    assert!(!auth.is_whitelisted(&b));
    assert!(auth.add_to_whitelist(b));
    assert!(auth.remove_from_whitelist(&a));
    assert!(!auth.remove_from_whitelist(&a));
    assert!(!auth.is_whitelisted(&a));
    assert!(auth.is_whitelisted(&b));
}

#[test]
fn decision_table() {
    let checks = [
        None,
        Some(KeyCheck::Valid),
        Some(KeyCheck::Expired),
        Some(KeyCheck::Unknown),
        Some(KeyCheck::Malformed),
    ];
    for key in checks {
        for whitelisted in [false, true] {
            assert_eq!(authorize(TrackerMode::Public, whitelisted, key), Ok(()));
        }
        assert_eq!(authorize(TrackerMode::Listed, false, key), Err(TorrentError::TorrentNotWhitelisted));
        assert_eq!(authorize(TrackerMode::Listed, true, key), Ok(()));
        assert_eq!(authorize(TrackerMode::PrivateListed, false, key), Err(TorrentError::TorrentNotWhitelisted));
        for (mode, whitelisted) in [(TrackerMode::Private, false), (TrackerMode::Private, true), (TrackerMode::PrivateListed, true)] {
            let expected = match key {
                None => Err(TorrentError::PeerNotAuthenticated),
                Some(KeyCheck::Valid) => Ok(()),
                Some(_) => Err(TorrentError::PeerKeyNotValid),
            };
            assert_eq!(authorize(mode, whitelisted, key), expected);
        }
    }
}

#[test]
fn same_request_same_decision() {
    let mut auth = AuthService::new();
    auth.generate_key(TOKEN, 0, Some(100)).unwrap();
    let h = InfoHash([1; 20]);
    auth.add_to_whitelist(h);
    for mode in [TrackerMode::Public, TrackerMode::Listed, TrackerMode::Private, TrackerMode::PrivateListed] {
        for key in [None, Some(TOKEN), Some(OTHER), Some("bad")] {
            for now in [0u64, 100, 101] {
                let first = auth.authenticate_request(mode, &h, key, now);
                let second = auth.authenticate_request(mode, &h, key, now);
                assert_eq!(first, second);
            }
        }
    }
    assert_eq!(auth.authenticate_request(TrackerMode::Private, &h, Some(TOKEN), 100), Ok(()));
    assert_eq!(
        auth.authenticate_request(TrackerMode::Private, &h, Some(TOKEN), 101),
        Err(TorrentError::PeerKeyNotValid)
    );
    assert_eq!(
        auth.authenticate_request(TrackerMode::PrivateListed, &InfoHash([2; 20]), Some(TOKEN), 0),
        Err(TorrentError::TorrentNotWhitelisted)
    );
}
