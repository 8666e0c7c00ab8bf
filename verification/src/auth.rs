//! Auth keys, the whitelist, and the decision whether a request is admitted.

use vstd::prelude::*;
use vstd::string::StringSliceAdditionalSpecFns;
use crate::primitives::{InfoHash, TrackerMode};

verus! {

/// Why the tracker turns a request down.
#[derive(Clone, Copy, Debug, PartialEq, Eq, Structural)]
pub enum TorrentError {
    TorrentNotWhitelisted,
    PeerNotAuthenticated,
    PeerKeyNotValid,
    NoPeersFound,
    CouldNotSendResponse,
    InvalidInfoHash,
}

/// What the tracker finds when it looks at a key that a peer supplied.
#[derive(Clone, Copy, Debug, PartialEq, Eq, Structural)]
pub enum KeyCheck {
    Valid,
    Expired,
    Unknown,
    Malformed,
}

/// The length of a key's token.
pub const KEY_LENGTH: usize = 32;

/// A time-bounded token that admits a peer to a private tracker.
#[derive(Clone, Copy, Debug)]
pub struct AuthKey {
    /// Thirty-two ASCII letters and digits.
    pub key: [u8; 32],
    /// The last second at which the key is valid; `None` for a key that never expires.
    pub valid_until: Option<u64>,
}

pub open spec fn is_alphanumeric(b: u8) -> bool {
    (0x30 <= b <= 0x39) || (0x41 <= b <= 0x5a) || (0x61 <= b <= 0x7a)
}

/// A well-formed token: exactly thirty-two ASCII letters and digits.
pub open spec fn token_ok(t: Seq<u8>) -> bool {
    t.len() == 32 && forall|i: int| 0 <= i < 32 ==> is_alphanumeric(#[trigger] t[i])
}

pub open spec fn key_known(keys: Seq<AuthKey>, token: Seq<u8>) -> bool {
    exists|i: int| 0 <= i < keys.len() && (#[trigger] keys[i]).key@ == token
}

/// Where the key with `token` stands; meaningful when `key_known(keys, token)`.
pub open spec fn key_at(keys: Seq<AuthKey>, token: Seq<u8>) -> int {
    choose|i: int| 0 <= i < keys.len() && (#[trigger] keys[i]).key@ == token
}

pub open spec fn unique_keys(keys: Seq<AuthKey>) -> bool {
    forall|i: int, j: int| 0 <= i < j < keys.len() ==> (#[trigger] keys[i]).key@ != (#[trigger] keys[j]).key@
}

pub open spec fn keys_ok(keys: Seq<AuthKey>) -> bool {
    forall|i: int| 0 <= i < keys.len() ==> token_ok((#[trigger] keys[i]).key@)
}

/// A key is expired once the clock has passed its last valid second.
pub open spec fn is_expired(k: AuthKey, now: u64) -> bool {
    k.valid_until is Some && now > k.valid_until->0
}

/// What the tracker finds for `token` at `now`, given the keys it has issued.
pub open spec fn check_key(keys: Seq<AuthKey>, token: Seq<u8>, now: u64) -> KeyCheck {
    if !token_ok(token) {
        KeyCheck::Malformed
    } else if !key_known(keys, token) {
        KeyCheck::Unknown
    } else if is_expired(keys[key_at(keys, token)], now) {
        KeyCheck::Expired
    } else {
        KeyCheck::Valid
    }
}

/// The last valid second of a key issued at `now` for `lifetime` seconds: none
/// for a key without a lifetime, and never past the end of the clock.
pub open spec fn expiry(now: u64, lifetime: Option<u64>) -> Option<u64> {
    match lifetime {
        Some(d) => Some(
            if now + d > u64::MAX {
                u64::MAX
            } else {
                (now + d) as u64
            },
        ),
        None => None,
    }
}

/// The decision table of access control. In a listed mode the torrent has to be
/// whitelisted, and that is looked at first; in a private mode the peer has to
/// supply a key, and the key has to be valid.
pub open spec fn gate_decision(mode: TrackerMode, whitelisted: bool, key: Option<KeyCheck>) -> Result<
    (),
    TorrentError,
> {
    if mode.checks_whitelist() && !whitelisted {
        Err(TorrentError::TorrentNotWhitelisted)
    } else if !mode.requires_key() {
        Ok(())
    } else {
        match key {
            None => Err(TorrentError::PeerNotAuthenticated),
            Some(KeyCheck::Valid) => Ok(()),
            Some(_) => Err(TorrentError::PeerKeyNotValid),
        }
    }
}

/// Decides whether a request is admitted, from the mode, whether its torrent is
/// whitelisted, and what was found for the key it supplied, if it supplied one.
pub fn authorize(mode: TrackerMode, whitelisted: bool, key: Option<KeyCheck>) -> (r: Result<
    (),
    TorrentError,
>)
    ensures
        r == gate_decision(mode, whitelisted, key),
{
    if mode.is_listed() && !whitelisted {
        return Err(TorrentError::TorrentNotWhitelisted);
    }
    if !mode.is_private() {
        return Ok(());
    }
    match key {
        None => Err(TorrentError::PeerNotAuthenticated),
        Some(KeyCheck::Valid) => Ok(()),
        Some(_) => Err(TorrentError::PeerKeyNotValid),
    }
}

/// Access control is a function of its inputs: the same mode, whitelist, keys, clock
/// and request give the same decision.
pub proof fn lemma_gate_deterministic(
    mode: TrackerMode,
    whitelist: Set<InfoHash>,
    keys: Seq<AuthKey>,
    info_hash: InfoHash,
    token: Option<Seq<u8>>,
    now: u64,
    first: Result<(), TorrentError>,
    second: Result<(), TorrentError>,
)
    requires
        first == request_decision(mode, whitelist, keys, info_hash, token, now),
        second == request_decision(mode, whitelist, keys, info_hash, token, now),
    ensures
        first == second,
{
}

/// The decision on a request for `info_hash` that supplied `token`.
pub open spec fn request_decision(
    mode: TrackerMode,
    whitelist: Set<InfoHash>,
    keys: Seq<AuthKey>,
    info_hash: InfoHash,
    token: Option<Seq<u8>>,
    now: u64,
) -> Result<(), TorrentError> {
    gate_decision(
        mode,
        whitelist.contains(info_hash),
        match token {
            Some(t) => Some(check_key(keys, t, now)),
            None => None,
        },
    )
}

/// In a mode that asks for both, the whitelist is looked at before the key.
pub proof fn lemma_whitelist_before_key(key: Option<KeyCheck>)
    ensures
        gate_decision(TrackerMode::PrivateListed, false, key) == Err::<(), TorrentError>(
            TorrentError::TorrentNotWhitelisted,
        ),
{
}

fn byte_is_alphanumeric(b: u8) -> (r: bool)
    ensures
        r == is_alphanumeric(b),
{
    (0x30 <= b && b <= 0x39) || (0x41 <= b && b <= 0x5a) || (0x61 <= b && b <= 0x7a)
}

/// Whether `token` is thirty-two ASCII letters and digits.
pub fn token_is_well_formed(token: &[u8]) -> (r: bool)
    ensures
        r == token_ok(token@),
{
    if token.len() != 32 {
        return false;
    }
    let mut i: usize = 0;
    while i < 32
        invariant
            i <= 32,
            token@.len() == 32,
            forall|j: int| 0 <= j < i ==> is_alphanumeric(#[trigger] token@[j]),
        decreases 32 - i,
    {
        if !byte_is_alphanumeric(token[i]) {
            return false;
        }
        i += 1;
    }
    true
}

/// Compares a stored token with a supplied one of the same length, looking at
/// every byte whatever the earlier ones were.
fn tokens_match(stored: &[u8; 32], supplied: &[u8]) -> (r: bool)
    requires
        supplied@.len() == 32,
    ensures
        r == (stored@ == supplied@),
{
    let mut diff: u8 = 0;
    let mut i: usize = 0;
    while i < 32
        invariant
            i <= 32,
            supplied@.len() == 32,
            (diff == 0) == (forall|j: int| 0 <= j < i ==> stored@[j] == supplied@[j]),
        decreases 32 - i,
    {
        let x = stored[i];
        let y = supplied[i];
        let ghost before = diff;
        diff = diff | (x ^ y);
        proof {
            assert(((before | (x ^ y)) == 0) == (before == 0 && x == y)) by (bit_vector);
            if diff != 0 && before == 0 {
                assert(stored@[i as int] != supplied@[i as int]);
            }
        }
        i += 1;
    }
    proof {
        if diff == 0 {
            assert(stored@ =~= supplied@);
        }
    }
    diff == 0
}

/// What the service holds: the keys in the order they were issued, and the
/// whitelisted info-hashes.
pub struct AuthModel {
    pub keys: Seq<AuthKey>,
    pub whitelist: Set<InfoHash>,
}

/// Issues, checks and revokes auth keys, and keeps the whitelist.
#[derive(Debug)]
pub struct AuthService {
    keys: Vec<AuthKey>,
    whitelist: Vec<InfoHash>,
}

impl View for AuthService {
    type V = AuthModel;

    closed spec fn view(&self) -> AuthModel {
        AuthModel { keys: self.keys@, whitelist: self.whitelist@.to_set() }
    }
}

impl AuthService {
    /// No token is held twice, every token is well formed, and no info-hash is
    /// whitelisted twice.
    pub closed spec fn wf(&self) -> bool {
        &&& unique_keys(self.keys@)
        &&& keys_ok(self.keys@)
        &&& self.whitelist@.no_duplicates()
    }

    /// A service without keys and with an empty whitelist.
    pub fn new() -> (r: AuthService)
        ensures
            r.wf(),
            r@.keys == Seq::<AuthKey>::empty(),
            r@.whitelist == Set::<InfoHash>::empty(),
    {
        let r = AuthService { keys: Vec::new(), whitelist: Vec::new() };
        assert(r@.whitelist =~= Set::<InfoHash>::empty());
        r
    }

    /// Where the key with the well-formed `token` stands. Every key is compared,
    /// and each comparison looks at every byte.
    fn find_key(&self, token: &[u8]) -> (r: Option<usize>)
        requires
            self.wf(),
            token@.len() == 32,
        ensures
            r.is_some() == key_known(self.keys@, token@),
            r.is_some() ==> r.unwrap() == key_at(self.keys@, token@) && r.unwrap() < self.keys@.len(),
    {
        let mut found: Option<usize> = None;
        let mut i: usize = 0;
        while i < self.keys.len()
            invariant
                i <= self.keys@.len(),
                self.wf(),
                token@.len() == 32,
                found.is_none() ==> forall|j: int| 0 <= j < i ==> (#[trigger] self.keys@[j]).key@ != token@,
                found.is_some() ==> found.unwrap() < i && self.keys@[found.unwrap() as int].key@ == token@,
            decreases self.keys@.len() - i,
        {
            if tokens_match(&self.keys[i].key, token) {
                found = Some(i);
            }
            i += 1;
        }
        proof {
            if found.is_some() {
                let s = self.keys@;
                let f = found.unwrap() as int;
                assert(s[f].key@ == token@);
                let at = key_at(s, token@);
                if at < f {
                    assert(s[at].key@ != s[f].key@);
                } else if at > f {
                    assert(s[f].key@ != s[at].key@);
                }
            }
        }
        found
    }

    /// Checks the key that a peer supplied, at `now`.
    pub fn verify_key(&self, key: &str, now: u64) -> (r: KeyCheck)
        requires
            self.wf(),
        ensures
            r == check_key(self@.keys, key.spec_bytes(), now),
    {
        let token = key.as_bytes();
        if !token_is_well_formed(token) {
            return KeyCheck::Malformed;
        }
        match self.find_key(token) {
            None => KeyCheck::Unknown,
            Some(at) => {
                let k = self.keys[at];
                match k.valid_until {
                    Some(t) => if now > t {
                        KeyCheck::Expired
                    } else {
                        KeyCheck::Valid
                    },
                    None => KeyCheck::Valid,
                }
            },
        }
    }

    /// Takes `key` into the service. Nothing changes, and `false` comes back,
    /// when its token is malformed or already held.
    pub fn add_key(&mut self, key: AuthKey) -> (r: bool)
        requires
            old(self).wf(),
        ensures
            final(self).wf(),
            r == (token_ok(key.key@) && !key_known(old(self)@.keys, key.key@)),
            r ==> final(self)@.keys == old(self)@.keys.push(key),
            !r ==> final(self)@.keys == old(self)@.keys,
            final(self)@.whitelist == old(self)@.whitelist,
    {
        let token = vstd::array::array_as_slice(&key.key);
        if !token_is_well_formed(token) {
            return false;
        }
        if self.find_key(token).is_some() {
            return false;
        }
        let ghost s = self.keys@;
        self.keys.push(key);
        proof {
            let t = self.keys@;
            assert forall|i: int, j: int| 0 <= i < j < t.len() implies (#[trigger] t[i]).key@ != (
            #[trigger] t[j]).key@ by {
                assert(t[i] == s[i]);
                if j < s.len() {
                    assert(t[j] == s[j]);
                }
            }
            assert forall|i: int| 0 <= i < t.len() implies token_ok((#[trigger] t[i]).key@) by {
                if i < s.len() {
                    assert(t[i] == s[i]);
                }
            }
        }
        true
    }

    /// Issues a key with the token `token`, drawn at random by the caller, valid
    /// from `now` for `lifetime` seconds, or for ever without a lifetime. `None`
    /// when the token is malformed or already held: the caller draws another.
    pub fn generate_key(&mut self, token: &str, now: u64, lifetime: Option<u64>) -> (r: Option<AuthKey>)
        requires
            old(self).wf(),
        ensures
            final(self).wf(),
            r.is_some() == (token_ok(token.spec_bytes()) && !key_known(old(self)@.keys, token.spec_bytes())),
            r.is_some() ==> r.unwrap().key@ == token.spec_bytes() && r.unwrap().valid_until == expiry(
                now,
                lifetime,
            ) && final(self)@.keys == old(self)@.keys.push(r.unwrap()),
            r.is_none() ==> final(self)@.keys == old(self)@.keys,
            final(self)@.whitelist == old(self)@.whitelist,
    {
        let bytes = token.as_bytes();
        if !token_is_well_formed(bytes) {
            return None;
        }
        let mut id = [0u8; 32];
        let mut i: usize = 0;
        while i < 32
            invariant
                i <= 32,
                bytes@.len() == 32,
                forall|j: int| 0 <= j < i ==> id[j] == bytes@[j],
            decreases 32 - i,
        {
            id[i] = bytes[i];
            i += 1;
        }
        assert(id@ =~= bytes@);
        let valid_until = match lifetime {
            Some(d) => Some(now.saturating_add(d)),
            None => None,
        };
        let key = AuthKey { key: id, valid_until };
        if self.add_key(key) {
            Some(key)
        } else {
            None
        }
    }

    /// Revokes the key with `token`. Revoking a key that is not held changes
    /// nothing; `true` when a key went.
    pub fn remove_key(&mut self, token: &str) -> (r: bool)
        requires
            old(self).wf(),
        ensures
            final(self).wf(),
            r == key_known(old(self)@.keys, token.spec_bytes()),
            !key_known(final(self)@.keys, token.spec_bytes()),
            r ==> final(self)@.keys == old(self)@.keys.remove(key_at(old(self)@.keys, token.spec_bytes())),
            !r ==> final(self)@.keys == old(self)@.keys,
            final(self)@.whitelist == old(self)@.whitelist,
    {
        let bytes = token.as_bytes();
        if bytes.len() != 32 {
            proof {
                if key_known(self.keys@, bytes@) {
                    let i = key_at(self.keys@, bytes@);
                    assert(self.keys@[i].key@.len() == 32);
                }
            }
            return false;
        }
        match self.find_key(bytes) {
            None => false,
            Some(at) => {
                let ghost s = self.keys@;
                self.keys.remove(at);
                proof {
                    let t = self.keys@;
                    assert forall|i: int| 0 <= i < t.len() implies (#[trigger] t[i]).key@ != bytes@
                        && token_ok(t[i].key@) by {
                        let a = if i < at { i } else { i + 1 };
                        assert(t[i] == s[a]);
                        if a < at {
                            assert(s[a].key@ != s[at as int].key@);
                        } else {
                            assert(s[at as int].key@ != s[a].key@);
                        }
                    }
                    assert forall|i: int, j: int| 0 <= i < j < t.len() implies (#[trigger] t[i]).key@ != (
                    #[trigger] t[j]).key@ by {
                        let a = if i < at { i } else { i + 1 };
                        let b = if j < at { j } else { j + 1 };
                        assert(t[i] == s[a] && t[j] == s[b]);
                    }
                }
                true
            },
        }
    }

    fn find_hash(&self, h: &InfoHash) -> (r: Option<usize>)
        ensures
            r.is_some() == self.whitelist@.contains(*h),
            r.is_some() ==> r.unwrap() < self.whitelist@.len() && self.whitelist@[r.unwrap() as int] == *h,
    {
        let mut i: usize = 0;
        while i < self.whitelist.len()
            invariant
                i <= self.whitelist@.len(),
                forall|j: int| 0 <= j < i ==> self.whitelist@[j] != *h,
            decreases self.whitelist@.len() - i,
        {
            if self.whitelist[i].same(h) {
                return Some(i);
            }
            i += 1;
        }
        None
    }

    /// Whether `info_hash` is on the whitelist.
    pub fn is_whitelisted(&self, info_hash: &InfoHash) -> (r: bool)
        ensures
            r == self@.whitelist.contains(*info_hash),
    {
        self.find_hash(info_hash).is_some()
    }

    /// Puts `info_hash` on the whitelist; `false` when it was there already.
    pub fn add_to_whitelist(&mut self, info_hash: InfoHash) -> (r: bool)
        requires
            old(self).wf(),
        ensures
            final(self).wf(),
            r == !old(self)@.whitelist.contains(info_hash),
            final(self)@.whitelist == old(self)@.whitelist.insert(info_hash),
            final(self)@.keys == old(self)@.keys,
    {
        let ghost s = self.whitelist@;
        if self.find_hash(&info_hash).is_some() {
            assert(s.to_set().insert(info_hash) =~= s.to_set());
            return false;
        }
        self.whitelist.push(info_hash);
        proof {
            let t = self.whitelist@;
            assert forall|x: InfoHash| t.to_set().contains(x) == s.to_set().insert(info_hash).contains(
                x,
            ) by {
                if s.contains(x) {
                    let i = choose|i: int| 0 <= i < s.len() && s[i] == x;
                    assert(t[i] == x);
                }
                if t.contains(x) {
                    let i = choose|i: int| 0 <= i < t.len() && t[i] == x;
                    if i < s.len() {
                        assert(s[i] == x);
                    }
                }
                assert(t[t.len() - 1] == info_hash);
            }
            assert(t.to_set() =~= s.to_set().insert(info_hash));
        }
        true
    }

    /// Takes `info_hash` off the whitelist; `false` when it was not there.
    pub fn remove_from_whitelist(&mut self, info_hash: &InfoHash) -> (r: bool)
        requires
            old(self).wf(),
        ensures
            final(self).wf(),
            r == old(self)@.whitelist.contains(*info_hash),
            final(self)@.whitelist == old(self)@.whitelist.remove(*info_hash),
            final(self)@.keys == old(self)@.keys,
    {
        let ghost s = self.whitelist@;
        match self.find_hash(info_hash) {
            None => {
                assert(s.to_set().remove(*info_hash) =~= s.to_set());
                false
            },
            Some(at) => {
                self.whitelist.remove(at);
                proof {
                    let t = self.whitelist@;
                    assert forall|x: InfoHash| t.to_set().contains(x) == s.to_set().remove(
                        *info_hash,
                    ).contains(x) by {
                        if t.contains(x) {
                            let i = choose|i: int| 0 <= i < t.len() && t[i] == x;
                            let a = if i < at { i } else { i + 1 };
                            assert(s[a] == x);
                            assert(a != at);
                        }
                        if s.contains(x) && x != *info_hash {
                            let a = choose|a: int| 0 <= a < s.len() && s[a] == x;
                            let i = if a < at { a } else { a - 1 };
                            assert(t[i] == x);
                        }
                    }
                    assert(t.to_set() =~= s.to_set().remove(*info_hash));
                    assert forall|i: int, j: int| 0 <= i < t.len() && 0 <= j < t.len() && i != j implies t[i]
                        != t[j] by {
                        let a = if i < at { i } else { i + 1 };
                        let b = if j < at { j } else { j + 1 };
                        assert(t[i] == s[a] && t[j] == s[b]);
                    }
                }
                true
            },
        }
    }

    /// Decides whether a request for `info_hash` that supplied `key` is admitted
    /// at `now` by a tracker in `mode`.
    pub fn authenticate_request(&self, mode: TrackerMode, info_hash: &InfoHash, key: Option<&str>, now: u64) -> (r:
        Result<(), TorrentError>)
        requires
            self.wf(),
        ensures
            r == request_decision(
                mode,
                self@.whitelist,
                self@.keys,
                *info_hash,
                match key {
                    Some(k) => Some(k.spec_bytes()),
                    None => None,
                },
                now,
            ),
    {
        let whitelisted = self.is_whitelisted(info_hash);
        let checked = match key {
            Some(k) => Some(self.verify_key(k, now)),
            None => None,
        };
        authorize(mode, whitelisted, checked)
    }
}

} // verus!
