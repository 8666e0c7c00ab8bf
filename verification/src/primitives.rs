//! Identifiers and small value types shared by every other module.

use vstd::prelude::*;

verus! {

/// The four access-control modes of a tracker.
#[derive(Clone, Copy, Debug, PartialEq, Eq, Structural)]
pub enum TrackerMode {
    Public,
    Listed,
    Private,
    PrivateListed,
}

impl TrackerMode {
    /// Whether the whitelist is consulted in this mode.
    pub open spec fn checks_whitelist(self) -> bool {
        self == TrackerMode::Listed || self == TrackerMode::PrivateListed
    }

    /// Whether a peer has to present an auth key in this mode.
    pub open spec fn requires_key(self) -> bool {
        self == TrackerMode::Private || self == TrackerMode::PrivateListed
    }

    pub fn is_listed(self) -> (r: bool)
        ensures
            r == self.checks_whitelist(),
    {
        match self {
            TrackerMode::Listed | TrackerMode::PrivateListed => true,
            _ => false,
        }
    }

    pub fn is_private(self) -> (r: bool)
        ensures
            r == self.requires_key(),
    {
        match self {
            TrackerMode::Private | TrackerMode::PrivateListed => true,
            _ => false,
        }
    }
}

/// What a peer reports about its own progress in an announce.
#[derive(Clone, Copy, Debug, PartialEq, Eq, Structural)]
pub enum AnnounceEvent {
    Started,
    Completed,
    Stopped,
    /// A periodic announce that reports no change of state.
    Periodic,
}

/// Lexicographic order on byte strings: `a` sorts strictly before `b`.
pub open spec fn lex_less(a: Seq<u8>, b: Seq<u8>) -> bool
    decreases a.len(),
{
    if b.len() == 0 {
        false
    } else if a.len() == 0 {
        true
    } else if a[0] != b[0] {
        a[0] < b[0]
    } else {
        lex_less(a.drop_first(), b.drop_first())
    }
}

/// Lexicographic order is irreflexive.
pub proof fn lemma_lex_less_irreflexive(a: Seq<u8>)
    ensures
        !lex_less(a, a),
    decreases a.len(),
{
    if a.len() > 0 {
        lemma_lex_less_irreflexive(a.drop_first());
    }
}

/// Of two different byte strings of equal length exactly one sorts before the other.
pub proof fn lemma_lex_less_total(a: Seq<u8>, b: Seq<u8>)
    requires
        a.len() == b.len(),
    ensures
        a == b || lex_less(a, b) || lex_less(b, a),
        !(lex_less(a, b) && lex_less(b, a)),
    decreases a.len(),
{
    if a.len() == 0 {
        assert(a =~= b);
    } else if a[0] == b[0] {
        lemma_lex_less_total(a.drop_first(), b.drop_first());
        if a.drop_first() == b.drop_first() {
            assert forall|i: int| 0 <= i < a.len() implies a[i] == b[i] by {
                if i > 0 {
                    assert(a[i] == a.drop_first()[i - 1]);
                    assert(b[i] == b.drop_first()[i - 1]);
                }
            }
            assert(a =~= b);
        }
    }
}

/// Lexicographic order is transitive.
pub proof fn lemma_lex_less_transitive(a: Seq<u8>, b: Seq<u8>, c: Seq<u8>)
    requires
        lex_less(a, b),
        lex_less(b, c),
    ensures
        lex_less(a, c),
    decreases a.len(),
{
    if a.len() > 0 && a[0] == b[0] && b[0] == c[0] {
        lemma_lex_less_transitive(a.drop_first(), b.drop_first(), c.drop_first());
    }
}

/// Whether the twenty bytes of `a` sort strictly before those of `b`.
fn bytes20_less(a: &[u8; 20], b: &[u8; 20]) -> (r: bool)
    ensures
        r == lex_less(a@, b@),
{
    let mut i: usize = 0;
    assert(a@.subrange(0, 20) =~= a@ && b@.subrange(0, 20) =~= b@);
    while i < 20
        invariant
            i <= 20,
            lex_less(a@, b@) == lex_less(a@.subrange(i as int, 20), b@.subrange(i as int, 20)),
        decreases 20 - i,
    {
        let ghost sa = a@.subrange(i as int, 20);
        let ghost sb = b@.subrange(i as int, 20);
        proof {
            assert(sa.drop_first() =~= a@.subrange(i + 1, 20));
            assert(sb.drop_first() =~= b@.subrange(i + 1, 20));
            assert(sa[0] == a[i as int] && sb[0] == b[i as int]);
        }
        if a[i] != b[i] {
            return a[i] < b[i];
        }
        i += 1;
    }
    false
}

fn bytes20_eq(a: &[u8; 20], b: &[u8; 20]) -> (r: bool)
    ensures
        r == (*a == *b),
        r == (a@ == b@),
{
    let mut i: usize = 0;
    while i < 20
        invariant
            i <= 20,
            forall|j: int| 0 <= j < i ==> a[j] == b[j],
        decreases 20 - i,
    {
        if a[i] != b[i] {
            assert(a@[i as int] != b@[i as int]);
            return false;
        }
        i += 1;
    }
    assert(*a =~= *b);
    true
}

/// The twenty bytes of `src` that start at `at`.
pub fn take20(src: &[u8], at: usize) -> (r: [u8; 20])
    requires
        at + 20 <= src@.len(),
    ensures
        r@ == src@.subrange(at as int, at + 20),
{
    let mut out = [0u8; 20];
    let n = src.len();
    let mut i: usize = 0;
    while i < 20
        invariant
            i <= 20,
            at + 20 <= src@.len() == n,
            forall|j: int| 0 <= j < i ==> out[j] == src@[at + j],
        decreases 20 - i,
    {
        out[i] = src[at + i];
        i += 1;
    }
    assert(out@ =~= src@.subrange(at as int, at + 20));
    out
}

/// Twenty raw bytes that identify a torrent.
#[derive(Clone, Copy, Debug)]
pub struct InfoHash(pub [u8; 20]);

impl View for InfoHash {
    type V = Seq<u8>;

    open spec fn view(&self) -> Seq<u8> {
        self.0@
    }
}

impl InfoHash {
    /// Two info-hashes are equal exactly when their bytes are.
    pub fn same(&self, other: &InfoHash) -> (r: bool)
        ensures
            r == (*self == *other),
            r == (self@ == other@),
    {
        bytes20_eq(&self.0, &other.0)
    }

    /// Whether `self` sorts strictly before `other`, byte by byte.
    pub fn less_than(&self, other: &InfoHash) -> (r: bool)
        ensures
            r == lex_less(self@, other@),
    {
        bytes20_less(&self.0, &other.0)
    }

    /// The info-hash that `bytes` spell, if there are exactly twenty of them.
    pub fn from_bytes(bytes: &[u8]) -> (r: Option<InfoHash>)
        ensures
            r.is_some() == (bytes@.len() == 20),
            r.is_some() ==> r.unwrap()@ == bytes@,
    {
        if bytes.len() != 20 {
            return None;
        }
        let a = take20(bytes, 0);
        assert(bytes@.subrange(0, 20) =~= bytes@);
        Some(InfoHash(a))
    }
}

/// Twenty raw bytes that a client chose to identify itself within a swarm.
#[derive(Clone, Copy, Debug)]
pub struct PeerId(pub [u8; 20]);

impl View for PeerId {
    type V = Seq<u8>;

    open spec fn view(&self) -> Seq<u8> {
        self.0@
    }
}

impl PeerId {
    pub fn same(&self, other: &PeerId) -> (r: bool)
        ensures
            r == (*self == *other),
            r == (self@ == other@),
    {
        bytes20_eq(&self.0, &other.0)
    }

    /// The peer id that `bytes` spell, if there are exactly twenty of them.
    pub fn from_bytes(bytes: &[u8]) -> (r: Option<PeerId>)
        ensures
            r.is_some() == (bytes@.len() == 20),
            r.is_some() ==> r.unwrap()@ == bytes@,
    {
        if bytes.len() != 20 {
            return None;
        }
        let a = take20(bytes, 0);
        assert(bytes@.subrange(0, 20) =~= bytes@);
        Some(PeerId(a))
    }
}

/// An IPv4 or IPv6 address, as its octets in network order.
#[derive(Clone, Copy, Debug)]
pub enum IpAddress {
    V4([u8; 4]),
    V6([u8; 16]),
}

impl IpAddress {
    /// The octets of the address, four or sixteen of them.
    pub open spec fn octets(self) -> Seq<u8> {
        match self {
            IpAddress::V4(a) => a@,
            IpAddress::V6(a) => a@,
        }
    }

    pub open spec fn spec_is_ipv4(&self) -> bool {
        self is V4
    }

    #[verifier::when_used_as_spec(spec_is_ipv4)]
    pub fn is_ipv4(&self) -> (r: bool)
        ensures
            r == self.spec_is_ipv4(),
    {
        match self {
            IpAddress::V4(_) => true,
            IpAddress::V6(_) => false,
        }
    }

    /// Whether the address is the loopback address of its family.
    pub open spec fn spec_is_loopback(&self) -> bool {
        match *self {
            IpAddress::V4(a) => a[0] == 127,
            IpAddress::V6(a) => a[15] == 1 && forall|i: int| 0 <= i < 15 ==> a[i] == 0,
        }
    }

    #[verifier::when_used_as_spec(spec_is_loopback)]
    pub fn is_loopback(&self) -> (r: bool)
        ensures
            r == self.spec_is_loopback(),
    {
        match self {
            IpAddress::V4(a) => a[0] == 127,
            IpAddress::V6(a) => {
                let mut i: usize = 0;
                while i < 15
                    invariant
                        i <= 15,
                        *self == IpAddress::V6(*a),
                        forall|j: int| 0 <= j < i ==> a[j] == 0,
                    decreases 15 - i,
                {
                    if a[i] != 0 {
                        assert(a[i as int] != 0);
                        return false;
                    }
                    i += 1;
                }
                a[15] == 1
            },
        }
    }

    pub fn same(&self, other: &IpAddress) -> (r: bool)
        ensures
            r == (*self == *other),
    {
        match (self, other) {
            (IpAddress::V4(a), IpAddress::V4(b)) => {
                let r = a[0] == b[0] && a[1] == b[1] && a[2] == b[2] && a[3] == b[3];
                proof {
                    if r {
                        assert(*a =~= *b);
                    }
                }
                r
            },
            (IpAddress::V6(a), IpAddress::V6(b)) => {
                let mut i: usize = 0;
                while i < 16
                    invariant
                        i <= 16,
                        *self == IpAddress::V6(*a),
                        *other == IpAddress::V6(*b),
                        forall|j: int| 0 <= j < i ==> a[j] == b[j],
                    decreases 16 - i,
                {
                    if a[i] != b[i] {
                        assert(a[i as int] != b[i as int]);
                        return false;
                    }
                    i += 1;
                }
                assert(*a =~= *b);
                true
            },
            _ => false,
        }
    }
}

/// The address that the tracker advertises for a peer.
#[derive(Clone, Copy, Debug)]
pub struct SocketAddress {
    pub ip: IpAddress,
    pub port: u16,
}

impl SocketAddress {
    pub fn new(ip: IpAddress, port: u16) -> (r: SocketAddress)
        ensures
            r == (SocketAddress { ip, port }),
    {
        SocketAddress { ip, port }
    }

    pub fn same(&self, other: &SocketAddress) -> (r: bool)
        ensures
            r == (*self == *other),
    {
        self.port == other.port && self.ip.same(&other.ip)
    }
}

} // verus!
