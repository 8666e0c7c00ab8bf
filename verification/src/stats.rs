//! Counters of handled requests, per protocol and IP version.

use vstd::prelude::*;

verus! {

#[derive(Clone, Copy, Debug, PartialEq, Eq, Structural)]
pub enum Protocol {
    Tcp,
    Udp,
}

#[derive(Clone, Copy, Debug, PartialEq, Eq, Structural)]
pub enum IpVersion {
    V4,
    V6,
}

#[derive(Clone, Copy, Debug, PartialEq, Eq, Structural)]
pub enum RequestKind {
    Connect,
    Announce,
    Scrape,
}

/// What the request path reports for one handled request.
#[derive(Clone, Copy, Debug, PartialEq, Eq, Structural)]
pub struct StatsEvent {
    pub protocol: Protocol,
    pub ip_version: IpVersion,
    pub kind: RequestKind,
}

/// The counters of one protocol over one IP version.
#[derive(Clone, Copy, Debug, PartialEq, Eq, Structural)]
pub struct Counters {
    pub connections_handled: u64,
    pub announces_handled: u64,
    pub scrapes_handled: u64,
}

/// All counters of a tracker.
#[derive(Clone, Copy, Debug, PartialEq, Eq, Structural)]
pub struct TrackerStats {
    pub tcp4: Counters,
    pub tcp6: Counters,
    pub udp4: Counters,
    pub udp6: Counters,
    /// Events that were lost because the queue to the consumer was full.
    pub stats_drops: u64,
}

/// One more, but never past the largest value.
pub open spec fn bumped(x: u64) -> u64 {
    if x < u64::MAX {
        (x + 1) as u64
    } else {
        x
    }
}

/// The counters of one protocol and IP version after a request of `kind`. Over
/// TCP every request is also a connection; over UDP only a connect is.
pub open spec fn counted(c: Counters, protocol: Protocol, kind: RequestKind) -> Counters {
    let connections = if protocol == Protocol::Tcp || kind == RequestKind::Connect {
        bumped(c.connections_handled)
    } else {
        c.connections_handled
    };
    Counters {
        connections_handled: connections,
        announces_handled: if kind == RequestKind::Announce {
            bumped(c.announces_handled)
        } else {
            c.announces_handled
        },
        scrapes_handled: if kind == RequestKind::Scrape {
            bumped(c.scrapes_handled)
        } else {
            c.scrapes_handled
        },
    }
}

/// The counters after `event` has been applied.
pub open spec fn applied(s: TrackerStats, event: StatsEvent) -> TrackerStats {
    match (event.protocol, event.ip_version) {
        (Protocol::Tcp, IpVersion::V4) => TrackerStats { tcp4: counted(s.tcp4, event.protocol, event.kind), ..s },
        (Protocol::Tcp, IpVersion::V6) => TrackerStats { tcp6: counted(s.tcp6, event.protocol, event.kind), ..s },
        (Protocol::Udp, IpVersion::V4) => TrackerStats { udp4: counted(s.udp4, event.protocol, event.kind), ..s },
        (Protocol::Udp, IpVersion::V6) => TrackerStats { udp6: counted(s.udp6, event.protocol, event.kind), ..s },
    }
}

fn bump(x: u64) -> (r: u64)
    ensures
        r == bumped(x),
{
    if x < u64::MAX {
        x + 1
    } else {
        x
    }
}

fn count(c: Counters, protocol: Protocol, kind: RequestKind) -> (r: Counters)
    ensures
        r == counted(c, protocol, kind),
{
    let is_tcp = match protocol {
        Protocol::Tcp => true,
        Protocol::Udp => false,
    };
    let mut out = c;
    match kind {
        RequestKind::Connect => {
            out.connections_handled = bump(c.connections_handled);
        },
        RequestKind::Announce => {
            if is_tcp {
                out.connections_handled = bump(c.connections_handled);
            }
            out.announces_handled = bump(c.announces_handled);
        },
        RequestKind::Scrape => {
            if is_tcp {
                out.connections_handled = bump(c.connections_handled);
            }
            out.scrapes_handled = bump(c.scrapes_handled);
        },
    }
    out
}

impl TrackerStats {
    /// All counters at zero.
    pub fn new() -> (r: TrackerStats)
        ensures
            r == TrackerStats::zero(),
    {
        let z = Counters { connections_handled: 0, announces_handled: 0, scrapes_handled: 0 };
        TrackerStats { tcp4: z, tcp6: z, udp4: z, udp6: z, stats_drops: 0 }
    }

    pub open spec fn zero() -> TrackerStats {
        let z = Counters { connections_handled: 0, announces_handled: 0, scrapes_handled: 0 };
        TrackerStats { tcp4: z, tcp6: z, udp4: z, udp6: z, stats_drops: 0 }
    }

    /// Applies one event.
    pub fn apply(&mut self, event: StatsEvent)
        ensures
            *final(self) == applied(*old(self), event),
    {
        match (event.protocol, event.ip_version) {
            (Protocol::Tcp, IpVersion::V4) => {
                self.tcp4 = count(self.tcp4, event.protocol, event.kind);
            },
            (Protocol::Tcp, IpVersion::V6) => {
                self.tcp6 = count(self.tcp6, event.protocol, event.kind);
            },
            (Protocol::Udp, IpVersion::V4) => {
                self.udp4 = count(self.udp4, event.protocol, event.kind);
            },
            (Protocol::Udp, IpVersion::V6) => {
                self.udp6 = count(self.udp6, event.protocol, event.kind);
            },
        }
    }

    /// Records that an event was lost.
    pub fn record_drop(&mut self)
        ensures
            *final(self) == (TrackerStats { stats_drops: bumped(old(self).stats_drops), ..*old(self) }),
    {
        self.stats_drops = bump(self.stats_drops);
    }
}

} // verus!
