//! The periodic sweep for inactive peers.

use vstd::prelude::*;
use crate::repository::{clamp_u64, inactive_total, swept};
use crate::tracker::Tracker;

verus! {

/// The default for the seconds between two sweeps.
pub const DEFAULT_CLEANUP_INTERVAL: u64 = 120;

/// When the sweep last ran, and how long it waits before it runs again.
#[derive(Clone, Copy, Debug, PartialEq, Eq, Structural)]
pub struct Janitor {
    pub interval: u64,
    pub last_run: u64,
}

impl Janitor {
    /// A janitor that counts its first interval from `started_at`.
    pub fn new(interval: u64, started_at: u64) -> (r: Janitor)
        ensures
            r == (Janitor { interval, last_run: started_at }),
    {
        Janitor { interval, last_run: started_at }
    }

    /// A sweep is due once a whole interval has passed since the last one.
    pub open spec fn spec_is_due(&self, now: u64) -> bool {
        now >= self.last_run && now - self.last_run >= self.interval
    }

    #[verifier::when_used_as_spec(spec_is_due)]
    pub fn is_due(&self, now: u64) -> (r: bool)
        ensures
            r == self.spec_is_due(now),
    {
        now >= self.last_run && now - self.last_run >= self.interval
    }

    /// Sweeps the tracker if a sweep is due at `now`, and reports how many peers
    /// and torrents went. Nothing happens, and nothing is reported, before that.
    pub fn tick(&mut self, tracker: &mut Tracker, now: u64) -> (r: Option<(u64, usize)>)
        requires
            old(tracker).wf(),
        ensures
            final(tracker).wf(),
            final(tracker).same_setup_as(old(tracker)),
            final(self).interval == old(self).interval,
            r.is_some() == old(self).spec_is_due(now),
            r.is_none() ==> final(tracker).torrents@ == old(tracker).torrents@ && *final(self) == *old(self),
            r.is_some() ==> {
                &&& final(self).last_run == now
                &&& final(tracker).torrents@ == swept(
                    old(tracker).torrents@,
                    now,
                    old(tracker).config.max_peer_timeout as u64,
                    !old(tracker).config.remove_peerless_torrents,
                )
                &&& r.unwrap().0 == clamp_u64(
                    inactive_total(old(tracker).torrents@, now, old(tracker).config.max_peer_timeout as u64),
                )
                &&& r.unwrap().1 == old(tracker).torrents@.len() - final(tracker).torrents@.len()
            },
    {
        if !self.is_due(now) {
            return None;
        }
        self.last_run = now;
        Some(tracker.cleanup(now))
    }
}

} // verus!
