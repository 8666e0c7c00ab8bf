//! The settings of a tracker, and ready-made settings for short-lived instances.

use vstd::prelude::*;
use vstd::string::{StrSliceExecFns, StringExecFns};
use crate::primitives::{IpAddress, TrackerMode};

verus! {

/// One listener: whether it runs, and the address it binds.
#[derive(Clone, Debug)]
pub struct Listener {
    pub enabled: bool,
    pub bind_address: String,
}

/// The settings of a tracker.
#[derive(Clone, Debug)]
pub struct Configuration {
    pub log_level: Option<String>,
    pub mode: TrackerMode,
    pub db_path: String,
    /// Seconds that a peer is asked to wait between announces.
    pub announce_interval: u32,
    pub min_announce_interval: u32,
    /// Seconds of silence after which a peer is dropped.
    pub max_peer_timeout: u32,
    pub on_reverse_proxy: bool,
    pub external_ip: Option<IpAddress>,
    pub tracker_usage_statistics: bool,
    pub persistent_torrent_completed_stat: bool,
    /// Seconds between two sweeps for inactive peers.
    pub inactive_peer_cleanup_interval: u64,
    pub remove_peerless_torrents: bool,
    /// Whether the address that a UDP announce names is advertised in place of
    /// the one it came from.
    pub trust_announced_ip: bool,
    pub udp_trackers: Vec<Listener>,
    pub http_trackers: Vec<Listener>,
    pub http_api: Listener,
}

/// The address on which a short-lived IPv4 listener binds: any free port on the loopback.
pub open spec fn loopback_any_port() -> Seq<char> {
    "127.0.0.1:0"@
}

/// The address on which a short-lived IPv6 listener binds: any free port on every address.
pub open spec fn ipv6_any_port() -> Seq<char> {
    "[::]:0"@
}

/// Whether a file name has to be set off from `directory` by a separator: not
/// where the directory is empty, and not where it ends in a separator already.
pub open spec fn needs_separator(directory: Seq<char>) -> bool {
    directory.len() > 0 && directory.last() != '/'
}

/// Where a short-lived instance keeps its database: the file `data_<id>.db`
/// in `temp_directory`, the two joined as the parts of a path.
pub open spec fn ephemeral_db_path(temp_directory: Seq<char>, random_db_id: Seq<char>) -> Seq<char> {
    if needs_separator(temp_directory) {
        temp_directory + "/data_"@ + random_db_id + ".db"@
    } else {
        temp_directory + "data_"@ + random_db_id + ".db"@
    }
}

impl Configuration {
    /// What every short-lived configuration has in common: logging is off, one
    /// listener of each kind is enabled, and the remaining settings are the
    /// defaults of a tracker.
    pub open spec fn is_ephemeral_base(&self) -> bool {
        &&& self.log_level is Some
        &&& self.log_level->0@ == "off"@
        &&& self.announce_interval == 120
        &&& self.min_announce_interval == 120
        &&& self.max_peer_timeout == 270
        &&& self.tracker_usage_statistics
        &&& !self.persistent_torrent_completed_stat
        &&& self.inactive_peer_cleanup_interval == 120
        &&& !self.trust_announced_ip
        &&& self.remove_peerless_torrents
        &&& self.udp_trackers@.len() == 1
        &&& self.udp_trackers@[0].enabled
        &&& self.http_trackers@.len() == 1
        &&& self.http_trackers@[0].enabled
        &&& self.http_api.enabled
    }

    /// Whether all three listeners bind `address`.
    pub open spec fn binds(&self, address: Seq<char>) -> bool {
        &&& self.udp_trackers@.len() == 1
        &&& self.http_trackers@.len() == 1
        &&& self.udp_trackers@[0].bind_address@ == address
        &&& self.http_trackers@[0].bind_address@ == address
        &&& self.http_api.bind_address@ == address
    }

    /// The settings of `ephemeral`, but for the four that its variants change.
    pub open spec fn is_ephemeral(&self, temp_directory: Seq<char>, random_db_id: Seq<char>) -> bool {
        &&& self.is_ephemeral_base()
        &&& self.db_path@ == ephemeral_db_path(temp_directory, random_db_id)
    }
}

/// The default for the seconds of silence after which a peer is dropped: twice
/// the announce interval and thirty seconds of grace.
pub open spec fn spec_default_peer_timeout(announce_interval: u32) -> u64 {
    (2 * announce_interval + 30) as u64
}

#[verifier::when_used_as_spec(spec_default_peer_timeout)]
pub fn default_peer_timeout(announce_interval: u32) -> (r: u64)
    ensures
        r == spec_default_peer_timeout(announce_interval),
{
    2 * (announce_interval as u64) + 30
}

fn listener(address: &str) -> (r: Listener)
    ensures
        r.enabled,
        r.bind_address@ == address@,
{
    Listener { enabled: true, bind_address: String::from_str(address) }
}

/// Settings for a short-lived tracker: logging off, every listener enabled on
/// the loopback with a port that the system picks, and a database file of its
/// own in `temp_directory`, named after `random_db_id`.
#[must_use]
pub fn ephemeral(temp_directory: &str, random_db_id: &str) -> (r: Configuration)
    ensures
        r.is_ephemeral(temp_directory@, random_db_id@),
        r.binds(loopback_any_port()),
        r.mode == TrackerMode::Public,
        !r.on_reverse_proxy,
        r.external_ip is None,
{
    let length = temp_directory.unicode_len();
    let separate = length > 0 && temp_directory.get_char(length - 1) != '/';
    let directory = String::from_str(temp_directory);
    let file_start = if separate {
        directory.concat("/data_")
    } else {
        directory.concat("data_")
    };
    let db_path = file_start.concat(random_db_id).concat(".db");
    let mut udp_trackers: Vec<Listener> = Vec::new();
    udp_trackers.push(listener("127.0.0.1:0"));
    let mut http_trackers: Vec<Listener> = Vec::new();
    http_trackers.push(listener("127.0.0.1:0"));
    Configuration {
        log_level: Some(String::from_str("off")),
        mode: TrackerMode::Public,
        db_path,
        announce_interval: 120,
        min_announce_interval: 120,
        max_peer_timeout: 270,
        on_reverse_proxy: false,
        external_ip: None,
        tracker_usage_statistics: true,
        persistent_torrent_completed_stat: false,
        inactive_peer_cleanup_interval: 120,
        trust_announced_ip: false,
        remove_peerless_torrents: true,
        udp_trackers,
        http_trackers,
        http_api: listener("127.0.0.1:0"),
    }
}

/// `ephemeral`, behind a reverse proxy.
#[must_use]
pub fn ephemeral_with_reverse_proxy(temp_directory: &str, random_db_id: &str) -> (r: Configuration)
    ensures
        r.is_ephemeral(temp_directory@, random_db_id@),
        r.binds(loopback_any_port()),
        r.mode == TrackerMode::Public,
        r.on_reverse_proxy,
        r.external_ip is None,
{
    let mut cfg = ephemeral(temp_directory, random_db_id);
    cfg.on_reverse_proxy = true;
    cfg
}

/// `ephemeral`, explicitly not behind a reverse proxy.
#[must_use]
pub fn ephemeral_without_reverse_proxy(temp_directory: &str, random_db_id: &str) -> (r: Configuration)
    ensures
        r.is_ephemeral(temp_directory@, random_db_id@),
        r.binds(loopback_any_port()),
        r.mode == TrackerMode::Public,
        !r.on_reverse_proxy,
        r.external_ip is None,
{
    let mut cfg = ephemeral(temp_directory, random_db_id);
    cfg.on_reverse_proxy = false;
    cfg
}

fn ephemeral_in_mode(temp_directory: &str, random_db_id: &str, mode: TrackerMode) -> (r: Configuration)
    ensures
        r.is_ephemeral(temp_directory@, random_db_id@),
        r.binds(loopback_any_port()),
        r.mode == mode,
        !r.on_reverse_proxy,
        r.external_ip is None,
{
    let mut cfg = ephemeral(temp_directory, random_db_id);
    cfg.mode = mode;
    cfg
}

/// `ephemeral`, open to every torrent and every peer.
#[must_use]
pub fn ephemeral_mode_public(temp_directory: &str, random_db_id: &str) -> (r: Configuration)
    ensures
        r.is_ephemeral(temp_directory@, random_db_id@),
        r.binds(loopback_any_port()),
        r.mode == TrackerMode::Public,
        !r.on_reverse_proxy,
        r.external_ip is None,
{
    ephemeral_in_mode(temp_directory, random_db_id, TrackerMode::Public)
}

/// `ephemeral`, open only to peers with a key.
#[must_use]
pub fn ephemeral_mode_private(temp_directory: &str, random_db_id: &str) -> (r: Configuration)
    ensures
        r.is_ephemeral(temp_directory@, random_db_id@),
        r.binds(loopback_any_port()),
        r.mode == TrackerMode::Private,
        !r.on_reverse_proxy,
        r.external_ip is None,
{
    ephemeral_in_mode(temp_directory, random_db_id, TrackerMode::Private)
}

/// `ephemeral`, open only to whitelisted torrents.
#[must_use]
pub fn ephemeral_mode_whitelisted(temp_directory: &str, random_db_id: &str) -> (r: Configuration)
    ensures
        r.is_ephemeral(temp_directory@, random_db_id@),
        r.binds(loopback_any_port()),
        r.mode == TrackerMode::Listed,
        !r.on_reverse_proxy,
        r.external_ip is None,
{
    ephemeral_in_mode(temp_directory, random_db_id, TrackerMode::Listed)
}

/// `ephemeral`, open only to whitelisted torrents and peers with a key.
#[must_use]
pub fn ephemeral_mode_private_whitelisted(temp_directory: &str, random_db_id: &str) -> (r: Configuration)
    ensures
        r.is_ephemeral(temp_directory@, random_db_id@),
        r.binds(loopback_any_port()),
        r.mode == TrackerMode::PrivateListed,
        !r.on_reverse_proxy,
        r.external_ip is None,
{
    ephemeral_in_mode(temp_directory, random_db_id, TrackerMode::PrivateListed)
}

/// `ephemeral`, advertising `ip` for peers that announce from the loopback.
#[must_use]
pub fn ephemeral_with_external_ip(temp_directory: &str, random_db_id: &str, ip: IpAddress) -> (r: Configuration)
    ensures
        r.is_ephemeral(temp_directory@, random_db_id@),
        r.binds(loopback_any_port()),
        r.mode == TrackerMode::Public,
        !r.on_reverse_proxy,
        r.external_ip == Some(ip),
{
    let mut cfg = ephemeral(temp_directory, random_db_id);
    cfg.external_ip = Some(ip);
    cfg
}

/// `ephemeral`, with every listener on IPv6.
#[must_use]
pub fn ephemeral_ipv6(temp_directory: &str, random_db_id: &str) -> (r: Configuration)
    ensures
        r.is_ephemeral(temp_directory@, random_db_id@),
        r.binds(ipv6_any_port()),
        r.mode == TrackerMode::Public,
        !r.on_reverse_proxy,
        r.external_ip is None,
{
    let mut cfg = ephemeral(temp_directory, random_db_id);
    cfg.http_api.bind_address = String::from_str("[::]:0");
    let mut udp_trackers: Vec<Listener> = Vec::new();
    udp_trackers.push(listener("[::]:0"));
    let mut http_trackers: Vec<Listener> = Vec::new();
    http_trackers.push(listener("[::]:0"));
    cfg.udp_trackers = udp_trackers;
    cfg.http_trackers = http_trackers;
    cfg
}

} // verus!
