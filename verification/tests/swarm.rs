use torrust_tracker::primitives::{AnnounceEvent, IpAddress, PeerId, SocketAddress};
use torrust_tracker::swarm::{Peer, SwarmEntry};

fn peer(id: u8, last_octet: u8, left: u64, event: AnnounceEvent) -> Peer {
    Peer {
        peer_id: PeerId([id; 20]),
        peer_addr: SocketAddress::new(IpAddress::V4([10, 0, 0, last_octet]), 6881),
        updated_at: 1000,
        uploaded: 0,
        downloaded: 0,
        left,
        event,
    }
}

#[test]
fn first_announce_joins_the_swarm() {
    let mut swarm = SwarmEntry::new(0);
    let (seeders, leechers, delta) = swarm.upsert(peer(1, 1, 100, AnnounceEvent::Started));
    assert_eq!((seeders, leechers, delta), (0, 1, 0));
    assert_eq!(swarm.len(), 1);
}

#[test]
fn seeders_and_leechers_add_up_to_the_peers() {
    let mut swarm = SwarmEntry::new(0);
    swarm.upsert(peer(1, 1, 100, AnnounceEvent::Started));
    swarm.upsert(peer(2, 2, 0, AnnounceEvent::Started));
    swarm.upsert(peer(3, 3, 0, AnnounceEvent::Completed));
    swarm.upsert(peer(4, 4, 7, AnnounceEvent::Periodic));
    let stats = swarm.stats();
    assert_eq!(stats.seeders, 2);
    assert_eq!(stats.leechers, 2);
    assert_eq!(stats.seeders + stats.leechers, swarm.len() as u64);
    swarm.upsert(peer(2, 2, 0, AnnounceEvent::Stopped));
    let stats = swarm.stats();
    assert_eq!(stats.seeders + stats.leechers, swarm.len() as u64);
    assert_eq!(swarm.len(), 3);
}

#[test]
fn same_peer_id_twice_is_one_peer() {
    let mut swarm = SwarmEntry::new(0);
    swarm.upsert(peer(1, 1, 100, AnnounceEvent::Started));
    swarm.upsert(peer(1, 9, 50, AnnounceEvent::Periodic));
    assert_eq!(swarm.len(), 1);
    let others = swarm.peers_for(&SocketAddress::new(IpAddress::V4([10, 0, 0, 200]), 1), 74, 0);
    assert_eq!(others.len(), 1);
    assert_eq!(others[0].left, 50);
    assert!(others[0].peer_addr.same(&SocketAddress::new(IpAddress::V4([10, 0, 0, 9]), 6881)));
}

#[test]
fn completion_is_counted_once_per_peer() {
    let mut swarm = SwarmEntry::new(0);
    let (s, l, d) = swarm.upsert(peer(1, 1, 0, AnnounceEvent::Completed));
    assert_eq!((s, l, d), (1, 0, 1));
    assert_eq!(swarm.stats().completed, 1);
    let (s, l, d) = swarm.upsert(peer(1, 1, 0, AnnounceEvent::Completed));
    assert_eq!((s, l, d), (1, 0, 0));
    assert_eq!(swarm.stats().completed, 1);
}

#[test]
fn started_then_completed_counts() {
    let mut swarm = SwarmEntry::new(5);
    swarm.upsert(peer(1, 1, 100, AnnounceEvent::Started));
    let (_, _, d) = swarm.upsert(peer(1, 1, 0, AnnounceEvent::Completed));
    assert_eq!(d, 1);
    assert_eq!(swarm.stats().completed, 6);
}

#[test]
fn completed_counter_stops_at_the_largest_value() {
    let mut swarm = SwarmEntry::new(u64::MAX);
    let (_, _, d) = swarm.upsert(peer(1, 1, 0, AnnounceEvent::Completed));
    assert_eq!(d, 0);
    assert_eq!(swarm.stats().completed, u64::MAX);
}

#[test]
fn stopped_peer_leaves_and_counter_stays() {
    let mut swarm = SwarmEntry::new(0);
    swarm.upsert(peer(1, 1, 0, AnnounceEvent::Completed));
    let (s, l, d) = swarm.upsert(peer(1, 1, 0, AnnounceEvent::Stopped));
    assert_eq!((s, l, d), (0, 0, 0));
    assert_eq!(swarm.len(), 0);
    assert_eq!(swarm.stats().completed, 1);
    let others = swarm.peers_for(&SocketAddress::new(IpAddress::V4([10, 0, 0, 200]), 1), 74, 3);
    assert!(others.is_empty());
}

#[test]
fn stopped_unknown_peer_changes_nothing() {
    let mut swarm = SwarmEntry::new(0);
    swarm.upsert(peer(1, 1, 10, AnnounceEvent::Started));
    let (s, l, d) = swarm.upsert(peer(2, 2, 10, AnnounceEvent::Stopped));
    assert_eq!((s, l, d), (0, 1, 0));
    assert_eq!(swarm.len(), 1);
}

#[test]
fn requester_is_never_among_its_peers() {
    let mut swarm = SwarmEntry::new(0);
    for i in 1..=10u8 {
        swarm.upsert(peer(i, i, 10, AnnounceEvent::Started));
    }
    let requester = SocketAddress::new(IpAddress::V4([10, 0, 0, 4]), 6881);
    for seed in 0..20u64 {
        let others = swarm.peers_for(&requester, 74, seed);
        assert_eq!(others.len(), 9);
        assert!(others.iter().all(|p| !p.peer_addr.same(&requester)));
    }
}

#[test]
fn limit_caps_the_peers_and_seed_moves_the_start() {
    let mut swarm = SwarmEntry::new(0);
    for i in 1..=5u8 {
        swarm.upsert(peer(i, i, 10, AnnounceEvent::Started));
    }
    let requester = SocketAddress::new(IpAddress::V4([10, 0, 0, 100]), 6881);
    let a = swarm.peers_for(&requester, 2, 0);
    assert_eq!(a.iter().map(|p| p.peer_id.0[0]).collect::<Vec<u8>>(), vec![1, 2]);
    let b = swarm.peers_for(&requester, 2, 4);
    assert_eq!(b.iter().map(|p| p.peer_id.0[0]).collect::<Vec<u8>>(), vec![5, 1]);
    let c = swarm.peers_for(&requester, 0, 4);
    assert!(c.is_empty());
    let d = swarm.peers_for(&requester, 74, 7);
    assert_eq!(d.iter().map(|p| p.peer_id.0[0]).collect::<Vec<u8>>(), vec![3, 4, 5, 1, 2]);
}

#[test]
fn updated_at_never_runs_backwards() {
    let mut swarm = SwarmEntry::new(0);
    let mut p = peer(1, 1, 10, AnnounceEvent::Started);
    p.updated_at = 500;
    swarm.upsert(p);
    p.updated_at = 400;
    swarm.upsert(p);
    let others = swarm.peers_for(&SocketAddress::new(IpAddress::V4([1, 1, 1, 1]), 1), 74, 0);
    assert_eq!(others[0].updated_at, 500);
    p.updated_at = 600;
    swarm.upsert(p);
    let others = swarm.peers_for(&SocketAddress::new(IpAddress::V4([1, 1, 1, 1]), 1), 74, 0);
    assert_eq!(others[0].updated_at, 600);
}

#[test]
fn inactive_peers_are_removed() {
    let mut swarm = SwarmEntry::new(3);
    let mut p = peer(1, 1, 10, AnnounceEvent::Started);
    p.updated_at = 100;
    swarm.upsert(p);
    let mut q = peer(2, 2, 0, AnnounceEvent::Started);
    q.updated_at = 150;
    swarm.upsert(q);
    assert_eq!(swarm.remove_inactive(160, 60), 0);
    assert_eq!(swarm.remove_inactive(161, 60), 1);
    assert_eq!(swarm.len(), 1);
    assert_eq!(swarm.remove_inactive(210, 60), 0);
    assert_eq!(swarm.remove_inactive(211, 60), 1);
    assert_eq!(swarm.len(), 0);
    assert_eq!(swarm.stats().completed, 3);
    assert_eq!(swarm.remove_inactive(50, 60), 0);
}
