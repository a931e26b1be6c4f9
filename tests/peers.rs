use bit_rev::peer::PeerAddr;
use bit_rev::peers::{PeerStates, TrackerAnswer, ANNOUNCE_BACKOFF_SECS};
use bit_rev::swarm::{PieceWork, TorrentDownloadedState};

fn peer(n: u32) -> PeerAddr {
    PeerAddr::V4(n, 6881)
}

#[test]
fn announce_starts_only_new_peers_once() {
    let mut states = PeerStates::new();
    assert!(states.add_if_not_seen(peer(1)));
    assert!(!states.add_if_not_seen(peer(1)));
    let answer = TrackerAnswer { peers: vec![peer(1), peer(2), peer(3), peer(2)], interval: 1800 };
    let (fresh, wait) = states.on_announce(Some(answer));
    assert_eq!(fresh, vec![peer(2), peer(3)]);
    assert_eq!(wait, 1800);
    assert!(states.contains(&peer(3)));
    let (fresh, wait) = states.on_announce(None);
    assert!(fresh.is_empty());
    assert_eq!(wait, ANNOUNCE_BACKOFF_SECS);
    assert_eq!(wait, 30);
}

#[test]
fn dead_peer_is_forgotten_and_releases_its_piece() {
    let mut states = PeerStates::new();
    let mut table = TorrentDownloadedState::new(vec![PieceWork { index: 0, length: 8, hash: [0; 20] }]);
    states.add_if_not_seen(peer(1));
    assert_eq!(table.get_and_reserve_piece(peer(1)).unwrap().index, 0);
    states.on_peer_died(&mut table, peer(1));
    assert!(!states.contains(&peer(1)));
    assert_eq!(table.pieces[0].reserved, None);
    let (fresh, _) = states.on_announce(Some(TrackerAnswer { peers: vec![peer(1)], interval: 60 }));
    assert_eq!(fresh, vec![peer(1)]);
}
