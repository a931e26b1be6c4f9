use bit_rev::peer::PeerAddr;
use bit_rev::swarm::{PieceWork, TorrentDownloadedState};

const H_A: [u8; 20] = [
    103, 66, 62, 191, 168, 69, 79, 25, 172, 111, 70, 134, 214, 192, 220, 115, 26, 61, 221, 107,
];
const H_B: [u8; 20] = [
    126, 24, 119, 154, 146, 198, 182, 149, 53, 61, 197, 7, 236, 249, 205, 31, 127, 73, 58, 123,
];

fn two_pieces() -> TorrentDownloadedState {
    TorrentDownloadedState::new(vec![
        PieceWork { index: 0, length: 8, hash: H_A },
        PieceWork { index: 1, length: 8, hash: H_B },
    ])
}

fn peer(n: u32) -> PeerAddr {
    PeerAddr::V4(0x7f00_0000 + n, 6881)
}

#[test]
fn two_pieces_from_one_peer() {
    let mut s = two_pieces();
    let p = peer(1);
    let first = s.get_and_reserve_piece(p).unwrap();
    assert_eq!(first.index, 0);
    assert_eq!(s.pieces[0].reserved, Some(p));
    let second = s.get_and_reserve_piece(p).unwrap();
    assert_eq!(second.index, 1);

    assert!(s.set_chuncks(1, 0, (8..16).collect()));
    let b = s.set_downloaded_if_all_chunks(1).unwrap();
    assert_eq!(b.index, 1);
    assert_eq!(b.length, 8);
    assert_eq!(b.buf, (8..16).collect::<Vec<u8>>());
    assert_eq!(s.pieces[1].reserved, None);

    assert!(s.set_chuncks(0, 0, (0..8).collect()));
    assert!(s.set_downloaded_if_all_chunks(0).is_some());
    assert!(s.is_complete());
    assert_eq!(s.get_and_reserve_piece(p), None);
    assert!(s.missing_pieces().is_empty());
}

#[test]
fn a_piece_is_delivered_once() {
    let mut s = two_pieces();
    assert!(s.set_chuncks(0, 0, (0..8).collect()));
    assert!(s.set_downloaded_if_all_chunks(0).is_some());
    assert!(s.set_downloaded_if_all_chunks(0).is_none());
    assert!(!s.set_chuncks(0, 0, (0..8).collect()));
    assert!(s.set_downloaded_if_all_chunks(0).is_none());
    assert!(s.pieces[0].downloaded);
}

#[test]
fn corrupt_piece_is_cleared_and_offered_again() {
    let mut s = two_pieces();
    let p = peer(1);
    assert_eq!(s.get_and_reserve_piece(p).unwrap().index, 0);
    assert!(s.set_chuncks(0, 0, vec![9; 8]));
    assert!(s.set_downloaded_if_all_chunks(0).is_none());
    assert!(s.pieces[0].chunks.is_empty());
    assert!(!s.pieces[0].downloaded);
    assert_eq!(s.pieces[0].reserved, None);
    assert_eq!(s.get_and_reserve_piece(p).unwrap().index, 0);
    assert!(s.set_chuncks(0, 0, (0..8).collect()));
    assert_eq!(s.set_downloaded_if_all_chunks(0).unwrap().buf, (0..8).collect::<Vec<u8>>());
}

#[test]
fn blocks_in_any_order_complete_the_piece() {
    let mut s = two_pieces();
    assert!(s.set_chuncks(0, 6, vec![6, 7]));
    assert!(s.set_downloaded_if_all_chunks(0).is_none());
    assert!(s.set_chuncks(0, 0, vec![0, 1, 2]));
    assert!(s.set_chuncks(0, 3, vec![3, 4, 5]));
    assert_eq!(s.pieces[0].chunk_to_buf(), (0..8).collect::<Vec<u8>>());
    assert_eq!(s.pieces[0].received(), 8);
    assert_eq!(s.set_downloaded_if_all_chunks(0).unwrap().buf, (0..8).collect::<Vec<u8>>());
}

#[test]
fn same_offset_replaces_and_oversize_is_refused() {
    let mut s = two_pieces();
    assert!(s.set_chuncks(0, 0, vec![1, 1, 1, 1]));
    assert!(s.set_chuncks(0, 0, vec![0, 1, 2, 3]));
    assert_eq!(s.pieces[0].received(), 4);
    assert!(!s.set_chuncks(0, 6, vec![0, 0, 0]));
    assert!(!s.set_chuncks(0, 9, vec![]));
    assert!(!s.set_chuncks(5, 0, vec![1]));
    assert!(s.set_chuncks(0, 4, vec![4, 5, 6, 7]));
    assert!(!s.set_chuncks(0, 2, vec![0]));
    assert!(s.set_downloaded_if_all_chunks(0).is_some());
}

#[test]
fn reservations_are_exclusive_with_a_fallback() {
    let mut s = two_pieces();
    let a = peer(1);
    let b = peer(2);
    let c = peer(3);
    assert_eq!(s.get_and_reserve_piece(a).unwrap().index, 0);
    assert_eq!(s.get_and_reserve_piece(b).unwrap().index, 1);
    assert_eq!(s.reserved_and_not_downloaded(), Vec::<u32>::new());
    // Everything is reserved: the first missing piece, without a reservation.
    assert_eq!(s.get_and_reserve_piece(c).unwrap().index, 0);
    assert_eq!(s.pieces[0].reserved, Some(a));
    assert_eq!(s.pieces[1].reserved, Some(b));
}

#[test]
fn dead_peer_releases_its_pieces() {
    let mut s = two_pieces();
    let a = peer(1);
    let b = peer(2);
    assert_eq!(s.get_and_reserve_piece(a).unwrap().index, 0);
    assert!(s.set_chuncks(0, 0, vec![0, 1, 2, 3]));
    assert_eq!(s.get_and_reserve_piece(b).unwrap().index, 1);
    s.remove_reserved(a);
    assert_eq!(s.pieces[0].reserved, None);
    assert_eq!(s.pieces[1].reserved, Some(b));
    assert_eq!(s.reserved_and_not_downloaded(), vec![0]);
    assert_eq!(s.get_and_reserve_piece(b).unwrap().index, 0);
    assert!(s.set_chuncks(0, 4, vec![4, 5, 6, 7]));
    assert!(s.set_downloaded_if_all_chunks(0).is_some());
    assert_eq!(s.missing_pieces(), vec![1]);
}

#[test]
fn remove_downloaded_clears_the_slot() {
    let mut s = two_pieces();
    assert_eq!(s.get_and_reserve_piece(peer(1)).unwrap().index, 0);
    assert!(s.set_chuncks(0, 0, vec![0, 1]));
    s.remove_downloaded(0);
    assert!(s.pieces[0].chunks.is_empty());
    assert_eq!(s.pieces[0].reserved, None);
    s.remove_downloaded(9);
    assert_eq!(s.missing_pieces(), vec![0, 1]);
}

#[test]
fn receive_block_hands_out_a_verified_piece_once() {
    let mut s = two_pieces();
    assert!(s.receive_block(0, 4, vec![4, 5, 6, 7]).is_none());
    let piece = s.receive_block(0, 0, vec![0, 1, 2, 3]).unwrap();
    assert_eq!(piece.buf, (0..8).collect::<Vec<u8>>());
    assert!(s.receive_block(0, 0, vec![0, 1, 2, 3]).is_none());
    assert!(s.receive_block(1, 0, vec![0; 8]).is_none());
    assert!(s.pieces[1].chunks.is_empty());
    assert!(s.receive_block(7, 0, vec![1]).is_none());
}
