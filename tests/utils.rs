use bit_rev::session::pieces_of_work;
use bit_rev::utils::{
    calculate_block_size, calculate_bounds_for_piece, calculate_piece_size, check_integrity,
    generate_peer_id, Torrent,
};

fn torrent(piece_length: i64, length: i64, pieces: usize) -> Torrent {
    Torrent { info_hash: [0; 20], piece_hashes: vec![[0; 20]; pieces], piece_length, length }
}

#[test]
fn last_piece_of_one_byte() {
    let t = torrent(524_288, 1_048_577, 3);
    assert!(t.is_consistent());
    assert_eq!(calculate_piece_size(&t, 0), 524_288);
    assert_eq!(calculate_piece_size(&t, 1), 524_288);
    assert_eq!(calculate_piece_size(&t, 2), 1);
    assert_eq!(calculate_bounds_for_piece(&t, 2), (1_048_576, 1_048_577));
    let work = pieces_of_work(&t);
    assert_eq!(work.len(), 3);
    assert_eq!(work[2].index, 2);
    assert_eq!(work[2].length, 1);
}

#[test]
fn last_piece_full_when_length_is_a_multiple() {
    let t = torrent(8, 16, 2);
    assert!(t.is_consistent());
    assert_eq!(calculate_piece_size(&t, 1), 8);
    assert!(!torrent(8, 16, 3).is_consistent());
    assert!(!torrent(0, 16, 0).is_consistent());
}

#[test]
fn block_sizes() {
    assert_eq!(calculate_block_size(40_000, 0), 16384);
    assert_eq!(calculate_block_size(40_000, 32768), 40_000 - 32768);
    assert_eq!(calculate_block_size(16384, 0), 16384);
}

#[test]
fn integrity_check_uses_sha1() {
    let abc_digest: [u8; 20] = [
        169, 153, 62, 54, 71, 6, 129, 106, 186, 62, 37, 113, 120, 80, 194, 108, 156, 208, 216, 157,
    ];
    assert!(check_integrity(&abc_digest, b"abc"));
    assert!(!check_integrity(&abc_digest, b"abd"));
    assert!(!check_integrity(b"abc", b"abc"));
}

#[test]
fn peer_id_has_twenty_bytes() {
    assert_eq!(generate_peer_id().len(), 20);
}
