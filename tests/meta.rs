use bit_rev::meta::{info_hash, piece_hashes};

#[test]
fn info_hash_is_sha1_of_the_encoded_info() {
    let expected: [u8; 20] = [
        169, 153, 62, 54, 71, 6, 129, 106, 186, 62, 37, 113, 120, 80, 194, 108, 156, 208, 216, 157,
    ];
    assert_eq!(info_hash(b"abc"), expected);
}

#[test]
fn piece_hashes_split_by_twenty() {
    let pieces: Vec<u8> = (0..40).collect();
    let hashes = piece_hashes(&pieces).unwrap();
    assert_eq!(hashes.len(), 2);
    assert_eq!(hashes[1][0], 20);
    assert_eq!(hashes[1][19], 39);
    assert!(piece_hashes(&pieces[0..39]).is_none());
    assert_eq!(piece_hashes(&[]), Some(vec![]));
}
