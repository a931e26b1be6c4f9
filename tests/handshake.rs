use bit_rev::handshake::{Handshake, HandshakeError};

const HASH_INFO: [u8; 20] = [
    134, 212, 200, 0, 36, 164, 105, 190, 76, 80, 188, 90, 16, 44, 247, 23, 128, 49, 0, 116,
];
const PEER_ID: [u8; 20] = [
    1, 2, 3, 4, 5, 6, 7, 8, 9, 10, 11, 12, 13, 14, 15, 16, 17, 18, 19, 20,
];

#[test]
fn serialize_handshake() {
    let expected = vec![
        19, 66, 105, 116, 84, 111, 114, 114, 101, 110, 116, 32, 112, 114, 111, 116, 111, 99,
        111, 108, 0, 0, 0, 0, 0, 0, 0, 0, 134, 212, 200, 0, 36, 164, 105, 190, 76, 80, 188, 90,
        16, 44, 247, 23, 128, 49, 0, 116, 1, 2, 3, 4, 5, 6, 7, 8, 9, 10, 11, 12, 13, 14, 15,
        16, 17, 18, 19, 20,
    ];
    let handshake = Handshake::new(HASH_INFO, PEER_ID);
    let result = handshake.serialize();

    assert_eq!(result, expected);
}

#[test]
fn sucefull_reading_handshake() {
    let protocol_str_len = 19;
    let handshake_bytes = vec![
        66, 105, 116, 84, 111, 114, 114, 101, 110, 116, 32, 112, 114, 111, 116, 111, 99, 111,
        108, 0, 0, 0, 0, 0, 0, 0, 0, 134, 212, 200, 0, 36, 164, 105, 190, 76, 80, 188, 90, 16,
        44, 247, 23, 128, 49, 0, 116, 1, 2, 3, 4, 5, 6, 7, 8, 9, 10, 11, 12, 13, 14, 15, 16,
        17, 18, 19, 20,
    ];
    let result = Handshake::read(protocol_str_len, handshake_bytes).unwrap();
    let expected = Handshake::new(HASH_INFO, PEER_ID);

    assert_eq!(result, expected);
}

#[test]
fn failure_reading_handshake_when_pstrlen_is_zero() {
    let protocol_str_len = 0;
    let handshake_bytes = vec![
        66, 105, 116, 84, 111, 114, 114, 101, 110, 116, 32, 112, 114, 111, 116, 111, 99, 111,
        108, 0, 0, 0, 0, 0, 0, 0, 0, 134, 212, 200, 0, 36, 164, 105, 190, 76, 80, 188, 90, 16,
        44, 247, 23, 128, 49, 0, 116, 1, 2, 3, 4, 5, 6, 7, 8, 9, 10, 11, 12, 13, 14, 15, 16,
        17, 18, 19, 20,
    ];
    let result = Handshake::read(protocol_str_len, handshake_bytes);

    assert_eq!(result, Err(HandshakeError::ProtocolLengthCantBeZero));
}

#[test]
fn handshake_round_trip_keeps_digest_and_peer_id() {
    let id: [u8; 20] = [7; 20];
    let digest: [u8; 20] = [0xab; 20];
    let bytes = Handshake::new(digest, id).serialize();
    assert_eq!(bytes.len(), 68);
    let h = Handshake::read(bytes[0] as usize, bytes[1..].to_vec()).unwrap();
    assert_eq!(h.info_hash, digest);
    assert_eq!(h.peer_id, id);
    assert!(h.matches_info_hash(&digest));
    assert!(!h.matches_info_hash(&HASH_INFO));
}
