use bit_rev::bitfield::Bitfield;
use bit_rev::download::{ClientState, DownloadError};
use bit_rev::message::{format_request, Message, MessageError, MessageId};
use bit_rev::session::State;
use bit_rev::swarm::PieceWork;

const H_A: [u8; 20] = [
    103, 66, 62, 191, 168, 69, 79, 25, 172, 111, 70, 134, 214, 192, 220, 115, 26, 61, 221, 107,
];

#[test]
fn requests_for_a_whole_piece() {
    let pw = PieceWork { index: 3, length: 40_000, hash: [0; 20] };
    let mut state = State::new(pw.length);
    assert_eq!(state.buf.len(), 40_000);
    let requests = state.pending_requests(&pw);
    assert_eq!(
        requests,
        vec![
            format_request(3, 0, 16384),
            format_request(3, 16384, 16384),
            format_request(3, 32768, 40_000 - 32768),
        ]
    );
    assert_eq!(state.requested, 40_000);
    assert!(state.pending_requests(&pw).is_empty());
}

#[test]
fn one_piece_download() {
    let pw = PieceWork { index: 0, length: 8, hash: H_A };
    let mut client = ClientState { choked: true, bitfield: Bitfield::new(vec![0]) };
    let mut state = State::new(8);
    let unchoke = Message { id: MessageId::MsgUnchoke, payload: vec![] };
    assert_eq!(state.on_message(&pw, &mut client, unchoke), Ok(()));
    assert!(!client.choked);
    let have = Message { id: MessageId::MsgHave, payload: vec![0, 0, 0, 0] };
    assert_eq!(state.on_message(&pw, &mut client, have), Ok(()));
    assert!(client.bitfield.has_piece(0));
    let second_half = Message { id: MessageId::MsgPiece, payload: vec![0, 0, 0, 0, 0, 0, 0, 4, 4, 5, 6, 7] };
    assert_eq!(state.on_message(&pw, &mut client, second_half), Ok(()));
    let first_half = Message { id: MessageId::MsgPiece, payload: vec![0, 0, 0, 0, 0, 0, 0, 0, 0, 1, 2, 3] };
    assert_eq!(state.on_message(&pw, &mut client, first_half), Ok(()));
    assert_eq!(state.downloaded, 8);
    let result = state.finish(&pw, &client).unwrap();
    assert_eq!(result.buf, (0..8).collect::<Vec<u8>>());
    assert_eq!(result.index, 0);
}

#[test]
fn download_errors() {
    let pw = PieceWork { index: 0, length: 8, hash: H_A };
    let mut client = ClientState { choked: false, bitfield: Bitfield::new(vec![0]) };
    let state = State::new(8);
    assert_eq!(state.finish(&pw, &client).err(), Some(DownloadError::ClientDoesNotHavePiece));
    client.bitfield.set_piece(0);
    let state = State::new(8);
    assert_eq!(state.finish(&pw, &client).err(), Some(DownloadError::IntegrityError));
    let mut state = State::new(8);
    let bad = Message { id: MessageId::MsgPiece, payload: vec![0, 0, 0, 1, 0, 0, 0, 0, 1] };
    assert!(matches!(
        state.on_message(&pw, &mut client, bad),
        Err(DownloadError::MessageError(MessageError::InvalidPayload(_)))
    ));
}

#[test]
fn start_refuses_a_peer_without_the_piece() {
    let pw = PieceWork { index: 1, length: 8, hash: H_A };
    let mut client = ClientState { choked: true, bitfield: Bitfield::new(vec![0b1000_0000]) };
    assert!(matches!(State::start(&pw, &client), Err(DownloadError::ClientDoesNotHavePiece)));
    let mut state = State::new(8);
    let have = Message { id: MessageId::MsgHave, payload: vec![0, 0, 0, 1] };
    assert_eq!(state.on_message(&pw, &mut client, have), Ok(()));
    let started = State::start(&pw, &client).unwrap();
    assert_eq!(started.buf, vec![0; 8]);
}
