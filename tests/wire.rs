use bit_rev::message::MessageId;
use bit_rev::wire::{format_have, format_request, read, serialize, Message, MessageInner, PieceChunk};

fn round_trip(m: Message) -> Message {
    let bytes = serialize(Some(m));
    read(&bytes[0..4], &bytes[4..]).unwrap().unwrap()
}

#[test]
fn every_message_reads_back_as_itself() {
    let messages = vec![
        Message::Choke,
        Message::Unchoke,
        Message::Interested,
        Message::NotInterested,
        Message::Have(0x0102_0304),
        Message::Bitfield(vec![0b1100_0000]),
        format_request(1, 16384, 16384),
        Message::Piece(PieceChunk { index: 3, start: 16384, length: 3, data: vec![9, 8, 7] }),
        Message::Cancel(vec![0, 0, 0, 1, 0, 0, 0, 0, 0, 0, 64, 0]),
        Message::Reject,
        Message::HashRequest,
        Message::Hashes(vec![1, 2, 3]),
        Message::HashReject,
        Message::KeepAlive,
    ];
    for m in messages {
        assert_eq!(round_trip(m.clone()), m);
    }
}

#[test]
fn keep_alive_is_four_zero_bytes() {
    assert_eq!(serialize(Some(Message::KeepAlive)), vec![0, 0, 0, 0]);
    assert_eq!(read(&[0, 0, 0, 0], &[]), Ok(Some(Message::KeepAlive)));
}

#[test]
fn have_and_piece_wire_bytes() {
    assert_eq!(serialize(Some(format_have(4))), vec![0, 0, 0, 5, 4, 0, 0, 0, 4]);
    let piece = Message::Piece(PieceChunk { index: 1, start: 2, length: 2, data: vec![0xaa, 0xbb] });
    assert_eq!(
        serialize(Some(piece)),
        vec![0, 0, 0, 11, 7, 0, 0, 0, 1, 0, 0, 0, 2, 0xaa, 0xbb]
    );
    assert_eq!(serialize(None), Vec::<u8>::new());
}

#[test]
fn unknown_id_is_dropped_without_error() {
    assert_eq!(read(&[0, 0, 0, 3], &[42, 1, 2]), Ok(None));
}

#[test]
fn short_bodies_are_decode_errors() {
    assert!(read(&[0, 0, 0, 3], &[4, 0, 0]).is_err());
    assert!(read(&[0, 0, 0, 5], &[6, 0, 0, 0, 0]).is_err());
    assert!(read(&[0, 0, 0, 4], &[7, 0, 0, 0]).is_err());
    let inner = MessageInner { id: MessageId::MsgCancel, payload: vec![0; 11] };
    assert!(inner.into_message().is_err());
}

#[test]
fn request_keeps_first_twelve_bytes() {
    let inner = MessageInner { id: MessageId::MsgRequest, payload: (0..14).collect() };
    assert_eq!(inner.into_message(), Ok(Message::Request((0..12).collect())));
}
