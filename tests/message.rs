use bit_rev::message::{
    format_have, format_request, parse_have, parse_piece, read, serialize, Message, MessageError,
    MessageId,
};

#[test]
fn format_request_test() {
    let expected = vec![
        0x00, 0x00, 0x00, 0x04, // Index
        0x00, 0x00, 0x02, 0x37, // Begin
        0x00, 0x00, 0x10, 0xe1, // Length
    ];
    let index = 4;
    let start = 567;
    let length = 4321;
    let msg = format_request(index, start, length);
    assert_eq!(msg.payload, expected);
}

#[test]
fn format_have_test() {
    let expected = vec![
        0x00, 0x00, 0x00, 0x04, // Index
    ];
    let index = 4;
    let msg = format_have(index);
    assert_eq!(msg.payload, expected);
}

#[test]
fn parse_piece_test() {
    let index = 4;
    let buf = &mut [0u8; 10];
    let msg = Message {
        id: MessageId::MsgPiece,
        payload: vec![
            0x00, 0x00, 0x00, 0x04, // Index
            0x00, 0x00, 0x00, 0x02, // Begin
            0xaa, 0xbb, 0xcc, 0xdd, 0xee, 0xff, // Length
        ],
    };

    let expected_buf = vec![0x00, 0x00, 0xaa, 0xbb, 0xcc, 0xdd, 0xee, 0xff, 0x00, 0x00];

    let expected_result = parse_piece(index, buf, msg);

    assert_eq!(expected_result, Ok(6));
    assert_eq!(buf, expected_buf.as_slice());
}

#[test]
fn parse_have_test() {
    let msg = Message {
        id: MessageId::MsgHave,
        payload: vec![0x00, 0x00, 0x00, 0x04],
    };
    let expected_result = parse_have(msg);
    assert_eq!(expected_result, Ok(4));
}

#[test]
fn serialize_test() {
    let msg = Message {
        id: MessageId::MsgPiece,
        payload: vec![0x00, 0x00, 0x00, 0x04],
    };
    // A four-byte big-endian length, then the id, then the body.
    let expected = vec![0x00, 0x00, 0x00, 0x05, 0x07, 0x00, 0x00, 0x00, 0x04];
    let result = serialize(Some(msg));
    assert_eq!(result, expected);
}

#[test]
fn read_test() {
    let length_buf = vec![0x00, 0x00, 0x00, 0x05];
    let message_buf = vec![0x04, 0x00, 0x00, 0x00, 0x04];
    let expected = Message {
        id: MessageId::MsgHave,
        payload: vec![0x00, 0x00, 0x00, 0x04],
    };
    let result = read(&length_buf, &message_buf);
    assert_eq!(result, Some(expected));
}

#[test]
fn keep_alive_frame_is_four_zero_bytes_and_reads_as_nothing() {
    assert_eq!(serialize(None), vec![0, 0, 0, 0]);
    assert_eq!(read(&[0, 0, 0, 0], &[]), None);
}

#[test]
fn unknown_id_frame_reads_as_nothing() {
    assert_eq!(read(&[0, 0, 0, 2], &[99, 1]), None);
}

#[test]
fn raw_frame_round_trip() {
    let msg = format_request(7, 16384, 16384);
    let bytes = serialize(Some(msg.clone()));
    assert_eq!(read(&bytes[0..4], &bytes[4..]), Some(msg));
}

#[test]
fn parse_piece_errors() {
    let mut buf = [0u8; 4];
    let wrong_kind = Message { id: MessageId::MsgHave, payload: vec![0, 0, 0, 1] };
    assert!(matches!(
        parse_piece(1, &mut buf, wrong_kind),
        Err(MessageError::InvalidMessageId(_))
    ));
    let short = Message { id: MessageId::MsgPiece, payload: vec![0, 0, 0, 1] };
    assert!(matches!(parse_piece(1, &mut buf, short), Err(MessageError::InvalidPayload(_))));
    let other_index = Message { id: MessageId::MsgPiece, payload: vec![0, 0, 0, 2, 0, 0, 0, 0, 9] };
    assert!(matches!(
        parse_piece(1, &mut buf, other_index),
        Err(MessageError::InvalidPayload(_))
    ));
    let too_long = Message { id: MessageId::MsgPiece, payload: vec![0, 0, 0, 1, 0, 0, 0, 2, 9, 9, 9] };
    assert!(matches!(parse_piece(1, &mut buf, too_long), Err(MessageError::InvalidPayload(_))));
    assert_eq!(buf, [0u8; 4]);
}

#[test]
fn parse_have_errors() {
    let wrong_kind = Message { id: MessageId::MsgPiece, payload: vec![0, 0, 0, 1] };
    assert!(matches!(parse_have(wrong_kind), Err(MessageError::InvalidMessageId(_))));
    let short = Message { id: MessageId::MsgHave, payload: vec![0, 0, 1] };
    assert!(matches!(parse_have(short), Err(MessageError::InvalidPayload(_))));
}

#[test]
fn id_bytes_and_names() {
    assert_eq!(MessageId::MsgHashReject.to_u8(), 23);
    assert_eq!(MessageId::from_u8(16), Some(MessageId::MsgReject));
    assert_eq!(MessageId::from_u8(9), None);
    assert_eq!(MessageId::MsgNotInterested.name(), "NOT_INTERESTED");
    assert_eq!(MessageId::MsgPiece.name(), "PIECE");
}
