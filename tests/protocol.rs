use bit_rev::handshake::{Handshake, HandshakeError};
use bit_rev::peer::PeerAddr;
use bit_rev::protocol::{Protocol, ProtocolError};
use bit_rev::wire::Message;

fn protocol() -> Protocol {
    Protocol::new(PeerAddr::V4(0x7f00_0001, 6881), [1; 20], [2; 20])
}

#[test]
fn handshake_is_checked_against_our_digest() {
    let p = protocol();
    assert_eq!(p.peer, PeerAddr::V4(0x7f00_0001, 6881));
    let ours = p.handshake();
    assert_eq!(ours.info_hash, [1; 20]);
    assert_eq!(ours.peer_id, [2; 20]);
    let theirs = Handshake::new([1; 20], [9; 20]);
    assert_eq!(p.check_handshake(Ok(theirs.clone())), Ok(theirs));
    let other = Handshake::new([3; 20], [9; 20]);
    assert_eq!(p.check_handshake(Ok(other)), Err(ProtocolError::InfoHashIsNotEqual));
    assert_eq!(
        p.check_handshake(Err(HandshakeError::ProtocolLengthCantBeZero)),
        Err(ProtocolError::Handshake(HandshakeError::ProtocolLengthCantBeZero))
    );
}

#[test]
fn first_message_must_be_a_bitfield() {
    let p = protocol();
    assert_eq!(p.expect_bitfield(Some(Message::Bitfield(vec![0xf0]))), Ok(vec![0xf0]));
    assert_eq!(p.expect_bitfield(Some(Message::Have(1))), Err(ProtocolError::ExpectedBitfieldId));
    assert_eq!(p.expect_bitfield(None), Err(ProtocolError::MessageIsNone));
}
