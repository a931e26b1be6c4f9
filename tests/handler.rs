use bit_rev::handler::{
    PeerHandler, PeerState, Reaction, Requester, RequesterAction, RequesterStage, WriterEvent,
};
use bit_rev::peer::PeerAddr;
use bit_rev::swarm::PieceWork;
use bit_rev::wire::{format_request, serialize, Message, PieceChunk, WriterRequest};

fn handler() -> PeerHandler {
    PeerHandler::new(PeerAddr::V4(0x0a00_0001, 51413), 10)
}

#[test]
fn choke_unchoke_and_bitfield() {
    let mut h = handler();
    assert!(h.choked);
    assert!(matches!(h.on_received_message(Message::Unchoke), Reaction::Unchoked));
    assert!(!h.choked);
    assert!(matches!(h.on_received_message(Message::Choke), Reaction::Nothing));
    assert!(h.choked);
    assert!(matches!(
        h.on_received_message(Message::Bitfield(vec![0b1100_0000])),
        Reaction::BitfieldChanged
    ));
    assert!(h.state.bitfield.has_piece(1));
    assert!(!h.state.bitfield.has_piece(2));
    assert!(matches!(h.on_received_message(Message::Have(2)), Reaction::BitfieldChanged));
    assert!(h.state.bitfield.has_piece(2));
}

#[test]
fn have_before_bitfield_sets_the_bit() {
    let mut h = handler();
    assert_eq!(h.state.bitfield.bytes, vec![0, 0]);
    assert!(h.state.bitfield.is_empty());
    // An unknown frame is dropped, then HAVE(0) and HAVE(9) arrive.
    assert_eq!(bit_rev::wire::read(&[0, 0, 0, 1], &[9]), Ok(None));
    assert!(matches!(h.on_received_message(Message::Have(0)), Reaction::BitfieldChanged));
    assert!(matches!(h.on_received_message(Message::Have(9)), Reaction::BitfieldChanged));
    assert!(h.state.bitfield.has_piece(0));
    assert!(h.state.bitfield.has_piece(9));
    assert!(!h.should_transmit_have(0));
    assert!(h.should_transmit_have(1));
}

#[test]
fn piece_is_handed_on_and_counted() {
    let mut h = handler();
    let chunk = PieceChunk { index: 1, start: 0, length: 3, data: vec![1, 2, 3] };
    match h.on_received_message(Message::Piece(chunk.clone())) {
        Reaction::Block(c) => assert_eq!(c, chunk),
        _ => panic!("expected a block"),
    }
    assert_eq!(h.downloaded, 3);
}

#[test]
fn keep_alive_and_requests_change_nothing() {
    let mut h = handler();
    assert!(matches!(h.on_received_message(Message::KeepAlive), Reaction::Nothing));
    assert!(matches!(h.on_received_message(format_request(0, 0, 16384)), Reaction::Nothing));
    assert!(matches!(h.on_received_message(Message::Interested), Reaction::Nothing));
    assert!(h.state.peer_interested);
    assert!(h.choked);
}

#[test]
fn have_is_not_sent_to_a_peer_that_has_the_piece() {
    let mut h = handler();
    h.on_received_message(Message::Bitfield(vec![0b1000_0000]));
    assert!(!h.should_transmit_have(0));
    assert!(h.should_transmit_have(1));
    assert!(h.outbound(WriterEvent::Have(0)).is_none());
    assert_eq!(h.outbound(WriterEvent::Have(1)), Some(Message::Have(1)));
    assert_eq!(
        h.outbound(WriterEvent::Queued(WriterRequest::Message(Message::Interested))),
        Some(Message::Interested)
    );
    let idle = h.outbound(WriterEvent::Idle).unwrap();
    assert_eq!(serialize(Some(idle)), vec![0, 0, 0, 0]);
}

#[test]
fn requests_cover_the_piece_in_blocks() {
    let mut r = Requester::new();
    r.start_piece(PieceWork { index: 2, length: 40_000, hash: [0; 20] });
    assert_eq!(r.next_request(), Some(format_request(2, 0, 16384)));
    assert_eq!(r.next_request(), Some(format_request(2, 16384, 16384)));
    assert_eq!(r.next_request(), Some(format_request(2, 32768, 40_000 - 32768)));
    assert_eq!(r.next_request(), None);
    assert_eq!(r.offset, 40_000);
}

#[test]
fn interest_is_sent_only_on_change() {
    let mut r = Requester::new();
    assert_eq!(r.update_interest(true), Some(Message::Interested));
    assert_eq!(r.update_interest(true), None);
    let off = r.update_interest(false).unwrap();
    assert_eq!(serialize(Some(off)), vec![0, 0, 0, 1, 3]);
}

#[test]
fn default_peer_state() {
    let s = PeerState::default();
    assert!(s.peer_interested);
    assert!(s.bitfield.is_empty());
}

#[test]
fn requester_stages() {
    let mut r = Requester::new();
    assert!(matches!(r.next_action(true, true), RequesterAction::WaitBitfield));
    assert_eq!(r.stage, RequesterStage::UpdateInterest);
    match r.next_action(true, true) {
        RequesterAction::Send(m) => assert_eq!(m, Message::Interested),
        _ => panic!("expected INTERESTED"),
    }
    assert!(matches!(r.next_action(false, true), RequesterAction::WaitUnchoke));
    assert!(matches!(r.next_action(false, false), RequesterAction::Reserve));
    r.on_reserved(Some(PieceWork { index: 0, length: 20_000, hash: [0; 20] }));
    // No permit yet.
    assert!(matches!(r.next_action(false, false), RequesterAction::WaitPermit));
    r.permits = 1;
    match r.next_action(false, false) {
        RequesterAction::Request(m) => assert_eq!(m, format_request(0, 0, 16384)),
        _ => panic!("expected a request"),
    }
    assert_eq!(r.permits, 0);
    assert!(matches!(r.next_action(false, false), RequesterAction::WaitPermit));
    r.permits = 5;
    // Choked in the middle of a piece: wait, keeping the piece and the offset.
    assert!(matches!(r.next_action(false, true), RequesterAction::WaitUnchoke));
    assert_eq!(r.offset, 16384);
    assert_eq!(r.stage, RequesterStage::Requesting);
    match r.next_action(false, false) {
        RequesterAction::Request(m) => assert_eq!(m, format_request(0, 16384, 20_000 - 16384)),
        _ => panic!("expected a request"),
    }
    assert_eq!(r.permits, 4);
    // The piece is fully requested: interest is already sent, so straight to a reservation.
    assert!(matches!(r.next_action(false, false), RequesterAction::Reserve));
    r.on_reserved(None);
    assert!(matches!(r.next_action(false, false), RequesterAction::Stop));
}

#[test]
fn unchoke_and_blocks_grant_permits() {
    let mut h = handler();
    assert_eq!(h.requester.permits, 0);
    h.on_received_message(Message::Unchoke);
    assert_eq!(h.requester.permits, 128);
    let chunk = PieceChunk { index: 0, start: 0, length: 1, data: vec![1] };
    h.on_received_message(Message::Piece(chunk));
    assert_eq!(h.requester.permits, 129);
    h.on_received_message(Message::Choke);
    assert_eq!(h.requester.permits, 129);
}

#[test]
fn requester_leaves_bitfield_wait_after_a_have() {
    let mut r = Requester::new();
    assert!(matches!(r.next_action(true, true), RequesterAction::WaitBitfield));
    // A HAVE woke the requester although the bitfield stayed empty.
    assert!(matches!(r.next_action(true, true), RequesterAction::Send(_)));
}
