use vstd::prelude::*;
use crate::handshake::{Handshake, HandshakeError};
use crate::peer::PeerAddr;
use crate::wire::Message;

verus! {

/// Why a connection was given up during its opening.
#[derive(Debug, Clone, PartialEq)]
pub enum ProtocolError {
    Handshake(HandshakeError),
    InfoHashIsNotEqual,
    ExpectedBitfieldId,
    MessageIsNone,
}

/// The two ends of a connection: the remote peer, and the torrent and identifier
/// this client announces.
#[derive(Debug, Clone)]
pub struct Protocol {
    pub peer: PeerAddr,
    pub info_hash: [u8; 20],
    pub peer_id: [u8; 20],
}

impl Protocol {
    pub fn new(peer: PeerAddr, info_hash: [u8; 20], peer_id: [u8; 20]) -> (r: Protocol)
        ensures
            r.peer == peer,
            r.info_hash == info_hash,
            r.peer_id == peer_id,
    {
        Protocol { peer, info_hash, peer_id }
    }

    /// The handshake this client sends.
    pub fn handshake(&self) -> (r: Handshake)
        ensures
            r.info_hash == self.info_hash,
            r.peer_id == self.peer_id,
            r.pstr_bytes() == crate::handshake::protocol_name(),
    {
        Handshake::new(self.info_hash, self.peer_id)
    }

    /// Accepts the remote handshake only when it was read and names our torrent.
    pub fn check_handshake(&self, received: Result<Handshake, HandshakeError>) -> (r: Result<Handshake, ProtocolError>)
        ensures
            received matches Err(e) ==> r == Err::<Handshake, ProtocolError>(ProtocolError::Handshake(e)),
            received matches Ok(h) ==> (if h.info_hash@ == self.info_hash@ {
                r == Ok::<Handshake, ProtocolError>(h)
            } else {
                r == Err::<Handshake, ProtocolError>(ProtocolError::InfoHashIsNotEqual)
            }),
    {
        match received {
            Err(e) => Err(ProtocolError::Handshake(e)),
            Ok(h) => {
                if h.matches_info_hash(&self.info_hash) {
                    Ok(h)
                } else {
                    Err(ProtocolError::InfoHashIsNotEqual)
                }
            },
        }
    }

    /// The bitfield that a peer's first message must carry.
    pub fn expect_bitfield(&self, message: Option<Message>) -> (r: Result<Vec<u8>, ProtocolError>)
        ensures
            message is None ==> r == Err::<Vec<u8>, ProtocolError>(ProtocolError::MessageIsNone),
            message matches Some(Message::Bitfield(b)) ==> (r matches Ok(v) && v@ == b@),
            message matches Some(m) && !(m is Bitfield) ==> r == Err::<Vec<u8>, ProtocolError>(
                ProtocolError::ExpectedBitfieldId,
            ),
    {
        match message {
            None => Err(ProtocolError::MessageIsNone),
            Some(Message::Bitfield(b)) => Ok(b),
            Some(_) => Err(ProtocolError::ExpectedBitfieldId),
        }
    }
}

} // verus!
