use vstd::prelude::*;
use vstd::utf8::encode_utf8;
use crate::bytes::{push_all, take_20};

verus! {

/// The bytes of the protocol name "BitTorrent protocol".
pub open spec fn protocol_name() -> Seq<u8> {
    seq![66u8, 105, 116, 84, 111, 114, 114, 101, 110, 116, 32, 112, 114, 111, 116, 111, 99, 111, 108]
}

/// The wire form of a handshake: the name's length, the name, eight reserved zero
/// bytes, the info digest and the peer identifier.
pub open spec fn handshake_bytes(pstr: Seq<u8>, info_hash: Seq<u8>, peer_id: Seq<u8>) -> Seq<u8> {
    seq![pstr.len() as u8] + pstr + Seq::new(8, |i: int| 0u8) + info_hash + peer_id
}

/// The info digest and the peer identifier that a handshake read from `buf`
/// carries, where `buf` follows a length byte of `protocol_str_len`.
pub open spec fn read_fields(protocol_str_len: int, buf: Seq<u8>) -> (Seq<u8>, Seq<u8>) {
    (
        buf.subrange(protocol_str_len + 8, protocol_str_len + 28),
        buf.subrange(protocol_str_len + 28, protocol_str_len + 48),
    )
}

/// The opening message that both ends of a connection send.
#[derive(Debug, PartialEq, Eq, Clone)]
pub struct Handshake {
    pub pstr: String,
    pub info_hash: [u8; 20],
    pub peer_id: [u8; 20],
}

#[derive(Debug, PartialEq, Eq, Clone)]
pub enum HandshakeError {
    ProtocolLengthCantBeZero,
}

/// The name "BitTorrent protocol" is ASCII, so its UTF-8 bytes are its characters.
proof fn lemma_protocol_name_bytes()
    ensures
        encode_utf8("BitTorrent protocol"@) == protocol_name(),
{
    reveal_strlit("BitTorrent protocol");
    let c = "BitTorrent protocol"@;
    assert(vstd::utf8::is_ascii_chars(c));
    vstd::utf8::is_ascii_chars_encode_utf8(c);
    assert(encode_utf8(c) =~= protocol_name());
}

impl Handshake {
    /// The bytes of the protocol name.
    pub open spec fn pstr_bytes(&self) -> Seq<u8> {
        encode_utf8(self.pstr@)
    }

    pub fn new(info_hash: [u8; 20], peer_id: [u8; 20]) -> (r: Handshake)
        ensures
            r.pstr_bytes() == protocol_name(),
            r.info_hash == info_hash,
            r.peer_id == peer_id,
    {
        proof {
            lemma_protocol_name_bytes();
        }
        Handshake { pstr: "BitTorrent protocol".to_owned(), info_hash, peer_id }
    }

    /// The wire form; the length byte keeps the low eight bits of the name's length.
    pub fn serialize(&self) -> (r: Vec<u8>)
        ensures
            r@ == handshake_bytes(self.pstr_bytes(), self.info_hash@, self.peer_id@),
    {
        let pstr = self.pstr.as_str().as_bytes();
        let mut handshake: Vec<u8> = Vec::new();
        handshake.push(#[verifier::truncate] (pstr.len() as u8));
        push_all(&mut handshake, pstr);
        push_all(&mut handshake, &[0u8; 8]);
        push_all(&mut handshake, &self.info_hash);
        push_all(&mut handshake, &self.peer_id);
        assert(handshake@ =~= handshake_bytes(self.pstr_bytes(), self.info_hash@, self.peer_id@));
        handshake
    }

    /// Reads the `protocol_str_len + 48` bytes that follow the length byte.
    pub fn read(protocol_str_len: usize, handshake_buf: Vec<u8>) -> (r: Result<Handshake, HandshakeError>)
        requires
            protocol_str_len != 0 ==> handshake_buf@.len() == protocol_str_len + 48,
        ensures
            protocol_str_len == 0 <==> r == Err::<Handshake, HandshakeError>(
                HandshakeError::ProtocolLengthCantBeZero,
            ),
            r matches Ok(h) ==> {
                &&& h.pstr_bytes() == protocol_name()
                &&& (h.info_hash@, h.peer_id@) == read_fields(
                    protocol_str_len as int,
                    handshake_buf@,
                )
            },
    {
        if protocol_str_len == 0 {
            return Err(HandshakeError::ProtocolLengthCantBeZero);
        }
        let n = handshake_buf.len();
        assert(n == protocol_str_len + 48);
        let i = protocol_str_len + 8;
        let info_hash_buffer = take_20(handshake_buf.as_slice(), i);
        let peer_id_buffer = take_20(handshake_buf.as_slice(), i + 20);
        Ok(Handshake::new(info_hash_buffer, peer_id_buffer))
    }

    /// Whether the remote end speaks of the same torrent.
    pub fn matches_info_hash(&self, info_hash: &[u8; 20]) -> (r: bool)
        ensures
            r == (self.info_hash@ == info_hash@),
    {
        crate::utils::bytes_equal(&self.info_hash, info_hash)
    }
}

/// A handshake read back from its own wire form, after its length byte, carries
/// the same info digest and peer identifier.
pub proof fn lemma_handshake_round_trip(info_hash: [u8; 20], peer_id: [u8; 20])
    ensures
        ({
            let b = handshake_bytes(protocol_name(), info_hash@, peer_id@);
            &&& b.len() == 68
            &&& b[0] == 19
            &&& read_fields(b[0] as int, b.subrange(1, 68)) == (info_hash@, peer_id@)
        }),
{
    let b = handshake_bytes(protocol_name(), info_hash@, peer_id@);
    assert(b[0] == 19);
    assert(b.subrange(1, 68).subrange(27, 47) =~= info_hash@);
    assert(b.subrange(1, 68).subrange(47, 67) =~= peer_id@);
}

} // verus!
