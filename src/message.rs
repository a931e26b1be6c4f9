use vstd::prelude::*;
use crate::bytes::{be_at, be_bytes, copy_range, lemma_be_round_trip_at, push_all, push_u32_be, read_u32_be};

verus! {

/// The message kinds of the peer wire protocol.
#[derive(Debug, Copy, Clone, PartialEq, Eq, Structural)]
pub enum MessageId {
    MsgChoke,
    MsgUnchoke,
    MsgInterested,
    MsgNotInterested,
    MsgHave,
    MsgBitfield,
    MsgRequest,
    MsgPiece,
    MsgCancel,
    MsgReject,
    MsgHashRequest,
    MsgHashes,
    MsgHashReject,
}

/// The byte that stands for each kind on the wire.
pub open spec fn id_byte(id: MessageId) -> u8 {
    match id {
        MessageId::MsgChoke => 0,
        MessageId::MsgUnchoke => 1,
        MessageId::MsgInterested => 2,
        MessageId::MsgNotInterested => 3,
        MessageId::MsgHave => 4,
        MessageId::MsgBitfield => 5,
        MessageId::MsgRequest => 6,
        MessageId::MsgPiece => 7,
        MessageId::MsgCancel => 8,
        MessageId::MsgReject => 16,
        MessageId::MsgHashRequest => 21,
        MessageId::MsgHashes => 22,
        MessageId::MsgHashReject => 23,
    }
}

/// The kind that a byte stands for, if any.
pub open spec fn id_of_byte(b: u8) -> Option<MessageId> {
    if b == 0 {
        Some(MessageId::MsgChoke)
    } else if b == 1 {
        Some(MessageId::MsgUnchoke)
    } else if b == 2 {
        Some(MessageId::MsgInterested)
    } else if b == 3 {
        Some(MessageId::MsgNotInterested)
    } else if b == 4 {
        Some(MessageId::MsgHave)
    } else if b == 5 {
        Some(MessageId::MsgBitfield)
    } else if b == 6 {
        Some(MessageId::MsgRequest)
    } else if b == 7 {
        Some(MessageId::MsgPiece)
    } else if b == 8 {
        Some(MessageId::MsgCancel)
    } else if b == 16 {
        Some(MessageId::MsgReject)
    } else if b == 21 {
        Some(MessageId::MsgHashRequest)
    } else if b == 22 {
        Some(MessageId::MsgHashes)
    } else if b == 23 {
        Some(MessageId::MsgHashReject)
    } else {
        None
    }
}

impl MessageId {
    /// The byte that stands for this kind on the wire.
    pub fn to_u8(&self) -> (r: u8)
        ensures
            r == id_byte(*self),
    {
        match self {
            MessageId::MsgChoke => 0,
            MessageId::MsgUnchoke => 1,
            MessageId::MsgInterested => 2,
            MessageId::MsgNotInterested => 3,
            MessageId::MsgHave => 4,
            MessageId::MsgBitfield => 5,
            MessageId::MsgRequest => 6,
            MessageId::MsgPiece => 7,
            MessageId::MsgCancel => 8,
            MessageId::MsgReject => 16,
            MessageId::MsgHashRequest => 21,
            MessageId::MsgHashes => 22,
            MessageId::MsgHashReject => 23,
        }
    }

    /// The kind's name, as logs show it.
    pub fn name(&self) -> (r: &'static str)
        ensures
            *self == MessageId::MsgChoke ==> r@ == "CHOKE"@,
            *self == MessageId::MsgUnchoke ==> r@ == "UNCHOKE"@,
            *self == MessageId::MsgInterested ==> r@ == "INTERESTED"@,
            *self == MessageId::MsgNotInterested ==> r@ == "NOT_INTERESTED"@,
            *self == MessageId::MsgHave ==> r@ == "HAVE"@,
            *self == MessageId::MsgBitfield ==> r@ == "BITFIELD"@,
            *self == MessageId::MsgRequest ==> r@ == "REQUEST"@,
            *self == MessageId::MsgPiece ==> r@ == "PIECE"@,
            *self == MessageId::MsgCancel ==> r@ == "CANCEL"@,
            *self == MessageId::MsgReject ==> r@ == "REJECT"@,
            *self == MessageId::MsgHashRequest ==> r@ == "HASH_REQUEST"@,
            *self == MessageId::MsgHashes ==> r@ == "HASHES"@,
            *self == MessageId::MsgHashReject ==> r@ == "HASH_REJECT"@,
    {
        match self {
            MessageId::MsgChoke => "CHOKE",
            MessageId::MsgUnchoke => "UNCHOKE",
            MessageId::MsgInterested => "INTERESTED",
            MessageId::MsgNotInterested => "NOT_INTERESTED",
            MessageId::MsgHave => "HAVE",
            MessageId::MsgBitfield => "BITFIELD",
            MessageId::MsgRequest => "REQUEST",
            MessageId::MsgPiece => "PIECE",
            MessageId::MsgCancel => "CANCEL",
            MessageId::MsgReject => "REJECT",
            MessageId::MsgHashRequest => "HASH_REQUEST",
            MessageId::MsgHashes => "HASHES",
            MessageId::MsgHashReject => "HASH_REJECT",
        }
    }

    /// The kind that `b` stands for; `None` for a byte that names no kind.
    pub fn from_u8(b: u8) -> (r: Option<MessageId>)
        ensures
            r == id_of_byte(b),
    {
        match b {
            0 => Some(MessageId::MsgChoke),
            1 => Some(MessageId::MsgUnchoke),
            2 => Some(MessageId::MsgInterested),
            3 => Some(MessageId::MsgNotInterested),
            4 => Some(MessageId::MsgHave),
            5 => Some(MessageId::MsgBitfield),
            6 => Some(MessageId::MsgRequest),
            7 => Some(MessageId::MsgPiece),
            8 => Some(MessageId::MsgCancel),
            16 => Some(MessageId::MsgReject),
            21 => Some(MessageId::MsgHashRequest),
            22 => Some(MessageId::MsgHashes),
            23 => Some(MessageId::MsgHashReject),
            _ => None,
        }
    }
}

/// A framed message: its kind and its body.
#[derive(Debug, Clone, PartialEq)]
pub struct Message {
    pub id: MessageId,
    pub payload: Vec<u8>,
}

#[derive(Debug, Clone, PartialEq)]
pub enum MessageError {
    InvalidMessageId(String),
    InvalidPayload(String),
}

/// The bytes of a frame: the big-endian length of what follows, the kind's byte, the body.
pub open spec fn frame_bytes(id: MessageId, payload: Seq<u8>) -> Seq<u8> {
    be_bytes((payload.len() + 1) as u32) + seq![id_byte(id)] + payload
}

/// The keep-alive frame: a length of zero and nothing after it.
pub open spec fn keep_alive_bytes() -> Seq<u8> {
    seq![0u8, 0u8, 0u8, 0u8]
}

/// What a frame with length bytes `length_buf` and body `message_buf` holds:
/// `None` for a keep-alive or a kind that no id names.
pub open spec fn decode_frame(length_buf: Seq<u8>, message_buf: Seq<u8>) -> Option<(MessageId, Seq<u8>)> {
    let length = be_at(length_buf, 0);
    if length == 0 {
        None
    } else {
        match id_of_byte(message_buf[0]) {
            Some(id) => Some((id, message_buf.subrange(1, length as int))),
            None => None,
        }
    }
}

/// A REQUEST for `length` bytes at `start` of piece `index`.
pub fn format_request(index: u32, start: u32, length: u32) -> (r: Message)
    ensures
        r.id == MessageId::MsgRequest,
        r.payload@ == be_bytes(index) + be_bytes(start) + be_bytes(length),
{
    let mut payload: Vec<u8> = Vec::new();
    push_u32_be(&mut payload, index);
    push_u32_be(&mut payload, start);
    push_u32_be(&mut payload, length);
    assert(payload@ =~= be_bytes(index) + be_bytes(start) + be_bytes(length));
    Message { id: MessageId::MsgRequest, payload }
}

/// A HAVE for piece `index`.
pub fn format_have(index: u32) -> (r: Message)
    ensures
        r.id == MessageId::MsgHave,
        r.payload@ == be_bytes(index),
{
    let mut payload: Vec<u8> = Vec::new();
    push_u32_be(&mut payload, index);
    assert(payload@ =~= be_bytes(index));
    Message { id: MessageId::MsgHave, payload }
}

/// Copies the block of a PIECE message for piece `index` into `buf` at the offset it
/// names, and returns the block's length.
pub fn parse_piece(index: u32, buf: &mut [u8], msg: Message) -> (r: Result<usize, MessageError>)
    ensures
        (msg.id != MessageId::MsgPiece) <==> r matches Err(MessageError::InvalidMessageId(_)),
        r is Ok <==> {
            &&& msg.id == MessageId::MsgPiece
            &&& msg.payload@.len() >= 8
            &&& be_at(msg.payload@, 0) == index
            &&& be_at(msg.payload@, 4) + (msg.payload@.len() - 8) <= old(buf)@.len()
        },
        r matches Ok(n) ==> {
            let start = be_at(msg.payload@, 4) as int;
            &&& n == msg.payload@.len() - 8
            &&& final(buf)@ == old(buf)@.subrange(0, start) + msg.payload@.subrange(
                8,
                msg.payload@.len() as int,
            ) + old(buf)@.subrange(start + n, old(buf)@.len() as int)
        },
        r is Err ==> final(buf)@ == old(buf)@,
{
    match msg.id {
        MessageId::MsgPiece => {},
        _ => {
            return Err(MessageError::InvalidMessageId("expected a PIECE message".to_owned()));
        },
    }
    let plen = msg.payload.len();
    if plen < 8 {
        return Err(MessageError::InvalidPayload("payload shorter than 8 bytes".to_owned()));
    }
    if read_u32_be(msg.payload.as_slice(), 0) != index {
        return Err(MessageError::InvalidPayload("piece index differs".to_owned()));
    }
    let start = read_u32_be(msg.payload.as_slice(), 4) as usize;
    if start > buf.len() {
        return Err(MessageError::InvalidPayload("start offset past the piece".to_owned()));
    }
    let n = plen - 8;
    if n > buf.len() - start {
        return Err(MessageError::InvalidPayload("block runs past the piece".to_owned()));
    }
    let blen = buf.len();
    let mut k: usize = 0;
    while k < n
        invariant
            k <= n,
            blen == buf@.len(),
            plen == msg.payload@.len(),
            start + n <= blen,
            n == msg.payload@.len() - 8,
            start + n <= buf@.len(),
            buf@.len() == old(buf)@.len(),
            forall|j: int| 0 <= j < start ==> buf@[j] == old(buf)@[j],
            forall|j: int| start + n <= j < buf@.len() ==> buf@[j] == old(buf)@[j],
            forall|j: int| start <= j < start + k ==> buf@[j] == msg.payload@[j - start + 8],
        decreases n - k,
    {
        buf[start + k] = msg.payload[8 + k];
        k = k + 1;
    }
    assert(buf@ =~= old(buf)@.subrange(0, start as int) + msg.payload@.subrange(
        8,
        msg.payload@.len() as int,
    ) + old(buf)@.subrange(start + n, old(buf)@.len() as int));
    Ok(n)
}

/// The piece index of a HAVE message.
pub fn parse_have(msg: Message) -> (r: Result<u32, MessageError>)
    ensures
        (msg.id != MessageId::MsgHave) <==> r matches Err(MessageError::InvalidMessageId(_)),
        r is Ok <==> (msg.id == MessageId::MsgHave && msg.payload@.len() == 4),
        r matches Ok(i) ==> i == be_at(msg.payload@, 0),
{
    match msg.id {
        MessageId::MsgHave => {},
        _ => {
            return Err(MessageError::InvalidMessageId("expected a HAVE message".to_owned()));
        },
    }
    if msg.payload.len() != 4 {
        return Err(MessageError::InvalidPayload("payload is not 4 bytes".to_owned()));
    }
    Ok(read_u32_be(msg.payload.as_slice(), 0))
}

/// The wire form of a message; `None` stands for a keep-alive.
pub fn serialize(msg: Option<Message>) -> (r: Vec<u8>)
    requires
        msg matches Some(m) ==> m.payload@.len() + 1 <= u32::MAX,
    ensures
        msg matches Some(m) ==> r@ == frame_bytes(m.id, m.payload@),
        msg is None ==> r@ == keep_alive_bytes(),
{
    match msg {
        None => {
            let mut buf: Vec<u8> = Vec::new();
            push_u32_be(&mut buf, 0);
            proof {
                lemma_be_zero();
            }
            assert(buf@ =~= keep_alive_bytes());
            buf
        },
        Some(m) => {
            let length = (m.payload.len() + 1) as u32;
            let mut buf: Vec<u8> = Vec::new();
            push_u32_be(&mut buf, length);
            buf.push(m.id.to_u8());
            push_all(&mut buf, m.payload.as_slice());
            assert(buf@ =~= frame_bytes(m.id, m.payload@));
            buf
        },
    }
}

/// Reads a frame whose four length bytes are `length_buf` and whose body is `message_buf`;
/// `None` for a keep-alive and for a kind that no id names.
pub fn read(length_buf: &[u8], message_buf: &[u8]) -> (r: Option<Message>)
    requires
        length_buf@.len() == 4,
        be_at(length_buf@, 0) <= message_buf@.len(),
    ensures
        r is Some == decode_frame(length_buf@, message_buf@) is Some,
        r matches Some(m) ==> decode_frame(length_buf@, message_buf@) == Some((m.id, m.payload@)),
{
    let length = read_u32_be(length_buf, 0);
    if length == 0 {
        return None;
    }
    let message_id = match MessageId::from_u8(message_buf[0]) {
        Some(id) => id,
        None => {
            return None;
        },
    };
    let payload = copy_range(message_buf, 1, length as usize);
    Some(Message { id: message_id, payload })
}

/// Zero is four zero bytes.
pub proof fn lemma_be_zero()
    ensures
        be_bytes(0) == keep_alive_bytes(),
{
    assert(((0u32 >> 24u32) & 0xffu32) as u8 == 0u8) by (bit_vector);
    assert(((0u32 >> 16u32) & 0xffu32) as u8 == 0u8) by (bit_vector);
    assert(((0u32 >> 8u32) & 0xffu32) as u8 == 0u8) by (bit_vector);
    assert((0u32 & 0xffu32) as u8 == 0u8) by (bit_vector);
    assert(be_bytes(0) =~= keep_alive_bytes());
}

/// Reading back the wire form of a message gives the same kind and body; the
/// keep-alive reads back as nothing to dispatch.
pub proof fn lemma_frame_round_trip(id: MessageId, payload: Seq<u8>)
    requires
        payload.len() + 1 <= u32::MAX,
    ensures
        ({
            let b = frame_bytes(id, payload);
            decode_frame(b.subrange(0, 4), b.subrange(4, b.len() as int)) == Some((id, payload))
        }),
        decode_frame(keep_alive_bytes(), Seq::empty()) is None,
{
    let b = frame_bytes(id, payload);
    let n = (payload.len() + 1) as u32;
    assert(b.subrange(0, 4) =~= be_bytes(n));
    assert(b.subrange(0, 4).subrange(0, 4) =~= b.subrange(0, 4));
    lemma_be_round_trip_at(b.subrange(0, 4), 0, n);
    let body = b.subrange(4, b.len() as int);
    assert(body[0] == id_byte(id));
    assert(body.subrange(1, n as int) =~= payload);
    lemma_be_zero();
    assert(keep_alive_bytes().subrange(0, 4) =~= keep_alive_bytes());
    lemma_be_round_trip_at(keep_alive_bytes(), 0, 0);
}

} // verus!
