use vstd::prelude::*;
use crate::bytes::{be_at, be_bytes, copy_range, lemma_be_round_trip_at, push_all, push_u32_be, read_u32_be};
use crate::message::{
    decode_frame, frame_bytes, keep_alive_bytes, lemma_be_zero, lemma_frame_round_trip, MessageError,
    MessageId,
};

verus! {

/// A block of a piece as it arrives in a PIECE message.
#[derive(Debug, Clone, PartialEq)]
pub struct PieceChunk {
    pub index: u32,
    pub start: u32,
    pub length: u32,
    pub data: Vec<u8>,
}

/// A block of a piece with its place in the piece.
pub struct PieceFull {
    pub index: u32,
    pub start: u32,
    pub length: u32,
    pub data: Vec<u8>,
}

/// A message of the peer wire protocol, decoded.
#[derive(Debug, Clone, PartialEq)]
pub enum Message {
    Choke,
    Unchoke,
    Interested,
    NotInterested,
    Have(u32),
    Bitfield(Vec<u8>),
    Request(Vec<u8>),
    Piece(PieceChunk),
    Cancel(Vec<u8>),
    Reject,
    HashRequest,
    Hashes(Vec<u8>),
    HashReject,
    KeepAlive,
}

/// What a writer task is asked to send.
#[derive(Debug)]
pub enum WriterRequest {
    Message(Message),
}

/// A frame split into its kind and its body, before decoding.
#[derive(Debug, Clone, PartialEq)]
pub struct MessageInner {
    pub id: MessageId,
    pub payload: Vec<u8>,
}

/// The value a message stands for, with byte strings as sequences.
pub enum MessageModel {
    Choke,
    Unchoke,
    Interested,
    NotInterested,
    Have(u32),
    Bitfield(Seq<u8>),
    Request(Seq<u8>),
    Piece(u32, u32, u32, Seq<u8>),
    Cancel(Seq<u8>),
    Reject,
    HashRequest,
    Hashes(Seq<u8>),
    HashReject,
    KeepAlive,
}

impl View for Message {
    type V = MessageModel;

    open spec fn view(&self) -> MessageModel {
        match self {
            Message::Choke => MessageModel::Choke,
            Message::Unchoke => MessageModel::Unchoke,
            Message::Interested => MessageModel::Interested,
            Message::NotInterested => MessageModel::NotInterested,
            Message::Have(i) => MessageModel::Have(*i),
            Message::Bitfield(p) => MessageModel::Bitfield(p@),
            Message::Request(p) => MessageModel::Request(p@),
            Message::Piece(c) => MessageModel::Piece(c.index, c.start, c.length, c.data@),
            Message::Cancel(p) => MessageModel::Cancel(p@),
            Message::Reject => MessageModel::Reject,
            Message::HashRequest => MessageModel::HashRequest,
            Message::Hashes(p) => MessageModel::Hashes(p@),
            Message::HashReject => MessageModel::HashReject,
            Message::KeepAlive => MessageModel::KeepAlive,
        }
    }
}

/// The kind of a message other than the keep-alive.
pub open spec fn kind_of(m: MessageModel) -> MessageId {
    match m {
        MessageModel::Choke => MessageId::MsgChoke,
        MessageModel::Unchoke => MessageId::MsgUnchoke,
        MessageModel::Interested => MessageId::MsgInterested,
        MessageModel::NotInterested => MessageId::MsgNotInterested,
        MessageModel::Have(_) => MessageId::MsgHave,
        MessageModel::Bitfield(_) => MessageId::MsgBitfield,
        MessageModel::Request(_) => MessageId::MsgRequest,
        MessageModel::Piece(..) => MessageId::MsgPiece,
        MessageModel::Cancel(_) => MessageId::MsgCancel,
        MessageModel::Reject => MessageId::MsgReject,
        MessageModel::HashRequest => MessageId::MsgHashRequest,
        MessageModel::Hashes(_) => MessageId::MsgHashes,
        MessageModel::HashReject | MessageModel::KeepAlive => MessageId::MsgHashReject,
    }
}

/// The body that follows the kind's byte.
pub open spec fn body_of(m: MessageModel) -> Seq<u8> {
    match m {
        MessageModel::Have(i) => be_bytes(i),
        MessageModel::Bitfield(p) => p,
        MessageModel::Request(p) => p,
        MessageModel::Piece(index, start, _, data) => be_bytes(index) + be_bytes(start) + data,
        MessageModel::Cancel(p) => p,
        MessageModel::Hashes(p) => p,
        _ => Seq::empty(),
    }
}

/// The wire form of a message.
pub open spec fn encode(m: MessageModel) -> Seq<u8> {
    match m {
        MessageModel::KeepAlive => keep_alive_bytes(),
        _ => frame_bytes(kind_of(m), body_of(m)),
    }
}

/// A message that can be sent as it stands: a REQUEST or CANCEL body is three
/// numbers, a PIECE's length is that of its data, and the frame's length fits.
pub open spec fn well_formed(m: MessageModel) -> bool {
    &&& body_of(m).len() + 1 <= u32::MAX
    &&& match m {
        MessageModel::Request(p) => p.len() == 12,
        MessageModel::Cancel(p) => p.len() == 12,
        MessageModel::Piece(_, _, length, data) => length == data.len(),
        _ => true,
    }
}

/// The message that a body of kind `id` holds; `None` where the body is too short.
pub open spec fn decode_body(id: MessageId, p: Seq<u8>) -> Option<MessageModel> {
    match id {
        MessageId::MsgChoke => Some(MessageModel::Choke),
        MessageId::MsgUnchoke => Some(MessageModel::Unchoke),
        MessageId::MsgInterested => Some(MessageModel::Interested),
        MessageId::MsgNotInterested => Some(MessageModel::NotInterested),
        MessageId::MsgHave => if p.len() >= 4 {
            Some(MessageModel::Have(be_at(p, 0)))
        } else {
            None
        },
        MessageId::MsgBitfield => Some(MessageModel::Bitfield(p)),
        MessageId::MsgRequest => if p.len() >= 12 {
            Some(MessageModel::Request(p.subrange(0, 12)))
        } else {
            None
        },
        MessageId::MsgPiece => if p.len() >= 8 {
            Some(
                MessageModel::Piece(
                    be_at(p, 0),
                    be_at(p, 4),
                    (p.len() - 8) as u32,
                    p.subrange(8, p.len() as int),
                ),
            )
        } else {
            None
        },
        MessageId::MsgCancel => if p.len() >= 12 {
            Some(MessageModel::Cancel(p.subrange(0, 12)))
        } else {
            None
        },
        MessageId::MsgReject => Some(MessageModel::Reject),
        MessageId::MsgHashRequest => Some(MessageModel::HashRequest),
        MessageId::MsgHashes => Some(MessageModel::Hashes(p)),
        MessageId::MsgHashReject => Some(MessageModel::HashReject),
    }
}

/// What reading a frame gives: `None` for a malformed body, `Some(None)` for a kind
/// that no id names, which is dropped, and `Some(Some(m))` for a message.
pub open spec fn decode(length_buf: Seq<u8>, message_buf: Seq<u8>) -> Option<Option<MessageModel>> {
    if be_at(length_buf, 0) == 0 {
        Some(Some(MessageModel::KeepAlive))
    } else {
        match decode_frame(length_buf, message_buf) {
            None => Some(None),
            Some((id, p)) => match decode_body(id, p) {
                None => None,
                Some(m) => Some(Some(m)),
            },
        }
    }
}

impl MessageInner {
    /// The message this frame holds, or `InvalidPayload` where its body is too short.
    pub fn into_message(self) -> (r: Result<Message, MessageError>)
        ensures
            r is Ok <==> decode_body(self.id, self.payload@) is Some,
            r matches Ok(m) ==> decode_body(self.id, self.payload@) == Some(m@),
            r matches Err(e) ==> e matches MessageError::InvalidPayload(_),
    {
        let n = self.payload.len();
        match self.id {
            MessageId::MsgChoke => Ok(Message::Choke),
            MessageId::MsgUnchoke => Ok(Message::Unchoke),
            MessageId::MsgInterested => Ok(Message::Interested),
            MessageId::MsgNotInterested => Ok(Message::NotInterested),
            MessageId::MsgHave => {
                if n < 4 {
                    return Err(MessageError::InvalidPayload("HAVE body shorter than 4 bytes".to_owned()));
                }
                Ok(Message::Have(read_u32_be(self.payload.as_slice(), 0)))
            },
            MessageId::MsgBitfield => Ok(Message::Bitfield(self.payload)),
            MessageId::MsgRequest => {
                if n < 12 {
                    return Err(MessageError::InvalidPayload("REQUEST body shorter than 12 bytes".to_owned()));
                }
                Ok(Message::Request(copy_range(self.payload.as_slice(), 0, 12)))
            },
            MessageId::MsgPiece => {
                if n < 8 {
                    return Err(MessageError::InvalidPayload("PIECE body shorter than 8 bytes".to_owned()));
                }
                let index = read_u32_be(self.payload.as_slice(), 0);
                let start = read_u32_be(self.payload.as_slice(), 4);
                let data = copy_range(self.payload.as_slice(), 8, n);
                #[verifier::truncate]
                let length = (n - 8) as u32;
                Ok(Message::Piece(PieceChunk { index, start, length, data }))
            },
            MessageId::MsgCancel => {
                if n < 12 {
                    return Err(MessageError::InvalidPayload("CANCEL body shorter than 12 bytes".to_owned()));
                }
                Ok(Message::Cancel(copy_range(self.payload.as_slice(), 0, 12)))
            },
            MessageId::MsgReject => Ok(Message::Reject),
            MessageId::MsgHashRequest => Ok(Message::HashRequest),
            MessageId::MsgHashes => Ok(Message::Hashes(self.payload)),
            MessageId::MsgHashReject => Ok(Message::HashReject),
        }
    }
}

/// A REQUEST for `length` bytes at `start` of piece `index`.
pub fn format_request(index: u32, start: u32, length: u32) -> (r: Message)
    ensures
        r@ == MessageModel::Request(be_bytes(index) + be_bytes(start) + be_bytes(length)),
        well_formed(r@),
{
    let mut payload: Vec<u8> = Vec::new();
    push_u32_be(&mut payload, index);
    push_u32_be(&mut payload, start);
    push_u32_be(&mut payload, length);
    assert(payload@ =~= be_bytes(index) + be_bytes(start) + be_bytes(length));
    Message::Request(payload)
}

/// A HAVE for piece `index`.
pub fn format_have(index: u32) -> (r: Message)
    ensures
        r@ == MessageModel::Have(index),
{
    Message::Have(index)
}

/// The wire form of a message; nothing for `None`.
pub fn serialize(msg: Option<Message>) -> (r: Vec<u8>)
    requires
        msg matches Some(m) ==> body_of(m@).len() + 1 <= u32::MAX,
    ensures
        msg matches Some(m) ==> r@ == encode(m@),
        msg is None ==> r@.len() == 0,
{
    match msg {
        None => Vec::new(),
        Some(m) => {
            let ghost model = m@;
            let (id, payload) = match m {
                Message::Choke => (MessageId::MsgChoke, Vec::new()),
                Message::Unchoke => (MessageId::MsgUnchoke, Vec::new()),
                Message::Interested => (MessageId::MsgInterested, Vec::new()),
                Message::NotInterested => (MessageId::MsgNotInterested, Vec::new()),
                Message::Have(index) => {
                    let mut p: Vec<u8> = Vec::new();
                    push_u32_be(&mut p, index);
                    assert(p@ =~= be_bytes(index));
                    (MessageId::MsgHave, p)
                },
                Message::Bitfield(payload) => (MessageId::MsgBitfield, payload),
                Message::Request(payload) => (MessageId::MsgRequest, payload),
                Message::Piece(piece) => {
                    let mut p: Vec<u8> = Vec::new();
                    push_u32_be(&mut p, piece.index);
                    push_u32_be(&mut p, piece.start);
                    push_all(&mut p, piece.data.as_slice());
                    (MessageId::MsgPiece, p)
                },
                Message::Cancel(payload) => (MessageId::MsgCancel, payload),
                Message::Reject => (MessageId::MsgReject, Vec::new()),
                Message::HashRequest => (MessageId::MsgHashRequest, Vec::new()),
                Message::Hashes(payload) => (MessageId::MsgHashes, payload),
                Message::HashReject => (MessageId::MsgHashReject, Vec::new()),
                Message::KeepAlive => {
                    let mut buf: Vec<u8> = Vec::new();
                    push_u32_be(&mut buf, 0);
                    proof {
                        lemma_be_zero();
                    }
                    assert(buf@ =~= keep_alive_bytes());
                    return buf;
                },
            };
            assert(id == kind_of(model));
            assert(payload@ =~= body_of(model));
            let length = (payload.len() + 1) as u32;
            let mut buf: Vec<u8> = Vec::new();
            push_u32_be(&mut buf, length);
            buf.push(id.to_u8());
            push_all(&mut buf, payload.as_slice());
            assert(buf@ =~= frame_bytes(id, payload@));
            buf
        },
    }
}

/// Reads a frame whose four length bytes are `length_buf` and whose body is
/// `message_buf`. A length of zero is a keep-alive; a kind that no id names gives
/// `Ok(None)`, to be dropped; a body too short for its kind is an error.
pub fn read(length_buf: &[u8], message_buf: &[u8]) -> (r: Result<Option<Message>, MessageError>)
    requires
        length_buf@.len() == 4,
        be_at(length_buf@, 0) <= message_buf@.len(),
    ensures
        r is Err <==> decode(length_buf@, message_buf@) is None,
        r matches Ok(None) ==> decode(length_buf@, message_buf@) == Some(None::<MessageModel>),
        r matches Ok(Some(m)) ==> decode(length_buf@, message_buf@) == Some(Some(m@)),
{
    let length = read_u32_be(length_buf, 0);
    if length == 0 {
        return Ok(Some(Message::KeepAlive));
    }
    let id = match MessageId::from_u8(message_buf[0]) {
        Some(id) => id,
        None => {
            return Ok(None);
        },
    };
    let payload = copy_range(message_buf, 1, length as usize);
    match (MessageInner { id, payload }).into_message() {
        Ok(m) => Ok(Some(m)),
        Err(e) => Err(e),
    }
}

/// Reading back the wire form of a well-formed message gives the message itself;
/// this holds of the keep-alive too.
pub proof fn lemma_message_round_trip(m: MessageModel)
    requires
        well_formed(m),
    ensures
        ({
            let b = encode(m);
            decode(b.subrange(0, 4), b.subrange(4, b.len() as int)) == Some(Some(m))
        }),
{
    let b = encode(m);
    match m {
        MessageModel::KeepAlive => {
            lemma_be_zero();
            assert(b.subrange(0, 4) =~= be_bytes(0));
            assert(b.subrange(0, 4).subrange(0, 4) =~= be_bytes(0));
            lemma_be_round_trip_at(b.subrange(0, 4), 0, 0);
        },
        _ => {
            let id = kind_of(m);
            let p = body_of(m);
            lemma_frame_round_trip(id, p);
            let n = (p.len() + 1) as u32;
            assert(b.subrange(0, 4) =~= be_bytes(n));
            assert(b.subrange(0, 4).subrange(0, 4) =~= be_bytes(n));
            lemma_be_round_trip_at(b.subrange(0, 4), 0, n);
            assert(n != 0);
            match m {
                MessageModel::Have(i) => {
                    assert(p.subrange(0, 4) =~= be_bytes(i));
                    lemma_be_round_trip_at(p, 0, i);
                },
                MessageModel::Request(q) => {
                    assert(q.subrange(0, 12) =~= q);
                },
                MessageModel::Cancel(q) => {
                    assert(q.subrange(0, 12) =~= q);
                },
                MessageModel::Piece(index, start, length, data) => {
                    assert(p.subrange(0, 4) =~= be_bytes(index));
                    assert(p.subrange(4, 8) =~= be_bytes(start));
                    lemma_be_round_trip_at(p, 0, index);
                    lemma_be_round_trip_at(p, 4, start);
                    assert(p.subrange(8, p.len() as int) =~= data);
                },
                _ => {},
            }
        },
    }
}

} // verus!
