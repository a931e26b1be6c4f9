use vstd::prelude::*;
use crate::bitfield::Bitfield;
use crate::bytes::be_bytes;
use crate::message::{format_request, parse_have, parse_piece, Message, MessageError, MessageId};
use crate::session::{PieceResult, State};
use crate::swarm::PieceWork;
use crate::utils::{block_size_spec, calculate_block_size, check_integrity, sha1_of};

verus! {

/// Why one peer could not deliver one piece.
#[derive(Debug, Clone, PartialEq)]
pub enum DownloadError {
    MessageError(MessageError),
    IntegrityError,
    ClientDoesNotHavePiece,
}

/// What a one-piece-at-a-time download keeps of its peer: whether it chokes us,
/// and the pieces it has.
pub struct ClientState {
    pub choked: bool,
    pub bitfield: Bitfield,
}

/// The (offset, size) of each block still to request from `offset` on.
pub open spec fn blocks_from(length: u32, offset: u32) -> Seq<(u32, u32)>
    decreases length - offset,
{
    if offset >= length {
        Seq::empty()
    } else {
        let size = block_size_spec(length, offset);
        if size == 0 {
            Seq::empty()
        } else {
            seq![(offset, size)] + blocks_from(length, (offset + size) as u32)
        }
    }
}

impl State {
    /// The state for downloading `pw` from `client`, refused up front when the
    /// peer does not have the piece.
    pub fn start(pw: &PieceWork, client: &ClientState) -> (r: Result<State, DownloadError>)
        ensures
            !client.bitfield.has(pw.index as int) ==> r == Err::<State, DownloadError>(
                DownloadError::ClientDoesNotHavePiece,
            ),
            client.bitfield.has(pw.index as int) ==> (r matches Ok(s) && s.requested == 0
                && s.downloaded == 0 && s.buf@ == Seq::new(pw.length as nat, |i: int| 0u8)),
    {
        if !client.bitfield.has_piece(pw.index as usize) {
            return Err(DownloadError::ClientDoesNotHavePiece);
        }
        Ok(State::new(pw.length))
    }

    /// Nothing requested or received yet, and a zeroed buffer of the piece's length.
    pub fn new(length: u32) -> (r: State)
        ensures
            r.requested == 0,
            r.downloaded == 0,
            r.buf@ == Seq::new(length as nat, |i: int| 0u8),
    {
        let mut buf: Vec<u8> = Vec::new();
        let mut i: u32 = 0;
        while i < length
            invariant
                i <= length,
                buf@ == Seq::new(i as nat, |k: int| 0u8),
            decreases length - i,
        {
            buf.push(0);
            i = i + 1;
            assert(buf@ =~= Seq::new(i as nat, |k: int| 0u8));
        }
        State { requested: 0, downloaded: 0, buf }
    }

    /// The REQUESTs for every block of `pw` not requested yet, in order; afterwards
    /// the whole piece counts as requested.
    pub fn pending_requests(&mut self, pw: &PieceWork) -> (r: Vec<Message>)
        requires
            old(self).requested <= pw.length,
        ensures
            final(self).requested == pw.length,
            final(self).downloaded == old(self).downloaded,
            final(self).buf@ == old(self).buf@,
            r@.len() == blocks_from(pw.length, old(self).requested).len(),
            forall|k: int|
                0 <= k < r@.len() ==> {
                    let (offset, size) = blocks_from(pw.length, old(self).requested)[k];
                    &&& (#[trigger] r@[k]).id == MessageId::MsgRequest
                    &&& r@[k].payload@ == be_bytes(pw.index) + be_bytes(offset) + be_bytes(size)
                },
    {
        let ghost start = self.requested;
        let mut r: Vec<Message> = Vec::new();
        while self.requested < pw.length
            invariant
                start <= self.requested <= pw.length,
                self.downloaded == old(self).downloaded,
                self.buf@ == old(self).buf@,
                r@.len() + blocks_from(pw.length, self.requested).len() == blocks_from(pw.length, start).len(),
                forall|k: int|
                    0 <= k < r@.len() ==> {
                        let (offset, size) = blocks_from(pw.length, start)[k];
                        &&& (#[trigger] r@[k]).id == MessageId::MsgRequest
                        &&& r@[k].payload@ == be_bytes(pw.index) + be_bytes(offset) + be_bytes(size)
                    },
                forall|k: int|
                    0 <= k < blocks_from(pw.length, self.requested).len() ==> blocks_from(pw.length, start)[r@.len() + k]
                        == #[trigger] blocks_from(pw.length, self.requested)[k],
            decreases pw.length - self.requested,
        {
            let size = calculate_block_size(pw.length, self.requested);
            let ghost rest = blocks_from(pw.length, self.requested);
            let ghost next = blocks_from(pw.length, (self.requested + size) as u32);
            assert(rest == seq![(self.requested, size)] + next);
            assert(rest[0] == (self.requested, size));
            assert(blocks_from(pw.length, start)[r@.len() + 0int] == rest[0]);
            r.push(format_request(pw.index, self.requested, size));
            self.requested = self.requested + size;
            assert forall|k: int| 0 <= k < next.len() implies blocks_from(pw.length, start)[r@.len() + k]
                == #[trigger] next[k] by {
                assert(rest[k + 1] == next[k]);
            }
        }
        r
    }

    /// Takes in one message while downloading piece `pw` from `client`: choke state,
    /// HAVE, and PIECE blocks, which are copied into the buffer and counted.
    pub fn on_message(&mut self, pw: &PieceWork, client: &mut ClientState, msg: Message) -> (r: Result<(), DownloadError>)
        requires
            old(self).buf@.len() == pw.length,
        ensures
            final(self).buf@.len() == pw.length,
            final(self).requested == old(self).requested,
            msg.id == MessageId::MsgChoke ==> r is Ok && final(client).choked,
            msg.id == MessageId::MsgUnchoke ==> r is Ok && !final(client).choked,
            msg.id == MessageId::MsgHave ==> (r is Ok <==> msg.payload@.len() == 4),
            msg.id == MessageId::MsgPiece ==> (r is Ok <==> {
                &&& msg.payload@.len() >= 8
                &&& crate::bytes::be_at(msg.payload@, 0) == pw.index
                &&& crate::bytes::be_at(msg.payload@, 4) + (msg.payload@.len() - 8) <= pw.length
            }),
            msg.id == MessageId::MsgPiece && r is Ok ==> final(self).downloaded == if old(self).downloaded
                + (msg.payload@.len() - 8) > u32::MAX {
                u32::MAX as int
            } else {
                old(self).downloaded + (msg.payload@.len() - 8)
            },
            msg.id != MessageId::MsgPiece ==> final(self).downloaded == old(self).downloaded
                && final(self).buf@ == old(self).buf@,
            msg.id == MessageId::MsgPiece && r is Ok ==> {
                let start = crate::bytes::be_at(msg.payload@, 4) as int;
                let n = msg.payload@.len() - 8;
                final(self).buf@ == old(self).buf@.subrange(0, start) + msg.payload@.subrange(
                    8,
                    msg.payload@.len() as int,
                ) + old(self).buf@.subrange(start + n, old(self).buf@.len() as int)
            },
            msg.id == MessageId::MsgPiece && r is Err ==> final(self).buf@ == old(self).buf@,
            msg.id == MessageId::MsgHave && r is Ok ==> {
                let index = crate::bytes::be_at(msg.payload@, 0) as int;
                &&& final(client).bitfield.bytes@.len() == old(client).bitfield.bytes@.len()
                &&& forall|j: int|
                    #![trigger final(client).bitfield.has(j)]
                    final(client).bitfield.has(j) == (old(client).bitfield.has(j) || (j == index
                        && index / 8 < old(client).bitfield.bytes@.len()))
            },
            msg.id != MessageId::MsgHave ==> final(client).bitfield == old(client).bitfield,
            final(client).choked != old(client).choked ==> (msg.id == MessageId::MsgChoke || msg.id
                == MessageId::MsgUnchoke),
            !(msg.id == MessageId::MsgChoke || msg.id == MessageId::MsgUnchoke || msg.id
                == MessageId::MsgHave || msg.id == MessageId::MsgPiece) ==> r is Ok
                && final(client).choked == old(client).choked,
            r matches Err(e) ==> e matches DownloadError::MessageError(_),
    {
        match msg.id {
            MessageId::MsgChoke => {
                client.choked = true;
                Ok(())
            },
            MessageId::MsgUnchoke => {
                client.choked = false;
                Ok(())
            },
            MessageId::MsgHave => {
                match parse_have(msg) {
                    Ok(index) => {
                        client.bitfield.set_piece(index as usize);
                        Ok(())
                    },
                    Err(e) => Err(DownloadError::MessageError(e)),
                }
            },
            MessageId::MsgPiece => {
                match parse_piece(pw.index, self.buf.as_mut_slice(), msg) {
                    Ok(n) => {
                        self.downloaded = self.downloaded.saturating_add(n as u32);
                        Ok(())
                    },
                    Err(e) => Err(DownloadError::MessageError(e)),
                }
            },
            _ => Ok(()),
        }
    }

    /// The piece once received: refused when the peer lacks it, and when its bytes
    /// do not hash to the piece's digest.
    pub fn finish(self, pw: &PieceWork, client: &ClientState) -> (r: Result<PieceResult, DownloadError>)
        requires
            self.buf@.len() == pw.length,
        ensures
            !client.bitfield.has(pw.index as int) ==> r == Err::<PieceResult, DownloadError>(
                DownloadError::ClientDoesNotHavePiece,
            ),
            client.bitfield.has(pw.index as int) ==> (r is Ok <==> sha1_of(self.buf@)
                == pw.hash@),
            client.bitfield.has(pw.index as int) && r is Err ==> r == Err::<PieceResult, DownloadError>(
                DownloadError::IntegrityError,
            ),
            r matches Ok(p) ==> p.index == pw.index && p.length == pw.length && p.buf@ == self.buf@,
    {
        if !client.bitfield.has_piece(pw.index as usize) {
            return Err(DownloadError::ClientDoesNotHavePiece);
        }
        if !check_integrity(&pw.hash, self.buf.as_slice()) {
            return Err(DownloadError::IntegrityError);
        }
        Ok(PieceResult { index: pw.index, length: pw.length, buf: self.buf })
    }
}

} // verus!
