use vstd::prelude::*;
use crate::bitfield::Bitfield;
use crate::peer::PeerAddr;
use crate::swarm::PieceWork;
use crate::utils::{block_size_spec, calculate_block_size};
use crate::bytes::be_bytes;
use crate::wire::{format_request, Message, MessageModel, PieceChunk, WriterRequest};

verus! {

/// What is known of a remote peer.
#[derive(Debug, Clone)]
pub struct PeerState {
    /// Whether the peer said it is interested in us.
    pub peer_interested: bool,
    /// The pieces the peer has.
    pub bitfield: Bitfield,
}

impl Default for PeerState {
    fn default() -> (r: PeerState)
        ensures
            r.peer_interested,
            r.bitfield.bytes@.len() == 0,
    {
        PeerState { peer_interested: true, bitfield: Bitfield::new(Vec::new()) }
    }
}

/// What the connection must do after a message from the peer has been taken in.
pub enum Reaction {
    /// Nothing more.
    Nothing,
    /// The peer unchoked us, which granted the requester a batch of request permits: wake it.
    Unchoked,
    /// The peer's bitfield changed: wake whoever waits for it to have something.
    BitfieldChanged,
    /// A block arrived, which granted the requester one permit: wake it, and hand the
    /// block to the piece table.
    Block(PieceChunk),
}

/// What the writer of a connection has to deal with next.
pub enum WriterEvent {
    /// A piece was verified somewhere in the swarm.
    Have(u32),
    /// A message was queued for this peer.
    Queued(WriterRequest),
    /// Nothing was sent for the idle period.
    Idle,
}

/// Number of request permits that an UNCHOKE grants.
pub const UNCHOKE_PERMITS: u32 = 128;

/// The protocol state of one connection that the reader keeps.
pub struct PeerHandler {
    pub peer: PeerAddr,
    /// Whether the peer chokes us; a new connection starts choked.
    pub choked: bool,
    /// Bytes of blocks received from this peer.
    pub downloaded: u64,
    pub state: PeerState,
    /// The requesting side, whose request permits the peer's messages grant.
    pub requester: Requester,
}

impl PeerHandler {
    /// The state of a fresh connection to `peer` for a torrent of `piece_count`
    /// pieces: choked, with a bitfield of one zero bit per piece, and a requester
    /// that waits for the bitfield and holds no permit.
    pub fn new(peer: PeerAddr, piece_count: u32) -> (r: PeerHandler)
        ensures
            r.peer == peer,
            r.choked,
            r.downloaded == 0,
            !r.state.peer_interested,
            r.state.bitfield.bytes@ == Seq::new((piece_count as nat + 7) / 8, |i: int| 0u8),
            forall|i: int| 0 <= i < piece_count ==> !r.state.bitfield.has(i) && i / 8
                < r.state.bitfield.bytes@.len(),
            r.requester.stage == RequesterStage::WaitBitfield,
            !r.requester.interested,
            r.requester.permits == 0,
            r.requester.wf(),
    {
        let bitfield = Bitfield::zeroed(piece_count);
        proof {
            crate::bitfield::lemma_zero_byte(0u8);
            assert forall|i: int| 0 <= i < piece_count implies !bitfield.has(i) && i / 8
                < bitfield.bytes@.len() by {
                assert(bitfield.bytes@[i / 8] == 0u8);
                assert(!crate::bitfield::bit_of(0u8, (7 - i % 8) as u8));
            }
        }
        PeerHandler {
            peer,
            choked: true,
            downloaded: 0,
            state: PeerState { peer_interested: false, bitfield },
            requester: Requester::new(),
        }
    }

    /// Whether a HAVE for piece `id` is worth sending: not when the peer has it already.
    pub fn should_transmit_have(&self, id: u32) -> (r: bool)
        ensures
            r == !self.state.bitfield.has(id as int),
    {
        !self.state.bitfield.has_piece(id as usize)
    }

    /// Takes in one message from the peer and says what must follow.
    pub fn on_received_message(&mut self, message: Message) -> (r: Reaction)
        ensures
            final(self).peer == old(self).peer,
            final(self).requester.stage == old(self).requester.stage,
            final(self).requester.interested == old(self).requester.interested,
            final(self).requester.piece == old(self).requester.piece,
            final(self).requester.offset == old(self).requester.offset,
            final(self).requester.wf() == old(self).requester.wf(),
            message@ is Unchoke ==> final(self).requester.permits == if old(self).requester.permits
                + UNCHOKE_PERMITS > u32::MAX {
                u32::MAX as int
            } else {
                old(self).requester.permits + UNCHOKE_PERMITS
            },
            message@ is Piece ==> final(self).requester.permits == if old(self).requester.permits + 1
                > u32::MAX {
                u32::MAX as int
            } else {
                old(self).requester.permits + 1
            },
            !(message@ is Unchoke || message@ is Piece) ==> final(self).requester.permits == old(
                self,
            ).requester.permits,
            match message@ {
                MessageModel::Choke => {
                    &&& final(self).choked
                    &&& r is Nothing
                    &&& final(self).state.bitfield == old(self).state.bitfield
                    &&& final(self).downloaded == old(self).downloaded
                },
                MessageModel::Unchoke => {
                    &&& !final(self).choked
                    &&& r is Unchoked
                    &&& final(self).state.bitfield == old(self).state.bitfield
                    &&& final(self).downloaded == old(self).downloaded
                },
                MessageModel::Interested => {
                    &&& final(self).state.peer_interested
                    &&& r is Nothing
                    &&& final(self).choked == old(self).choked
                    &&& final(self).state.bitfield == old(self).state.bitfield
                },
                MessageModel::NotInterested => {
                    &&& !final(self).state.peer_interested
                    &&& r is Nothing
                    &&& final(self).choked == old(self).choked
                    &&& final(self).state.bitfield == old(self).state.bitfield
                },
                MessageModel::Have(i) => {
                    &&& r is BitfieldChanged
                    &&& final(self).choked == old(self).choked
                    &&& final(self).state.bitfield.bytes@.len() == old(self).state.bitfield.bytes@.len()
                    &&& forall|j: int|
                        #![trigger final(self).state.bitfield.has(j)]
                        final(self).state.bitfield.has(j) == (old(self).state.bitfield.has(j) || (j
                            == i && i / 8 < old(self).state.bitfield.bytes@.len()))
                },
                MessageModel::Bitfield(b) => {
                    &&& r is BitfieldChanged
                    &&& final(self).choked == old(self).choked
                    &&& final(self).state.bitfield.bytes@ == b
                },
                MessageModel::Piece(index, start, length, data) => {
                    &&& (r matches Reaction::Block(c) && c.index == index && c.start == start
                        && c.length == length && c.data@ == data)
                    &&& final(self).choked == old(self).choked
                    &&& final(self).state.bitfield == old(self).state.bitfield
                    &&& final(self).downloaded == if old(self).downloaded + length > u64::MAX {
                        u64::MAX as int
                    } else {
                        old(self).downloaded + length
                    }
                },
                _ => {
                    &&& r is Nothing
                    &&& final(self).choked == old(self).choked
                    &&& final(self).state.bitfield == old(self).state.bitfield
                    &&& final(self).downloaded == old(self).downloaded
                },
            },
    {
        match message {
            Message::Choke => {
                self.choked = true;
                Reaction::Nothing
            },
            Message::Unchoke => {
                self.choked = false;
                self.requester.permits = self.requester.permits.saturating_add(UNCHOKE_PERMITS);
                Reaction::Unchoked
            },
            Message::Interested => {
                self.state.peer_interested = true;
                Reaction::Nothing
            },
            Message::NotInterested => {
                self.state.peer_interested = false;
                Reaction::Nothing
            },
            Message::Have(h) => {
                self.state.bitfield.set_piece(h as usize);
                Reaction::BitfieldChanged
            },
            Message::Bitfield(v) => {
                self.state.bitfield = Bitfield::new(v);
                Reaction::BitfieldChanged
            },
            Message::Piece(piece_chunk) => {
                self.downloaded = self.downloaded.saturating_add(piece_chunk.length as u64);
                self.requester.permits = self.requester.permits.saturating_add(1);
                Reaction::Block(piece_chunk)
            },
            _ => Reaction::Nothing,
        }
    }

    /// The message the writer sends for `event`, if any: a HAVE only to a peer
    /// that lacks the piece, a queued message as it is, and a keep-alive when idle.
    pub fn outbound(&self, event: WriterEvent) -> (r: Option<Message>)
        ensures
            event matches WriterEvent::Have(id) ==> (if self.state.bitfield.has(id as int) {
                r is None
            } else {
                (r matches Some(m) && m@ == MessageModel::Have(id))
            }),
            event matches WriterEvent::Queued(WriterRequest::Message(q)) ==> (r matches Some(m)
                && m@ == q@),
            event is Idle ==> (r matches Some(m) && m@ == MessageModel::KeepAlive),
    {
        match event {
            WriterEvent::Have(id) => {
                if self.should_transmit_have(id) {
                    Some(Message::Have(id))
                } else {
                    None
                }
            },
            WriterEvent::Queued(WriterRequest::Message(m)) => Some(m),
            WriterEvent::Idle => Some(Message::KeepAlive),
        }
    }
}

/// Where the requesting side of a connection stands.
#[derive(Debug, Clone, Copy, PartialEq, Eq, Structural)]
pub enum RequesterStage {
    /// The peer has not said yet which pieces it has.
    WaitBitfield,
    /// Tell the peer we are interested, if not done yet.
    UpdateInterest,
    /// Wait until the peer unchokes us.
    WaitUnchoke,
    /// Ask the piece table for a piece.
    Reserve,
    /// Request the blocks of the current piece.
    Requesting,
    /// Nothing is left to do with this peer.
    Terminated,
}

/// What the requesting side asks its connection to do next.
pub enum RequesterAction {
    /// Wait until the peer's bitfield changes.
    WaitBitfield,
    /// Send this message.
    Send(Message),
    /// Wait until the peer unchokes us.
    WaitUnchoke,
    /// Reserve a piece in the table and hand the answer to `on_reserved`.
    Reserve,
    /// Wait until the peer grants a request permit.
    WaitPermit,
    /// Send this REQUEST; it has used one permit.
    Request(Message),
    /// Stop: the connection is no longer needed.
    Stop,
}

/// The requesting side of a connection: its stage, whether we told the peer we
/// are interested, the piece being requested with the offset reached, and the
/// requests it may still send: each REQUEST uses one permit, each UNCHOKE grants
/// a batch and each block received grants one more.
pub struct Requester {
    pub stage: RequesterStage,
    pub interested: bool,
    pub piece: Option<PieceWork>,
    pub offset: u32,
    pub permits: u32,
}

impl Requester {
    /// The current piece, if requesting, has its offset within it.
    pub open spec fn wf(&self) -> bool {
        self.stage == RequesterStage::Requesting ==> (self.piece matches Some(p) && self.offset
            <= p.length)
    }

    /// Whether the next step passes through the interest update.
    pub open spec fn reaches_update_interest(&self, bitfield_empty: bool) -> bool {
        ||| self.stage == RequesterStage::UpdateInterest
        ||| (self.stage == RequesterStage::WaitBitfield && !bitfield_empty)
        ||| (self.stage == RequesterStage::Requesting && (self.piece matches Some(p) && self.offset
            >= p.length))
    }

    /// Whether the next step reaches the unchoke check without sending anything first.
    pub open spec fn reaches_wait_unchoke(&self, bitfield_empty: bool) -> bool {
        ||| self.stage == RequesterStage::WaitUnchoke
        ||| (self.reaches_update_interest(bitfield_empty) && self.interested)
    }

    /// Waiting for the peer's bitfield, not interested yet, with no piece.
    pub fn new() -> (r: Requester)
        ensures
            r.stage == RequesterStage::WaitBitfield,
            !r.interested,
            r.piece is None,
            r.offset == 0,
            r.permits == 0,
            r.wf(),
    {
        Requester {
            stage: RequesterStage::WaitBitfield,
            interested: false,
            piece: None,
            offset: 0,
            permits: 0,
        }
    }

    /// The next thing to do, given whether the peer's bitfield is empty and whether
    /// it chokes us. The stages follow one another: the bitfield, the interest
    /// (sent once), the unchoke, a reservation, the requests for each block of the
    /// piece, and back to the interest and the unchoke for the next piece. While it
    /// requests a piece, a choke sends it back to wait for an unchoke with the piece
    /// and offset kept, and it sends a REQUEST only with a permit in hand.
    pub fn next_action(&mut self, bitfield_empty: bool, choked: bool) -> (r: RequesterAction)
        requires
            old(self).wf(),
        ensures
            final(self).wf(),
            r is Request ==> old(self).permits > 0 && final(self).permits == old(self).permits - 1,
            !(r is Request) ==> final(self).permits == old(self).permits,
            old(self).stage == RequesterStage::Terminated ==> r is Stop && *final(self) == *old(self),
            old(self).stage == RequesterStage::Reserve ==> r is Reserve && *final(self) == *old(self),
            old(self).stage == RequesterStage::WaitBitfield && bitfield_empty ==> {
                &&& r is WaitBitfield
                &&& final(self).stage == RequesterStage::UpdateInterest
                &&& final(self).interested == old(self).interested
            },
            old(self).reaches_update_interest(bitfield_empty) && !old(self).interested ==> {
                &&& (r matches RequesterAction::Send(m) && m@ == MessageModel::Interested)
                &&& final(self).interested
                &&& final(self).stage == RequesterStage::WaitUnchoke
            },
            old(self).reaches_wait_unchoke(bitfield_empty) ==> {
                &&& final(self).stage == RequesterStage::Reserve
                &&& final(self).interested == old(self).interested
                &&& (if choked {
                    r is WaitUnchoke
                } else {
                    r is Reserve
                })
            },
            old(self).stage == RequesterStage::Requesting && old(self).piece is Some
                && old(self).offset < old(self).piece->Some_0.length && choked ==> r is WaitUnchoke
                && *final(self) == *old(self),
            old(self).stage == RequesterStage::Requesting && old(self).piece is Some
                && old(self).offset < old(self).piece->Some_0.length && !choked && old(self).permits
                == 0 ==> r is WaitPermit && *final(self) == *old(self),
            old(self).stage == RequesterStage::Requesting && old(self).piece is Some
                && old(self).offset < old(self).piece->Some_0.length && !choked && old(self).permits
                > 0 ==> {
                let p = old(self).piece->Some_0;
                let size = block_size_spec(p.length, old(self).offset);
                &&& (r matches RequesterAction::Request(m) && m@ == MessageModel::Request(
                    be_bytes(p.index) + be_bytes(old(self).offset) + be_bytes(size),
                ))
                &&& final(self).stage == RequesterStage::Requesting
                &&& final(self).piece == old(self).piece
                &&& final(self).offset == old(self).offset + size
            },
    {
        match self.stage {
            RequesterStage::Terminated => {
                return RequesterAction::Stop;
            },
            RequesterStage::Reserve => {
                return RequesterAction::Reserve;
            },
            RequesterStage::WaitBitfield => {
                self.stage = RequesterStage::UpdateInterest;
                if bitfield_empty {
                    return RequesterAction::WaitBitfield;
                }
            },
            RequesterStage::Requesting => {
                let unfinished = match self.piece {
                    Some(p) => self.offset < p.length,
                    None => false,
                };
                if unfinished {
                    if choked {
                        return RequesterAction::WaitUnchoke;
                    }
                    if self.permits == 0 {
                        return RequesterAction::WaitPermit;
                    }
                    self.permits = self.permits - 1;
                }
                match self.next_request() {
                    Some(m) => {
                        return RequesterAction::Request(m);
                    },
                    None => {
                        self.stage = RequesterStage::UpdateInterest;
                    },
                }
            },
            _ => {},
        }
        if self.stage == RequesterStage::UpdateInterest {
            self.stage = RequesterStage::WaitUnchoke;
            match self.update_interest(true) {
                Some(m) => {
                    return RequesterAction::Send(m);
                },
                None => {},
            }
        }
        self.stage = RequesterStage::Reserve;
        if choked {
            RequesterAction::WaitUnchoke
        } else {
            RequesterAction::Reserve
        }
    }

    /// Takes the piece table's answer to a reservation: requests the piece's blocks
    /// from its first byte, or stops when no piece is left.
    pub fn on_reserved(&mut self, piece: Option<PieceWork>)
        ensures
            final(self).wf(),
            final(self).interested == old(self).interested,
            final(self).permits == old(self).permits,
            piece is None ==> final(self).stage == RequesterStage::Terminated,
            piece matches Some(p) ==> {
                &&& final(self).stage == RequesterStage::Requesting
                &&& final(self).piece == Some(p)
                &&& final(self).offset == 0
            },
    {
        match piece {
            None => {
                self.stage = RequesterStage::Terminated;
            },
            Some(p) => {
                self.start_piece(p);
            },
        }
    }

    /// The message that brings the peer's view of our interest to `want`: none when
    /// it already matches, else INTERESTED or NOT_INTERESTED.
    pub fn update_interest(&mut self, want: bool) -> (r: Option<Message>)
        ensures
            final(self).interested == want,
            final(self).stage == old(self).stage,
            final(self).permits == old(self).permits,
            final(self).piece == old(self).piece,
            final(self).offset == old(self).offset,
            want == old(self).interested ==> r is None,
            want != old(self).interested ==> (r matches Some(m) && m@ == if want {
                MessageModel::Interested
            } else {
                MessageModel::NotInterested
            }),
    {
        if want == self.interested {
            return None;
        }
        self.interested = want;
        if want {
            Some(Message::Interested)
        } else {
            Some(Message::NotInterested)
        }
    }

    /// Starts requesting `piece` from its first byte.
    pub fn start_piece(&mut self, piece: PieceWork)
        ensures
            final(self).stage == RequesterStage::Requesting,
            final(self).piece == Some(piece),
            final(self).offset == 0,
            final(self).interested == old(self).interested,
            final(self).permits == old(self).permits,
    {
        self.stage = RequesterStage::Requesting;
        self.piece = Some(piece);
        self.offset = 0;
    }

    /// The REQUEST for the next block of the current piece, and the offset moves
    /// past it; `None` once the whole piece has been requested, or with no piece.
    pub fn next_request(&mut self) -> (r: Option<Message>)
        requires
            old(self).piece matches Some(p) ==> old(self).offset <= p.length,
        ensures
            final(self).stage == old(self).stage,
            final(self).piece == old(self).piece,
            final(self).interested == old(self).interested,
            final(self).permits == old(self).permits,
            old(self).piece is None ==> r is None && final(self).offset == old(self).offset,
            old(self).piece matches Some(p) ==> {
                &&& p.length == old(self).offset ==> r is None && final(self).offset == old(self).offset
                &&& old(self).offset < p.length ==> {
                    let size = block_size_spec(p.length, old(self).offset);
                    &&& (r matches Some(m) && m@ == MessageModel::Request(
                        be_bytes(p.index) + be_bytes(old(self).offset) + be_bytes(size),
                    ))
                    &&& final(self).offset == old(self).offset + size
                    &&& final(self).offset <= p.length
                    &&& size > 0
                }
            },
    {
        match self.piece {
            None => None,
            Some(p) => {
                if self.offset >= p.length {
                    return None;
                }
                let size = calculate_block_size(p.length, self.offset);
                let m = format_request(p.index, self.offset, size);
                self.offset = self.offset + size;
                Some(m)
            },
        }
    }
}

} // verus!
