use vstd::prelude::*;
use crate::peer::PeerAddr;
use crate::utils::{check_integrity, sha1_of};

verus! {

/// A piece to download: its index, its length and the digest it must hash to.
#[derive(Debug, Clone, Copy, PartialEq, Eq)]
pub struct PieceWork {
    pub index: u32,
    pub length: u32,
    pub hash: [u8; 20],
}

/// A block received for a piece.
#[derive(Debug, Clone)]
pub struct Chunk {
    pub index: u32,
    pub start: u32,
    pub length: u32,
    pub buf: Vec<u8>,
}

/// A verified piece, ready for the sink.
#[derive(Debug, Clone)]
pub struct FullPiece {
    pub index: u32,
    pub length: u32,
    pub buf: Vec<u8>,
}

/// Received blocks as (offset, bytes) pairs.
pub type Blocks = Seq<(u32, Seq<u8>)>;

/// Number of bytes the blocks hold together.
pub open spec fn total_len(bs: Blocks) -> nat
    decreases bs.len(),
{
    if bs.len() == 0 {
        0
    } else {
        total_len(bs.drop_last()) + bs.last().1.len()
    }
}

/// The blocks' bytes one after the other.
pub open spec fn concat(bs: Blocks) -> Seq<u8>
    decreases bs.len(),
{
    if bs.len() == 0 {
        Seq::empty()
    } else {
        concat(bs.drop_last()) + bs.last().1
    }
}

/// The offsets increase strictly from one block to the next.
pub open spec fn strictly_sorted(bs: Blocks) -> bool {
    forall|i: int, j: int| 0 <= i < j < bs.len() ==> bs[i].0 < bs[j].0
}

/// Index of the first block whose offset is not below `start`.
pub open spec fn insert_pos(bs: Blocks, start: u32) -> nat
    decreases bs.len(),
{
    if bs.len() == 0 {
        0
    } else if bs[0].0 >= start {
        0
    } else {
        1 + insert_pos(bs.drop_first(), start)
    }
}

/// The blocks after a block arrives: a block at an offset already held replaces
/// the one there (the later wins), any other goes in its place by offset.
pub open spec fn insert_block(bs: Blocks, start: u32, data: Seq<u8>) -> Blocks {
    let p = insert_pos(bs, start) as int;
    if p < bs.len() && bs[p].0 == start {
        bs.update(p, (start, data))
    } else {
        bs.insert(p, (start, data))
    }
}

/// `insert_pos` is the first index whose offset is not below `start`.
pub proof fn lemma_insert_pos(bs: Blocks, start: u32, p: int)
    requires
        0 <= p <= bs.len(),
        forall|k: int| 0 <= k < p ==> bs[k].0 < start,
        p < bs.len() ==> bs[p].0 >= start,
    ensures
        insert_pos(bs, start) == p,
    decreases bs.len(),
{
    if bs.len() > 0 && p > 0 {
        lemma_insert_pos(bs.drop_first(), start, p - 1);
    }
}

/// The total of the first `k + 1` blocks adds the `k`-th block to that of the first `k`.
pub proof fn lemma_prefix_step(bs: Blocks, k: int)
    requires
        0 <= k < bs.len(),
    ensures
        total_len(bs.subrange(0, k + 1)) == total_len(bs.subrange(0, k)) + bs[k].1.len(),
        concat(bs.subrange(0, k + 1)) == concat(bs.subrange(0, k)) + bs[k].1,
{
    assert(bs.subrange(0, k + 1).drop_last() =~= bs.subrange(0, k));
}

/// No prefix holds more bytes than the whole.
pub proof fn lemma_prefix_total(bs: Blocks, k: int)
    requires
        0 <= k <= bs.len(),
    ensures
        total_len(bs.subrange(0, k)) <= total_len(bs),
    decreases bs.len() - k,
{
    if k < bs.len() {
        lemma_prefix_step(bs, k);
        lemma_prefix_total(bs, k + 1);
    } else {
        assert(bs.subrange(0, k) =~= bs);
    }
}

/// The blocks' bytes number their total.
pub proof fn lemma_concat_len(bs: Blocks)
    ensures
        concat(bs).len() == total_len(bs),
    decreases bs.len(),
{
    if bs.len() > 0 {
        lemma_concat_len(bs.drop_last());
    }
}

/// Putting a block in at position `p` adds its bytes to the total.
pub proof fn lemma_total_insert(bs: Blocks, p: int, x: (u32, Seq<u8>))
    requires
        0 <= p <= bs.len(),
    ensures
        total_len(bs.insert(p, x)) == total_len(bs) + x.1.len(),
    decreases bs.len(),
{
    if p == bs.len() {
        assert(bs.insert(p, x).drop_last() =~= bs);
    } else {
        assert(bs.insert(p, x).drop_last() =~= bs.drop_last().insert(p, x));
        lemma_total_insert(bs.drop_last(), p, x);
    }
}

/// Replacing the block at position `p` trades its bytes for the new block's.
pub proof fn lemma_total_update(bs: Blocks, p: int, x: (u32, Seq<u8>))
    requires
        0 <= p < bs.len(),
    ensures
        total_len(bs.update(p, x)) + bs[p].1.len() == total_len(bs) + x.1.len(),
    decreases bs.len(),
{
    if p == bs.len() - 1 {
        assert(bs.update(p, x).drop_last() =~= bs.drop_last());
    } else {
        assert(bs.update(p, x).drop_last() =~= bs.drop_last().update(p, x));
        lemma_total_update(bs.drop_last(), p, x);
    }
}

/// The state of one piece: what has arrived, whether it is verified, who reserved it.
pub struct PieceWorkState {
    pub piece_work: PieceWork,
    pub chunks: Vec<Chunk>,
    pub downloaded: bool,
    pub reserved: Option<PeerAddr>,
}

impl PieceWorkState {
    /// The received blocks as (offset, bytes) pairs, in the order held.
    pub open spec fn blocks(&self) -> Blocks {
        self.chunks@.map_values(|c: Chunk| (c.start, c.buf@))
    }

    /// The blocks fill the piece exactly and their bytes hash to its digest.
    pub open spec fn is_verified(&self) -> bool {
        &&& total_len(self.blocks()) == self.piece_work.length
        &&& sha1_of(concat(self.blocks())) == self.piece_work.hash@
    }

    /// Every block lies inside the piece and says its own length, the offsets
    /// increase, the blocks hold no more than the piece, and a piece marked
    /// downloaded is verified.
    pub open spec fn wf(&self) -> bool {
        &&& forall|k: int|
            0 <= k < self.chunks@.len() ==> {
                let c = #[trigger] self.chunks@[k];
                &&& c.length == c.buf@.len()
                &&& c.index == self.piece_work.index
                &&& c.start + c.buf@.len() <= self.piece_work.length
            }
        &&& strictly_sorted(self.blocks())
        &&& total_len(self.blocks()) <= self.piece_work.length
        &&& self.downloaded ==> self.is_verified()
    }

    /// A slot with nothing received, not downloaded and not reserved.
    pub fn new(piece_work: PieceWork) -> (r: PieceWorkState)
        ensures
            r.piece_work == piece_work,
            r.chunks@.len() == 0,
            !r.downloaded,
            r.reserved is None,
            r.wf(),
    {
        let r = PieceWorkState { piece_work, chunks: Vec::new(), downloaded: false, reserved: None };
        assert(r.blocks() =~= Seq::empty());
        r
    }

    /// Number of bytes received.
    pub fn received(&self) -> (r: u32)
        requires
            self.wf(),
        ensures
            r == total_len(self.blocks()),
    {
        let mut total: u32 = 0;
        let mut k: usize = 0;
        while k < self.chunks.len()
            invariant
                self.wf(),
                k <= self.chunks@.len(),
                total == total_len(self.blocks().subrange(0, k as int)),
            decreases self.chunks@.len() - k,
        {
            proof {
                lemma_prefix_step(self.blocks(), k as int);
                lemma_prefix_total(self.blocks(), k + 1);
            }
            total = total + self.chunks[k].length;
            k = k + 1;
        }
        assert(self.blocks().subrange(0, k as int) =~= self.blocks());
        total
    }

    /// The piece's bytes: the blocks one after the other, in order of their offsets.
    pub fn chunk_to_buf(&self) -> (r: Vec<u8>)
        requires
            self.wf(),
        ensures
            r@ == concat(self.blocks()),
    {
        let mut buf: Vec<u8> = Vec::new();
        let mut k: usize = 0;
        while k < self.chunks.len()
            invariant
                self.wf(),
                k <= self.chunks@.len(),
                buf@ == concat(self.blocks().subrange(0, k as int)),
            decreases self.chunks@.len() - k,
        {
            proof {
                lemma_prefix_step(self.blocks(), k as int);
            }
            crate::bytes::push_all(&mut buf, self.chunks[k].buf.as_slice());
            k = k + 1;
        }
        assert(self.blocks().subrange(0, k as int) =~= self.blocks());
        buf
    }

    /// Marks the piece downloaded when its blocks fill it and hash to its digest.
    pub fn set_downloaded(&mut self)
        requires
            old(self).wf(),
        ensures
            final(self).wf(),
            final(self).downloaded == (old(self).downloaded || old(self).is_verified()),
            final(self).chunks@ == old(self).chunks@,
            final(self).piece_work == old(self).piece_work,
            final(self).reserved == old(self).reserved,
    {
        if self.received() == self.piece_work.length {
            let buf = self.chunk_to_buf();
            proof {
                lemma_concat_len(self.blocks());
            }
            if check_integrity(&self.piece_work.hash, buf.as_slice()) {
                self.downloaded = true;
            }
        }
    }

    /// Takes in a block at offset `start`. It is refused when the piece is already
    /// downloaded, when it runs past the end of the piece, or when the blocks would
    /// then hold more bytes than the piece.
    pub fn add_chunk(&mut self, start: u32, buf: Vec<u8>) -> (r: bool)
        requires
            old(self).wf(),
        ensures
            final(self).wf(),
            final(self).piece_work == old(self).piece_work,
            final(self).downloaded == old(self).downloaded,
            final(self).reserved == old(self).reserved,
            r == {
                &&& !old(self).downloaded
                &&& start + buf@.len() <= old(self).piece_work.length
                &&& total_len(insert_block(old(self).blocks(), start, buf@))
                    <= old(self).piece_work.length
            },
            r ==> final(self).blocks() == insert_block(old(self).blocks(), start, buf@),
            !r ==> final(self).chunks@ == old(self).chunks@,
    {
        if self.downloaded {
            return false;
        }
        let n = buf.len();
        let length = self.piece_work.length;
        if n > length as usize || start > length - n as u32 {
            return false;
        }
        let ghost bs = self.blocks();
        let received = self.received();
        let len = self.chunks.len();
        let mut p: usize = 0;
        while p < len && self.chunks[p].start < start
            invariant
                p <= len,
                len == self.chunks@.len(),
                bs == self.blocks(),
                forall|k: int| 0 <= k < p ==> bs[k].0 < start,
            decreases len - p,
        {
            p = p + 1;
        }
        proof {
            lemma_insert_pos(bs, start, p as int);
        }
        let replaced = p < len && self.chunks[p].start == start;
        let chunk = Chunk { index: self.piece_work.index, start, length: n as u32, buf };
        let ghost x = (start, chunk.buf@);
        if replaced {
            proof {
                lemma_total_update(bs, p as int, x);
                lemma_total_update(bs, p as int, (start, Seq::empty()));
            }
            let old_len = self.chunks[p].length;
            if received - old_len > length - n as u32 {
                return false;
            }
            self.chunks.set(p, chunk);
            assert(self.blocks() =~= bs.update(p as int, x));
        } else {
            proof {
                lemma_total_insert(bs, p as int, x);
            }
            if received > length - n as u32 {
                return false;
            }
            self.chunks.insert(p, chunk);
            assert(self.blocks() =~= bs.insert(p as int, x));
        }
        proof {
            let nb = self.blocks();
            assert forall|i: int, j: int| 0 <= i < j < nb.len() implies nb[i].0 < nb[j].0 by {
                if !replaced {
                    if p < len {
                        assert(bs[p as int].0 > start);
                    }
                }
            }
        }
        true
    }

    /// Forgets what was received and releases the slot.
    pub fn clear(&mut self)
        requires
            old(self).wf(),
        ensures
            final(self).wf(),
            final(self).piece_work == old(self).piece_work,
            final(self).chunks@.len() == 0,
            !final(self).downloaded,
            final(self).reserved is None,
    {
        self.chunks.clear();
        self.downloaded = false;
        self.reserved = None;
        assert(self.blocks() =~= Seq::empty());
    }
}

/// A slot that can be reserved: not downloaded and reserved by nobody.
pub open spec fn is_free(s: PieceWorkState) -> bool {
    !s.downloaded && s.reserved is None
}

/// A slot whose next completion check hands the piece out: not yet downloaded,
/// and its blocks fill it and hash to its digest.
pub open spec fn delivers(s: PieceWorkState) -> bool {
    !s.downloaded && s.is_verified()
}

/// A slot reserved by a peer is not free: no other peer can reserve it until it
/// is released.
pub proof fn lemma_reserved_slot_not_free(s: PieceWorkState)
    ensures
        s.reserved is Some ==> !is_free(s),
{
}

/// A piece that has been handed out is marked downloaded, and a downloaded piece
/// is not handed out again, whatever its reservation.
pub proof fn lemma_delivered_once(s: PieceWorkState, r: Option<PeerAddr>)
    ensures
        !delivers(PieceWorkState { downloaded: true, reserved: None, ..s }),
        s.downloaded ==> !delivers(s) && !delivers(PieceWorkState { reserved: r, ..s }),
{
}

/// The same slot with another reservation.
pub open spec fn with_reserved(s: PieceWorkState, r: Option<PeerAddr>) -> PieceWorkState {
    PieceWorkState { reserved: r, ..s }
}

/// Pushing `x` or not, on a list of numbers below `x`: which numbers it holds.
proof fn lemma_push_if_contains(before: Seq<u32>, after: Seq<u32>, x: u32, pushed: bool)
    requires
        forall|k: int| 0 <= k < before.len() ==> before[k] < x,
        pushed ==> after == before.push(x),
        !pushed ==> after == before,
    ensures
        forall|j: u32| j < x ==> (after.contains(j) <==> before.contains(j)),
        after.contains(x) == pushed,
        forall|k: int| 0 <= k < after.len() ==> after[k] <= x,
{
    if pushed {
        assert(after[after.len() - 1] == x);
        assert forall|j: u32| j < x implies (after.contains(j) <==> before.contains(j)) by {
            if after.contains(j) {
                let k = choose|k: int| 0 <= k < after.len() && after[k] == j;
                assert(k < before.len());
                assert(before[k] == j);
            }
            if before.contains(j) {
                let k = choose|k: int| 0 <= k < before.len() && before[k] == j;
                assert(after[k] == j);
            }
        }
    } else {
        if after.contains(x) {
            let k = choose|k: int| 0 <= k < after.len() && after[k] == x;
            assert(before[k] < x);
        }
    }
}

/// The table of all pieces of the torrent, indexed by piece index.
pub struct TorrentDownloadedState {
    pub pieces: Vec<PieceWorkState>,
}

impl TorrentDownloadedState {
    /// Every slot is well formed and sits at its own index.
    pub open spec fn wf(&self) -> bool {
        &&& self.pieces@.len() <= u32::MAX
        &&& forall|i: int|
            0 <= i < self.pieces@.len() ==> {
                &&& (#[trigger] self.pieces@[i]).wf()
                &&& self.pieces@[i].piece_work.index == i
            }
    }

    /// A table of fresh slots, one per piece of work, in index order.
    pub fn new(pieces_of_work: Vec<PieceWork>) -> (r: TorrentDownloadedState)
        requires
            pieces_of_work@.len() <= u32::MAX,
            forall|i: int| 0 <= i < pieces_of_work@.len() ==> #[trigger] pieces_of_work@[i].index == i,
        ensures
            r.wf(),
            r.pieces@.len() == pieces_of_work@.len(),
            forall|i: int|
                0 <= i < r.pieces@.len() ==> {
                    &&& (#[trigger] r.pieces@[i]).piece_work == pieces_of_work@[i]
                    &&& r.pieces@[i].chunks@.len() == 0
                    &&& !r.pieces@[i].downloaded
                    &&& r.pieces@[i].reserved is None
                },
    {
        let mut pieces: Vec<PieceWorkState> = Vec::new();
        let mut i: usize = 0;
        while i < pieces_of_work.len()
            invariant
                i <= pieces_of_work@.len() <= u32::MAX,
                pieces@.len() == i,
                forall|j: int| 0 <= j < pieces_of_work@.len() ==> #[trigger] pieces_of_work@[j].index == j,
                forall|j: int|
                    0 <= j < i ==> {
                        &&& (#[trigger] pieces@[j]).wf()
                        &&& pieces@[j].piece_work == pieces_of_work@[j]
                        &&& pieces@[j].chunks@.len() == 0
                        &&& !pieces@[j].downloaded
                        &&& pieces@[j].reserved is None
                    },
            decreases pieces_of_work@.len() - i,
        {
            pieces.push(PieceWorkState::new(pieces_of_work[i]));
            i = i + 1;
        }
        TorrentDownloadedState { pieces }
    }

    /// Whether every piece is downloaded.
    pub fn is_complete(&self) -> (r: bool)
        ensures
            r == (forall|i: int| 0 <= i < self.pieces@.len() ==> (#[trigger] self.pieces@[i]).downloaded),
    {
        let mut i: usize = 0;
        while i < self.pieces.len()
            invariant
                i <= self.pieces@.len(),
                forall|j: int| 0 <= j < i ==> (#[trigger] self.pieces@[j]).downloaded,
            decreases self.pieces@.len() - i,
        {
            if !self.pieces[i].downloaded {
                return false;
            }
            i = i + 1;
        }
        true
    }

    /// The indices of the pieces not downloaded yet, in increasing order.
    pub fn missing_pieces(&self) -> (r: Vec<u32>)
        requires
            self.wf(),
        ensures
            forall|a: int, b: int| 0 <= a < b < r@.len() ==> r@[a] < r@[b],
            forall|i: int|
                0 <= i < self.pieces@.len() ==> (r@.contains(i as u32) <==> !(
                #[trigger] self.pieces@[i]).downloaded),
            forall|k: int| 0 <= k < r@.len() ==> r@[k] < self.pieces@.len(),
    {
        let mut r: Vec<u32> = Vec::new();
        let mut i: usize = 0;
        while i < self.pieces.len()
            invariant
                self.wf(),
                i <= self.pieces@.len(),
                forall|a: int, b: int| 0 <= a < b < r@.len() ==> r@[a] < r@[b],
                forall|k: int| 0 <= k < r@.len() ==> r@[k] < i,
                forall|j: int|
                    0 <= j < i ==> (r@.contains(j as u32) <==> !(#[trigger] self.pieces@[j]).downloaded),
            decreases self.pieces@.len() - i,
        {
            let ghost old_r = r@;
            let missing = !self.pieces[i].downloaded;
            if missing {
                r.push(i as u32);
            }
            proof {
                lemma_push_if_contains(old_r, r@, i as u32, missing);
            }
            i = i + 1;
        }
        r
    }

    /// The indices of the pieces that are neither downloaded nor reserved, in increasing order.
    pub fn reserved_and_not_downloaded(&self) -> (r: Vec<u32>)
        requires
            self.wf(),
        ensures
            forall|a: int, b: int| 0 <= a < b < r@.len() ==> r@[a] < r@[b],
            forall|i: int|
                0 <= i < self.pieces@.len() ==> (r@.contains(i as u32) <==> is_free(
                #[trigger] self.pieces@[i])),
            forall|k: int| 0 <= k < r@.len() ==> r@[k] < self.pieces@.len(),
    {
        let mut r: Vec<u32> = Vec::new();
        let mut i: usize = 0;
        while i < self.pieces.len()
            invariant
                self.wf(),
                i <= self.pieces@.len(),
                forall|a: int, b: int| 0 <= a < b < r@.len() ==> r@[a] < r@[b],
                forall|k: int| 0 <= k < r@.len() ==> r@[k] < i,
                forall|j: int| 0 <= j < i ==> (r@.contains(j as u32) <==> is_free(#[trigger] self.pieces@[j])),
            decreases self.pieces@.len() - i,
        {
            let free = !self.pieces[i].downloaded && self.pieces[i].reserved.is_none();
            let ghost old_r = r@;
            if free {
                r.push(i as u32);
            }
            proof {
                lemma_push_if_contains(old_r, r@, i as u32, free);
            }
            i = i + 1;
        }
        r
    }

    /// Reserves a piece for `peer`: the first slot in index order that is neither
    /// downloaded nor reserved. When every missing piece is reserved already, the
    /// first missing one is returned without a reservation, so that late peers
    /// still help; `None` once every piece is downloaded. A slot reserved by
    /// someone is never reserved again.
    pub fn get_and_reserve_piece(&mut self, peer: PeerAddr) -> (r: Option<PieceWork>)
        requires
            old(self).wf(),
        ensures
            final(self).wf(),
            final(self).pieces@.len() == old(self).pieces@.len(),
            (exists|i: int| 0 <= i < old(self).pieces@.len() && is_free(#[trigger] old(self).pieces@[i]))
                ==> {
                &&& r is Some
                &&& {
                    let i = r->Some_0.index as int;
                    &&& 0 <= i < old(self).pieces@.len()
                    &&& is_free(old(self).pieces@[i])
                    &&& forall|j: int| 0 <= j < i ==> !is_free(#[trigger] old(self).pieces@[j])
                    &&& r->Some_0 == old(self).pieces@[i].piece_work
                    &&& final(self).pieces@ == old(self).pieces@.update(
                        i,
                        with_reserved(old(self).pieces@[i], Some(peer)),
                    )
                }
            },
            (forall|i: int| 0 <= i < old(self).pieces@.len() ==> !is_free(#[trigger] old(self).pieces@[i]))
                ==> {
                &&& final(self).pieces@ == old(self).pieces@
                &&& (exists|i: int| 0 <= i < old(self).pieces@.len() && !(#[trigger] old(self).pieces@[i]).downloaded)
                    ==> {
                    &&& r is Some
                    &&& {
                        let i = r->Some_0.index as int;
                        &&& 0 <= i < old(self).pieces@.len()
                        &&& !old(self).pieces@[i].downloaded
                        &&& forall|j: int| 0 <= j < i ==> (#[trigger] old(self).pieces@[j]).downloaded
                        &&& r->Some_0 == old(self).pieces@[i].piece_work
                    }
                }
                &&& (forall|i: int| 0 <= i < old(self).pieces@.len() ==> (#[trigger] old(self).pieces@[i]).downloaded)
                    ==> r is None
            },
    {
        let n = self.pieces.len();
        let mut i: usize = 0;
        while i < n
            invariant
                self.wf(),
                n == self.pieces@.len(),
                self.pieces@ == old(self).pieces@,
                i <= n,
                forall|j: int| 0 <= j < i ==> !is_free(#[trigger] self.pieces@[j]),
            decreases n - i,
        {
            if !self.pieces[i].downloaded && self.pieces[i].reserved.is_none() {
                self.pieces[i].reserved = Some(peer);
                assert(self.pieces@ =~= old(self).pieces@.update(
                    i as int,
                    with_reserved(old(self).pieces@[i as int], Some(peer)),
                ));
                assert(self.pieces@[i as int].blocks() == old(self).pieces@[i as int].blocks());
                return Some(self.pieces[i].piece_work);
            }
            i = i + 1;
        }
        let mut k: usize = 0;
        while k < n
            invariant
                self.wf(),
                n == self.pieces@.len(),
                self.pieces@ == old(self).pieces@,
                k <= n,
                forall|j: int| 0 <= j < n ==> !is_free(#[trigger] self.pieces@[j]),
                forall|j: int| 0 <= j < k ==> (#[trigger] self.pieces@[j]).downloaded,
            decreases n - k,
        {
            if !self.pieces[k].downloaded {
                return Some(self.pieces[k].piece_work);
            }
            k = k + 1;
        }
        None
    }

    /// Releases every reservation that `peer` holds, as when it dies.
    pub fn remove_reserved(&mut self, peer: PeerAddr)
        requires
            old(self).wf(),
        ensures
            final(self).wf(),
            final(self).pieces@.len() == old(self).pieces@.len(),
            forall|i: int|
                0 <= i < old(self).pieces@.len() ==> #[trigger] final(self).pieces@[i] == with_reserved(
                    old(self).pieces@[i],
                    if old(self).pieces@[i].reserved == Some(peer) {
                        None
                    } else {
                        old(self).pieces@[i].reserved
                    },
                ),
    {
        let n = self.pieces.len();
        let mut i: usize = 0;
        while i < n
            invariant
                self.wf(),
                n == self.pieces@.len() == old(self).pieces@.len(),
                i <= n,
                forall|j: int|
                    0 <= j < i ==> #[trigger] self.pieces@[j] == with_reserved(
                        old(self).pieces@[j],
                        if old(self).pieces@[j].reserved == Some(peer) {
                            None
                        } else {
                            old(self).pieces@[j].reserved
                        },
                    ),
                forall|j: int| i <= j < n ==> #[trigger] self.pieces@[j] == old(self).pieces@[j],
            decreases n - i,
        {
            let mine = match self.pieces[i].reserved {
                Some(p) => p == peer,
                None => false,
            };
            if mine {
                self.pieces[i].reserved = None;
            }
            assert(self.pieces@[i as int] == with_reserved(
                old(self).pieces@[i as int],
                if old(self).pieces@[i as int].reserved == Some(peer) {
                    None
                } else {
                    old(self).pieces@[i as int].reserved
                },
            ));
            i = i + 1;
        }
    }

    /// Marks piece `index` corrupt: its blocks are dropped, it is no longer downloaded,
    /// and its reservation is released. An index past the table changes nothing.
    pub fn remove_downloaded(&mut self, index: u32)
        requires
            old(self).wf(),
        ensures
            final(self).wf(),
            final(self).pieces@.len() == old(self).pieces@.len(),
            index >= old(self).pieces@.len() ==> final(self).pieces@ == old(self).pieces@,
            index < old(self).pieces@.len() ==> {
                let s = final(self).pieces@[index as int];
                &&& s.piece_work == old(self).pieces@[index as int].piece_work
                &&& s.chunks@.len() == 0
                &&& !s.downloaded
                &&& s.reserved is None
                &&& forall|j: int|
                    0 <= j < old(self).pieces@.len() && j != index ==> #[trigger] final(self).pieces@[j]
                        == old(self).pieces@[j]
            },
    {
        if (index as usize) < self.pieces.len() {
            self.pieces[index as usize].clear();
        }
    }

    /// Takes in a block of piece `index` at offset `start`; see `PieceWorkState::add_chunk`
    /// for when it is refused. An index past the table is refused too.
    pub fn set_chuncks(&mut self, index: u32, start: u32, buf: Vec<u8>) -> (r: bool)
        requires
            old(self).wf(),
        ensures
            final(self).wf(),
            final(self).pieces@.len() == old(self).pieces@.len(),
            index >= old(self).pieces@.len() ==> !r && final(self).pieces@ == old(self).pieces@,
            index < old(self).pieces@.len() ==> {
                let o = old(self).pieces@[index as int];
                let s = final(self).pieces@[index as int];
                &&& r == {
                    &&& !o.downloaded
                    &&& start + buf@.len() <= o.piece_work.length
                    &&& total_len(insert_block(o.blocks(), start, buf@)) <= o.piece_work.length
                }
                &&& r ==> s.blocks() == insert_block(o.blocks(), start, buf@)
                &&& !r ==> s.chunks@ == o.chunks@
                &&& s.piece_work == o.piece_work
                &&& s.downloaded == o.downloaded
                &&& s.reserved == o.reserved
                &&& forall|j: int|
                    0 <= j < old(self).pieces@.len() && j != index ==> #[trigger] final(self).pieces@[j]
                        == old(self).pieces@[j]
            },
    {
        if (index as usize) < self.pieces.len() {
            self.pieces[index as usize].add_chunk(start, buf)
        } else {
            false
        }
    }

    /// Checks piece `index` once its blocks fill it. When they hash to its digest it
    /// is marked downloaded, its reservation is released and the piece is returned;
    /// when they do not, the piece is marked corrupt as `remove_downloaded` does. A
    /// piece already downloaded is never returned again.
    pub fn set_downloaded_if_all_chunks(&mut self, index: u32) -> (r: Option<FullPiece>)
        requires
            old(self).wf(),
        ensures
            final(self).wf(),
            final(self).pieces@.len() == old(self).pieces@.len(),
            r is Some <==> index < old(self).pieces@.len() && delivers(old(self).pieces@[index as int]),
            index >= old(self).pieces@.len() ==> final(self).pieces@ == old(self).pieces@,
            r matches Some(fp) ==> {
                let o = old(self).pieces@[index as int];
                &&& fp.index == index
                &&& fp.length == o.piece_work.length
                &&& fp.buf@ == concat(o.blocks())
                &&& fp.buf@.len() == o.piece_work.length
                &&& sha1_of(fp.buf@) == o.piece_work.hash@
                &&& final(self).pieces@ == old(self).pieces@.update(
                    index as int,
                    PieceWorkState { downloaded: true, reserved: None, ..o },
                )
            },
            r is None ==> forall|i: int|
                0 <= i < old(self).pieces@.len() && (#[trigger] old(self).pieces@[i]).downloaded
                    ==> final(self).pieces@[i] == old(self).pieces@[i],
            r is None && index < old(self).pieces@.len() ==> {
                let o = old(self).pieces@[index as int];
                let s = final(self).pieces@[index as int];
                &&& forall|j: int|
                    0 <= j < old(self).pieces@.len() && j != index ==> #[trigger] final(self).pieces@[j]
                        == old(self).pieces@[j]
                &&& (o.downloaded || total_len(o.blocks()) < o.piece_work.length) ==> s == o
                &&& (!o.downloaded && total_len(o.blocks()) == o.piece_work.length) ==> {
                    &&& s.piece_work == o.piece_work
                    &&& s.chunks@.len() == 0
                    &&& !s.downloaded
                    &&& s.reserved is None
                }
            },
    {
        if (index as usize) >= self.pieces.len() {
            return None;
        }
        let i = index as usize;
        if self.pieces[i].downloaded {
            return None;
        }
        if self.pieces[i].received() != self.pieces[i].piece_work.length {
            return None;
        }
        let buf = self.pieces[i].chunk_to_buf();
        proof {
            lemma_concat_len(self.pieces@[i as int].blocks());
        }
        if check_integrity(&self.pieces[i].piece_work.hash, buf.as_slice()) {
            let length = self.pieces[i].piece_work.length;
            self.pieces[i].downloaded = true;
            self.pieces[i].reserved = None;
            assert(self.pieces@ =~= old(self).pieces@.update(
                index as int,
                PieceWorkState { downloaded: true, reserved: None, ..old(self).pieces@[index as int] },
            ));
            assert(self.pieces@[i as int].blocks() == old(self).pieces@[i as int].blocks());
            Some(FullPiece { index, length, buf })
        } else {
            self.pieces[i].clear();
            None
        }
    }

    /// Takes in a PIECE block of piece `index` at offset `start` and, once the
    /// piece's blocks fill it, checks it: the piece is returned when its bytes hash
    /// to its digest and it was not downloaded before; a piece whose bytes do not
    /// is marked corrupt.
    pub fn receive_block(&mut self, index: u32, start: u32, data: Vec<u8>) -> (r: Option<FullPiece>)
        requires
            old(self).wf(),
        ensures
            final(self).wf(),
            final(self).pieces@.len() == old(self).pieces@.len(),
            index >= old(self).pieces@.len() ==> r is None && final(self).pieces@ == old(self).pieces@,
            index < old(self).pieces@.len() ==> {
                let o = old(self).pieces@[index as int];
                let accepted = !o.downloaded && start + data@.len() <= o.piece_work.length
                    && total_len(insert_block(o.blocks(), start, data@)) <= o.piece_work.length;
                let nb = if accepted {
                    insert_block(o.blocks(), start, data@)
                } else {
                    o.blocks()
                };
                let s = final(self).pieces@[index as int];
                &&& forall|j: int|
                    0 <= j < old(self).pieces@.len() && j != index ==> #[trigger] final(self).pieces@[j]
                        == old(self).pieces@[j]
                &&& s.piece_work == o.piece_work
                &&& (r is Some <==> !o.downloaded && total_len(nb) == o.piece_work.length && sha1_of(
                    concat(nb),
                ) == o.piece_work.hash@)
                &&& r matches Some(fp) ==> {
                    &&& fp.index == index
                    &&& fp.length == o.piece_work.length
                    &&& fp.buf@ == concat(nb)
                    &&& fp.buf@.len() == o.piece_work.length
                    &&& sha1_of(fp.buf@) == o.piece_work.hash@
                    &&& s.downloaded
                    &&& s.reserved is None
                    &&& s.blocks() == nb
                }
                &&& o.downloaded ==> s.chunks@ == o.chunks@ && s.downloaded && s.reserved == o.reserved
                &&& (r is None && !o.downloaded && total_len(nb) < o.piece_work.length) ==> {
                    &&& s.blocks() == nb
                    &&& !s.downloaded
                    &&& s.reserved == o.reserved
                }
                &&& (r is None && !o.downloaded && total_len(nb) == o.piece_work.length) ==> {
                    &&& s.chunks@.len() == 0
                    &&& !s.downloaded
                    &&& s.reserved is None
                }
            },
    {
        let ghost data_view = data@;
        self.set_chuncks(index, start, data);
        let ghost mid = self.pieces@;
        let r = self.set_downloaded_if_all_chunks(index);
        proof {
            if index < old(self).pieces@.len() {
                let o = old(self).pieces@[index as int];
                let m = mid[index as int];
                let accepted = !o.downloaded && start + data_view.len() <= o.piece_work.length
                    && total_len(insert_block(o.blocks(), start, data_view)) <= o.piece_work.length;
                if accepted {
                    assert(m.blocks() == insert_block(o.blocks(), start, data_view));
                } else {
                    assert(m.chunks@ == o.chunks@);
                    assert(m.blocks() == o.blocks());
                }
                if o.downloaded {
                    assert(self.pieces@[index as int] == m);
                }
                if r is Some {
                    let s = self.pieces@[index as int];
                    assert(s == PieceWorkState { downloaded: true, reserved: None, ..m });
                    assert(s.blocks() == m.blocks());
                }
                assert forall|j: int|
                    0 <= j < old(self).pieces@.len() && j != index implies #[trigger] self.pieces@[j]
                        == old(self).pieces@[j] by {
                    assert(mid[j] == old(self).pieces@[j]);
                }
            }
        }
        r
    }
}

} // verus!
