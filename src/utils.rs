use vstd::prelude::*;

verus! {

/// Size of one block requested from a peer.
pub const BLOCK_SIZE: u32 = 16384;

/// The SHA-1 digest of `data`.
pub uninterp spec fn sha1_of(data: Seq<u8>) -> Seq<u8>;

/// Relies on sha1_smol's `Sha1::from(..).digest().bytes()`: the 20-byte SHA-1 digest,
/// which depends on the bytes alone. The length bound keeps its bit counter from overflowing.
#[verifier::external_body]
pub(crate) fn sha1_digest(data: &[u8]) -> (r: [u8; 20])
    requires
        data@.len() < 0x1000_0000_0000_0000,
    ensures
        r@ == sha1_of(data@),
{
    sha1_smol::Sha1::from(data).digest().bytes()
}

/// Relies on rand's `random::<u8>`: a byte drawn from the thread-local generator.
#[verifier::external_body]
fn random_byte() -> (r: u8) {
    rand::random::<u8>()
}

/// Whether two byte strings are equal.
pub fn bytes_equal(a: &[u8], b: &[u8]) -> (r: bool)
    ensures
        r == (a@ == b@),
{
    if a.len() != b.len() {
        return false;
    }
    let mut i: usize = 0;
    while i < a.len()
        invariant
            a@.len() == b@.len(),
            i <= a@.len(),
            forall|k: int| 0 <= k < i ==> a@[k] == b@[k],
        decreases a@.len() - i,
    {
        if a[i] != b[i] {
            return false;
        }
        i = i + 1;
    }
    assert(a@ =~= b@);
    true
}

/// Whether `buf` hashes to the expected digest `hash`.
pub fn check_integrity(hash: &[u8], buf: &[u8]) -> (r: bool)
    requires
        buf@.len() < 0x1000_0000_0000_0000,
    ensures
        r == (sha1_of(buf@) == hash@),
{
    let digest = sha1_digest(buf);
    bytes_equal(&digest, hash)
}

/// A fresh random 20-byte identifier for this client.
pub fn generate_peer_id() -> (r: [u8; 20])
    ensures
        r@.len() == 20,
{
    let mut id = [0u8; 20];
    let mut i: usize = 0;
    while i < 20
        invariant
            i <= 20,
        decreases 20 - i,
    {
        id[i] = random_byte();
        i = i + 1;
    }
    id
}

/// Length of the block that starts at `requested` inside a piece of `piece_length` bytes.
pub open spec fn block_size_spec(piece_length: u32, requested: u32) -> u32 {
    if piece_length - requested < BLOCK_SIZE {
        (piece_length - requested) as u32
    } else {
        BLOCK_SIZE
    }
}

/// The size of the block to request at offset `requested`: a full block, or what is left.
pub fn calculate_block_size(piece_length: u32, requested: u32) -> (r: u32)
    requires
        requested <= piece_length,
    ensures
        r == block_size_spec(piece_length, requested),
        r <= BLOCK_SIZE,
        requested + r <= piece_length,
        requested < piece_length ==> r > 0,
{
    if piece_length - requested < BLOCK_SIZE {
        return piece_length - requested;
    }
    BLOCK_SIZE
}

/// What is known of a torrent: its digests and its sizes.
#[derive(Debug, Clone, PartialEq)]
pub struct Torrent {
    pub info_hash: [u8; 20],
    pub piece_hashes: Vec<[u8; 20]>,
    pub piece_length: i64,
    pub length: i64,
}

/// Start of piece `index`.
pub open spec fn piece_start(piece_length: int, index: int) -> int {
    index * piece_length
}

/// End of piece `index`: the next piece's start, or the end of the data for the last one.
pub open spec fn piece_end(piece_length: int, length: int, index: int) -> int {
    if (index + 1) * piece_length > length {
        length
    } else {
        (index + 1) * piece_length
    }
}

/// Length of piece `index`.
pub open spec fn piece_size(piece_length: int, length: int, index: int) -> int {
    piece_end(piece_length, length, index) - piece_start(piece_length, index)
}

impl Torrent {
    /// Number of pieces that `length` bytes take in pieces of `piece_length` bytes.
    pub open spec fn piece_count_spec(&self) -> int {
        (self.length as int + self.piece_length as int - 1) / (self.piece_length as int)
    }

    /// The sizes are positive, fit the machine, and there is one digest per piece.
    pub open spec fn wf(&self) -> bool {
        &&& 0 < self.piece_length <= u32::MAX
        &&& 0 < self.length
        &&& self.length + self.piece_length <= usize::MAX
        &&& self.piece_hashes@.len() <= u32::MAX
        &&& self.piece_hashes@.len() == self.piece_count_spec()
    }

    /// Whether the torrent is well formed as `wf` states.
    pub fn is_consistent(&self) -> (r: bool)
        ensures
            r == self.wf(),
    {
        if self.piece_length <= 0 || self.piece_length > u32::MAX as i64 || self.length <= 0 {
            return false;
        }
        if self.length as u64 + self.piece_length as u64 > usize::MAX as u64 {
            return false;
        }
        if self.piece_hashes.len() > u32::MAX as usize {
            return false;
        }
        let count = (self.length as u64 + self.piece_length as u64 - 1) / self.piece_length as u64;
        self.piece_hashes.len() as u64 == count
    }
}

/// In a well-formed torrent every piece lies inside the data, all of them are
/// full but the last, and the last one holds what remains, or a full piece when
/// the length is a multiple of the piece length.
pub proof fn lemma_piece_sizes(t: Torrent, index: int)
    requires
        t.wf(),
        0 <= index < t.piece_hashes@.len(),
    ensures
        piece_start(t.piece_length as int, index) < t.length,
        (index + 1) * t.piece_length <= t.length + t.piece_length - 1,
        0 < piece_size(t.piece_length as int, t.length as int, index) <= t.piece_length,
        index < t.piece_hashes@.len() - 1 ==> piece_size(t.piece_length as int, t.length as int, index)
            == t.piece_length,
        index == t.piece_hashes@.len() - 1 ==> piece_size(t.piece_length as int, t.length as int, index)
            == if (t.length as int) % (t.piece_length as int) == 0 {
            t.piece_length as int
        } else {
            (t.length as int) % (t.piece_length as int)
        },
{
    let pl = t.piece_length as int;
    let len = t.length as int;
    let n = t.piece_hashes@.len() as int;
    let q = len / pl;
    let r = len % pl;
    assert(len == q * pl + r && 0 <= r < pl) by (nonlinear_arith)
        requires
            pl > 0,
            q == len / pl,
            r == len % pl,
    ;
    assert(n == (len + pl - 1) / pl);
    if r == 0 {
        assert(n == q) by (nonlinear_arith)
            requires
                pl > 0,
                len == q * pl,
                n == (len + pl - 1) / pl,
        ;
    } else {
        assert(n == q + 1) by (nonlinear_arith)
            requires
                pl > 0,
                len == q * pl + r,
                0 < r < pl,
                n == (len + pl - 1) / pl,
        ;
    }
    assert(index * pl <= (n - 1) * pl) by (nonlinear_arith)
        requires
            index <= n - 1,
            pl > 0,
    ;
    assert((index + 1) * pl == index * pl + pl) by (nonlinear_arith);
    assert(n * pl == (n - 1) * pl + pl) by (nonlinear_arith);
    if index < n - 1 {
        assert((index + 1) * pl <= (n - 1) * pl) by (nonlinear_arith)
            requires
                index + 1 <= n - 1,
                pl > 0,
        ;
    }
}

/// The byte range that piece `index` covers in the whole data.
pub fn calculate_bounds_for_piece(torrent: &Torrent, index: usize) -> (r: (usize, usize))
    requires
        0 <= torrent.piece_length,
        0 <= torrent.length <= usize::MAX,
        index * torrent.piece_length + torrent.piece_length <= usize::MAX,
    ensures
        r.0 == piece_start(torrent.piece_length as int, index as int),
        r.1 == piece_end(torrent.piece_length as int, torrent.length as int, index as int),
{
    proof {
        assert((index + 1) * torrent.piece_length == index * torrent.piece_length
            + torrent.piece_length) by (nonlinear_arith);
        assert(0 <= index * torrent.piece_length) by (nonlinear_arith)
            requires
                0 <= torrent.piece_length,
                0 <= index,
        ;
    }
    let start = index * torrent.piece_length as usize;
    let end = start + torrent.piece_length as usize;
    let torrent_length = torrent.length as usize;
    if end > torrent_length {
        (start, torrent_length)
    } else {
        (start, end)
    }
}

/// Length of piece `index`.
pub fn calculate_piece_size(torrent: &Torrent, index: usize) -> (r: usize)
    requires
        0 <= torrent.piece_length,
        0 <= torrent.length <= usize::MAX,
        index * torrent.piece_length + torrent.piece_length <= usize::MAX,
        index * torrent.piece_length <= torrent.length,
    ensures
        r == piece_size(torrent.piece_length as int, torrent.length as int, index as int),
{
    proof {
        assert((index + 1) * torrent.piece_length == index * torrent.piece_length
            + torrent.piece_length) by (nonlinear_arith);
    }
    let (start, end) = calculate_bounds_for_piece(torrent, index);
    end - start
}

} // verus!
