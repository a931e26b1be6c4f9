use vstd::prelude::*;
use crate::swarm::PieceWork;
use crate::utils::{calculate_piece_size, lemma_piece_sizes, piece_size, Torrent};

verus! {

/// A verified piece as the sink receives it.
#[derive(Debug, Clone)]
pub struct PieceResult {
    pub index: u32,
    pub length: u32,
    pub buf: Vec<u8>,
}

/// Progress on one piece: bytes requested, bytes received, and the piece's buffer.
#[derive(Debug, Clone)]
pub struct State {
    pub requested: u32,
    pub downloaded: u32,
    pub buf: Vec<u8>,
}

/// The work for every piece of a torrent, in index order: its index, its length
/// (the last piece may be shorter) and its digest.
pub fn pieces_of_work(torrent: &Torrent) -> (r: Vec<PieceWork>)
    requires
        torrent.wf(),
    ensures
        r@.len() == torrent.piece_hashes@.len(),
        forall|i: int|
            0 <= i < r@.len() ==> {
                &&& (#[trigger] r@[i]).index == i
                &&& r@[i].length == piece_size(torrent.piece_length as int, torrent.length as int, i)
                &&& r@[i].hash == torrent.piece_hashes@[i]
            },
{
    let n = torrent.piece_hashes.len();
    let mut r: Vec<PieceWork> = Vec::new();
    let mut i: usize = 0;
    while i < n
        invariant
            torrent.wf(),
            n == torrent.piece_hashes@.len(),
            i <= n,
            r@.len() == i,
            forall|j: int|
                0 <= j < i ==> {
                    &&& (#[trigger] r@[j]).index == j
                    &&& r@[j].length == piece_size(torrent.piece_length as int, torrent.length as int, j)
                    &&& r@[j].hash == torrent.piece_hashes@[j]
                },
        decreases n - i,
    {
        proof {
            lemma_piece_sizes(*torrent, i as int);
            assert(i * torrent.piece_length + torrent.piece_length == (i + 1) * torrent.piece_length)
                by (nonlinear_arith);
        }
        let length = calculate_piece_size(torrent, i);
        r.push(PieceWork { index: i as u32, length: length as u32, hash: torrent.piece_hashes[i] });
        i = i + 1;
    }
    r
}

} // verus!
