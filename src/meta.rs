use vstd::prelude::*;
use crate::bytes::take_20;
use crate::utils::{sha1_digest, sha1_of};

verus! {

/// The info digest of a torrent: the SHA-1 digest of its bencoded `info` dictionary.
pub fn info_hash(encoded_info: &[u8]) -> (r: [u8; 20])
    requires
        encoded_info@.len() < 0x1000_0000_0000_0000,
    ensures
        r@ == sha1_of(encoded_info@),
{
    sha1_digest(encoded_info)
}

/// The piece digests of a torrent, twenty bytes each, from the `pieces` string of its
/// `info` dictionary; `None` when its length is not a multiple of twenty.
pub fn piece_hashes(pieces: &[u8]) -> (r: Option<Vec<[u8; 20]>>)
    ensures
        r is Some <==> pieces@.len() % 20 == 0,
        r matches Some(v) ==> {
            &&& v@.len() == pieces@.len() / 20
            &&& forall|k: int|
                0 <= k < v@.len() ==> (#[trigger] v@[k])@ == pieces@.subrange(20 * k, 20 * k + 20)
        },
{
    let n = pieces.len();
    if n % 20 != 0 {
        return None;
    }
    let mut v: Vec<[u8; 20]> = Vec::new();
    let mut k: usize = 0;
    while k < n / 20
        invariant
            n == pieces@.len(),
            n % 20 == 0,
            k <= n / 20,
            v@.len() == k,
            forall|j: int| 0 <= j < k ==> (#[trigger] v@[j])@ == pieces@.subrange(20 * j, 20 * j + 20),
        decreases n / 20 - k,
    {
        v.push(take_20(pieces, 20 * k));
        k = k + 1;
    }
    Some(v)
}

} // verus!
