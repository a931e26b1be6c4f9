use vstd::prelude::*;

verus! {

/// Whether bit `k` (counted from the least significant end) of `b` is one.
pub open spec fn bit_of(b: u8, k: u8) -> bool {
    (b >> k) & 1u8 != 0u8
}

/// Whether the packed bit vector `bytes` marks piece `i`: bit 0 is the high bit of byte 0.
pub open spec fn bit_set(bytes: Seq<u8>, i: int) -> bool {
    &&& 0 <= i
    &&& i / 8 < bytes.len()
    &&& bit_of(bytes[i / 8], (7 - i % 8) as u8)
}

/// Setting bit `o` of a byte leaves every other bit as it was.
pub proof fn lemma_or_bit(b: u8, o: u8, k: u8)
    requires
        o < 8,
        k < 8,
    ensures
        bit_of(b | (1u8 << o), k) == (bit_of(b, k) || k == o),
{
    assert(((b | (1u8 << o)) >> k) & 1u8 != 0u8 <==> ((b >> k) & 1u8 != 0u8 || k == o))
        by (bit_vector)
        requires
            o < 8,
            k < 8,
    ;
}

/// A byte is zero exactly when none of its eight bits is set.
pub proof fn lemma_zero_byte(b: u8)
    ensures
        b == 0 <==> forall|k: u8| k < 8 ==> !bit_of(b, k),
{
    assert(b != 0 ==> bit_of(b, 0) || bit_of(b, 1) || bit_of(b, 2) || bit_of(b, 3) || bit_of(b, 4)
        || bit_of(b, 5) || bit_of(b, 6) || bit_of(b, 7)) by (bit_vector);
    assert(b == 0 ==> forall|k: u8| k < 8 ==> !#[trigger] bit_of(b, k)) by (bit_vector);
}

/// The pieces a peer has, one bit per piece index, most significant bit first.
#[derive(Debug, Clone, PartialEq)]
pub struct Bitfield {
    pub bytes: Vec<u8>,
}

impl Bitfield {
    /// Whether piece `i` is marked.
    pub open spec fn has(&self, i: int) -> bool {
        bit_set(self.bytes@, i)
    }

    pub fn new(bytes: Vec<u8>) -> (r: Bitfield)
        ensures
            r.bytes@ == bytes@,
    {
        Bitfield { bytes }
    }

    /// A bitfield for `piece_count` pieces with none of them marked: one bit per
    /// piece, rounded up to whole bytes.
    pub fn zeroed(piece_count: u32) -> (r: Bitfield)
        ensures
            r.bytes@ == Seq::new((piece_count as nat + 7) / 8, |i: int| 0u8),
    {
        let n: u32 = piece_count / 8 + if piece_count % 8 == 0 { 0 } else { 1 };
        assert(n == (piece_count as nat + 7) / 8);
        let mut bytes: Vec<u8> = Vec::new();
        let mut k: u32 = 0;
        while k < n
            invariant
                k <= n,
                bytes@ == Seq::new(k as nat, |i: int| 0u8),
            decreases n - k,
        {
            bytes.push(0);
            k = k + 1;
            assert(bytes@ =~= Seq::new(k as nat, |i: int| 0u8));
        }
        Bitfield { bytes }
    }

    /// Whether the bit of piece `index` is set; indices past the end are not.
    pub fn has_piece(&self, index: usize) -> (r: bool)
        ensures
            r == self.has(index as int),
    {
        let byte_index = index / 8;
        let offset = index % 8;
        if byte_index >= self.bytes.len() {
            return false;
        }
        (self.bytes[byte_index] >> (7 - offset) as u8) & 1 != 0
    }

    /// Marks piece `index`; an index past the end is ignored.
    pub fn set_piece(&mut self, index: usize)
        ensures
            final(self).bytes@.len() == old(self).bytes@.len(),
            forall|i: int|
                #![trigger final(self).has(i)]
                final(self).has(i) == (old(self).has(i) || (i == index && index / 8
                    < old(self).bytes@.len())),
    {
        let byte_index = index / 8;
        let offset = index % 8;
        if byte_index >= self.bytes.len() {
            return;
        }
        let old_byte = self.bytes[byte_index];
        let new_byte = old_byte | (1u8 << (7 - offset) as u8);
        self.bytes.set(byte_index, new_byte);
        proof {
            assert forall|i: int| #![trigger self.has(i)]
                self.has(i) == (old(self).has(i) || i == index) by {
                if 0 <= i && i / 8 == byte_index {
                    lemma_or_bit(old_byte, (7 - offset) as u8, (7 - i % 8) as u8);
                }
            }
        }
    }

    /// Whether no piece is marked, that is every byte is zero.
    pub fn is_empty(&self) -> (r: bool)
        ensures
            r == (forall|j: int| 0 <= j < self.bytes@.len() ==> self.bytes@[j] == 0),
            r == (forall|i: int| !self.has(i)),
    {
        let mut j: usize = 0;
        while j < self.bytes.len()
            invariant
                j <= self.bytes@.len(),
                forall|k: int| 0 <= k < j ==> self.bytes@[k] == 0,
            decreases self.bytes@.len() - j,
        {
            if self.bytes[j] != 0 {
                proof {
                    let b = self.bytes@[j as int];
                    lemma_zero_byte(b);
                    let k = choose|k: u8| k < 8 && bit_of(b, k);
                    let i = j * 8 + (7 - k);
                    assert(i / 8 == j && i % 8 == 7 - k);
                    assert(self.has(i));
                }
                return false;
            }
            j = j + 1;
        }
        proof {
            assert forall|i: int| !self.has(i) by {
                if 0 <= i && i / 8 < self.bytes@.len() {
                    lemma_zero_byte(self.bytes@[i / 8]);
                }
            }
        }
        true
    }
}

} // verus!
