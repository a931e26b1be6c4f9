use vstd::prelude::*;
use crate::swarm::{
    concat, insert_block, insert_pos, lemma_insert_pos, lemma_prefix_step, lemma_prefix_total,
    strictly_sorted, total_len, Blocks,
};

verus! {

/// Blocks that tile `[0, length)`: the first starts at zero, each is non-empty and
/// starts where the one before ends, and together they hold `length` bytes.
pub open spec fn tiles(ts: Blocks, length: nat) -> bool {
    &&& ts.len() > 0 ==> ts[0].0 == 0
    &&& forall|k: int| 0 <= k < ts.len() ==> (#[trigger] ts[k]).1.len() > 0
    &&& forall|k: int| 0 <= k < ts.len() - 1 ==> #[trigger] ts[k + 1].0 == ts[k].0 + ts[k].1.len()
    &&& total_len(ts) == length
}

/// `order` names each of the indices `0..n` exactly once.
pub open spec fn is_permutation(order: Seq<int>, n: int) -> bool {
    &&& order.len() == n
    &&& forall|k: int| 0 <= k < n ==> 0 <= #[trigger] order[k] < n
    &&& forall|i: int, j: int| 0 <= i < j < n ==> order[i] != order[j]
}

/// The blocks held after the blocks `ts[order[0]], ts[order[1]], ...` arrive, one
/// after the other, at a piece with no blocks.
pub open spec fn arrive(ts: Blocks, order: Seq<int>) -> Blocks
    decreases order.len(),
{
    if order.len() == 0 {
        Seq::empty()
    } else {
        let b = ts[order.last()];
        insert_block(arrive(ts, order.drop_last()), b.0, b.1)
    }
}

/// In a tiling each block starts where the blocks before it end.
proof fn lemma_tile_starts(ts: Blocks, length: nat, k: int)
    requires
        tiles(ts, length),
        0 <= k < ts.len(),
    ensures
        ts[k].0 == total_len(ts.subrange(0, k)),
        ts[k].0 + ts[k].1.len() <= length,
    decreases k,
{
    if k == 0 {
        assert(ts.subrange(0, 0).len() == 0);
    } else {
        lemma_tile_starts(ts, length, k - 1);
        lemma_prefix_step(ts, k - 1);
    }
    lemma_prefix_step(ts, k);
    lemma_prefix_total(ts, k + 1);
}

/// The blocks of a tiling start at strictly increasing offsets.
proof fn lemma_tiles_sorted(ts: Blocks, length: nat)
    requires
        tiles(ts, length),
    ensures
        strictly_sorted(ts),
{
    assert forall|i: int, j: int| 0 <= i < j < ts.len() implies ts[i].0 < ts[j].0 by {
        lemma_tile_starts(ts, length, i);
        lemma_tile_starts(ts, length, j);
        lemma_prefix_step(ts, i);
        lemma_prefix_total(ts.subrange(0, j), i + 1);
        assert(ts.subrange(0, j).subrange(0, i + 1) =~= ts.subrange(0, i + 1));
    }
}

/// Two lists sorted by strictly increasing offset that hold the same blocks are equal.
proof fn lemma_sorted_unique(a: Blocks, b: Blocks)
    requires
        strictly_sorted(a),
        strictly_sorted(b),
        forall|x: (u32, Seq<u8>)| a.contains(x) <==> b.contains(x),
    ensures
        a == b,
    decreases a.len(),
{
    if a.len() == 0 {
        if b.len() > 0 {
            assert(b.contains(b[0]));
        }
        assert(a =~= b);
    } else {
        assert(a.contains(a[0]));
        let k = choose|k: int| 0 <= k < b.len() && b[k] == a[0];
        assert(b.contains(b[0]));
        let m = choose|m: int| 0 <= m < a.len() && a[m] == b[0];
        if k > 0 {
            assert(b[0].0 < b[k].0);
            if m > 0 {
                assert(a[0].0 < a[m].0);
            }
        }
        assert(k == 0);
        let a1 = a.drop_first();
        let b1 = b.drop_first();
        assert forall|x: (u32, Seq<u8>)| a1.contains(x) <==> b1.contains(x) by {
            if a1.contains(x) {
                let i = choose|i: int| 0 <= i < a1.len() && a1[i] == x;
                assert(a[i + 1] == x);
                assert(a[0].0 < a[i + 1].0);
                assert(b.contains(x));
                let j = choose|j: int| 0 <= j < b.len() && b[j] == x;
                assert(j != 0);
                assert(b1[j - 1] == x);
            }
            if b1.contains(x) {
                let i = choose|i: int| 0 <= i < b1.len() && b1[i] == x;
                assert(b[i + 1] == x);
                assert(b[0].0 < b[i + 1].0);
                assert(a.contains(x));
                let j = choose|j: int| 0 <= j < a.len() && a[j] == x;
                assert(j != 0);
                assert(a1[j - 1] == x);
            }
        }
        lemma_sorted_unique(a1, b1);
        assert(a =~= seq![a[0]] + a1);
        assert(b =~= seq![b[0]] + b1);
    }
}

/// A list sorted by strictly increasing offset whose blocks all belong to another
/// such list holds no more bytes than it.
proof fn lemma_sub_total(a: Blocks, ts: Blocks)
    requires
        strictly_sorted(a),
        strictly_sorted(ts),
        forall|x: (u32, Seq<u8>)| a.contains(x) ==> ts.contains(x),
    ensures
        total_len(a) <= total_len(ts),
    decreases ts.len(),
{
    if a.len() == 0 {
    } else {
        assert(a.contains(a.last()));
        let t = ts.last();
        let ts1 = ts.drop_last();
        if a.last() == t {
            let a1 = a.drop_last();
            assert forall|x: (u32, Seq<u8>)| a1.contains(x) implies ts1.contains(x) by {
                let i = choose|i: int| 0 <= i < a1.len() && a1[i] == x;
                assert(a[i] == x);
                assert(a[i].0 < a[a.len() - 1].0);
                assert(ts.contains(x));
                let j = choose|j: int| 0 <= j < ts.len() && ts[j] == x;
                assert(j != ts.len() - 1);
                assert(ts1[j] == x);
            }
            lemma_sub_total(a1, ts1);
        } else {
            assert forall|x: (u32, Seq<u8>)| a.contains(x) implies ts1.contains(x) by {
                assert(ts.contains(x));
                let j = choose|j: int| 0 <= j < ts.len() && ts[j] == x;
                if j == ts.len() - 1 {
                    // x is the last tile, so it is the greatest block of `a` too.
                    let i = choose|i: int| 0 <= i < a.len() && a[i] == x;
                    if i != a.len() - 1 {
                        assert(a[i].0 < a[a.len() - 1].0);
                        let l = choose|l: int| 0 <= l < ts.len() && ts[l] == a.last();
                        assert(ts[l].0 > ts[j].0);
                    }
                }
                assert(ts1[j] == x);
            }
            lemma_sub_total(a, ts1);
        }
    }
}

/// Blocks that tile a piece, arriving in any order, are all taken in, each within
/// the piece and without the blocks ever holding more than the piece, and in the
/// end the blocks held are the tiling in offset order: they fill the piece, and
/// their bytes are the tiles' bytes one after the other.
pub proof fn lemma_any_arrival_order_completes(ts: Blocks, length: nat, order: Seq<int>)
    requires
        tiles(ts, length),
        is_permutation(order, ts.len() as int),
    ensures
        forall|m: int|
            0 <= m < order.len() ==> {
                let b = ts[#[trigger] order[m]];
                &&& b.0 + b.1.len() <= length
                &&& total_len(arrive(ts, order.subrange(0, m + 1))) <= length
            },
        arrive(ts, order) == ts,
        total_len(arrive(ts, order)) == length,
        concat(arrive(ts, order)) == concat(ts),
{
    lemma_tiles_sorted(ts, length);
    let n = order.len() as int;
    assert forall|m: int| 0 <= m <= n implies {
        let s = #[trigger] arrive(ts, order.subrange(0, m));
        &&& strictly_sorted(s)
        &&& forall|x: (u32, Seq<u8>)|
            s.contains(x) <==> exists|j: int| 0 <= j < m && x == ts[order[j]]
    } by {
        lemma_arrive_step(ts, length, order, m);
    }
    assert forall|m: int| 0 <= m < order.len() implies {
        let b = ts[#[trigger] order[m]];
        &&& b.0 + b.1.len() <= length
        &&& total_len(arrive(ts, order.subrange(0, m + 1))) <= length
    } by {
        lemma_tile_starts(ts, length, order[m]);
        let s = arrive(ts, order.subrange(0, m + 1));
        assert forall|x: (u32, Seq<u8>)| s.contains(x) implies ts.contains(x) by {
            let j = choose|j: int| 0 <= j < m + 1 && x == ts[order[j]];
            assert(ts[order[j]] == x);
        }
        lemma_sub_total(s, ts);
    }
    let s = arrive(ts, order.subrange(0, n));
    assert(order.subrange(0, n) =~= order);
    assert forall|x: (u32, Seq<u8>)| s.contains(x) <==> ts.contains(x) by {
        if ts.contains(x) {
            let i = choose|i: int| 0 <= i < ts.len() && ts[i] == x;
            lemma_permutation_onto(order, n, i);
            let j = choose|j: int| 0 <= j < n && order[j] == i;
            assert(x == ts[order[j]]);
        }
        if s.contains(x) {
            let j = choose|j: int| 0 <= j < n && x == ts[order[j]];
            assert(ts[order[j]] == x);
        }
    }
    lemma_sorted_unique(s, ts);
}

/// A permutation of `0..n` names every index below `n`.
proof fn lemma_permutation_onto(order: Seq<int>, n: int, i: int)
    requires
        is_permutation(order, n),
        0 <= i < n,
    ensures
        exists|j: int| 0 <= j < n && order[j] == i,
{
    if !(exists|j: int| 0 <= j < n && order[j] == i) {
        // Then `order` holds `n` distinct values of `0..n` other than `i`: too many.
        let s = Set::new(|v: int| 0 <= v < n && v != i);
        let img = order.to_set();
        assert forall|v: int| img.contains(v) implies s.contains(v) by {
            let j = choose|j: int| 0 <= j < order.len() && order[j] == v;
        }
        assert(order.no_duplicates());
        order.unique_seq_to_set();
        let r = vstd::set_lib::set_int_range(0, n);
        vstd::set_lib::lemma_int_range(0, n);
        assert(s =~= r.remove(i));
        vstd::set_lib::lemma_len_subset(img, s);
        assert(false);
    }
}

/// What `arrive` holds after the first `m` arrivals: the blocks that arrived, by offset.
proof fn lemma_arrive_step(ts: Blocks, length: nat, order: Seq<int>, m: int)
    requires
        tiles(ts, length),
        strictly_sorted(ts),
        is_permutation(order, ts.len() as int),
        0 <= m <= order.len(),
    ensures
        strictly_sorted(arrive(ts, order.subrange(0, m))),
        forall|x: (u32, Seq<u8>)|
            arrive(ts, order.subrange(0, m)).contains(x) <==> exists|j: int|
                0 <= j < m && x == ts[order[j]],
    decreases m,
{
    let pre = order.subrange(0, m);
    let s = arrive(ts, pre);
    if m == 0 {
        assert(s =~= Seq::empty());
    } else {
        lemma_arrive_step(ts, length, order, m - 1);
        assert(pre.drop_last() =~= order.subrange(0, m - 1));
        let s0 = arrive(ts, order.subrange(0, m - 1));
        let b = ts[order[m - 1]];
        let p = insert_pos(s0, b.0) as int;
        lemma_insert_pos_props(s0, b.0);
        // The new block's offset is not held yet: the tiles' offsets are distinct.
        if p < s0.len() && s0[p].0 == b.0 {
            assert(s0.contains(s0[p]));
            let j = choose|j: int| 0 <= j < m - 1 && s0[p] == ts[order[j]];
            assert(order[j] != order[m - 1]);
            if order[j] < order[m - 1] {
                assert(ts[order[j]].0 < ts[order[m - 1]].0);
            } else {
                assert(ts[order[m - 1]].0 < ts[order[j]].0);
            }
        }
        assert(s == s0.insert(p, b));
        assert forall|i: int, j: int| 0 <= i < j < s.len() implies s[i].0 < s[j].0 by {
            if p < s0.len() {
                assert(s0[p].0 > b.0);
            }
        }
        assert forall|x: (u32, Seq<u8>)| s.contains(x) <==> exists|j: int|
            0 <= j < m && x == ts[order[j]] by {
            if s.contains(x) {
                let i = choose|i: int| 0 <= i < s.len() && s[i] == x;
                if i < p {
                    assert(s0.contains(s0[i]));
                } else if i > p {
                    assert(s0[i - 1] == x);
                    assert(s0.contains(s0[i - 1]));
                } else {
                    assert(x == ts[order[m - 1]]);
                }
            }
            if exists|j: int| 0 <= j < m && x == ts[order[j]] {
                let j = choose|j: int| 0 <= j < m && x == ts[order[j]];
                if j == m - 1 {
                    assert(s[p] == x);
                } else {
                    assert(s0.contains(x));
                    let i = choose|i: int| 0 <= i < s0.len() && s0[i] == x;
                    if i < p {
                        assert(s[i] == x);
                    } else {
                        assert(s[i + 1] == x);
                    }
                }
            }
        }
    }
}

/// `insert_pos` finds the first block whose offset is not below `start`.
proof fn lemma_insert_pos_props(bs: Blocks, start: u32)
    ensures
        insert_pos(bs, start) <= bs.len(),
        forall|k: int| 0 <= k < insert_pos(bs, start) ==> bs[k].0 < start,
        insert_pos(bs, start) < bs.len() ==> bs[insert_pos(bs, start) as int].0 >= start,
    decreases bs.len(),
{
    if bs.len() > 0 && bs[0].0 < start {
        lemma_insert_pos_props(bs.drop_first(), start);
        assert forall|k: int| 0 <= k < insert_pos(bs, start) implies bs[k].0 < start by {
            if k > 0 {
                assert(bs[k] == bs.drop_first()[k - 1]);
            }
        }
    }
}

} // verus!
