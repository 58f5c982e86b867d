//! Properties of adding blocks to a builder.

use vstd::prelude::*;
use crate::builder::{
    add_result, first_overlap, has_address, insertion_point, lemma_first_overlap_from,
    lemma_insertion_point, lemma_insertion_point_unique, overlaps_at, writes_disjoint,
    writes_sorted, WriteView,
};

verus! {

/// Blocks at or after the insertion point start at or above the address.
proof fn lemma_insertion_point_monotone(writes: Seq<WriteView>, lower: u32, upper: u32)
    requires
        writes_sorted(writes),
        lower < upper,
    ensures
        insertion_point(writes, lower) <= insertion_point(writes, upper),
{
    lemma_insertion_point(writes, lower);
    lemma_insertion_point(writes, upper);
    let p = insertion_point(writes, lower);
    let q = insertion_point(writes, upper);
    if q < p {
        assert(writes[q].0 < lower);
    }
}

/// Inserting a block at a free address at its insertion point keeps the
/// blocks sorted.
proof fn lemma_insert_sorted(writes: Seq<WriteView>, block: WriteView)
    requires
        writes_sorted(writes),
        !has_address(writes, block.0),
        block.0 + block.1.len() <= 0x1_0000_0000,
    ensures
        writes_sorted(writes.insert(insertion_point(writes, block.0), block)),
{
    lemma_insertion_point(writes, block.0);
    let p = insertion_point(writes, block.0);
    let after = writes.insert(p, block);
    assert forall|k: int| p <= k < writes.len() implies writes[k].0 > block.0 by {
        if writes[k].0 == block.0 {
            assert(has_address(writes, block.0));
        }
    }
    assert forall|i: int, j: int| 0 <= i < j < after.len() implies after[i].0 < after[j].0 by {
        if j < p {
        } else if j == p {
        } else if i < p {
        } else if i == p {
        } else {
        }
    }
    assert forall|k: int| 0 <= k < after.len() implies #[trigger] after[k].0 + after[k].1.len()
        <= 0x1_0000_0000 by {
        if k < p {
            assert(after[k] == writes[k]);
        } else if k > p {
            assert(after[k] == writes[k - 1]);
        }
    }
}

/// An address is taken after an insertion when it was taken before or is
/// the inserted block's.
proof fn lemma_has_address_insert(writes: Seq<WriteView>, p: int, block: WriteView, address: u32)
    requires
        0 <= p <= writes.len(),
    ensures
        has_address(writes.insert(p, block), address) <==> (has_address(writes, address)
            || block.0 == address),
{
    let after = writes.insert(p, block);
    if has_address(writes, address) {
        let i = choose|i: int| 0 <= i < writes.len() && writes[i].0 == address;
        if i < p {
            assert(after[i] == writes[i]);
        } else {
            assert(after[i + 1] == writes[i]);
        }
    }
    if block.0 == address {
        assert(after[p] == block);
    }
    if has_address(after, address) {
        let i = choose|i: int| 0 <= i < after.len() && after[i].0 == address;
        if i < p {
            assert(after[i] == writes[i]);
        } else if i > p {
            assert(after[i] == writes[i - 1]);
        }
    }
}

/// Two blocks at free addresses, the lower one first, end up in the same
/// place whichever is inserted first.
proof fn lemma_two_inserts(writes: Seq<WriteView>, a: WriteView, b: WriteView)
    requires
        writes_sorted(writes),
        !has_address(writes, a.0),
        !has_address(writes, b.0),
        a.0 < b.0,
        a.0 + a.1.len() <= 0x1_0000_0000,
        b.0 + b.1.len() <= 0x1_0000_0000,
    ensures
        ({
            let w1 = writes.insert(insertion_point(writes, a.0), a);
            let w2 = writes.insert(insertion_point(writes, b.0), b);
            w1.insert(insertion_point(w1, b.0), b) == w2.insert(insertion_point(w2, a.0), a)
        }),
{
    lemma_insertion_point(writes, a.0);
    lemma_insertion_point(writes, b.0);
    lemma_insertion_point_monotone(writes, a.0, b.0);
    let pa = insertion_point(writes, a.0);
    let pb = insertion_point(writes, b.0);
    let w1 = writes.insert(pa, a);
    let w2 = writes.insert(pb, b);
    lemma_insert_sorted(writes, a);
    lemma_insert_sorted(writes, b);
    assert forall|k: int| 0 <= k < pb + 1 implies w1[k].0 < b.0 by {
        if k < pa {
        } else if k == pa {
        } else {
            assert(w1[k] == writes[k - 1]);
        }
    }
    assert forall|k: int| pb + 1 <= k < w1.len() implies w1[k].0 >= b.0 by {
        assert(w1[k] == writes[k - 1]);
    }
    lemma_insertion_point_unique(w1, b.0, pb + 1);
    assert forall|k: int| 0 <= k < pa implies w2[k].0 < a.0 by {
        assert(w2[k] == writes[k]);
    }
    assert forall|k: int| pa <= k < w2.len() implies w2[k].0 >= a.0 by {
        if k < pb {
            assert(w2[k] == writes[k]);
        } else if k > pb {
            assert(w2[k] == writes[k - 1]);
        }
    }
    lemma_insertion_point_unique(w2, a.0, pa);
    let f1 = w1.insert(pb + 1, b);
    let f2 = w2.insert(pa, a);
    assert(f1.len() == f2.len());
    assert forall|i: int| 0 <= i < f1.len() implies f1[i] == f2[i] by {
        if i < pa {
            assert(f1[i] == writes[i]);
            assert(f2[i] == writes[i]);
        } else if i == pa {
        } else if i <= pb {
            assert(f1[i] == writes[i - 1]);
            assert(f2[i] == w2[i - 1]);
        } else if i == pb + 1 {
            assert(f2[i] == w2[pb]);
        } else {
            assert(f1[i] == writes[i - 2]);
            assert(f2[i] == w2[i - 1]);
        }
    }
    assert(f1 =~= f2);
}

/// Blocks can be added in any order: adding `a` and then `b` leaves the same
/// blocks as adding `b` and then `a`, when their addresses differ.
pub proof fn lemma_add_order_independent(writes: Seq<WriteView>, a: WriteView, b: WriteView)
    requires
        writes_sorted(writes),
        a.0 != b.0,
        a.0 + a.1.len() <= 0x1_0000_0000,
        b.0 + b.1.len() <= 0x1_0000_0000,
    ensures
        add_result(add_result(writes, a.0, a.1).1, b.0, b.1).1 == add_result(
            add_result(writes, b.0, b.1).1,
            a.0,
            a.1,
        ).1,
{
    let pa = insertion_point(writes, a.0);
    let pb = insertion_point(writes, b.0);
    lemma_insertion_point(writes, a.0);
    lemma_insertion_point(writes, b.0);
    lemma_has_address_insert(writes, pa, a, b.0);
    lemma_has_address_insert(writes, pb, b, a.0);
    if !has_address(writes, a.0) && !has_address(writes, b.0) {
        if a.0 < b.0 {
            lemma_two_inserts(writes, a, b);
        } else {
            lemma_two_inserts(writes, b, a);
        }
    }
}

/// Taking a block out of blocks that do not overlap leaves blocks that do not overlap.
proof fn lemma_without_block_apart(writes: Seq<WriteView>, p: int, block: WriteView)
    requires
        0 <= p <= writes.len(),
        writes_sorted(writes.insert(p, block)),
        first_overlap(writes.insert(p, block)) is None,
    ensures
        first_overlap(writes) is None,
{
    let after = writes.insert(p, block);
    lemma_first_overlap_from(after, 1);
    lemma_first_overlap_from(writes, 1);
    if first_overlap(writes) is Some {
        let i = first_overlap(writes)->0;
        assert(overlaps_at(writes, i));
        if i < p {
            assert(after[i - 1] == writes[i - 1] && after[i] == writes[i]);
            assert(overlaps_at(after, i));
        } else if i > p {
            assert(after[i] == writes[i - 1] && after[i + 1] == writes[i]);
            assert(overlaps_at(after, i + 1));
        } else {
            assert(after[i - 1] == writes[i - 1] && after[i] == block && after[i + 1] == writes[i]);
            assert(!overlaps_at(after, i));
            assert(!overlaps_at(after, i + 1));
        }
    }
}

/// Whether adding `a` and then `b` succeeds both times.
pub open spec fn both_added(writes: Seq<WriteView>, a: WriteView, b: WriteView) -> bool {
    &&& add_result(writes, a.0, a.1).0 is Ok
    &&& add_result(add_result(writes, a.0, a.1).1, b.0, b.1).0 is Ok
}

/// Adding two blocks at different addresses succeeds in one order exactly
/// when it succeeds in the other.
pub proof fn lemma_add_order_same_success(writes: Seq<WriteView>, a: WriteView, b: WriteView)
    requires
        writes_sorted(writes),
        a.0 != b.0,
        a.0 + a.1.len() <= 0x1_0000_0000,
        b.0 + b.1.len() <= 0x1_0000_0000,
    ensures
        both_added(writes, a, b) <==> both_added(writes, b, a),
{
    lemma_add_order_independent(writes, a, b);
    let pa = insertion_point(writes, a.0);
    let pb = insertion_point(writes, b.0);
    lemma_insertion_point(writes, a.0);
    lemma_insertion_point(writes, b.0);
    lemma_has_address_insert(writes, pa, a, b.0);
    lemma_has_address_insert(writes, pb, b, a.0);
    if !has_address(writes, a.0) && !has_address(writes, b.0) {
        let w1 = writes.insert(pa, a);
        let w2 = writes.insert(pb, b);
        lemma_insert_sorted(writes, a);
        lemma_insert_sorted(writes, b);
        lemma_insertion_point(w1, b.0);
        lemma_insertion_point(w2, a.0);
        lemma_insert_sorted(w1, b);
        lemma_insert_sorted(w2, a);
        let f = w1.insert(insertion_point(w1, b.0), b);
        if first_overlap(f) is None {
            lemma_without_block_apart(w1, insertion_point(w1, b.0), b);
            lemma_without_block_apart(w2, insertion_point(w2, a.0), a);
        }
    }
}

/// A successful add keeps the blocks sorted and apart from each other, and
/// the blocks afterwards are those before with the new block among them.
pub proof fn lemma_add_keeps_blocks_apart(writes: Seq<WriteView>, address: u32, data: Seq<u8>)
    requires
        writes_sorted(writes),
        writes_disjoint(writes),
        address + data.len() <= 0x1_0000_0000,
        add_result(writes, address, data).0 is Ok,
    ensures
        writes_sorted(add_result(writes, address, data).1),
        writes_disjoint(add_result(writes, address, data).1),
        add_result(writes, address, data).1.len() == writes.len() + 1,
        add_result(writes, address, data).1.contains((address, data)),
        forall|i: int| 0 <= i < writes.len() ==> add_result(writes, address, data).1.contains(
            #[trigger] writes[i],
        ),
{
    let p = insertion_point(writes, address);
    lemma_insertion_point(writes, address);
    let after = writes.insert(p, (address, data));
    lemma_insert_sorted(writes, (address, data));
    lemma_first_overlap_from(after, 1);
    assert(first_overlap(after) is None);
    assert forall|i: int| !#[trigger] overlaps_at(after, i) by {
        if 1 <= i < after.len() {
            assert(!overlaps_at(after, i));
        }
    }
    assert(after[p] == (address, data));
    assert forall|i: int| 0 <= i < writes.len() implies after.contains(#[trigger] writes[i]) by {
        if i < p {
            assert(after[i] == writes[i]);
        } else {
            assert(after[i + 1] == writes[i]);
        }
    }
}

/// Among sorted blocks that do not overlap, each ends before any later one starts.
proof fn lemma_ends_before_later_starts(writes: Seq<WriteView>, i: int, j: int)
    requires
        writes_sorted(writes),
        writes_disjoint(writes),
        0 <= i < j < writes.len(),
    ensures
        writes[i].0 + writes[i].1.len() <= writes[j].0,
    decreases j - i,
{
    assert(!overlaps_at(writes, j));
    if j > i + 1 {
        lemma_ends_before_later_starts(writes, i, j - 1);
    }
}

/// The block at `address` holding `data` starts apart from every block and
/// shares no byte with any of them.
pub open spec fn misses_every_block(writes: Seq<WriteView>, address: u32, data: Seq<u8>) -> bool {
    forall|i: int|
        0 <= i < writes.len() ==> writes[i].0 != address && (#[trigger] writes[i].0 + writes[i].1.len() <= address
            || address + data.len() <= writes[i].0)
}

/// Adding a block to blocks that do not overlap succeeds exactly when the new
/// block misses every block already there.
pub proof fn lemma_add_ok_iff_misses(writes: Seq<WriteView>, address: u32, data: Seq<u8>)
    requires
        writes_sorted(writes),
        writes_disjoint(writes),
    ensures
        add_result(writes, address, data).0 is Ok <==> misses_every_block(writes, address, data),
{
    let p = insertion_point(writes, address);
    lemma_insertion_point(writes, address);
    if has_address(writes, address) {
        let k = choose|k: int| 0 <= k < writes.len() && writes[k].0 == address;
        assert(!(writes[k].0 != address));
    } else {
        let block = (address, data);
        let after = writes.insert(p, block);
        lemma_first_overlap_from(after, 1);
        let left_ok = p == 0 || writes[p - 1].0 + writes[p - 1].1.len() <= address;
        let right_ok = p == writes.len() || address + data.len() <= writes[p].0;
        if left_ok && right_ok {
            assert forall|i: int| !#[trigger] overlaps_at(after, i) by {
                if 1 <= i < after.len() {
                    if i < p {
                        assert(after[i - 1] == writes[i - 1] && after[i] == writes[i]);
                        assert(!overlaps_at(writes, i));
                    } else if i == p {
                        assert(after[i - 1] == writes[p - 1] && after[i] == block);
                    } else if i == p + 1 {
                        assert(after[i - 1] == block && after[i] == writes[p]);
                    } else {
                        assert(after[i - 1] == writes[i - 2] && after[i] == writes[i - 1]);
                        assert(!overlaps_at(writes, i - 1));
                    }
                }
            }
            if first_overlap(after) is Some {
                assert(overlaps_at(after, first_overlap(after)->0));
            }
            assert forall|i: int| 0 <= i < writes.len() implies writes[i].0 != address && (
            #[trigger] writes[i].0 + writes[i].1.len() <= address || address + data.len() <= writes[i].0) by {
                if writes[i].0 == address {
                    assert(has_address(writes, address));
                }
                if i < p - 1 {
                    lemma_ends_before_later_starts(writes, i, p - 1);
                } else if i > p {
                    assert(writes[p].0 < writes[i].0);
                }
            }
        } else {
            if !left_ok {
                assert(after[p - 1] == writes[p - 1] && after[p] == block);
                assert(overlaps_at(after, p));
                assert(!(writes[p - 1].0 + writes[p - 1].1.len() <= address));
            } else {
                assert(after[p] == block && after[p + 1] == writes[p]);
                assert(overlaps_at(after, p + 1));
                assert(writes[p].0 != address);
                assert(!(writes[p].0 + writes[p].1.len() <= address));
            }
        }
    }
}

} // verus!
