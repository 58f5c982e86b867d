//! Where the blocks of an Intel HEX file go, stated record by record.

use vstd::prelude::*;
use crate::builder::WriteView;
use crate::download::{hex_blocks, HexRecordView};

verus! {

/// The upper address bits in force at record `k`: those of the last extended
/// linear address record before it, each such record setting them anew, and
/// `init` where there is none.
pub open spec fn upper_from(records: Seq<Option<HexRecordView>>, init: int, k: int) -> int
    decreases k,
{
    if k <= 0 {
        init
    } else {
        match records[k - 1] {
            Some(HexRecordView::ExtendedLinearAddress(a)) => a as int * 0x10000,
            _ => upper_from(records, init, k - 1),
        }
    }
}

/// The upper address bits in force at record `k` of a file: zero until the
/// first extended linear address record.
pub open spec fn upper_before(records: Seq<Option<HexRecordView>>, k: int) -> int {
    upper_from(records, 0, k)
}

/// The number of data records before record `k`.
pub open spec fn data_before(records: Seq<Option<HexRecordView>>, k: int) -> int
    decreases k,
{
    if k <= 0 {
        0
    } else {
        data_before(records, k - 1) + if records[k - 1] matches Some(HexRecordView::Data { .. }) {
            1int
        } else {
            0int
        }
    }
}

/// Every record before `k` was read, and none of them ends the file.
pub open spec fn read_cleanly_before(records: Seq<Option<HexRecordView>>, k: int) -> bool {
    forall|j: int|
        0 <= j < k ==> (#[trigger] records[j]) is Some && !(records[j] matches Some(
            HexRecordView::EndOfFile,
        ))
}

proof fn lemma_or_low_bits(upper: u32, offset: u32)
    requires
        upper % 0x10000 == 0,
        offset < 0x10000,
    ensures
        upper | offset == upper + offset,
{
    assert(upper | offset == upper + offset) by (bit_vector)
        requires
            upper % 0x10000 == 0,
            offset < 0x10000,
    ;
}

proof fn lemma_shift_upper(a: u32)
    requires
        a < 0x10000,
    ensures
        a << 16u32 == a * 0x10000,
        (a << 16u32) % 0x10000 == 0,
{
    assert(a << 16u32 == a * 0x10000 && (a << 16u32) % 0x10000 == 0) by (bit_vector)
        requires
            a < 0x10000,
    ;
}

proof fn lemma_upper_from_drop(records: Seq<Option<HexRecordView>>, init: int, k: int)
    requires
        1 <= k <= records.len(),
    ensures
        upper_from(records, init, k) == upper_from(
            records.drop_first(),
            match records[0] {
                Some(HexRecordView::ExtendedLinearAddress(a)) => a as int * 0x10000,
                _ => init,
            },
            k - 1,
        ),
        data_before(records, k) == data_before(records.drop_first(), k - 1) + if records[0] matches Some(
            HexRecordView::Data { .. },
        ) {
            1int
        } else {
            0int
        },
    decreases k,
{
    let rest = records.drop_first();
    let next = match records[0] {
        Some(HexRecordView::ExtendedLinearAddress(a)) => a as int * 0x10000,
        _ => init,
    };
    if k == 1 {
        assert(upper_from(records, init, 0) == init);
        assert(upper_from(rest, next, 0) == next);
        assert(data_before(records, 0) == 0);
        assert(data_before(rest, 0) == 0);
    } else {
        lemma_upper_from_drop(records, init, k - 1);
        assert(rest[k - 2] == records[k - 1]);
        assert(upper_from(rest, next, k - 1) == match rest[k - 2] {
            Some(HexRecordView::ExtendedLinearAddress(a)) => a as int * 0x10000,
            _ => upper_from(rest, next, k - 2),
        });
    }
}

proof fn lemma_hex_blocks_keep(records: Seq<Option<HexRecordView>>, upper: u32, gathered: Seq<WriteView>)
    ensures
        hex_blocks(records, upper, gathered) matches Some(b) ==> gathered.len() <= b.len() && forall|i: int|
            0 <= i < gathered.len() ==> b[i] == gathered[i],
    decreases records.len(),
{
    if records.len() > 0 {
        match records[0] {
            Some(HexRecordView::Data { offset, value }) => {
                lemma_hex_blocks_keep(records.drop_first(), upper, gathered.push(((upper | (offset as u32)), value)));
            },
            Some(HexRecordView::ExtendedLinearAddress(address)) => {
                lemma_hex_blocks_keep(records.drop_first(), ((address as u32) << 16u32), gathered);
            },
            Some(HexRecordView::EndOfFile) => {},
            None => {},
            Some(_) => {
                lemma_hex_blocks_keep(records.drop_first(), upper, gathered);
            },
        }
    }
}

proof fn lemma_hex_blocks_at(
    records: Seq<Option<HexRecordView>>,
    upper: u32,
    gathered: Seq<WriteView>,
    k: int,
    offset: u16,
    value: Seq<u8>,
)
    requires
        0 <= k < records.len(),
        read_cleanly_before(records, k),
        records[k] == Some(HexRecordView::Data { offset, value }),
        upper % 0x10000 == 0,
        hex_blocks(records, upper, gathered) is Some,
    ensures
        ({
            let b = hex_blocks(records, upper, gathered)->0;
            let n = gathered.len() + data_before(records, k);
            n < b.len() && b[n] == ((upper_from(records, upper as int, k) + offset) as u32, value)
        }),
    decreases records.len(),
{
    let rest = records.drop_first();
    if k == 0 {
        let pushed = gathered.push(((upper | (offset as u32)), value));
        lemma_hex_blocks_keep(rest, upper, pushed);
        lemma_or_low_bits(upper, offset as u32);
    } else {
        lemma_upper_from_drop(records, upper as int, k);
        assert(records[0] is Some);
        assert forall|j: int| 0 <= j < k - 1 implies (#[trigger] rest[j]) is Some && !(rest[j] matches Some(
            HexRecordView::EndOfFile,
        )) by {
            assert(rest[j] == records[j + 1]);
        }
        assert(rest[k - 1] == records[k]);
        match records[0] {
            Some(HexRecordView::Data { offset: o, value: v }) => {
                lemma_hex_blocks_at(rest, upper, gathered.push(((upper | (o as u32)), v)), k - 1, offset, value);
            },
            Some(HexRecordView::ExtendedLinearAddress(address)) => {
                lemma_shift_upper(address as u32);
                lemma_hex_blocks_at(rest, ((address as u32) << 16u32), gathered, k - 1, offset, value);
            },
            Some(HexRecordView::EndOfFile) => {},
            None => {},
            Some(_) => {
                lemma_hex_blocks_at(rest, upper, gathered, k - 1, offset, value);
            },
        }
    }
}

/// Where each data record of an Intel HEX file goes: the block of the
/// `data_before(records, k)`-th data record is its bytes at its offset plus
/// the upper bits of the last extended linear address record before it
/// (zero without one), whatever upper bits came before that record.
pub proof fn lemma_hex_block_addresses(
    records: Seq<Option<HexRecordView>>,
    k: int,
    offset: u16,
    value: Seq<u8>,
)
    requires
        0 <= k < records.len(),
        read_cleanly_before(records, k),
        records[k] == Some(HexRecordView::Data { offset, value }),
        hex_blocks(records, 0, Seq::empty()) is Some,
    ensures
        ({
            let b = hex_blocks(records, 0, Seq::empty())->0;
            &&& data_before(records, k) < b.len()
            &&& b[data_before(records, k)] == ((upper_before(records, k) + offset) as u32, value)
        }),
{
    lemma_hex_blocks_at(records, 0, Seq::empty(), k, offset, value);
}

} // verus!
