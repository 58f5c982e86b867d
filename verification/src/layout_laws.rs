//! Properties that every flash layout has.

use vstd::prelude::*;
use crate::builder::{
    copy_to_page, filled_data, overlaps_at, pad_data, place, place_all, place_in_new_page,
    place_in_sector, sector_of, spec_layout, writes_disjoint, writes_sorted, FlashSector, LayoutView,
    PageFiller, PageView, RestoreFill, WriteView,
};
use crate::flash_algorithm::{lemma_find_sector_run, FlashAlgorithm};

verus! {

/// The byte `v` stands at `address` in one of the pages: the page holds the
/// address, and its bytes reach it.
pub open spec fn byte_in_pages(pages: Seq<PageView>, address: int, v: u8) -> bool {
    exists|j: int|
        #![trigger pages[j]]
        0 <= j < pages.len() && pages[j].address <= address < pages[j].address + pages[j].data.len()
            && address < pages[j].address + pages[j].size && pages[j].data[address - pages[j].address] == v
}

/// Every byte of the block stands at its address in one of the pages.
pub open spec fn block_placed(pages: Seq<PageView>, block: WriteView) -> bool {
    forall|k: int| 0 <= k < block.1.len() ==> byte_in_pages(pages, block.0 + k, #[trigger] block.1[k])
}

/// Every page holds at least one byte and no more bytes than it is long.
pub open spec fn pages_sane(pages: Seq<PageView>) -> bool {
    forall|j: int| 0 <= j < pages.len() ==> 1 <= (#[trigger] pages[j]).data.len() <= pages[j].size
}

/// The later pages keep the earlier ones: same address and size, and bytes
/// that only grow at their end.
pub open spec fn extends(pages: Seq<PageView>, later: Seq<PageView>) -> bool {
    &&& pages.len() <= later.len()
    &&& forall|j: int|
        0 <= j < pages.len() ==> (#[trigger] later[j]).address == pages[j].address && later[j].size
            == pages[j].size && pages[j].data.is_prefix_of(later[j].data)
}

/// The pages are sane and the bytes of the last end at or before `address`.
pub open spec fn placing(st: LayoutView, address: int) -> bool {
    &&& pages_sane(st.pages)
    &&& st.pages.len() > 0 ==> st.pages.last().address + st.pages.last().data.len() <= address
}

proof fn lemma_extends_refl(pages: Seq<PageView>)
    ensures
        extends(pages, pages),
{
    assert forall|j: int| 0 <= j < pages.len() implies pages[j].data.is_prefix_of(
        #[trigger] pages[j].data,
    ) by {
        assert(pages[j].data.subrange(0, pages[j].data.len() as int) =~= pages[j].data);
    }
}

proof fn lemma_extends_trans(p: Seq<PageView>, q: Seq<PageView>, r: Seq<PageView>)
    requires
        extends(p, q),
        extends(q, r),
    ensures
        extends(p, r),
{
    assert forall|j: int| 0 <= j < p.len() implies (#[trigger] r[j]).address == p[j].address && r[j].size
        == p[j].size && p[j].data.is_prefix_of(r[j].data) by {
        let n = p[j].data.len() as int;
        assert(q[j].data.subrange(0, n) =~= r[j].data.subrange(0, n)) by {
            assert forall|k: int| 0 <= k < n implies q[j].data[k] == r[j].data[k] by {
                assert(r[j].data.subrange(0, q[j].data.len() as int)[k] == r[j].data[k]);
            }
        }
    }
}

proof fn lemma_extends_keeps_byte(p: Seq<PageView>, q: Seq<PageView>, address: int, v: u8)
    requires
        extends(p, q),
        byte_in_pages(p, address, v),
    ensures
        byte_in_pages(q, address, v),
{
    let j = choose|j: int|
        #![trigger p[j]]
        0 <= j < p.len() && p[j].address <= address < p[j].address + p[j].data.len() && address
            < p[j].address + p[j].size && p[j].data[address - p[j].address] == v;
    let off = address - p[j].address;
    assert(q[j].data.subrange(0, p[j].data.len() as int)[off] == q[j].data[off]);
    assert(q[j].address <= address < q[j].address + q[j].data.len());
}

proof fn lemma_extends_keeps_block(p: Seq<PageView>, q: Seq<PageView>, block: WriteView)
    requires
        extends(p, q),
        block_placed(p, block),
    ensures
        block_placed(q, block),
{
    assert forall|k: int| 0 <= k < block.1.len() implies byte_in_pages(q, block.0 + k, #[trigger] block.1[k]) by {
        lemma_extends_keeps_byte(p, q, block.0 + k, block.1[k]);
    }
}

/// Setting the bytes of the last page to bytes that begin with its own keeps the pages.
proof fn lemma_set_last_extends(st: LayoutView, data: Seq<u8>)
    requires
        st.pages.len() > 0,
        st.pages.last().data.is_prefix_of(data),
    ensures
        extends(st.pages, st.set_last_data(data).pages),
{
    let q = st.set_last_data(data).pages;
    assert forall|j: int| 0 <= j < st.pages.len() implies (#[trigger] q[j]).address == st.pages[j].address
        && q[j].size == st.pages[j].size && st.pages[j].data.is_prefix_of(q[j].data) by {
        if j < st.pages.len() - 1 {
            assert(q[j] == st.pages[j]);
            assert(st.pages[j].data.subrange(0, st.pages[j].data.len() as int) =~= st.pages[j].data);
        }
    }
}

proof fn lemma_pad_data<F: PageFiller>(fill: F, page: PageView, upto: int)
    ensures
        page.data.is_prefix_of(pad_data(fill, page, upto)),
        pad_data(fill, page, upto).len() == if upto <= page.data.len() {
            page.data.len() as int
        } else {
            upto
        },
{
    let d = pad_data(fill, page, upto);
    assert(d.subrange(0, page.data.len() as int) =~= page.data);
}

proof fn lemma_page_info_below(algo: FlashAlgorithm, address: int)
    requires
        algo.valid(),
        0 <= address < 0x1_0000_0000,
    ensures
        algo.spec_page_info(address as u32) matches Some(info) ==> info.base_address <= address
            < info.base_address + info.size && info.size == algo.flash_properties.page_size && (
        info.base_address as int) % (algo.flash_properties.page_size as int) == 0,
{
    let ps = algo.flash_properties.page_size as int;
    let a = address;
    assert(a % ps <= a && (a - a % ps) % ps == 0 && a < a - a % ps + ps) by (nonlinear_arith)
        requires
            ps > 0,
            a >= 0,
    {
        vstd::arithmetic::div_mod::lemma_fundamental_div_mod(a, ps);
        vstd::arithmetic::div_mod::lemma_mod_multiples_basic(a / ps, ps);
    }
}

proof fn lemma_place_places<F: PageFiller>(
    algo: FlashAlgorithm,
    fill: F,
    st: LayoutView,
    a: int,
    data: Seq<u8>,
)
    requires
        algo.valid(),
        placing(st, a),
        0 <= a,
        a + data.len() <= 0x1_0000_0000,
    ensures
        place(algo, fill, st, a, data) matches Ok(next) ==> extends(st.pages, next.pages) && placing(
            next,
            a + data.len(),
        ) && block_placed(next.pages, (a as u32, data)),
    decreases data.len(), 3int,
{
    if data.len() == 0 {
        lemma_extends_refl(st.pages);
    } else if st.sectors.len() == 0 || a >= st.last_sector_end() {
        match algo.spec_sector_info(a as u32) {
            None => {},
            Some(info) => {
                lemma_sector_places(algo, fill, st.push_sector(info), a, data);
            },
        }
    } else {
        lemma_sector_places(algo, fill, st, a, data);
    }
}

proof fn lemma_sector_places<F: PageFiller>(
    algo: FlashAlgorithm,
    fill: F,
    st: LayoutView,
    a: int,
    data: Seq<u8>,
)
    requires
        algo.valid(),
        placing(st, a),
        0 <= a,
        a + data.len() <= 0x1_0000_0000,
    ensures
        place_in_sector(algo, fill, st, a, data) matches Ok(next) ==> extends(st.pages, next.pages)
            && placing(next, a + data.len()) && block_placed(next.pages, (a as u32, data)),
    decreases data.len(), 2int,
{
    if data.len() == 0 {
        lemma_extends_refl(st.pages);
    } else if st.pages.len() == 0 {
        lemma_new_page_places(algo, fill, st, a, data);
    } else if a >= st.last_page_end() {
        let last = st.pages.last();
        let filled = filled_data(fill, last);
        lemma_pad_data(fill, last, last.size as int);
        if !fill.spec_pads() {
            assert(last.data.subrange(0, last.data.len() as int) =~= last.data);
        }
        let mid = st.set_last_data(filled);
        lemma_set_last_extends(st, filled);
        assert forall|j: int| 0 <= j < mid.pages.len() implies 1 <= (#[trigger] mid.pages[j]).data.len()
            <= mid.pages[j].size by {
            if j < st.pages.len() - 1 {
                assert(mid.pages[j] == st.pages[j]);
            }
        }
        lemma_new_page_places(algo, fill, mid, a, data);
        match place_in_new_page(algo, fill, mid, a, data) {
            Err(_) => {},
            Ok(next) => {
                lemma_extends_trans(st.pages, mid.pages, next.pages);
            },
        }
    } else {
        lemma_copy_places(algo, fill, st, a, data);
    }
}

proof fn lemma_new_page_places<F: PageFiller>(
    algo: FlashAlgorithm,
    fill: F,
    st: LayoutView,
    a: int,
    data: Seq<u8>,
)
    requires
        algo.valid(),
        pages_sane(st.pages),
        st.pages.len() > 0 ==> a >= st.last_page_end(),
        0 <= a,
        a + data.len() <= 0x1_0000_0000,
        data.len() > 0,
    ensures
        place_in_new_page(algo, fill, st, a, data) matches Ok(next) ==> extends(st.pages, next.pages)
            && placing(next, a + data.len()) && block_placed(next.pages, (a as u32, data)),
    decreases data.len(), 1int,
{
    lemma_page_info_below(algo, a);
    match algo.spec_page_info(a as u32) {
        None => {},
        Some(info) => {
            let mid = st.push_page(info);
            assert forall|j: int| 0 <= j < st.pages.len() implies (#[trigger] mid.pages[j]).address
                == st.pages[j].address && mid.pages[j].size == st.pages[j].size
                && st.pages[j].data.is_prefix_of(mid.pages[j].data) by {
                assert(mid.pages[j] == st.pages[j]);
                assert(st.pages[j].data.subrange(0, st.pages[j].data.len() as int) =~= st.pages[j].data);
            }
            lemma_copy_places(algo, fill, mid, a, data);
            match copy_to_page(algo, fill, mid, a, data) {
                Err(_) => {},
                Ok(next) => {
                    lemma_extends_trans(st.pages, mid.pages, next.pages);
                },
            }
        },
    }
}

proof fn lemma_copy_places<F: PageFiller>(
    algo: FlashAlgorithm,
    fill: F,
    st: LayoutView,
    a: int,
    data: Seq<u8>,
)
    requires
        algo.valid(),
        st.pages.len() > 0,
        forall|j: int|
            0 <= j < st.pages.len() - 1 ==> 1 <= (#[trigger] st.pages[j]).data.len() <= st.pages[j].size,
        st.pages.last().data.len() <= st.pages.last().size,
        st.pages.last().address + st.pages.last().data.len() <= a < st.pages.last().address
            + st.pages.last().size,
        a + data.len() <= 0x1_0000_0000,
        data.len() > 0,
    ensures
        copy_to_page(algo, fill, st, a, data) matches Ok(next) ==> extends(st.pages, next.pages)
            && placing(next, a + data.len()) && block_placed(next.pages, (a as u32, data)),
    decreases data.len(), 0int,
{
    let last = st.pages.last();
    let base = pad_data(fill, last, a - last.address);
    lemma_pad_data(fill, last, a - last.address);
    assert(base.len() == a - last.address);
    let room = last.size - base.len();
    let amount = if room < data.len() {
        room
    } else {
        data.len() as int
    };
    assert(amount > 0);
    let nd = base + data.take(amount);
    let mid = st.set_last_data(nd);
    let n = st.pages.len() - 1;
    assert(last.data.is_prefix_of(nd)) by {
        assert(nd.subrange(0, last.data.len() as int) =~= base.subrange(0, last.data.len() as int));
    }
    lemma_set_last_extends(st, nd);
    assert(mid.pages[n] == (PageView { address: last.address, size: last.size, data: nd }));
    assert(pages_sane(mid.pages)) by {
        assert forall|j: int| 0 <= j < mid.pages.len() implies 1 <= (#[trigger] mid.pages[j]).data.len()
            <= mid.pages[j].size by {
            if j < n {
                assert(mid.pages[j] == st.pages[j]);
            }
        }
    }
    assert forall|k: int| 0 <= k < amount implies byte_in_pages(mid.pages, a + k, #[trigger] data[k]) by {
        assert(nd[a + k - last.address] == data[k]);
        assert(mid.pages[n].address <= a + k < mid.pages[n].address + mid.pages[n].data.len());
    }
    let rest = data.skip(amount);
    lemma_place_places(algo, fill, mid, a + amount, rest);
    match place(algo, fill, mid, a + amount, rest) {
        Err(_) => {},
        Ok(next) => {
            lemma_extends_trans(st.pages, mid.pages, next.pages);
            assert forall|k: int| 0 <= k < data.len() implies byte_in_pages(
                next.pages,
                (a as u32) + k,
                #[trigger] data[k],
            ) by {
                if k < amount {
                    lemma_extends_keeps_byte(mid.pages, next.pages, a + k, data[k]);
                } else {
                    assert(rest[k - amount] == data[k]);
                    assert(((a + amount) as u32) == a + amount);
                    let blk = ((a + amount) as u32, rest);
                    assert(block_placed(next.pages, blk));
                    assert(blk.1[k - amount] == data[k]);
                    assert(byte_in_pages(next.pages, blk.0 + (k - amount), blk.1[k - amount]));
                }
            }
        },
    }
}

proof fn lemma_place_all_places<F: PageFiller>(
    algo: FlashAlgorithm,
    fill: F,
    st: LayoutView,
    writes: Seq<WriteView>,
)
    requires
        algo.valid(),
        writes_sorted(writes),
        writes_disjoint(writes),
        pages_sane(st.pages),
        writes.len() > 0 ==> placing(st, writes[0].0 as int),
    ensures
        place_all(algo, fill, st, writes) matches Ok(next) ==> extends(st.pages, next.pages)
            && pages_sane(next.pages) && forall|i: int|
            0 <= i < writes.len() ==> block_placed(next.pages, #[trigger] writes[i]),
    decreases writes.len(),
{
    if writes.len() == 0 {
        lemma_extends_refl(st.pages);
    } else {
        let rest = writes.drop_first();
        let w = writes[0];
        assert(w.0 + w.1.len() <= 0x1_0000_0000);
        lemma_place_places(algo, fill, st, w.0 as int, w.1);
        match place(algo, fill, st, w.0 as int, w.1) {
            Err(_) => {},
            Ok(mid) => {
                assert(forall|k: int| 0 <= k < rest.len() ==> rest[k] == writes[k + 1]);
                if rest.len() > 0 {
                    assert(!overlaps_at(writes, 1));
                }
                assert forall|i: int, j: int| 0 <= i < j < rest.len() implies rest[i].0 < rest[j].0 by {
                    assert(rest[i] == writes[i + 1] && rest[j] == writes[j + 1]);
                }
                assert forall|i: int| 0 <= i < rest.len() implies #[trigger] rest[i].0 + rest[i].1.len()
                    <= 0x1_0000_0000 by {
                    assert(rest[i] == writes[i + 1]);
                }
                assert forall|i: int| !#[trigger] overlaps_at(rest, i) by {
                    if 1 <= i < rest.len() {
                        assert(!overlaps_at(writes, i + 1));
                    }
                }
                lemma_place_all_places(algo, fill, mid, rest);
                match place_all(algo, fill, mid, rest) {
                    Err(_) => {},
                    Ok(next) => {
                        lemma_extends_trans(st.pages, mid.pages, next.pages);
                        assert((w.0 as int) as u32 == w.0);
                        lemma_extends_keeps_block(mid.pages, next.pages, w);
                        assert forall|i: int| 0 <= i < writes.len() implies block_placed(
                            next.pages,
                            #[trigger] writes[i],
                        ) by {
                            if i > 0 {
                                assert(writes[i] == rest[i - 1]);
                            }
                        }
                    },
                }
            },
        }
    }
}

/// Every byte lands at its address: in every layout, each byte of each block
/// stands in the page that holds its address, at the offset of the address in
/// the page; and every page holds at least one byte and no more than it is long.
pub proof fn lemma_layout_places_bytes<F: PageFiller>(
    algo: FlashAlgorithm,
    fill: F,
    writes: Seq<WriteView>,
)
    requires
        algo.valid(),
        writes_sorted(writes),
        writes_disjoint(writes),
    ensures
        spec_layout(algo, fill, writes) matches Ok(layout) ==> pages_sane(layout.pages) && forall|i: int|
            0 <= i < writes.len() ==> block_placed(layout.pages, #[trigger] writes[i]),
{
    lemma_place_all_places(algo, fill, LayoutView::empty(), writes);
    match place_all(algo, fill, LayoutView::empty(), writes) {
        Err(_) => {},
        Ok(st) => {
            if st.pages.len() > 0 {
                let last = st.pages.last();
                lemma_pad_data(fill, last, last.size as int);
                if !fill.spec_pads() {
                    assert(last.data.subrange(0, last.data.len() as int) =~= last.data);
                }
                let done = st.set_last_data(filled_data(fill, last));
                lemma_set_last_extends(st, filled_data(fill, last));
                assert forall|j: int| 0 <= j < done.pages.len() implies 1 <= (#[trigger] done.pages[j]).data.len()
                    <= done.pages[j].size by {
                    if j < st.pages.len() - 1 {
                        assert(done.pages[j] == st.pages[j]);
                    }
                }
                assert forall|i: int| 0 <= i < writes.len() implies block_placed(
                    done.pages,
                    #[trigger] writes[i],
                ) by {
                    lemma_extends_keeps_block(st.pages, done.pages, writes[i]);
                }
            }
        },
    }
}

/// Every page is `page_size` long and aligned to it, and each page ends at or
/// before the start of every later page.
pub open spec fn pages_ordered(pages: Seq<PageView>, page_size: int) -> bool {
    &&& forall|i: int|
        0 <= i < pages.len() ==> (#[trigger] pages[i]).size == page_size && (pages[i].address as int)
            % page_size == 0
    &&& forall|i: int, j: int|
        0 <= i < j < pages.len() ==> (#[trigger] pages[i]).address + page_size <= (#[trigger] pages[j]).address
}

proof fn lemma_aligned_floor(m: int, a: int, ps: int)
    requires
        ps > 0,
        m >= 0,
        m % ps == 0,
        m <= a,
    ensures
        m <= a - a % ps,
{
    assert(m <= a - a % ps) by (nonlinear_arith)
        requires
            ps > 0,
            m >= 0,
            m % ps == 0,
            m <= a,
    {
        vstd::arithmetic::div_mod::lemma_fundamental_div_mod(a, ps);
        vstd::arithmetic::div_mod::lemma_fundamental_div_mod(m, ps);
        assert(m == ps * (m / ps));
        assert(a == ps * (a / ps) + a % ps);
        if m / ps > a / ps {
            assert(m / ps >= a / ps + 1);
            assert(ps * (m / ps) >= ps * (a / ps + 1));
        }
        assert(m / ps <= a / ps);
        assert(ps * (m / ps) <= ps * (a / ps));
    }
}

proof fn lemma_set_last_keeps_order(st: LayoutView, data: Seq<u8>, ps: int)
    requires
        st.pages.len() > 0,
        pages_ordered(st.pages, ps),
    ensures
        pages_ordered(st.set_last_data(data).pages, ps),
{
    let q = st.set_last_data(data).pages;
    assert forall|i: int| 0 <= i < q.len() implies q[i].address == st.pages[i].address && q[i].size
        == st.pages[i].size by {}
}

proof fn lemma_place_order<F: PageFiller>(
    algo: FlashAlgorithm,
    fill: F,
    st: LayoutView,
    a: int,
    data: Seq<u8>,
)
    requires
        algo.valid(),
        pages_ordered(st.pages, algo.flash_properties.page_size as int),
        0 <= a,
        a + data.len() <= 0x1_0000_0000,
    ensures
        place(algo, fill, st, a, data) matches Ok(next) ==> pages_ordered(
            next.pages,
            algo.flash_properties.page_size as int,
        ),
    decreases data.len(), 3int,
{
    if data.len() == 0 {
    } else if st.sectors.len() == 0 || a >= st.last_sector_end() {
        match algo.spec_sector_info(a as u32) {
            None => {},
            Some(info) => {
                lemma_place_in_sector_order(algo, fill, st.push_sector(info), a, data);
            },
        }
    } else {
        lemma_place_in_sector_order(algo, fill, st, a, data);
    }
}

proof fn lemma_place_in_sector_order<F: PageFiller>(
    algo: FlashAlgorithm,
    fill: F,
    st: LayoutView,
    a: int,
    data: Seq<u8>,
)
    requires
        algo.valid(),
        pages_ordered(st.pages, algo.flash_properties.page_size as int),
        0 <= a,
        a + data.len() <= 0x1_0000_0000,
    ensures
        place_in_sector(algo, fill, st, a, data) matches Ok(next) ==> pages_ordered(
            next.pages,
            algo.flash_properties.page_size as int,
        ),
    decreases data.len(), 2int,
{
    let ps = algo.flash_properties.page_size as int;
    if data.len() == 0 {
    } else if st.pages.len() == 0 {
        lemma_new_page_order(algo, fill, st, a, data);
    } else if a >= st.last_page_end() {
        let filled = filled_data(fill, st.pages.last());
        lemma_set_last_keeps_order(st, filled, ps);
        lemma_new_page_order(algo, fill, st.set_last_data(filled), a, data);
    } else {
        lemma_copy_order(algo, fill, st, a, data);
    }
}

proof fn lemma_new_page_order<F: PageFiller>(
    algo: FlashAlgorithm,
    fill: F,
    st: LayoutView,
    a: int,
    data: Seq<u8>,
)
    requires
        algo.valid(),
        pages_ordered(st.pages, algo.flash_properties.page_size as int),
        st.pages.len() > 0 ==> a >= st.last_page_end(),
        0 <= a,
        a + data.len() <= 0x1_0000_0000,
    ensures
        place_in_new_page(algo, fill, st, a, data) matches Ok(next) ==> pages_ordered(
            next.pages,
            algo.flash_properties.page_size as int,
        ),
    decreases data.len(), 1int,
{
    let ps = algo.flash_properties.page_size as int;
    if data.len() == 0 {
    } else {
        lemma_page_info_below(algo, a);
        match algo.spec_page_info(a as u32) {
            None => {},
            Some(info) => {
                let next = st.push_page(info);
                let p = next.pages;
                let n = st.pages.len();
                if n > 0 {
                    let last = st.pages.last();
                    assert((last.address + ps) % ps == 0) by {
                        vstd::arithmetic::div_mod::lemma_mod_add_multiples_vanish(
                            last.address as int,
                            ps,
                        );
                    }
                    lemma_aligned_floor(last.address + ps, a, ps);
                    assert(last.address + ps <= info.base_address);
                }
                assert forall|i: int, j: int| 0 <= i < j < p.len() implies (#[trigger] p[i]).address
                    + ps <= (#[trigger] p[j]).address by {
                    if j == n {
                        assert(p[i] == st.pages[i]);
                        if i < n - 1 {
                            assert(st.pages[i].address + ps <= st.pages[n - 1].address);
                        }
                    } else {
                        assert(p[i] == st.pages[i]);
                        assert(p[j] == st.pages[j]);
                    }
                }
                assert forall|i: int| 0 <= i < p.len() implies (#[trigger] p[i]).size == ps && (
                p[i].address as int) % ps == 0 by {
                    if i < n {
                        assert(p[i] == st.pages[i]);
                    }
                }
                lemma_copy_order(algo, fill, next, a, data);
            },
        }
    }
}

proof fn lemma_copy_order<F: PageFiller>(
    algo: FlashAlgorithm,
    fill: F,
    st: LayoutView,
    a: int,
    data: Seq<u8>,
)
    requires
        algo.valid(),
        pages_ordered(st.pages, algo.flash_properties.page_size as int),
        0 <= a,
        a + data.len() <= 0x1_0000_0000,
    ensures
        copy_to_page(algo, fill, st, a, data) matches Ok(next) ==> pages_ordered(
            next.pages,
            algo.flash_properties.page_size as int,
        ),
    decreases data.len(), 0int,
{
    let last = st.pages.last();
    let base = pad_data(fill, last, a - last.address);
    let room = last.size - base.len();
    let amount = if room < data.len() {
        room
    } else {
        data.len() as int
    };
    if st.pages.len() == 0 || amount <= 0 {
    } else {
        let next = st.set_last_data(base + data.take(amount));
        lemma_set_last_keeps_order(st, base + data.take(amount), algo.flash_properties.page_size as int);
        lemma_place_order(algo, fill, next, a + amount, data.skip(amount));
    }
}

proof fn lemma_place_all_order<F: PageFiller>(
    algo: FlashAlgorithm,
    fill: F,
    st: LayoutView,
    writes: Seq<WriteView>,
)
    requires
        algo.valid(),
        writes_sorted(writes),
        pages_ordered(st.pages, algo.flash_properties.page_size as int),
    ensures
        place_all(algo, fill, st, writes) matches Ok(next) ==> pages_ordered(
            next.pages,
            algo.flash_properties.page_size as int,
        ),
    decreases writes.len(),
{
    if writes.len() > 0 {
        let rest = writes.drop_first();
        assert(writes[0].0 + writes[0].1.len() <= 0x1_0000_0000);
        lemma_place_order(algo, fill, st, writes[0].0 as int, writes[0].1);
        assert(forall|k: int| 0 <= k < rest.len() ==> rest[k] == writes[k + 1]);
        match place(algo, fill, st, writes[0].0 as int, writes[0].1) {
            Err(_) => {},
            Ok(next) => {
                assert forall|k: int| 0 <= k < rest.len() implies #[trigger] rest[k].0
                    + rest[k].1.len() <= 0x1_0000_0000 by {
                    assert(rest[k] == writes[k + 1]);
                }
                lemma_place_all_order(algo, fill, next, rest);
            },
        }
    }
}

/// Pages never overlap: in every layout, each page is one page long, aligned
/// to the page size, and ends at or before the start of every later page.
pub proof fn lemma_layout_pages_ordered<F: PageFiller>(
    algo: FlashAlgorithm,
    fill: F,
    writes: Seq<WriteView>,
)
    requires
        algo.valid(),
        writes_sorted(writes),
    ensures
        spec_layout(algo, fill, writes) matches Ok(layout) ==> pages_ordered(
            layout.pages,
            algo.flash_properties.page_size as int,
        ),
{
    lemma_place_all_order(algo, fill, LayoutView::empty(), writes);
    match place_all(algo, fill, LayoutView::empty(), writes) {
        Err(_) => {},
        Ok(st) => {
            if st.pages.len() > 0 {
                lemma_set_last_keeps_order(
                    st,
                    filled_data(fill, st.pages.last()),
                    algo.flash_properties.page_size as int,
                );
            }
        },
    }
}


/// Every page but the last is complete, and the last one is not over-full.
pub open spec fn full_but_last(pages: Seq<PageView>) -> bool {
    &&& forall|i: int| 0 <= i < pages.len() - 1 ==> (#[trigger] pages[i]).data.len() == pages[i].size
    &&& pages.len() > 0 ==> pages.last().data.len() <= pages.last().size
}

proof fn lemma_fill_last_full<F: PageFiller>(st: LayoutView, fill: F)
    requires
        fill.spec_pads(),
        st.pages.len() > 0,
        full_but_last(st.pages),
    ensures
        forall|i: int| 0 <= i < st.pages.len() ==> (#[trigger] st.set_last_data(
            filled_data(fill, st.pages.last()),
        ).pages[i]).data.len() == st.pages[i].size,
{
    let last = st.pages.last();
    lemma_pad_data(fill, last, last.size as int);
    let q = st.set_last_data(filled_data(fill, last)).pages;
    assert forall|i: int| 0 <= i < st.pages.len() implies (#[trigger] q[i]).data.len() == st.pages[i].size by {
        if i < st.pages.len() - 1 {
            assert(q[i] == st.pages[i]);
        }
    }
}

proof fn lemma_place_full<F: PageFiller>(algo: FlashAlgorithm, fill: F, st: LayoutView, a: int, data: Seq<u8>)
    requires
        fill.spec_pads(),
        full_but_last(st.pages),
    ensures
        place(algo, fill, st, a, data) matches Ok(next) ==> full_but_last(next.pages),
    decreases data.len(), 3int,
{
    if data.len() == 0 {
    } else if st.sectors.len() == 0 || a >= st.last_sector_end() {
        match algo.spec_sector_info(a as u32) {
            None => {},
            Some(info) => {
                lemma_place_in_sector_full(algo, fill, st.push_sector(info), a, data);
            },
        }
    } else {
        lemma_place_in_sector_full(algo, fill, st, a, data);
    }
}

proof fn lemma_place_in_sector_full<F: PageFiller>(
    algo: FlashAlgorithm,
    fill: F,
    st: LayoutView,
    a: int,
    data: Seq<u8>,
)
    requires
        fill.spec_pads(),
        full_but_last(st.pages),
    ensures
        place_in_sector(algo, fill, st, a, data) matches Ok(next) ==> full_but_last(next.pages),
    decreases data.len(), 2int,
{
    if data.len() == 0 {
    } else if st.pages.len() == 0 {
        lemma_new_page_full(algo, fill, st, a, data);
    } else if a >= st.last_page_end() {
        lemma_fill_last_full(st, fill);
        let next = st.set_last_data(filled_data(fill, st.pages.last()));
        assert forall|i: int| 0 <= i < next.pages.len() implies (#[trigger] next.pages[i]).data.len()
            == next.pages[i].size by {
            assert(next.pages[i].size == st.pages[i].size);
        }
        lemma_new_page_full(algo, fill, next, a, data);
    } else {
        lemma_copy_full(algo, fill, st, a, data);
    }
}

proof fn lemma_new_page_full<F: PageFiller>(algo: FlashAlgorithm, fill: F, st: LayoutView, a: int, data: Seq<u8>)
    requires
        fill.spec_pads(),
        forall|i: int| 0 <= i < st.pages.len() ==> (#[trigger] st.pages[i]).data.len() == st.pages[i].size,
    ensures
        place_in_new_page(algo, fill, st, a, data) matches Ok(next) ==> full_but_last(next.pages),
    decreases data.len(), 1int,
{
    if data.len() > 0 {
        match algo.spec_page_info(a as u32) {
            None => {},
            Some(info) => {
                let next = st.push_page(info);
                assert forall|i: int| 0 <= i < next.pages.len() - 1 implies (#[trigger] next.pages[i]).data.len()
                    == next.pages[i].size by {
                    assert(next.pages[i] == st.pages[i]);
                }
                lemma_copy_full(algo, fill, next, a, data);
            },
        }
    }
}

proof fn lemma_copy_full<F: PageFiller>(algo: FlashAlgorithm, fill: F, st: LayoutView, a: int, data: Seq<u8>)
    requires
        fill.spec_pads(),
        full_but_last(st.pages),
    ensures
        copy_to_page(algo, fill, st, a, data) matches Ok(next) ==> full_but_last(next.pages),
    decreases data.len(), 0int,
{
    let last = st.pages.last();
    let base = pad_data(fill, last, a - last.address);
    lemma_pad_data(fill, last, a - last.address);
    let room = last.size - base.len();
    let amount = if room < data.len() {
        room
    } else {
        data.len() as int
    };
    if st.pages.len() > 0 && amount > 0 {
        let next = st.set_last_data(base + data.take(amount));
        assert forall|i: int| 0 <= i < next.pages.len() - 1 implies (#[trigger] next.pages[i]).data.len()
            == next.pages[i].size by {
            assert(next.pages[i] == st.pages[i]);
        }
        lemma_place_full(algo, fill, next, a + amount, data.skip(amount));
    }
}

proof fn lemma_place_all_full<F: PageFiller>(algo: FlashAlgorithm, fill: F, st: LayoutView, writes: Seq<WriteView>)
    requires
        fill.spec_pads(),
        full_but_last(st.pages),
    ensures
        place_all(algo, fill, st, writes) matches Ok(next) ==> full_but_last(next.pages),
    decreases writes.len(),
{
    if writes.len() > 0 {
        lemma_place_full(algo, fill, st, writes[0].0 as int, writes[0].1);
        match place(algo, fill, st, writes[0].0 as int, writes[0].1) {
            Err(_) => {},
            Ok(next) => {
                lemma_place_all_full(algo, fill, next, writes.drop_first());
            },
        }
    }
}

/// With a filler that pads, every page of a layout is complete: it holds
/// exactly as many bytes as the page is long.
pub proof fn lemma_layout_pages_full<F: PageFiller>(algo: FlashAlgorithm, fill: F, writes: Seq<WriteView>)
    requires
        fill.spec_pads(),
    ensures
        spec_layout(algo, fill, writes) matches Ok(layout) ==> forall|i: int|
            0 <= i < layout.pages.len() ==> (#[trigger] layout.pages[i]).data.len() == layout.pages[i].size,
{
    lemma_place_all_full(algo, fill, LayoutView::empty(), writes);
    match place_all(algo, fill, LayoutView::empty(), writes) {
        Err(_) => {},
        Ok(st) => {
            if st.pages.len() > 0 {
                lemma_fill_last_full(st, fill);
            }
        },
    }
}


/// The sector runs start in ascending order, each at a whole number of
/// sectors of every earlier run past that run's start.
pub open spec fn runs_aligned(algo: FlashAlgorithm) -> bool {
    let runs = algo.flash_properties.sectors@;
    forall|i: int, j: int|
        #![trigger runs[i], runs[j]]
        0 <= i < j < runs.len() ==> runs[i].address < runs[j].address && (runs[j].address
            - runs[i].address) % (runs[i].size as int) == 0
}

proof fn lemma_floor_at_least(x: int, s: int, m: int)
    requires
        s > 0,
        x >= 0,
        m >= 0,
        m * s <= x,
    ensures
        x / s >= m,
        (x / s) * s <= x,
{
    assert(x / s >= m && (x / s) * s <= x) by (nonlinear_arith)
        requires
            s > 0,
            x >= 0,
            m >= 0,
            m * s <= x,
    {
        vstd::arithmetic::div_mod::lemma_fundamental_div_mod(x, s);
        if x / s < m {
            assert(x / s + 1 <= m);
            assert((x / s + 1) * s <= m * s);
        }
    }
}

proof fn lemma_multiple_above(d: int, s: int, q: int, off: int)
    requires
        s > 0,
        q >= 0,
        d % s == 0,
        d > off,
        q * s <= off,
        d >= 0,
    ensures
        d >= (q + 1) * s,
{
    assert(d >= (q + 1) * s) by (nonlinear_arith)
        requires
            s > 0,
            q >= 0,
            d % s == 0,
            d > off,
            q * s <= off,
            d >= 0,
    {
        vstd::arithmetic::div_mod::lemma_fundamental_div_mod(d, s);
        let k = d / s;
        assert(d == s * k);
        if k <= q {
            assert(s * k <= s * q);
        }
    }
}

/// The sector of an address at or past the end of an earlier address's
/// sector starts at or past that end.
pub proof fn lemma_sector_after(algo: FlashAlgorithm, a1: u32, a2: u32)
    requires
        algo.valid(),
        runs_aligned(algo),
        algo.spec_sector_info(a1) is Some,
        algo.spec_sector_info(a2) is Some,
        a2 >= algo.spec_sector_info(a1)->0.base_address + algo.spec_sector_info(a1)->0.size,
    ensures
        algo.spec_sector_info(a2)->0.base_address >= algo.spec_sector_info(a1)->0.base_address
            + algo.spec_sector_info(a1)->0.size,
        algo.spec_sector_info(a1)->0.base_address <= a1 < algo.spec_sector_info(a1)->0.base_address
            + algo.spec_sector_info(a1)->0.size,
        algo.spec_sector_info(a1)->0.size > 0,
{
    let runs = algo.flash_properties.sectors@;
    let start = algo.flash_properties.address_range.start as int;
    let off1 = a1 - start;
    let off2 = a2 - start;
    lemma_find_sector_run(runs, off1);
    lemma_find_sector_run(runs, off2);
    let j1 = algo.sector_run_of(a1)->0;
    let j2 = algo.sector_run_of(a2)->0;
    let r1 = runs[j1];
    let r2 = runs[j2];
    let s1 = r1.size as int;
    let s2 = r2.size as int;
    let q1 = (off1 - r1.address) / s1;
    let q2 = (off2 - r2.address) / s2;
    lemma_floor_at_least(off1 - r1.address, s1, 0);
    lemma_floor_at_least(off2 - r2.address, s2, 0);
    assert(off1 - r1.address < (q1 + 1) * s1) by (nonlinear_arith)
        requires
            s1 > 0,
            q1 == (off1 - r1.address) / s1,
    {
        vstd::arithmetic::div_mod::lemma_fundamental_div_mod(off1 - r1.address, s1);
    }
    let b1 = start + r1.address + q1 * s1;
    assert(q1 * s1 <= off1 - r1.address);
    assert(b1 <= a1);
    assert((q1 + 1) * s1 == q1 * s1 + s1) by (nonlinear_arith);
    assert(a1 < b1 + s1);
    assert(algo.spec_sector_info(a1)->0.base_address == b1);
    let e = b1 + s1;
    if j2 < j1 {
        assert(runs[j1].address > off2);
    } else if j2 == j1 {
        assert((q1 + 1) * s1 == q1 * s1 + s1) by (nonlinear_arith);
        lemma_floor_at_least(off2 - r1.address, s1, q1 + 1);
        assert(q2 * s2 >= (q1 + 1) * s1) by (nonlinear_arith)
            requires
                s1 == s2,
                s1 > 0,
                q2 >= q1 + 1,
        ;
    } else {
        assert(runs[j2].address > off1);
        lemma_multiple_above(r2.address - r1.address, s1, q1, off1 - r1.address);
        assert((q1 + 1) * s1 == q1 * s1 + s1) by (nonlinear_arith);
        assert(q2 * s2 >= 0) by (nonlinear_arith)
            requires
                q2 >= 0,
                s2 > 0,
        ;
    }
}


/// The sector is the one that the flash algorithm gives for some address.
pub open spec fn sector_from_address(algo: FlashAlgorithm, sector: FlashSector) -> bool {
    exists|x: u32| #[trigger] algo.spec_sector_info(x) is Some && sector == sector_of(algo.spec_sector_info(x)->0)
}

/// Each sector ends at or before the start of every later one, and each is
/// the sector of some address.
pub open spec fn sectors_ok(algo: FlashAlgorithm, sectors: Seq<FlashSector>) -> bool {
    &&& forall|i: int, j: int|
        #![trigger sectors[i], sectors[j]]
        0 <= i < j < sectors.len() ==> sectors[i].address + sectors[i].size <= sectors[j].address
    &&& forall|i: int| 0 <= i < sectors.len() ==> sector_from_address(algo, #[trigger] sectors[i])
}

proof fn lemma_place_sectors<F: PageFiller>(
    algo: FlashAlgorithm,
    fill: F,
    st: LayoutView,
    a: int,
    data: Seq<u8>,
)
    requires
        algo.valid(),
        runs_aligned(algo),
        sectors_ok(algo, st.sectors),
        0 <= a,
        a + data.len() <= 0x1_0000_0000,
    ensures
        place(algo, fill, st, a, data) matches Ok(next) ==> sectors_ok(algo, next.sectors),
    decreases data.len(), 3int,
{
    if data.len() == 0 {
    } else if st.sectors.len() == 0 || a >= st.last_sector_end() {
        match algo.spec_sector_info(a as u32) {
            None => {},
            Some(info) => {
                let mid = st.push_sector(info);
                let n = st.sectors.len() as int;
                let x = a as u32;
                assert(algo.spec_sector_info(x) is Some && mid.sectors[n] == sector_of(algo.spec_sector_info(x)->0));
                if n > 0 {
                    let last = st.sectors[n - 1];
                    assert(sector_from_address(algo, last));
                    let y = choose|y: u32| #[trigger] algo.spec_sector_info(y) is Some && last == sector_of(algo.spec_sector_info(y)->0);
                    lemma_sector_after(algo, y, x);
                }
                assert forall|i: int, j: int|
                    #![trigger mid.sectors[i], mid.sectors[j]]
                    0 <= i < j < mid.sectors.len() implies mid.sectors[i].address + mid.sectors[i].size
                        <= mid.sectors[j].address by {
                    if j == n {
                        assert(mid.sectors[i] == st.sectors[i]);
                        if i < n - 1 {
                            assert(st.sectors[i].address + st.sectors[i].size <= st.sectors[n - 1].address);
                        }
                    } else {
                        assert(mid.sectors[i] == st.sectors[i] && mid.sectors[j] == st.sectors[j]);
                    }
                }
                assert forall|i: int| 0 <= i < mid.sectors.len() implies sector_from_address(
                    algo,
                    #[trigger] mid.sectors[i],
                ) by {
                    if i < n {
                        assert(mid.sectors[i] == st.sectors[i]);
                    }
                }
                lemma_sector_sectors(algo, fill, mid, a, data);
            },
        }
    } else {
        lemma_sector_sectors(algo, fill, st, a, data);
    }
}

proof fn lemma_sector_sectors<F: PageFiller>(
    algo: FlashAlgorithm,
    fill: F,
    st: LayoutView,
    a: int,
    data: Seq<u8>,
)
    requires
        algo.valid(),
        runs_aligned(algo),
        sectors_ok(algo, st.sectors),
        0 <= a,
        a + data.len() <= 0x1_0000_0000,
    ensures
        place_in_sector(algo, fill, st, a, data) matches Ok(next) ==> sectors_ok(algo, next.sectors),
    decreases data.len(), 2int,
{
    if data.len() == 0 {
    } else if st.pages.len() == 0 {
        lemma_new_page_sectors(algo, fill, st, a, data);
    } else if a >= st.last_page_end() {
        lemma_new_page_sectors(algo, fill, st.set_last_data(filled_data(fill, st.pages.last())), a, data);
    } else {
        lemma_copy_sectors(algo, fill, st, a, data);
    }
}

proof fn lemma_new_page_sectors<F: PageFiller>(
    algo: FlashAlgorithm,
    fill: F,
    st: LayoutView,
    a: int,
    data: Seq<u8>,
)
    requires
        algo.valid(),
        runs_aligned(algo),
        sectors_ok(algo, st.sectors),
        0 <= a,
        a + data.len() <= 0x1_0000_0000,
    ensures
        place_in_new_page(algo, fill, st, a, data) matches Ok(next) ==> sectors_ok(algo, next.sectors),
    decreases data.len(), 1int,
{
    if data.len() > 0 {
        match algo.spec_page_info(a as u32) {
            None => {},
            Some(info) => {
                lemma_copy_sectors(algo, fill, st.push_page(info), a, data);
            },
        }
    }
}

proof fn lemma_copy_sectors<F: PageFiller>(
    algo: FlashAlgorithm,
    fill: F,
    st: LayoutView,
    a: int,
    data: Seq<u8>,
)
    requires
        algo.valid(),
        runs_aligned(algo),
        sectors_ok(algo, st.sectors),
        0 <= a,
        a + data.len() <= 0x1_0000_0000,
    ensures
        copy_to_page(algo, fill, st, a, data) matches Ok(next) ==> sectors_ok(algo, next.sectors),
    decreases data.len(), 0int,
{
    let last = st.pages.last();
    let base = pad_data(fill, last, a - last.address);
    let room = last.size - base.len();
    let amount = if room < data.len() {
        room
    } else {
        data.len() as int
    };
    if st.pages.len() > 0 && amount > 0 {
        lemma_place_sectors(algo, fill, st.set_last_data(base + data.take(amount)), a + amount, data.skip(amount));
    }
}

proof fn lemma_place_all_sectors<F: PageFiller>(
    algo: FlashAlgorithm,
    fill: F,
    st: LayoutView,
    writes: Seq<WriteView>,
)
    requires
        algo.valid(),
        runs_aligned(algo),
        writes_sorted(writes),
        sectors_ok(algo, st.sectors),
    ensures
        place_all(algo, fill, st, writes) matches Ok(next) ==> sectors_ok(algo, next.sectors),
    decreases writes.len(),
{
    if writes.len() > 0 {
        let rest = writes.drop_first();
        assert(writes[0].0 + writes[0].1.len() <= 0x1_0000_0000);
        lemma_place_sectors(algo, fill, st, writes[0].0 as int, writes[0].1);
        match place(algo, fill, st, writes[0].0 as int, writes[0].1) {
            Err(_) => {},
            Ok(next) => {
                assert forall|i: int, j: int| 0 <= i < j < rest.len() implies rest[i].0 < rest[j].0 by {
                    assert(rest[i] == writes[i + 1] && rest[j] == writes[j + 1]);
                }
                assert forall|i: int| 0 <= i < rest.len() implies #[trigger] rest[i].0 + rest[i].1.len()
                    <= 0x1_0000_0000 by {
                    assert(rest[i] == writes[i + 1]);
                }
                lemma_place_all_sectors(algo, fill, next, rest);
            },
        }
    }
}

/// Sectors never overlap: when the sector runs of the flash start in
/// ascending order, each at a whole number of sectors of every earlier run,
/// each sector of a layout ends at or before the start of every later one,
/// and each is the sector that the flash algorithm gives for some address.
pub proof fn lemma_layout_sectors_ordered<F: PageFiller>(
    algo: FlashAlgorithm,
    fill: F,
    writes: Seq<WriteView>,
)
    requires
        algo.valid(),
        runs_aligned(algo),
        writes_sorted(writes),
    ensures
        spec_layout(algo, fill, writes) matches Ok(layout) ==> sectors_ok(algo, layout.sectors),
{
    lemma_place_all_sectors(algo, fill, LayoutView::empty(), writes);
}


/// The flash and each sector run start at a multiple of the page size, and
/// each run's sectors are a whole number of pages long.
pub open spec fn pages_fit_sectors(algo: FlashAlgorithm) -> bool {
    let ps = algo.flash_properties.page_size as int;
    let runs = algo.flash_properties.sectors@;
    &&& (algo.flash_properties.address_range.start as int) % ps == 0
    &&& forall|i: int|
        0 <= i < runs.len() ==> ((#[trigger] runs[i]).address as int) % ps == 0 && (runs[i].size as int) % ps == 0
}

/// Every page lies within one of the sectors.
pub open spec fn pages_in_sectors(pages: Seq<PageView>, sectors: Seq<FlashSector>) -> bool {
    forall|j: int|
        0 <= j < pages.len() ==> exists|i: int|
            0 <= i < sectors.len() && #[trigger] sectors[i].address <= (#[trigger] pages[j]).address
                && pages[j].address + pages[j].size <= sectors[i].address + sectors[i].size
}

/// Every sector starts at a multiple of `ps` and is a multiple of `ps` long.
pub open spec fn sectors_page_aligned(sectors: Seq<FlashSector>, ps: int) -> bool {
    forall|i: int|
        0 <= i < sectors.len() ==> ((#[trigger] sectors[i]).address as int) % ps == 0 && (sectors[i].size as int)
            % ps == 0
}

/// The pages lie in sectors aligned to pages, and the last sector starts at
/// or before `address`.
pub open spec fn within_sectors(st: LayoutView, ps: int, address: int) -> bool {
    &&& sectors_page_aligned(st.sectors, ps)
    &&& pages_in_sectors(st.pages, st.sectors)
    &&& st.sectors.len() > 0 ==> st.sectors.last().address <= address
}

proof fn lemma_sum_of_multiples(x: int, y: int, q: int, s: int, ps: int)
    requires
        ps > 0,
        x % ps == 0,
        y % ps == 0,
        s % ps == 0,
        q >= 0,
        s >= 0,
    ensures
        (x + y + q * s) % ps == 0,
{
    vstd::arithmetic::div_mod::lemma_fundamental_div_mod(x, ps);
    vstd::arithmetic::div_mod::lemma_fundamental_div_mod(y, ps);
    vstd::arithmetic::div_mod::lemma_fundamental_div_mod(s, ps);
    let k = x / ps + y / ps + q * (s / ps);
    assert(x + y + q * s == k * ps) by (nonlinear_arith)
        requires
            x == ps * (x / ps),
            y == ps * (y / ps),
            s == ps * (s / ps),
            k == x / ps + y / ps + q * (s / ps),
    ;
    vstd::arithmetic::div_mod::lemma_mod_multiples_basic(k, ps);
}

/// The sector of an address holds it, and with runs that fit pages it starts
/// at a multiple of the page size and is a multiple of it long.
proof fn lemma_sector_holds(algo: FlashAlgorithm, a: u32)
    requires
        algo.valid(),
        pages_fit_sectors(algo),
        algo.spec_sector_info(a) is Some,
    ensures
        ({
            let info = algo.spec_sector_info(a)->0;
            let ps = algo.flash_properties.page_size as int;
            &&& info.base_address <= a < info.base_address + info.size
            &&& (info.base_address as int) % ps == 0
            &&& (info.size as int) % ps == 0
        }),
{
    let runs = algo.flash_properties.sectors@;
    let start = algo.flash_properties.address_range.start as int;
    let off = a - start;
    lemma_find_sector_run(runs, off);
    let j = algo.sector_run_of(a)->0;
    let r = runs[j];
    let s = r.size as int;
    let q = (off - r.address) / s;
    lemma_floor_at_least(off - r.address, s, 0);
    assert(off - r.address < (q + 1) * s) by (nonlinear_arith)
        requires
            s > 0,
            q == (off - r.address) / s,
    {
        vstd::arithmetic::div_mod::lemma_fundamental_div_mod(off - r.address, s);
    }
    assert((q + 1) * s == q * s + s) by (nonlinear_arith);
    lemma_sum_of_multiples(start, r.address as int, q, s, algo.flash_properties.page_size as int);
}

/// A page of the page size, aligned to it, that holds `a` lies in a sector
/// aligned to pages that holds `a`.
proof fn lemma_page_in_sector(b: int, size: int, a: int, ps: int)
    requires
        ps > 0,
        b >= 0,
        b % ps == 0,
        size % ps == 0,
        b <= a < b + size,
    ensures
        b <= a - a % ps,
        a - a % ps + ps <= b + size,
{
    lemma_aligned_floor(b, a, ps);
    let f = a - a % ps;
    assert(0 <= a % ps < ps && f % ps == 0) by (nonlinear_arith)
        requires
            ps > 0,
            a >= 0,
            f == a - a % ps,
    {
        vstd::arithmetic::div_mod::lemma_fundamental_div_mod(a, ps);
        vstd::arithmetic::div_mod::lemma_mod_multiples_basic(a / ps, ps);
    }
    let m = b + size;
    assert((m - f) % ps == 0) by (nonlinear_arith)
        requires
            ps > 0,
            b % ps == 0,
            size % ps == 0,
            f % ps == 0,
            m == b + size,
    {
        vstd::arithmetic::div_mod::lemma_fundamental_div_mod(b, ps);
        vstd::arithmetic::div_mod::lemma_fundamental_div_mod(size, ps);
        vstd::arithmetic::div_mod::lemma_fundamental_div_mod(f, ps);
        let k = b / ps + size / ps - f / ps;
        assert(m - f == k * ps);
        vstd::arithmetic::div_mod::lemma_mod_multiples_basic(k, ps);
    }
    lemma_multiple_above(m - f, ps, 0, a - f);
}

proof fn lemma_place_within<F: PageFiller>(
    algo: FlashAlgorithm,
    fill: F,
    st: LayoutView,
    a: int,
    data: Seq<u8>,
)
    requires
        algo.valid(),
        pages_fit_sectors(algo),
        within_sectors(st, algo.flash_properties.page_size as int, a),
        0 <= a,
        a + data.len() <= 0x1_0000_0000,
    ensures
        place(algo, fill, st, a, data) matches Ok(next) ==> within_sectors(
            next,
            algo.flash_properties.page_size as int,
            a + data.len(),
        ),
    decreases data.len(), 3int,
{
    let ps = algo.flash_properties.page_size as int;
    if data.len() == 0 {
    } else if st.sectors.len() == 0 || a >= st.last_sector_end() {
        match algo.spec_sector_info(a as u32) {
            None => {},
            Some(info) => {
                lemma_sector_holds(algo, a as u32);
                let mid = st.push_sector(info);
                let n = st.sectors.len() as int;
                assert forall|i: int| 0 <= i < mid.sectors.len() implies ((#[trigger] mid.sectors[i]).address as int) % ps
                    == 0 && (mid.sectors[i].size as int) % ps == 0 by {
                    if i < n {
                        assert(mid.sectors[i] == st.sectors[i]);
                    }
                }
                assert forall|j: int| 0 <= j < mid.pages.len() implies exists|i: int|
                    0 <= i < mid.sectors.len() && #[trigger] mid.sectors[i].address <= (#[trigger] mid.pages[j]).address
                        && mid.pages[j].address + mid.pages[j].size <= mid.sectors[i].address
                        + mid.sectors[i].size by {
                    let i = choose|i: int|
                        0 <= i < st.sectors.len() && #[trigger] st.sectors[i].address <= (#[trigger] st.pages[j]).address
                            && st.pages[j].address + st.pages[j].size <= st.sectors[i].address
                            + st.sectors[i].size;
                    assert(mid.sectors[i] == st.sectors[i]);
                }
                lemma_sector_within(algo, fill, mid, a, data);
            },
        }
    } else {
        lemma_sector_within(algo, fill, st, a, data);
    }
}

proof fn lemma_sector_within<F: PageFiller>(
    algo: FlashAlgorithm,
    fill: F,
    st: LayoutView,
    a: int,
    data: Seq<u8>,
)
    requires
        algo.valid(),
        pages_fit_sectors(algo),
        within_sectors(st, algo.flash_properties.page_size as int, a),
        st.sectors.len() > 0,
        a < st.last_sector_end(),
        0 <= a,
        a + data.len() <= 0x1_0000_0000,
    ensures
        place_in_sector(algo, fill, st, a, data) matches Ok(next) ==> within_sectors(
            next,
            algo.flash_properties.page_size as int,
            a + data.len(),
        ),
    decreases data.len(), 2int,
{
    let ps = algo.flash_properties.page_size as int;
    if data.len() == 0 {
    } else if st.pages.len() == 0 {
        lemma_new_page_within(algo, fill, st, a, data);
    } else if a >= st.last_page_end() {
        let mid = st.set_last_data(filled_data(fill, st.pages.last()));
        assert forall|j: int| 0 <= j < mid.pages.len() implies exists|i: int|
            0 <= i < mid.sectors.len() && #[trigger] mid.sectors[i].address <= (#[trigger] mid.pages[j]).address
                && mid.pages[j].address + mid.pages[j].size <= mid.sectors[i].address + mid.sectors[i].size by {
            assert(mid.pages[j].address == st.pages[j].address && mid.pages[j].size == st.pages[j].size);
            let i = choose|i: int|
                0 <= i < st.sectors.len() && #[trigger] st.sectors[i].address <= (#[trigger] st.pages[j]).address
                    && st.pages[j].address + st.pages[j].size <= st.sectors[i].address + st.sectors[i].size;
            assert(mid.sectors[i] == st.sectors[i]);
        }
        lemma_new_page_within(algo, fill, mid, a, data);
    } else {
        lemma_copy_within(algo, fill, st, a, data);
    }
}

proof fn lemma_new_page_within<F: PageFiller>(
    algo: FlashAlgorithm,
    fill: F,
    st: LayoutView,
    a: int,
    data: Seq<u8>,
)
    requires
        algo.valid(),
        pages_fit_sectors(algo),
        within_sectors(st, algo.flash_properties.page_size as int, a),
        st.sectors.len() > 0,
        a < st.last_sector_end(),
        0 <= a,
        a + data.len() <= 0x1_0000_0000,
    ensures
        place_in_new_page(algo, fill, st, a, data) matches Ok(next) ==> within_sectors(
            next,
            algo.flash_properties.page_size as int,
            a + data.len(),
        ),
    decreases data.len(), 1int,
{
    let ps = algo.flash_properties.page_size as int;
    if data.len() > 0 {
        lemma_page_info_below(algo, a);
        match algo.spec_page_info(a as u32) {
            None => {},
            Some(info) => {
                let mid = st.push_page(info);
                let n = st.sectors.len() as int;
                let last = st.sectors[n - 1];
                assert(last == st.sectors.last());
                assert((last.address as int) % ps == 0 && (last.size as int) % ps == 0);
                lemma_page_in_sector(last.address as int, last.size as int, a, ps);
                assert(info.base_address == a - a % ps);
                assert forall|j: int| 0 <= j < mid.pages.len() implies exists|i: int|
                    0 <= i < mid.sectors.len() && #[trigger] mid.sectors[i].address <= (#[trigger] mid.pages[j]).address
                        && mid.pages[j].address + mid.pages[j].size <= mid.sectors[i].address
                        + mid.sectors[i].size by {
                    if j < st.pages.len() {
                        assert(mid.pages[j] == st.pages[j]);
                        let i = choose|i: int|
                            0 <= i < st.sectors.len() && #[trigger] st.sectors[i].address <= (#[trigger] st.pages[j]).address
                                && st.pages[j].address + st.pages[j].size <= st.sectors[i].address
                                + st.sectors[i].size;
                        assert(mid.sectors[i] == st.sectors[i]);
                    } else {
                        assert(mid.sectors[n - 1] == last);
                        assert(mid.sectors[n - 1].address <= mid.pages[j].address);
                    }
                }
                lemma_copy_within(algo, fill, mid, a, data);
            },
        }
    }
}

proof fn lemma_copy_within<F: PageFiller>(
    algo: FlashAlgorithm,
    fill: F,
    st: LayoutView,
    a: int,
    data: Seq<u8>,
)
    requires
        algo.valid(),
        pages_fit_sectors(algo),
        within_sectors(st, algo.flash_properties.page_size as int, a),
        0 <= a,
        a + data.len() <= 0x1_0000_0000,
    ensures
        copy_to_page(algo, fill, st, a, data) matches Ok(next) ==> within_sectors(
            next,
            algo.flash_properties.page_size as int,
            a + data.len(),
        ),
    decreases data.len(), 0int,
{
    let last = st.pages.last();
    let base = pad_data(fill, last, a - last.address);
    let room = last.size - base.len();
    let amount = if room < data.len() {
        room
    } else {
        data.len() as int
    };
    if st.pages.len() > 0 && amount > 0 {
        let mid = st.set_last_data(base + data.take(amount));
        assert forall|j: int| 0 <= j < mid.pages.len() implies exists|i: int|
            0 <= i < mid.sectors.len() && #[trigger] mid.sectors[i].address <= (#[trigger] mid.pages[j]).address
                && mid.pages[j].address + mid.pages[j].size <= mid.sectors[i].address + mid.sectors[i].size by {
            assert(mid.pages[j].address == st.pages[j].address && mid.pages[j].size == st.pages[j].size);
            let i = choose|i: int|
                0 <= i < st.sectors.len() && #[trigger] st.sectors[i].address <= (#[trigger] st.pages[j]).address
                    && st.pages[j].address + st.pages[j].size <= st.sectors[i].address + st.sectors[i].size;
            assert(mid.sectors[i] == st.sectors[i]);
        }
        lemma_place_within(algo, fill, mid, a + amount, data.skip(amount));
    }
}

proof fn lemma_place_all_within<F: PageFiller>(
    algo: FlashAlgorithm,
    fill: F,
    st: LayoutView,
    writes: Seq<WriteView>,
)
    requires
        algo.valid(),
        pages_fit_sectors(algo),
        writes_sorted(writes),
        writes_disjoint(writes),
        sectors_page_aligned(st.sectors, algo.flash_properties.page_size as int),
        pages_in_sectors(st.pages, st.sectors),
        writes.len() > 0 ==> within_sectors(st, algo.flash_properties.page_size as int, writes[0].0 as int),
    ensures
        place_all(algo, fill, st, writes) matches Ok(next) ==> pages_in_sectors(next.pages, next.sectors),
    decreases writes.len(),
{
    if writes.len() > 0 {
        let rest = writes.drop_first();
        let w = writes[0];
        assert(w.0 + w.1.len() <= 0x1_0000_0000);
        lemma_place_within(algo, fill, st, w.0 as int, w.1);
        match place(algo, fill, st, w.0 as int, w.1) {
            Err(_) => {},
            Ok(next) => {
                assert(forall|k: int| 0 <= k < rest.len() ==> rest[k] == writes[k + 1]);
                if rest.len() > 0 {
                    assert(!overlaps_at(writes, 1));
                }
                assert forall|i: int, j: int| 0 <= i < j < rest.len() implies rest[i].0 < rest[j].0 by {
                    assert(rest[i] == writes[i + 1] && rest[j] == writes[j + 1]);
                }
                assert forall|i: int| 0 <= i < rest.len() implies #[trigger] rest[i].0 + rest[i].1.len()
                    <= 0x1_0000_0000 by {
                    assert(rest[i] == writes[i + 1]);
                }
                assert forall|i: int| !#[trigger] overlaps_at(rest, i) by {
                    if 1 <= i < rest.len() {
                        assert(!overlaps_at(writes, i + 1));
                    }
                }
                lemma_place_all_within(algo, fill, next, rest);
            },
        }
    }
}

/// Every page lies within a sector: when the flash and its sector runs are
/// aligned to pages, each page of a layout lies wholly within one of the
/// layout's sectors.
pub proof fn lemma_layout_pages_in_sectors<F: PageFiller>(
    algo: FlashAlgorithm,
    fill: F,
    writes: Seq<WriteView>,
)
    requires
        algo.valid(),
        pages_fit_sectors(algo),
        writes_sorted(writes),
        writes_disjoint(writes),
    ensures
        spec_layout(algo, fill, writes) matches Ok(layout) ==> pages_in_sectors(layout.pages, layout.sectors),
{
    lemma_place_all_within(algo, fill, LayoutView::empty(), writes);
    match place_all(algo, fill, LayoutView::empty(), writes) {
        Err(_) => {},
        Ok(st) => {
            if st.pages.len() > 0 {
                let done = st.set_last_data(filled_data(fill, st.pages.last()));
                assert forall|j: int| 0 <= j < done.pages.len() implies exists|i: int|
                    0 <= i < done.sectors.len() && #[trigger] done.sectors[i].address <= (#[trigger] done.pages[j]).address
                        && done.pages[j].address + done.pages[j].size <= done.sectors[i].address
                        + done.sectors[i].size by {
                    assert(done.pages[j].address == st.pages[j].address && done.pages[j].size == st.pages[j].size);
                    let i = choose|i: int|
                        0 <= i < st.sectors.len() && #[trigger] st.sectors[i].address <= (#[trigger] st.pages[j]).address
                            && st.pages[j].address + st.pages[j].size <= st.sectors[i].address
                            + st.sectors[i].size;
                    assert(done.sectors[i] == st.sectors[i]);
                }
            }
        },
    }
}

/// Some block puts the byte `v` at `address`.
pub open spec fn covered_byte(writes: Seq<WriteView>, address: int, v: u8) -> bool {
    exists|i: int|
        #![trigger writes[i]]
        0 <= i < writes.len() && writes[i].0 <= address < writes[i].0 + writes[i].1.len() && writes[i].1[address
            - writes[i].0] == v
}

/// Some block holds `address`.
pub open spec fn written_at(writes: Seq<WriteView>, address: int) -> bool {
    exists|i: int|
        #![trigger writes[i]]
        0 <= i < writes.len() && writes[i].0 <= address < writes[i].0 + writes[i].1.len()
}

/// The byte `v` at `address` comes from a block or from the filler.
pub open spec fn byte_explained<F: PageFiller>(writes: Seq<WriteView>, fill: F, address: int, v: u8) -> bool {
    covered_byte(writes, address, v) || v == fill.spec_byte_at(address)
}

/// Every byte of the page comes from a block or from the filler.
pub open spec fn page_explained<F: PageFiller>(writes: Seq<WriteView>, fill: F, page: PageView) -> bool {
    forall|k: int| 0 <= k < page.data.len() ==> byte_explained(writes, fill, page.address + k, #[trigger] page.data[k])
}

/// Every byte of every page comes from a block or from the filler.
pub open spec fn pages_explained<F: PageFiller>(writes: Seq<WriteView>, fill: F, pages: Seq<PageView>) -> bool {
    forall|j: int| 0 <= j < pages.len() ==> page_explained(writes, fill, #[trigger] pages[j])
}

/// Every byte of `data`, placed from `address` on, is one that a block puts there.
pub open spec fn covers(writes: Seq<WriteView>, address: int, data: Seq<u8>) -> bool {
    forall|m: int| 0 <= m < data.len() ==> covered_byte(writes, address + m, #[trigger] data[m])
}

proof fn lemma_pad_explained<F: PageFiller>(writes: Seq<WriteView>, fill: F, page: PageView, upto: int)
    requires
        page_explained(writes, fill, page),
    ensures
        page_explained(writes, fill, PageView { address: page.address, size: page.size, data: pad_data(fill, page, upto) }),
{
    let d = pad_data(fill, page, upto);
    let q = PageView { address: page.address, size: page.size, data: d };
    assert forall|k: int| 0 <= k < d.len() implies byte_explained(writes, fill, q.address + k, #[trigger] d[k]) by {
        if k < page.data.len() {
            assert(d[k] == page.data[k]);
        } else {
            assert(d[k] == fill.spec_byte_at(page.address + page.data.len() + (k - page.data.len())));
        }
    }
}

proof fn lemma_set_last_explained<F: PageFiller>(writes: Seq<WriteView>, fill: F, st: LayoutView, data: Seq<u8>)
    requires
        st.pages.len() > 0,
        pages_explained(writes, fill, st.pages),
        page_explained(
            writes,
            fill,
            PageView { address: st.pages.last().address, size: st.pages.last().size, data: data },
        ),
    ensures
        pages_explained(writes, fill, st.set_last_data(data).pages),
{
    let q = st.set_last_data(data).pages;
    assert forall|j: int| 0 <= j < q.len() implies page_explained(writes, fill, #[trigger] q[j]) by {
        if j < st.pages.len() - 1 {
            assert(q[j] == st.pages[j]);
        }
    }
}

proof fn lemma_filled_explained<F: PageFiller>(writes: Seq<WriteView>, fill: F, st: LayoutView)
    requires
        st.pages.len() > 0,
        pages_explained(writes, fill, st.pages),
    ensures
        pages_explained(writes, fill, st.set_last_data(filled_data(fill, st.pages.last())).pages),
{
    let last = st.pages.last();
    assert(page_explained(writes, fill, last));
    lemma_pad_explained(writes, fill, last, last.size as int);
    if !fill.spec_pads() {
        assert(PageView { address: last.address, size: last.size, data: last.data } == last);
    }
    lemma_set_last_explained(writes, fill, st, filled_data(fill, last));
}

proof fn lemma_place_explained<F: PageFiller>(
    algo: FlashAlgorithm,
    fill: F,
    writes: Seq<WriteView>,
    st: LayoutView,
    a: int,
    data: Seq<u8>,
)
    requires
        algo.valid(),
        placing(st, a),
        0 <= a,
        a + data.len() <= 0x1_0000_0000,
        pages_explained(writes, fill, st.pages),
        covers(writes, a, data),
    ensures
        place(algo, fill, st, a, data) matches Ok(next) ==> pages_explained(writes, fill, next.pages),
    decreases data.len(), 3int,
{
    if data.len() == 0 {
    } else if st.sectors.len() == 0 || a >= st.last_sector_end() {
        match algo.spec_sector_info(a as u32) {
            None => {},
            Some(info) => {
                lemma_sector_explained(algo, fill, writes, st.push_sector(info), a, data);
            },
        }
    } else {
        lemma_sector_explained(algo, fill, writes, st, a, data);
    }
}

proof fn lemma_sector_explained<F: PageFiller>(
    algo: FlashAlgorithm,
    fill: F,
    writes: Seq<WriteView>,
    st: LayoutView,
    a: int,
    data: Seq<u8>,
)
    requires
        algo.valid(),
        placing(st, a),
        0 <= a,
        a + data.len() <= 0x1_0000_0000,
        pages_explained(writes, fill, st.pages),
        covers(writes, a, data),
    ensures
        place_in_sector(algo, fill, st, a, data) matches Ok(next) ==> pages_explained(writes, fill, next.pages),
    decreases data.len(), 2int,
{
    if data.len() == 0 {
    } else if st.pages.len() == 0 {
        lemma_new_page_explained(algo, fill, writes, st, a, data);
    } else if a >= st.last_page_end() {
        let last = st.pages.last();
        let filled = filled_data(fill, last);
        lemma_pad_data(fill, last, last.size as int);
        let mid = st.set_last_data(filled);
        lemma_filled_explained(writes, fill, st);
        assert forall|j: int| 0 <= j < mid.pages.len() implies 1 <= (#[trigger] mid.pages[j]).data.len()
            <= mid.pages[j].size by {
            if j < st.pages.len() - 1 {
                assert(mid.pages[j] == st.pages[j]);
            }
        }
        lemma_new_page_explained(algo, fill, writes, mid, a, data);
    } else {
        lemma_copy_explained(algo, fill, writes, st, a, data);
    }
}

proof fn lemma_new_page_explained<F: PageFiller>(
    algo: FlashAlgorithm,
    fill: F,
    writes: Seq<WriteView>,
    st: LayoutView,
    a: int,
    data: Seq<u8>,
)
    requires
        algo.valid(),
        pages_sane(st.pages),
        st.pages.len() > 0 ==> a >= st.last_page_end(),
        0 <= a,
        a + data.len() <= 0x1_0000_0000,
        data.len() > 0,
        pages_explained(writes, fill, st.pages),
        covers(writes, a, data),
    ensures
        place_in_new_page(algo, fill, st, a, data) matches Ok(next) ==> pages_explained(writes, fill, next.pages),
    decreases data.len(), 1int,
{
    lemma_page_info_below(algo, a);
    match algo.spec_page_info(a as u32) {
        None => {},
        Some(info) => {
            let mid = st.push_page(info);
            assert forall|j: int| 0 <= j < mid.pages.len() implies page_explained(writes, fill, #[trigger] mid.pages[j]) by {
                if j < st.pages.len() {
                    assert(mid.pages[j] == st.pages[j]);
                }
            }
            assert forall|j: int| 0 <= j < mid.pages.len() - 1 implies 1 <= (#[trigger] mid.pages[j]).data.len()
                <= mid.pages[j].size by {
                assert(mid.pages[j] == st.pages[j]);
            }
            lemma_copy_explained(algo, fill, writes, mid, a, data);
        },
    }
}

proof fn lemma_copy_explained<F: PageFiller>(
    algo: FlashAlgorithm,
    fill: F,
    writes: Seq<WriteView>,
    st: LayoutView,
    a: int,
    data: Seq<u8>,
)
    requires
        algo.valid(),
        st.pages.len() > 0,
        forall|j: int|
            0 <= j < st.pages.len() - 1 ==> 1 <= (#[trigger] st.pages[j]).data.len() <= st.pages[j].size,
        st.pages.last().data.len() <= st.pages.last().size,
        st.pages.last().address + st.pages.last().data.len() <= a < st.pages.last().address
            + st.pages.last().size,
        a + data.len() <= 0x1_0000_0000,
        data.len() > 0,
        pages_explained(writes, fill, st.pages),
        covers(writes, a, data),
    ensures
        copy_to_page(algo, fill, st, a, data) matches Ok(next) ==> pages_explained(writes, fill, next.pages),
    decreases data.len(), 0int,
{
    let last = st.pages.last();
    let base = pad_data(fill, last, a - last.address);
    lemma_pad_data(fill, last, a - last.address);
    assert(base.len() == a - last.address);
    let room = last.size - base.len();
    let amount = if room < data.len() {
        room
    } else {
        data.len() as int
    };
    let nd = base + data.take(amount);
    let mid = st.set_last_data(nd);
    let n = st.pages.len() - 1;
    assert(page_explained(writes, fill, last));
    lemma_pad_explained(writes, fill, last, a - last.address);
    let padded = PageView { address: last.address, size: last.size, data: base };
    let page = PageView { address: last.address, size: last.size, data: nd };
    assert forall|k: int| 0 <= k < nd.len() implies byte_explained(writes, fill, page.address + k, #[trigger] nd[k]) by {
        if k < base.len() {
            assert(nd[k] == base[k]);
            assert(byte_explained(writes, fill, padded.address + k, base[k]));
        } else {
            assert(nd[k] == data[k - base.len()]);
            assert(covered_byte(writes, a + (k - base.len()), data[k - base.len()]));
        }
    }
    lemma_set_last_explained(writes, fill, st, nd);
    assert(mid.pages[n] == page);
    assert(pages_sane(mid.pages)) by {
        assert forall|j: int| 0 <= j < mid.pages.len() implies 1 <= (#[trigger] mid.pages[j]).data.len()
            <= mid.pages[j].size by {
            if j < n {
                assert(mid.pages[j] == st.pages[j]);
            }
        }
    }
    let rest = data.skip(amount);
    assert forall|m: int| 0 <= m < rest.len() implies covered_byte(writes, (a + amount) + m, #[trigger] rest[m]) by {
        assert(rest[m] == data[amount + m]);
        assert(covered_byte(writes, a + (amount + m), data[amount + m]));
        assert(a + (amount + m) == (a + amount) + m);
    }
    if amount > 0 {
        lemma_place_explained(algo, fill, writes, mid, a + amount, rest);
    }
}

proof fn lemma_place_all_explained<F: PageFiller>(
    algo: FlashAlgorithm,
    fill: F,
    all: Seq<WriteView>,
    st: LayoutView,
    writes: Seq<WriteView>,
)
    requires
        algo.valid(),
        writes_sorted(writes),
        writes_disjoint(writes),
        pages_sane(st.pages),
        writes.len() > 0 ==> placing(st, writes[0].0 as int),
        pages_explained(all, fill, st.pages),
        forall|i: int| 0 <= i < writes.len() ==> covers(all, writes[i].0 as int, #[trigger] writes[i].1),
    ensures
        place_all(algo, fill, st, writes) matches Ok(next) ==> pages_explained(all, fill, next.pages),
    decreases writes.len(),
{
    if writes.len() > 0 {
        let rest = writes.drop_first();
        let w = writes[0];
        assert(w.0 + w.1.len() <= 0x1_0000_0000);
        assert(covers(all, w.0 as int, w.1));
        lemma_place_places(algo, fill, st, w.0 as int, w.1);
        lemma_place_explained(algo, fill, all, st, w.0 as int, w.1);
        match place(algo, fill, st, w.0 as int, w.1) {
            Err(_) => {},
            Ok(mid) => {
                assert(forall|k: int| 0 <= k < rest.len() ==> rest[k] == writes[k + 1]);
                if rest.len() > 0 {
                    assert(!overlaps_at(writes, 1));
                }
                assert forall|i: int, j: int| 0 <= i < j < rest.len() implies rest[i].0 < rest[j].0 by {
                    assert(rest[i] == writes[i + 1] && rest[j] == writes[j + 1]);
                }
                assert forall|i: int| 0 <= i < rest.len() implies #[trigger] rest[i].0 + rest[i].1.len()
                    <= 0x1_0000_0000 by {
                    assert(rest[i] == writes[i + 1]);
                }
                assert forall|i: int| !#[trigger] overlaps_at(rest, i) by {
                    if 1 <= i < rest.len() {
                        assert(!overlaps_at(writes, i + 1));
                    }
                }
                assert forall|i: int| 0 <= i < rest.len() implies covers(all, rest[i].0 as int, #[trigger] rest[i].1) by {
                    assert(rest[i] == writes[i + 1]);
                }
                lemma_place_all_explained(algo, fill, all, mid, rest);
            },
        }
    }
}

/// Every byte of a layout that no block writes comes from the filler: a page
/// holds, at each address that no block covers, the filler's byte for that
/// address.
pub proof fn lemma_layout_unwritten_bytes<F: PageFiller>(algo: FlashAlgorithm, fill: F, writes: Seq<WriteView>)
    requires
        algo.valid(),
        writes_sorted(writes),
        writes_disjoint(writes),
    ensures
        spec_layout(algo, fill, writes) matches Ok(layout) ==> forall|j: int, k: int|
            0 <= j < layout.pages.len() && 0 <= k < layout.pages[j].data.len() && !written_at(
                writes,
                layout.pages[j].address + k,
            ) ==> #[trigger] layout.pages[j].data[k] == fill.spec_byte_at(layout.pages[j].address + k),
{
    assert forall|i: int| 0 <= i < writes.len() implies covers(writes, writes[i].0 as int, #[trigger] writes[i].1) by {
        assert forall|m: int| 0 <= m < writes[i].1.len() implies covered_byte(
            writes,
            writes[i].0 as int + m,
            #[trigger] writes[i].1[m],
        ) by {
            assert(writes[i].1[(writes[i].0 as int + m) - writes[i].0] == writes[i].1[m]);
        }
    }
    lemma_place_all_explained(algo, fill, writes, LayoutView::empty(), writes);
    match place_all(algo, fill, LayoutView::empty(), writes) {
        Err(_) => {},
        Ok(st) => {
            if st.pages.len() > 0 {
                lemma_filled_explained(writes, fill, st);
            }
            match spec_layout(algo, fill, writes) {
                Err(_) => {},
                Ok(layout) => {
                    assert(pages_explained(writes, fill, layout.pages));
                    assert forall|j: int, k: int|
                        0 <= j < layout.pages.len() && 0 <= k < layout.pages[j].data.len() && !written_at(
                            writes,
                            layout.pages[j].address + k,
                        ) implies #[trigger] layout.pages[j].data[k] == fill.spec_byte_at(
                        layout.pages[j].address + k,
                    ) by {
                        assert(page_explained(writes, fill, layout.pages[j]));
                        assert(byte_explained(
                            writes,
                            fill,
                            layout.pages[j].address + k,
                            layout.pages[j].data[k],
                        ));
                    }
                },
            }
        },
    }
}

/// Keeping unwritten bytes: in a layout made with the bytes read back from
/// the flash, every byte that no block writes is the byte read back from its
/// own address, `contents[address - start]`, where the read covers it, and
/// the erased value elsewhere.
pub proof fn lemma_restore_keeps_flash_bytes(algo: FlashAlgorithm, flash: RestoreFill, writes: Seq<WriteView>)
    requires
        algo.valid(),
        writes_sorted(writes),
        writes_disjoint(writes),
    ensures
        spec_layout(algo, flash, writes) matches Ok(layout) ==> forall|j: int, k: int|
            0 <= j < layout.pages.len() && 0 <= k < layout.pages[j].data.len() && !written_at(
                writes,
                layout.pages[j].address + k,
            ) ==> {
                let a = layout.pages[j].address + k;
                &&& flash.start <= a < flash.start + flash.contents@.len() ==> #[trigger] layout.pages[j].data[k]
                    == flash.contents@[a - flash.start]
                &&& !(flash.start <= a < flash.start + flash.contents@.len()) ==> layout.pages[j].data[k]
                    == flash.erased_byte_value
            },
{
    lemma_layout_unwritten_bytes(algo, flash, writes);
}

} // verus!
