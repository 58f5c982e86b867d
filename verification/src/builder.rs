//! Turning blocks of data into the sectors to erase and the pages to program.

use vstd::prelude::*;
use crate::error::FlashError;
use crate::flash_algorithm::{lemma_sector_run_bounded, FlashAlgorithm, PageInfo, SectorInfo};
use crate::layout_laws::{block_placed, lemma_layout_places_bytes, pages_sane};

verus! {

/// One page of flash and the bytes to program into it.
#[derive(Clone, Debug)]
pub struct FlashPage {
    pub address: u32,
    pub size: u32,
    pub data: Vec<u8>,
}

/// A page as a mathematical value.
pub struct PageView {
    pub address: u32,
    pub size: u32,
    pub data: Seq<u8>,
}

impl View for FlashPage {
    type V = PageView;

    open spec fn view(&self) -> PageView {
        PageView { address: self.address, size: self.size, data: self.data@ }
    }
}

impl FlashPage {
    /// Creates an empty page from a `PageInfo`.
    pub fn new(page_info: &PageInfo) -> (page: Self)
        ensures
            page@ == (PageView {
                address: page_info.base_address,
                size: page_info.size,
                data: Seq::empty(),
            }),
    {
        FlashPage { address: page_info.base_address, size: page_info.size, data: Vec::new() }
    }
}

/// One sector of flash, the unit of erasing.
#[derive(Clone, Copy, Debug, PartialEq, Eq)]
pub struct FlashSector {
    pub address: u32,
    pub size: u32,
    pub page_size: u32,
}

pub open spec fn sector_of(info: SectorInfo) -> FlashSector {
    FlashSector { address: info.base_address, size: info.size, page_size: info.page_size }
}

impl FlashSector {
    /// Creates a flash sector from a `SectorInfo`.
    pub fn new(sector_info: &SectorInfo) -> (sector: Self)
        ensures
            sector == sector_of(*sector_info),
    {
        FlashSector {
            address: sector_info.base_address,
            size: sector_info.size,
            page_size: sector_info.page_size,
        }
    }
}

/// The sectors and pages of a flash layout, as mathematical values.
pub struct LayoutView {
    pub sectors: Seq<FlashSector>,
    pub pages: Seq<PageView>,
}

pub open spec fn pages_view(pages: Seq<FlashPage>) -> Seq<PageView> {
    pages.map_values(|p: FlashPage| p@)
}

/// The sectors to erase and the pages to program.
#[derive(Clone, Debug)]
pub struct FlashLayout {
    sectors: Vec<FlashSector>,
    pages: Vec<FlashPage>,
}

impl View for FlashLayout {
    type V = LayoutView;

    closed spec fn view(&self) -> LayoutView {
        LayoutView { sectors: self.sectors@, pages: pages_view(self.pages@) }
    }
}

impl FlashLayout {
    /// The sectors of the layout, in the order they were added.
    pub fn sectors(&self) -> (sectors: &[FlashSector])
        ensures
            sectors@ == self@.sectors,
    {
        self.sectors.as_slice()
    }

    /// The pages of the layout, in the order they were added.
    pub fn pages(&self) -> (pages: &[FlashPage])
        ensures
            pages_view(pages@) == self@.pages,
    {
        self.pages.as_slice()
    }
}

/// A block of data to be written at an address.
#[derive(Clone, Copy)]
struct FlashWriteData<'a> {
    address: u32,
    data: &'a [u8],
}

impl<'a> FlashWriteData<'a> {
    fn new(address: u32, data: &'a [u8]) -> (write: Self)
        ensures
            write.address == address,
            write.data@ == data@,
    {
        FlashWriteData { address, data }
    }
}

/// A block of data as a mathematical value: its address and its bytes.
pub type WriteView = (u32, Seq<u8>);

/// The block at `i` begins before the block at `i - 1` has ended.
pub open spec fn overlaps_at(writes: Seq<WriteView>, i: int) -> bool {
    &&& 1 <= i < writes.len()
    &&& writes[i - 1].0 + writes[i - 1].1.len() > writes[i].0
}

/// The first block, at or after `i`, that overlaps the block before it.
pub open spec fn first_overlap_from(writes: Seq<WriteView>, i: int) -> Option<int>
    decreases writes.len() - i,
{
    if i < 1 || i >= writes.len() {
        None
    } else if overlaps_at(writes, i) {
        Some(i)
    } else {
        first_overlap_from(writes, i + 1)
    }
}

/// The first block that overlaps the block before it.
pub open spec fn first_overlap(writes: Seq<WriteView>) -> Option<int> {
    first_overlap_from(writes, 1)
}

/// Blocks are in strictly ascending order of address, and each lies within
/// the 32-bit address space.
pub open spec fn writes_sorted(writes: Seq<WriteView>) -> bool {
    &&& forall|i: int, j: int| 0 <= i < j < writes.len() ==> writes[i].0 < writes[j].0
    &&& forall|i: int| 0 <= i < writes.len() ==> #[trigger] writes[i].0 + writes[i].1.len() <= 0x1_0000_0000
}

/// No block overlaps the block before it.
pub open spec fn writes_disjoint(writes: Seq<WriteView>) -> bool {
    forall|i: int| !#[trigger] overlaps_at(writes, i)
}

/// The number of leading blocks whose address is below `address`.
pub open spec fn insertion_point(writes: Seq<WriteView>, address: u32) -> int
    decreases writes.len(),
{
    if writes.len() > 0 && writes[0].0 < address {
        1 + insertion_point(writes.drop_first(), address)
    } else {
        0
    }
}

pub(crate) proof fn lemma_first_overlap_from(writes: Seq<WriteView>, i: int)
    requires
        1 <= i,
    ensures
        first_overlap_from(writes, i) matches Some(j) ==> i <= j && overlaps_at(writes, j) && forall|
            k: int,
        | i <= k < j ==> !overlaps_at(writes, k),
        first_overlap_from(writes, i) is None ==> forall|k: int| i <= k ==> !overlaps_at(writes, k),
    decreases writes.len() - i,
{
    if i < writes.len() && !overlaps_at(writes, i) {
        lemma_first_overlap_from(writes, i + 1);
    }
}

pub(crate) proof fn lemma_insertion_point(writes: Seq<WriteView>, address: u32)
    requires
        forall|i: int, j: int| 0 <= i < j < writes.len() ==> writes[i].0 < writes[j].0,
    ensures
        0 <= insertion_point(writes, address) <= writes.len(),
        forall|k: int|
            0 <= k < insertion_point(writes, address) ==> writes[k].0 < address,
        forall|k: int|
            insertion_point(writes, address) <= k < writes.len() ==> writes[k].0 >= address,
    decreases writes.len(),
{
    if writes.len() > 0 && writes[0].0 < address {
        let rest = writes.drop_first();
        assert(forall|k: int| 0 <= k < rest.len() ==> rest[k] == writes[k + 1]);
        lemma_insertion_point(rest, address);
        let p = insertion_point(writes, address);
        assert forall|k: int| 0 <= k < p implies writes[k].0 < address by {
            if k > 0 {
                assert(writes[k] == rest[k - 1]);
            }
        }
        assert forall|k: int| p <= k < writes.len() implies writes[k].0 >= address by {
            assert(writes[k] == rest[k - 1]);
        }
    }
}

pub(crate) proof fn lemma_insertion_point_unique(writes: Seq<WriteView>, address: u32, p: int)
    requires
        forall|i: int, j: int| 0 <= i < j < writes.len() ==> writes[i].0 < writes[j].0,
        0 <= p <= writes.len(),
        forall|k: int| 0 <= k < p ==> writes[k].0 < address,
        forall|k: int| p <= k < writes.len() ==> writes[k].0 >= address,
    ensures
        insertion_point(writes, address) == p,
{
    lemma_insertion_point(writes, address);
    let q = insertion_point(writes, address);
    if q < p {
        assert(writes[q].0 < address);
    } else if p < q {
        assert(writes[p].0 < address);
    }
}

/// Some block starts at `address`.
pub open spec fn has_address(writes: Seq<WriteView>, address: u32) -> bool {
    exists|i: int| 0 <= i < writes.len() && writes[i].0 == address
}

/// The outcome of adding a block and the blocks afterwards: a block at an
/// address already taken is refused and nothing changes; otherwise it is
/// inserted in address order, and the first block that then overlaps the
/// one before it, if any, is reported.
pub open spec fn add_result(writes: Seq<WriteView>, address: u32, data: Seq<u8>) -> (
    Result<(), FlashError>,
    Seq<WriteView>,
) {
    if has_address(writes, address) {
        (Err(FlashError::DuplicateDataEntry(address)), writes)
    } else {
        let after = writes.insert(insertion_point(writes, address), (address, data));
        (
            match first_overlap(after) {
                None => Ok(()),
                Some(j) => Err(FlashError::DataOverlap(after[j].0)),
            },
            after,
        )
    }
}

/// Collects blocks of data and lays them out over the sectors and pages of a flash.
pub struct FlashBuilder<'a> {
    flash_write_data: Vec<FlashWriteData<'a>>,
    buffered_data_size: usize,
}

impl<'a> FlashBuilder<'a> {
    /// The blocks added so far, in ascending order of address.
    pub closed spec fn writes(&self) -> Seq<WriteView> {
        self.flash_write_data@.map_values(|w: FlashWriteData<'a>| (w.address, w.data@))
    }

    /// The number of bytes added so far.
    pub closed spec fn buffered_data_size(&self) -> nat {
        self.buffered_data_size as nat
    }

    /// The blocks are sorted by address and lie in the address space.
    pub open spec fn sorted(&self) -> bool {
        writes_sorted(self.writes())
    }

    /// The blocks are sorted and none overlaps another.
    pub open spec fn wf(&self) -> bool {
        self.sorted() && writes_disjoint(self.writes())
    }

    /// Creates a `FlashBuilder` with no data.
    pub fn new() -> (builder: Self)
        ensures
            builder.writes() == Seq::<WriteView>::empty(),
            builder.buffered_data_size() == 0,
            builder.wf(),
    {
        FlashBuilder { flash_write_data: Vec::new(), buffered_data_size: 0 }
    }

    /// Adds a block of data to be programmed.
    ///
    /// A block at an address that already holds one is refused and nothing
    /// changes. Otherwise the block is inserted in address order; if then a
    /// block overlaps the one before it, the first such block's address is
    /// reported, and the new block stays in the builder.
    #[verifier::loop_isolation(false)]
    pub fn add_data(&mut self, address: u32, data: &'a [u8]) -> (result: Result<(), FlashError>)
        requires
            old(self).sorted(),
            address + data@.len() <= 0x1_0000_0000,
            old(self).buffered_data_size() + data@.len() <= usize::MAX,
        ensures
            (result, final(self).writes()) == add_result(old(self).writes(), address, data@),
            final(self).buffered_data_size() == old(self).buffered_data_size() + (if has_address(
                old(self).writes(),
                address,
            ) {
                0
            } else {
                data@.len()
            }),
            final(self).sorted(),
    {
        let ghost old_writes = self.writes();
        let len = self.flash_write_data.len();
        let mut lo: usize = 0;
        let mut hi: usize = len;
        while lo < hi
            invariant
                old_writes == self.writes(),
                len == self.flash_write_data@.len(),
                writes_sorted(old_writes),
                0 <= lo <= hi <= len,
                forall|k: int| 0 <= k < lo ==> old_writes[k].0 < address,
                forall|k: int| hi <= k < len ==> old_writes[k].0 > address,
            decreases hi - lo,
        {
            let mid = lo + (hi - lo) / 2;
            let mid_address = self.flash_write_data[mid].address;
            assert(old_writes[mid as int].0 == mid_address);
            if mid_address == address {
                return Err(FlashError::DuplicateDataEntry(address));
            } else if mid_address < address {
                lo = mid + 1;
            } else {
                hi = mid;
            }
        }
        proof {
            lemma_insertion_point_unique(old_writes, address, lo as int);
        }
        self.flash_write_data.insert(lo, FlashWriteData::new(address, data));
        self.buffered_data_size = self.buffered_data_size + data.len();
        let ghost new_writes = self.writes();
        assert(new_writes =~= old_writes.insert(lo as int, (address, data@)));
        assert(writes_sorted(new_writes)) by {
            assert forall|i: int, j: int| 0 <= i < j < new_writes.len() implies new_writes[i].0
                < new_writes[j].0 by {
                if j < lo {
                } else if j == lo {
                } else if i < lo {
                } else if i == lo {
                } else {
                }
            }
        }
        let n = self.flash_write_data.len();
        let mut i: usize = 1;
        assert(forall|k: int| 0 <= k < new_writes.len() ==> #[trigger] new_writes[k].0 + new_writes[k].1.len() <= 0x1_0000_0000) by {
            assert forall|k: int| 0 <= k < new_writes.len() implies #[trigger] new_writes[k].0 + new_writes[k].1.len() <= 0x1_0000_0000 by {
                if k < lo {
                    assert(new_writes[k] == old_writes[k]);
                } else if k > lo {
                    assert(new_writes[k] == old_writes[k - 1]);
                }
            }
        }
        proof {
            lemma_first_overlap_from(new_writes, 1);
        }
        while i < n
            invariant
                new_writes == self.writes(),
                n == self.flash_write_data@.len(),
                n == new_writes.len(),
                1 <= i <= n,
                first_overlap_from(new_writes, i as int) == first_overlap(new_writes),
            decreases n - i,
        {
            let previous = self.flash_write_data[i - 1];
            let operation = self.flash_write_data[i];
            assert(new_writes[i - 1] == (previous.address, previous.data@));
            assert(new_writes[i as int] == (operation.address, operation.data@));
            if previous.address as u64 + previous.data.len() as u64 > operation.address as u64 {
                return Err(FlashError::DataOverlap(operation.address));
            }
            i = i + 1;
        }
        Ok(())
    }
}


/// Supplies the bytes of a page that no block writes: those of gaps before
/// or between blocks, and, when it pads, those after the last block.
pub trait PageFiller {
    /// The byte that stands at `address` where no block puts one.
    spec fn spec_byte_at(&self, address: int) -> u8;

    /// Whether a page is filled up to its end once the layout moves past it.
    spec fn spec_pads(&self) -> bool;

    /// The byte that stands at `address` where no block puts one.
    fn byte_at(&self, address: u64) -> (byte: u8)
        ensures
            byte == self.spec_byte_at(address as int),
    ;

    /// Whether a page is filled up to its end once the layout moves past it.
    fn pads(&self) -> (pads: bool)
        ensures
            pads == self.spec_pads(),
    ;
}

/// Fills gaps with the value of an erased byte and leaves the end of each
/// page unwritten.
#[derive(Clone, Copy, Debug)]
pub struct NoFill {
    pub erased_byte_value: u8,
}

impl PageFiller for NoFill {
    open spec fn spec_byte_at(&self, address: int) -> u8 {
        self.erased_byte_value
    }

    open spec fn spec_pads(&self) -> bool {
        false
    }

    fn byte_at(&self, address: u64) -> (byte: u8) {
        self.erased_byte_value
    }

    fn pads(&self) -> (pads: bool) {
        false
    }
}

/// Fills gaps and the rest of every page with the value of an erased byte.
#[derive(Clone, Copy, Debug)]
pub struct ErasedFill {
    pub erased_byte_value: u8,
}

impl PageFiller for ErasedFill {
    open spec fn spec_byte_at(&self, address: int) -> u8 {
        self.erased_byte_value
    }

    open spec fn spec_pads(&self) -> bool {
        true
    }

    fn byte_at(&self, address: u64) -> (byte: u8) {
        self.erased_byte_value
    }

    fn pads(&self) -> (pads: bool) {
        true
    }
}

/// Keeps the bytes that no block writes as they were in flash: fills gaps and
/// the rest of every page with `contents`, the flash read back from `start`
/// on, and with the value of an erased byte where `contents` does not reach.
#[derive(Clone, Debug)]
pub struct RestoreFill {
    pub start: u32,
    pub contents: Vec<u8>,
    pub erased_byte_value: u8,
}

impl PageFiller for RestoreFill {
    open spec fn spec_byte_at(&self, address: int) -> u8 {
        if self.start <= address < self.start + self.contents@.len() {
            self.contents@[address - self.start]
        } else {
            self.erased_byte_value
        }
    }

    open spec fn spec_pads(&self) -> bool {
        true
    }

    fn byte_at(&self, address: u64) -> (byte: u8) {
        if self.start as u64 <= address && address - (self.start as u64) < self.contents.len() as u64 {
            self.contents[(address - self.start as u64) as usize]
        } else {
            self.erased_byte_value
        }
    }

    fn pads(&self) -> (pads: bool) {
        true
    }
}

/// The bytes of `page` extended to `upto` bytes with the filler's bytes.
pub open spec fn pad_data<F: PageFiller>(fill: F, page: PageView, upto: int) -> Seq<u8> {
    if upto <= page.data.len() {
        page.data
    } else {
        page.data + Seq::new(
            (upto - page.data.len()) as nat,
            |k: int| fill.spec_byte_at(page.address + page.data.len() + k),
        )
    }
}

/// The bytes of `page` once the layout moves past it.
pub open spec fn filled_data<F: PageFiller>(fill: F, page: PageView) -> Seq<u8> {
    if fill.spec_pads() {
        pad_data(fill, page, page.size as int)
    } else {
        page.data
    }
}

/// Extends the bytes of `page` to `upto` bytes with the filler's bytes.
fn pad_page<F: PageFiller>(fill: &F, page: &mut FlashPage, upto: usize)
    requires
        upto <= u32::MAX,
    ensures
        final(page).address == old(page).address,
        final(page).size == old(page).size,
        final(page).data@ == pad_data(*fill, old(page)@, upto as int),
{
    let ghost start = page.data@;
    if page.data.len() >= upto {
        return;
    }
    while page.data.len() < upto
        invariant
            page.size == old(page).size,
            page.address == old(page).address,
            upto <= u32::MAX,
            start == old(page).data@,
            start.len() <= page.data@.len() <= upto,
            page.data@ == start + Seq::new(
                (page.data@.len() - start.len()) as nat,
                |k: int| fill.spec_byte_at(page.address + start.len() + k),
            ),
        decreases upto - page.data@.len(),
    {
        let ghost before = page.data@;
        let address = page.address as u64 + page.data.len() as u64;
        let b = fill.byte_at(address);
        page.data.push(b);
        assert(page.data@ =~= start + Seq::new(
            (page.data@.len() - start.len()) as nat,
            |k: int| fill.spec_byte_at(page.address + start.len() + k),
        ));
    }
}

/// Fills `page` as the layout moves past it.
fn finish_page<F: PageFiller>(fill: &F, page: &mut FlashPage)
    ensures
        final(page).address == old(page).address,
        final(page).size == old(page).size,
        final(page).data@ == filled_data(*fill, old(page)@),
{
    if fill.pads() {
        let size = page.size as usize;
        pad_page(fill, page, size);
    }
}

impl LayoutView {
    pub open spec fn empty() -> LayoutView {
        LayoutView { sectors: Seq::empty(), pages: Seq::empty() }
    }

    pub open spec fn last_sector_end(self) -> int {
        self.sectors.last().address + self.sectors.last().size
    }

    pub open spec fn last_page_end(self) -> int {
        self.pages.last().address + self.pages.last().size
    }

    pub open spec fn push_sector(self, info: SectorInfo) -> LayoutView {
        LayoutView { sectors: self.sectors.push(sector_of(info)), pages: self.pages }
    }

    pub open spec fn push_page(self, info: PageInfo) -> LayoutView {
        LayoutView {
            sectors: self.sectors,
            pages: self.pages.push(
                PageView { address: info.base_address, size: info.size, data: Seq::empty() },
            ),
        }
    }

    pub open spec fn set_last_data(self, data: Seq<u8>) -> LayoutView {
        let last = self.pages.last();
        LayoutView {
            sectors: self.sectors,
            pages: self.pages.update(
                self.pages.len() - 1,
                PageView { address: last.address, size: last.size, data: data },
            ),
        }
    }
}

/// Lays out `data`, the rest of a block starting at `address`: first makes sure
/// a sector holds the address.
pub open spec fn place<F: PageFiller>(
    algo: FlashAlgorithm,
    fill: F,
    st: LayoutView,
    address: int,
    data: Seq<u8>,
) -> Result<LayoutView, FlashError>
    decreases data.len(), 3int,
{
    if data.len() == 0 {
        Ok(st)
    } else if st.sectors.len() == 0 || address >= st.last_sector_end() {
        match algo.spec_sector_info(address as u32) {
            None => Err(FlashError::InvalidFlashAddress(address as u32)),
            Some(info) => place_in_sector(algo, fill, st.push_sector(info), address, data),
        }
    } else {
        place_in_sector(algo, fill, st, address, data)
    }
}

/// The address lies in the last sector: makes sure a page holds it, filling
/// the last page before a new one is started.
pub open spec fn place_in_sector<F: PageFiller>(
    algo: FlashAlgorithm,
    fill: F,
    st: LayoutView,
    address: int,
    data: Seq<u8>,
) -> Result<LayoutView, FlashError>
    decreases data.len(), 2int,
{
    if data.len() == 0 {
        Ok(st)
    } else if st.pages.len() == 0 {
        place_in_new_page(algo, fill, st, address, data)
    } else if address >= st.last_page_end() {
        place_in_new_page(algo, fill, st.set_last_data(filled_data(fill, st.pages.last())), address, data)
    } else {
        copy_to_page(algo, fill, st, address, data)
    }
}

/// Starts the page that holds the address, then copies into it.
pub open spec fn place_in_new_page<F: PageFiller>(
    algo: FlashAlgorithm,
    fill: F,
    st: LayoutView,
    address: int,
    data: Seq<u8>,
) -> Result<LayoutView, FlashError>
    decreases data.len(), 1int,
{
    if data.len() == 0 {
        Ok(st)
    } else {
        match algo.spec_page_info(address as u32) {
            None => Err(FlashError::InvalidFlashAddress(address as u32)),
            Some(info) => copy_to_page(algo, fill, st.push_page(info), address, data),
        }
    }
}

/// Copies into the last page, at the offset of the address in the page, as
/// many bytes as the page has room for, after filling any gap before that
/// offset, and goes on with the rest.
pub open spec fn copy_to_page<F: PageFiller>(
    algo: FlashAlgorithm,
    fill: F,
    st: LayoutView,
    address: int,
    data: Seq<u8>,
) -> Result<LayoutView, FlashError>
    decreases data.len(), 0int,
{
    let last = st.pages.last();
    let base = pad_data(fill, last, address - last.address);
    let room = last.size - base.len();
    let amount = if room < data.len() { room } else { data.len() as int };
    if st.pages.len() == 0 || amount <= 0 {
        // A page with no room while its range still holds the address cannot
        // occur for sorted, disjoint blocks.
        Ok(st)
    } else {
        place(
            algo,
            fill,
            st.set_last_data(base + data.take(amount)),
            address + amount,
            data.skip(amount),
        )
    }
}

/// Lays out the blocks `writes`, one after the other.
pub open spec fn place_all<F: PageFiller>(
    algo: FlashAlgorithm,
    fill: F,
    st: LayoutView,
    writes: Seq<WriteView>,
) -> Result<LayoutView, FlashError>
    decreases writes.len(),
{
    if writes.len() == 0 {
        Ok(st)
    } else {
        match place(algo, fill, st, writes[0].0 as int, writes[0].1) {
            Err(e) => Err(e),
            Ok(next) => place_all(algo, fill, next, writes.drop_first()),
        }
    }
}

/// Goes on with the blocks `writes` from a layout or an error.
pub open spec fn then_place_all<F: PageFiller>(
    algo: FlashAlgorithm,
    fill: F,
    r: Result<LayoutView, FlashError>,
    writes: Seq<WriteView>,
) -> Result<LayoutView, FlashError> {
    match r {
        Err(e) => Err(e),
        Ok(st) => place_all(algo, fill, st, writes),
    }
}

/// Fills the last page, if there is one.
pub open spec fn fill_last<F: PageFiller>(fill: F, r: Result<LayoutView, FlashError>) -> Result<
    LayoutView,
    FlashError,
> {
    match r {
        Err(e) => Err(e),
        Ok(st) => if st.pages.len() == 0 {
            Ok(st)
        } else {
            Ok(st.set_last_data(filled_data(fill, st.pages.last())))
        },
    }
}

/// The layout of `writes` over the flash of `algo`.
pub open spec fn spec_layout<F: PageFiller>(
    algo: FlashAlgorithm,
    fill: F,
    writes: Seq<WriteView>,
) -> Result<LayoutView, FlashError> {
    fill_last(fill, place_all(algo, fill, LayoutView::empty(), writes))
}


/// The layout held by a list of sectors and a list of pages.
pub open spec fn layout_of(sectors: Seq<FlashSector>, pages: Seq<FlashPage>) -> LayoutView {
    LayoutView { sectors: sectors, pages: pages_view(pages) }
}

/// The last page has room left, and it ends in address order at or before `address`.
pub open spec fn last_page_before(pages: Seq<FlashPage>, address: int) -> bool {
    pages.len() > 0 ==> {
        &&& pages.last().data@.len() <= pages.last().size
        &&& pages.last().address + pages.last().data@.len() <= address
    }
}

proof fn lemma_pages_view_push(pages: Seq<FlashPage>, page: FlashPage)
    ensures
        pages_view(pages.push(page)) == pages_view(pages).push(page@),
{
    assert(pages_view(pages.push(page)) =~= pages_view(pages).push(page@));
}

proof fn lemma_pages_view_replace_last(pages: Seq<FlashPage>, page: FlashPage)
    requires
        pages.len() > 0,
    ensures
        pages_view(pages.drop_last().push(page)) == pages_view(pages).update(
            pages.len() - 1,
            page@,
        ),
{
    assert(pages_view(pages.drop_last().push(page)) =~= pages_view(pages).update(
        pages.len() - 1,
        page@,
    ));
}

impl<'a> FlashBuilder<'a> {
    /// Lays the blocks out over the sectors and pages of the flash of
    /// `flash_algorithm`, filling each page with `fill_page` once the layout
    /// moves past it and the last page at the end.
    #[verifier::loop_isolation(false)]
    #[verifier::rlimit(50)]
    pub fn build_sectors_and_pages<F: PageFiller>(
        &self,
        flash_algorithm: &FlashAlgorithm,
        fill_page: &F,
    ) -> (result: Result<FlashLayout, FlashError>)
        requires
            self.wf(),
            flash_algorithm.valid(),
        ensures
            match spec_layout(*flash_algorithm, *fill_page, self.writes()) {
                Ok(l) => result matches Ok(layout) && layout@ == l,
                Err(e) => result matches Err(e2) && e2 == e,
            },
            result matches Ok(layout) ==> pages_sane(layout@.pages) && forall|i: int|
                0 <= i < self.writes().len() ==> block_placed(layout@.pages, #[trigger] self.writes()[i]),
    {
        proof {
            lemma_layout_places_bytes(*flash_algorithm, *fill_page, self.writes());
        }
        let ghost algo = *flash_algorithm;
        let ghost fill = *fill_page;
        let ghost writes = self.writes();
        let ghost target = spec_layout(algo, fill, writes);
        let mut sectors: Vec<FlashSector> = Vec::new();
        let mut pages: Vec<FlashPage> = Vec::new();
        let n = self.flash_write_data.len();
        assert(writes.skip(0) =~= writes);
        assert(layout_of(sectors@, pages@) =~= LayoutView::empty()) by {
            assert(pages_view(pages@) =~= Seq::<PageView>::empty());
        }
        let mut i: usize = 0;
        while i < n
            invariant
                0 <= i <= n,
                n == writes.len(),
                target == fill_last(
                    fill,
                    place_all(algo, fill, layout_of(sectors@, pages@), writes.skip(i as int)),
                ),
                i < n ==> last_page_before(pages@, writes[i as int].0 as int),
                i == n ==> pages@.len() > 0 ==> pages@.last().data@.len() <= pages@.last().size,
            decreases n - i,
        {
            let op = self.flash_write_data[i];
            assert(writes[i as int] == (op.address, op.data@));
            assert(writes.skip(i as int).drop_first() =~= writes.skip(i + 1));
            let ghost after = writes.skip(i + 1);
            let len = op.data.len();
            let mut pos: usize = 0;
            assert(op.data@.skip(0) =~= op.data@);
            while pos < len
                invariant
                    0 <= pos <= len,
                    len == op.data@.len(),
                    op.address + len <= 0x1_0000_0000,
                    target == fill_last(
                        fill,
                        then_place_all(
                            algo,
                            fill,
                            place(
                                algo,
                                fill,
                                layout_of(sectors@, pages@),
                                op.address + pos,
                                op.data@.skip(pos as int),
                            ),
                            after,
                        ),
                    ),
                    last_page_before(pages@, op.address + pos),
                decreases len - pos,
                    (if sectors@.len() == 0 || op.address + pos >= sectors@.last().address
                        + sectors@.last().size {
                        2int
                    } else if pages@.len() == 0 || op.address + pos >= pages@.last().address
                        + pages@.last().size {
                        1int
                    } else {
                        0int
                    }),
            {
                let flash_address: u32 = op.address + pos as u32;
                let ghost st = layout_of(sectors@, pages@);
                let ghost rest = op.data@.skip(pos as int);
                let ghost a = flash_address as int;
                assert(rest.len() > 0);
                let needs_sector = if sectors.len() == 0 {
                    true
                } else {
                    let last_sector = sectors[sectors.len() - 1];
                    flash_address as u64 >= last_sector.address as u64 + last_sector.size as u64
                };
                if needs_sector {
                    proof {
                        lemma_sector_run_bounded(flash_algorithm, flash_address);
                    }
                    match flash_algorithm.sector_info(flash_address) {
                        None => {
                            return Err(FlashError::InvalidFlashAddress(flash_address));
                        },
                        Some(info) => {
                            sectors.push(FlashSector::new(&info));
                            assert(layout_of(sectors@, pages@) == st.push_sector(info));
                            assert(place(algo, fill, st.push_sector(info), a, rest)
                                == place_in_sector(algo, fill, st.push_sector(info), a, rest));
                        },
                    }
                    continue;
                }
                if pages.len() == 0 {
                    match flash_algorithm.page_info(flash_address) {
                        None => {
                            return Err(FlashError::InvalidFlashAddress(flash_address));
                        },
                        Some(info) => {
                            let page = FlashPage::new(&info);
                            proof {
                                lemma_pages_view_push(pages@, page);
                            }
                            pages.push(page);
                            assert(layout_of(sectors@, pages@) == st.push_page(info));
                            assert(place_in_sector(algo, fill, st.push_page(info), a, rest)
                                == copy_to_page(algo, fill, st.push_page(info), a, rest));
                        },
                    }
                    continue;
                }
                let last = pages.len() - 1;
                let page_address = pages[last].address;
                let page_size = pages[last].size;
                let page_len = pages[last].data.len();
                assert(st.pages.last() == pages@.last()@);
                if flash_address as u64 >= page_address as u64 + page_size as u64 {
                    let mut page = pages.pop().unwrap();
                    let ghost before_fill = page;
                    finish_page(fill_page, &mut page);
                    proof {
                        lemma_pages_view_replace_last(pages@.push(before_fill), page);
                        assert(pages@.push(before_fill).drop_last() =~= pages@);
                        assert(st.pages =~= pages_view(pages@.push(before_fill)));
                    }
                    pages.push(page);
                    let ghost filled_st = layout_of(sectors@, pages@);
                    assert(filled_st == st.set_last_data(page.data@));
                    match flash_algorithm.page_info(flash_address) {
                        None => {
                            return Err(FlashError::InvalidFlashAddress(flash_address));
                        },
                        Some(info) => {
                            let new_page = FlashPage::new(&info);
                            proof {
                                lemma_pages_view_push(pages@, new_page);
                            }
                            pages.push(new_page);
                            assert(layout_of(sectors@, pages@) == filled_st.push_page(info));
                            assert(place_in_sector(algo, fill, filled_st.push_page(info), a, rest)
                                == copy_to_page(algo, fill, filled_st.push_page(info), a, rest));
                        },
                    }
                    continue;
                }
                let offset = (flash_address - page_address) as usize;
                let room = (page_size as usize) - offset;
                let remaining = len - pos;
                let amount = if room < remaining {
                    room
                } else {
                    remaining
                };
                assert(amount > 0);
                let mut page = pages.pop().unwrap();
                let ghost before_copy = page;
                pad_page(fill_page, &mut page, offset);
                let ghost base = page.data@;
                assert(base == pad_data(fill, before_copy@, a - before_copy.address));
                let mut k: usize = 0;
                while k < amount
                    invariant
                        0 <= k <= amount,
                        pos + amount <= len,
                        len == op.data@.len(),
                        page.address == before_copy.address,
                        page.size == before_copy.size,
                        page.data@ == base + op.data@.subrange(pos as int, pos + k),
                    decreases amount - k,
                {
                    page.data.push(op.data[pos + k]);
                    k = k + 1;
                    assert(page.data@ =~= base + op.data@.subrange(pos as int, pos + k));
                }
                proof {
                    lemma_pages_view_replace_last(pages@.push(before_copy), page);
                    assert(pages@.push(before_copy).drop_last() =~= pages@);
                    assert(st.pages =~= pages_view(pages@.push(before_copy)));
                    assert(st.pages.last() == before_copy@);
                    assert(page.data@ =~= base + rest.take(amount as int));
                    assert(page@ == (PageView {
                        address: st.pages.last().address,
                        size: st.pages.last().size,
                        data: base + rest.take(amount as int),
                    }));
                    assert(op.data@.subrange(pos as int, pos + amount) =~= rest.take(
                        amount as int,
                    ));
                    assert(op.data@.skip(pos + amount) =~= rest.skip(amount as int));
                }
                pages.push(page);
                assert(layout_of(sectors@, pages@) == st.set_last_data(
                    base + rest.take(amount as int),
                ));
                pos = pos + amount;
            }
            assert(op.data@.skip(pos as int) =~= Seq::<u8>::empty());
            if i + 1 < n {
                assert(!overlaps_at(writes, (i + 1) as int));
            }
            i = i + 1;
        }
        if pages.len() > 0 {
            let ghost st = layout_of(sectors@, pages@);
            let mut page = pages.pop().unwrap();
            let ghost before_fill = page;
            finish_page(fill_page, &mut page);
            proof {
                lemma_pages_view_replace_last(pages@.push(before_fill), page);
                assert(pages@.push(before_fill).drop_last() =~= pages@);
                assert(st.pages =~= pages_view(pages@.push(before_fill)));
            }
            pages.push(page);
            assert(layout_of(sectors@, pages@) == st.set_last_data(page.data@));
        }
        let layout = FlashLayout { sectors, pages };
        assert(layout@ == layout_of(layout.sectors@, layout.pages@));
        Ok(layout)
    }
}

} // verus!
