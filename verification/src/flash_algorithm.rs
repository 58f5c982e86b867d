//! Description of a flash algorithm and of the geometry of the flash it drives.

use vstd::prelude::*;
use crate::memory::AddressRange;

verus! {

/// A run of equally sized sectors, starting at `address` (relative to the
/// start of the flash) and repeating up to the next description.
#[derive(Clone, Copy, Debug)]
pub struct SectorDescription {
    pub size: u32,
    pub address: u32,
}

/// Geometry of the flash that an algorithm can program.
#[derive(Debug)]
pub struct FlashProperties {
    /// The range of absolute addresses covered by the flash.
    pub address_range: AddressRange,
    pub page_size: u32,
    pub erased_byte_value: u8,
    pub program_page_timeout: u32,
    pub erase_sector_timeout: u32,
    /// Sector runs, in ascending order of their relative start address.
    pub sectors: Vec<SectorDescription>,
}

/// The sector that contains an address.
#[derive(Clone, Copy, Debug, PartialEq, Eq)]
pub struct SectorInfo {
    pub base_address: u32,
    pub page_size: u32,
    pub size: u32,
}

/// The page that contains an address.
#[derive(Clone, Copy, Debug, PartialEq, Eq)]
pub struct PageInfo {
    pub base_address: u32,
    pub size: u32,
}

/// A flash algorithm: a blob loaded into target RAM, its entry points and the
/// flash it drives.
#[derive(Debug)]
pub struct FlashAlgorithm {
    pub name: String,
    pub default: bool,
    pub instructions: Vec<u32>,
    pub pc_init: Option<u32>,
    pub pc_uninit: Option<u32>,
    pub pc_program_page: u32,
    pub pc_erase_sector: u32,
    pub pc_erase_all: Option<u32>,
    pub static_base: u32,
    pub begin_stack: u32,
    pub begin_data: u32,
    pub page_buffers: Vec<u32>,
    pub load_address: u32,
    pub flash_properties: FlashProperties,
}

/// Index of the last sector run that starts at or below `offset`.
pub open spec fn find_sector_run(runs: Seq<SectorDescription>, offset: int) -> Option<int>
    decreases runs.len(),
{
    if runs.len() == 0 {
        None
    } else if runs.last().address <= offset {
        Some(runs.len() - 1)
    } else {
        find_sector_run(runs.drop_last(), offset)
    }
}

pub(crate) proof fn lemma_find_sector_run(runs: Seq<SectorDescription>, offset: int)
    ensures
        find_sector_run(runs, offset) matches Some(j) ==> 0 <= j < runs.len() && runs[j].address
            <= offset && forall|k: int| j < k < runs.len() ==> runs[k].address > offset,
        find_sector_run(runs, offset) is None ==> forall|k: int|
            0 <= k < runs.len() ==> runs[k].address > offset,
    decreases runs.len(),
{
    if runs.len() > 0 && runs.last().address > offset {
        let rest = runs.drop_last();
        lemma_find_sector_run(rest, offset);
        assert(forall|k: int| 0 <= k < rest.len() ==> rest[k] == runs[k]);
    }
}

/// For a valid algorithm, the sector run that an address falls into has a non-zero size.
pub proof fn lemma_sector_run_bounded(algo: &FlashAlgorithm, address: u32)
    requires
        algo.valid(),
    ensures
        algo.sector_run_of(address) matches Some(j) ==> 0 <= j
            < algo.flash_properties.sectors@.len() && algo.flash_properties.sectors@[j].size > 0,
{
    if algo.flash_properties.contains_address(address as int) {
        lemma_find_sector_run(
            algo.flash_properties.sectors@,
            address - algo.flash_properties.address_range.start,
        );
    }
}

impl FlashProperties {
    pub open spec fn contains_address(&self, address: int) -> bool {
        self.address_range.start <= address < self.address_range.end
    }
}

impl FlashAlgorithm {
    /// The sector run that `address` falls into, if the address is in the flash.
    pub open spec fn sector_run_of(&self, address: u32) -> Option<int> {
        if self.flash_properties.contains_address(address as int) {
            find_sector_run(
                self.flash_properties.sectors@,
                address - self.flash_properties.address_range.start,
            )
        } else {
            None
        }
    }

    /// Every sector run and the page size are non-zero.
    pub open spec fn valid(&self) -> bool {
        &&& self.flash_properties.page_size > 0
        &&& forall|i: int|
            0 <= i < self.flash_properties.sectors@.len() ==> #[trigger] self.flash_properties.sectors@[i].size
                > 0
    }

    /// The sector that contains `address`: it is the sector of the last run
    /// that starts at or below the address, counted in whole sectors from the
    /// start of that run.
    pub open spec fn spec_sector_info(&self, address: u32) -> Option<SectorInfo> {
        match self.sector_run_of(address) {
            None => None,
            Some(j) => {
                let run = self.flash_properties.sectors@[j];
                let start = self.flash_properties.address_range.start;
                let offset = address - start;
                let index = (offset - run.address) / (run.size as int);
                Some(
                    SectorInfo {
                        base_address: (start + run.address + index * run.size) as u32,
                        page_size: self.flash_properties.page_size,
                        size: run.size,
                    },
                )
            },
        }
    }

    /// The page that contains `address`: pages are `page_size` long and aligned to it.
    pub open spec fn spec_page_info(&self, address: u32) -> Option<PageInfo> {
        if self.flash_properties.contains_address(address as int) {
            Some(
                PageInfo {
                    base_address: (address - address % self.flash_properties.page_size) as u32,
                    size: self.flash_properties.page_size,
                },
            )
        } else {
            None
        }
    }

    /// Returns the sector that contains `address`, or `None` when the address
    /// is outside the flash or below the first sector run.
    pub fn sector_info(&self, address: u32) -> (result: Option<SectorInfo>)
        requires
            self.sector_run_of(address) matches Some(j) ==> 0 <= j
                < self.flash_properties.sectors@.len() && self.flash_properties.sectors@[j].size > 0,
        ensures
            result == self.spec_sector_info(address),
            result matches Some(s) ==> s.base_address <= address < s.base_address + s.size,
    {
        let range = &self.flash_properties.address_range;
        if !(range.start <= address && address < range.end) {
            return None;
        }
        let offset = address - range.start;
        let sectors = &self.flash_properties.sectors;
        let mut i: usize = sectors.len();
        proof {
            lemma_find_sector_run(sectors@, offset as int);
        }
        while i > 0
            invariant
                i <= sectors@.len(),
                sectors == &self.flash_properties.sectors,
                range == &self.flash_properties.address_range,
                range.start <= address < range.end,
                offset == address - range.start,
                self.sector_run_of(address) matches Some(j) ==> 0 <= j < sectors@.len()
                    && sectors@[j].size > 0,
                forall|k: int| i <= k < sectors@.len() ==> sectors@[k].address > offset,
            decreases i,
        {
            if sectors[i - 1].address <= offset {
                let run = sectors[i - 1];
                proof {
                    lemma_find_sector_run(sectors@, offset as int);
                    assert(find_sector_run(sectors@, offset as int) == Some((i - 1) as int));
                }
                let index = (offset - run.address) / run.size;
                proof {
                    let d = (offset - run.address) as int;
                    assert(index * run.size <= d) by (nonlinear_arith)
                        requires
                            index == d / (run.size as int),
                            run.size > 0,
                            d >= 0,
                    ;
                    assert(d - index * run.size < run.size) by (nonlinear_arith)
                        requires
                            index == d / (run.size as int),
                            run.size > 0,
                            d >= 0,
                    ;
                }
                let base = range.start + run.address + index * run.size;
                return Some(
                    SectorInfo {
                        base_address: base,
                        page_size: self.flash_properties.page_size,
                        size: run.size,
                    },
                );
            }
            i = i - 1;
        }
        proof {
            lemma_find_sector_run(sectors@, offset as int);
        }
        None
    }

    /// Returns the page that contains `address`, or `None` when the address is
    /// outside the flash.
    pub fn page_info(&self, address: u32) -> (result: Option<PageInfo>)
        requires
            self.flash_properties.contains_address(address as int) ==> self.flash_properties.page_size
                > 0,
        ensures
            result == self.spec_page_info(address),
            result matches Some(p) ==> p.base_address <= address < p.base_address + p.size,
    {
        let range = &self.flash_properties.address_range;
        if !(range.start <= address && address < range.end) {
            return None;
        }
        let page_size = self.flash_properties.page_size;
        proof {
            assert(address % page_size <= address) by (nonlinear_arith)
                requires
                    page_size > 0,
            ;
            assert(address - address % page_size + page_size > address) by (nonlinear_arith)
                requires
                    page_size > 0,
            ;
        }
        Some(PageInfo { base_address: address - address % page_size, size: page_size })
    }

    /// Whether the page size and every sector size are non-zero, as laying
    /// out flash needs them to be.
    pub fn is_valid(&self) -> (r: bool)
        ensures
            r == self.valid(),
    {
        if self.flash_properties.page_size == 0 {
            return false;
        }
        let sectors = &self.flash_properties.sectors;
        let mut i: usize = 0;
        while i < sectors.len()
            invariant
                0 <= i <= sectors@.len(),
                sectors@ == self.flash_properties.sectors@,
                forall|k: int| 0 <= k < i ==> #[trigger] sectors@[k].size > 0,
            decreases sectors@.len() - i,
        {
            if sectors[i].size == 0 {
                return false;
            }
            i = i + 1;
        }
        true
    }
}


impl Default for FlashProperties {
    /// An empty flash: no addresses, no sectors, all sizes zero.
    fn default() -> (properties: Self)
        ensures
            properties.address_range == (AddressRange { start: 0, end: 0 }),
            properties.page_size == 0,
            properties.erased_byte_value == 0,
            properties.program_page_timeout == 0,
            properties.erase_sector_timeout == 0,
            properties.sectors@ == Seq::<SectorDescription>::empty(),
    {
        FlashProperties {
            address_range: AddressRange { start: 0, end: 0 },
            page_size: 0,
            erased_byte_value: 0,
            program_page_timeout: 0,
            erase_sector_timeout: 0,
            sectors: Vec::new(),
        }
    }
}

impl Default for FlashAlgorithm {
    /// An algorithm with no name, no code, no routines and an empty flash.
    fn default() -> (algo: Self)
        ensures
            algo.name@ == Seq::<char>::empty(),
            !algo.default,
            algo.instructions@ == Seq::<u32>::empty(),
            algo.pc_init is None,
            algo.pc_uninit is None,
            algo.pc_program_page == 0,
            algo.pc_erase_sector == 0,
            algo.pc_erase_all is None,
            algo.static_base == 0,
            algo.begin_stack == 0,
            algo.begin_data == 0,
            algo.page_buffers@ == Seq::<u32>::empty(),
            algo.load_address == 0,
            algo.flash_properties.address_range == (AddressRange { start: 0, end: 0 }),
            algo.flash_properties.page_size == 0,
            algo.flash_properties.sectors@ == Seq::<SectorDescription>::empty(),
    {
        FlashAlgorithm {
            name: String::new(),
            default: false,
            instructions: Vec::new(),
            pc_init: None,
            pc_uninit: None,
            pc_program_page: 0,
            pc_erase_sector: 0,
            pc_erase_all: None,
            static_base: 0,
            begin_stack: 0,
            begin_data: 0,
            page_buffers: Vec::new(),
            load_address: 0,
            flash_properties: FlashProperties::default(),
        }
    }
}


impl FlashProperties {
    /// Both describe the same flash.
    pub open spec fn same(&self, other: &FlashProperties) -> bool {
        &&& self.address_range == other.address_range
        &&& self.page_size == other.page_size
        &&& self.erased_byte_value == other.erased_byte_value
        &&& self.program_page_timeout == other.program_page_timeout
        &&& self.erase_sector_timeout == other.erase_sector_timeout
        &&& self.sectors@ == other.sectors@
    }
}

impl FlashAlgorithm {
    /// Both are the same algorithm for the same flash.
    pub open spec fn same(&self, other: &FlashAlgorithm) -> bool {
        &&& self.name@ == other.name@
        &&& self.default == other.default
        &&& self.instructions@ == other.instructions@
        &&& self.pc_init == other.pc_init
        &&& self.pc_uninit == other.pc_uninit
        &&& self.pc_program_page == other.pc_program_page
        &&& self.pc_erase_sector == other.pc_erase_sector
        &&& self.pc_erase_all == other.pc_erase_all
        &&& self.static_base == other.static_base
        &&& self.begin_stack == other.begin_stack
        &&& self.begin_data == other.begin_data
        &&& self.page_buffers@ == other.page_buffers@
        &&& self.load_address == other.load_address
        &&& self.flash_properties.same(&other.flash_properties)
    }
}

impl Clone for FlashProperties {
    fn clone(&self) -> (properties: Self)
        ensures
            properties.same(self),
    {
        FlashProperties {
            address_range: self.address_range,
            page_size: self.page_size,
            erased_byte_value: self.erased_byte_value,
            program_page_timeout: self.program_page_timeout,
            erase_sector_timeout: self.erase_sector_timeout,
            sectors: self.sectors.clone(),
        }
    }
}

impl Clone for FlashAlgorithm {
    fn clone(&self) -> (algo: Self)
        ensures
            algo.same(self),
    {
        FlashAlgorithm {
            name: self.name.clone(),
            default: self.default,
            instructions: self.instructions.clone(),
            pc_init: self.pc_init,
            pc_uninit: self.pc_uninit,
            pc_program_page: self.pc_program_page,
            pc_erase_sector: self.pc_erase_sector,
            pc_erase_all: self.pc_erase_all,
            static_base: self.static_base,
            begin_stack: self.begin_stack,
            begin_data: self.begin_data,
            page_buffers: self.page_buffers.clone(),
            load_address: self.load_address,
            flash_properties: self.flash_properties.clone(),
        }
    }
}

} // verus!
