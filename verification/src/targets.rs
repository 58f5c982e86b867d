//! Chip families built into the library.

use vstd::prelude::*;
use crate::flash_algorithm::{FlashAlgorithm, FlashProperties, SectorDescription};
use crate::memory::{AddressRange, FlashRegion, MemoryRegion, RamRegion};
use crate::registry::{Chip, ChipFamily, Jep106Code};

verus! {

/// The nRF51 family as the library knows it: one variant, the
/// nRF51822_xxAA with a Cortex-M0 core, its memory map, and its flash
/// algorithm, field by field.
pub open spec fn is_nrf51_family(family: ChipFamily) -> bool {
    &&& family.name@ == "nRF51"@
    &&& family.manufacturer == Some(Jep106Code { cc: 0x02, id: 0x44 })
    &&& family.part is None
    &&& family.core@ == "M0"@
    &&& family.variants@.len() == 1
    &&& family.variants@[0].name@ == "nRF51822_xxAA"@
    &&& family.variants@[0].memory_map@.len() == 3
    &&& family.variants@[0].memory_map@[0] is Flash
    &&& family.variants@[0].memory_map@[1] is Flash
    &&& family.variants@[0].memory_map@[2] is Ram
    &&& family.flash_algorithms@.len() == 1
    &&& family.flash_algorithms@[0].name@ == "nrf51"@
    &&& family.flash_algorithms@[0].default
    &&& family.flash_algorithms@[0].valid()
    &&& family.flash_algorithms@[0].flash_properties.address_range == (AddressRange {
        start: 0,
        end: 0x40000,
    })
    &&& family.flash_algorithms@[0].flash_properties.page_size == 0x400
    &&& family.flash_algorithms@[0].flash_properties.erased_byte_value == 0xFF
    &&& family.flash_algorithms@[0].flash_properties.program_page_timeout == 200
    &&& family.flash_algorithms@[0].flash_properties.erase_sector_timeout == 200
    &&& family.flash_algorithms@[0].flash_properties.sectors@ == seq![SectorDescription { size: 0x400, address: 0 }]
    &&& family.flash_algorithms@[0].instructions@ == seq![
        0xE00ABE00u32, 0x062D780Du32, 0x24084068u32, 0xD3000040u32, 0x1E644058u32, 0x1C49D1FAu32,
        0x2A001E52u32, 0x4770D1F2u32, 0x47702000u32, 0x47702000u32, 0x4c26b570u32, 0x60602002u32,
        0x60e02001u32, 0x68284d24u32, 0xd00207c0u32, 0x60602000u32, 0xf000bd70u32, 0xe7f6f82cu32,
        0x4c1eb570u32, 0x60612102u32, 0x4288491eu32, 0x2001d302u32, 0xe0006160u32, 0x4d1a60a0u32,
        0xf81df000u32, 0x07c06828u32, 0x2000d0fau32, 0xbd706060u32, 0x4605b5f8u32, 0x4813088eu32,
        0x46142101u32, 0x4f126041u32, 0xc501cc01u32, 0x07c06838u32, 0x1e76d006u32, 0x480dd1f8u32,
        0x60412100u32, 0xbdf84608u32, 0xf801f000u32, 0x480ce7f2u32, 0x06006840u32, 0xd00b0e00u32,
        0x6849490au32, 0xd0072900u32, 0x4a0a4909u32, 0xd00007c3u32, 0x1d09600au32, 0xd1f90840u32,
        0x00004770u32, 0x4001e500u32, 0x4001e400u32, 0x10001000u32, 0x40010400u32, 0x40010500u32,
        0x40010600u32, 0x6e524635u32, 0x00000000u32,
    ]
    &&& family.flash_algorithms@[0].pc_init == Some(0x20000021u32)
    &&& family.flash_algorithms@[0].pc_uninit is None
    &&& family.flash_algorithms@[0].pc_program_page == 0x20000071
    &&& family.flash_algorithms@[0].pc_erase_sector == 0x20000049
    &&& family.flash_algorithms@[0].pc_erase_all == Some(0x20000029u32)
    &&& family.flash_algorithms@[0].static_base == 0x20000170
    &&& family.flash_algorithms@[0].begin_stack == 0x20001000
    &&& family.flash_algorithms@[0].begin_data == 0x20002000
    &&& family.flash_algorithms@[0].page_buffers@ == seq![0x20002000u32, 0x20002400u32]
    &&& family.flash_algorithms@[0].load_address == 0x20000000
    &&& family.variants@[0].memory_map@[0] matches MemoryRegion::Flash(r) && r.range == (AddressRange {
        start: 0,
        end: 0x40000,
    }) && r.is_boot_memory && r.sector_size == 0x400 && r.page_size == 0x400 && r.erased_byte_value == 0xFF
    &&& family.variants@[0].memory_map@[1] matches MemoryRegion::Flash(r) && r.range == (AddressRange {
        start: 0x10001000,
        end: 0x10001100,
    }) && !r.is_boot_memory && r.sector_size == 0x100 && r.page_size == 0x100 && r.erased_byte_value == 0xFF
    &&& family.variants@[0].memory_map@[2] matches MemoryRegion::Ram(r) && r.range == (AddressRange {
        start: 0x20000000,
        end: 0x20004000,
    }) && !r.is_boot_memory
}

/// The nRF51 family: one variant, the nRF51822_xxAA, with a Cortex-M0 core.
#[allow(non_snake_case)]
pub fn nRF51822() -> (family: ChipFamily)
    ensures
        is_nrf51_family(family),
{
    let flash_algorithm = FlashAlgorithm {
        name: String::from_str("nrf51"),
        default: true,
        instructions: vec![
            0xE00ABE00, 0x062D780D, 0x24084068, 0xD3000040, 0x1E644058, 0x1C49D1FA, 0x2A001E52,
            0x4770D1F2, 0x47702000, 0x47702000, 0x4c26b570, 0x60602002, 0x60e02001, 0x68284d24,
            0xd00207c0, 0x60602000, 0xf000bd70, 0xe7f6f82c, 0x4c1eb570, 0x60612102, 0x4288491e,
            0x2001d302, 0xe0006160, 0x4d1a60a0, 0xf81df000, 0x07c06828, 0x2000d0fa, 0xbd706060,
            0x4605b5f8, 0x4813088e, 0x46142101, 0x4f126041, 0xc501cc01, 0x07c06838, 0x1e76d006,
            0x480dd1f8, 0x60412100, 0xbdf84608, 0xf801f000, 0x480ce7f2, 0x06006840, 0xd00b0e00,
            0x6849490a, 0xd0072900, 0x4a0a4909, 0xd00007c3, 0x1d09600a, 0xd1f90840, 0x00004770,
            0x4001e500, 0x4001e400, 0x10001000, 0x40010400, 0x40010500, 0x40010600, 0x6e524635,
            0x00000000,
        ],
        pc_init: Some(0x20000021),
        pc_uninit: None,
        pc_program_page: 0x20000071,
        pc_erase_sector: 0x20000049,
        pc_erase_all: Some(0x20000029),
        static_base: 0x20000170,
        begin_stack: 0x20001000,
        begin_data: 0x20002000,
        page_buffers: vec![0x20002000, 0x20002400],
        load_address: 0x20000000,
        flash_properties: FlashProperties {
            address_range: AddressRange { start: 0, end: 0x40000 },
            page_size: 0x400,
            erased_byte_value: 0xFF,
            program_page_timeout: 200,
            erase_sector_timeout: 200,
            sectors: vec![SectorDescription { size: 0x400, address: 0 }],
        },
    };
    let memory_map = vec![
        MemoryRegion::Flash(
            FlashRegion {
                range: AddressRange { start: 0, end: 0x40000 },
                is_boot_memory: true,
                sector_size: 0x400,
                page_size: 0x400,
                erased_byte_value: 0xFF,
            },
        ),
        MemoryRegion::Flash(
            FlashRegion {
                range: AddressRange { start: 0x10001000, end: 0x10001000 + 0x100 },
                is_boot_memory: false,
                sector_size: 0x100,
                page_size: 0x100,
                erased_byte_value: 0xFF,
            },
        ),
        MemoryRegion::Ram(
            RamRegion { range: AddressRange { start: 0x20000000, end: 0x20000000 + 0x4000 }, is_boot_memory: false },
        ),
    ];
    let chip = Chip { name: String::from_str("nRF51822_xxAA"), memory_map };
    let family = ChipFamily {
        name: String::from_str("nRF51"),
        manufacturer: Some(Jep106Code { cc: 0x02, id: 0x44 }),
        part: None,
        variants: vec![chip],
        flash_algorithms: vec![flash_algorithm],
        core: String::from_str("M0"),
    };
    assert(family.flash_algorithms@[0].flash_properties.sectors@ == seq![SectorDescription { size: 0x400, address: 0 }]);
    assert(family.variants@[0].memory_map@[0] matches MemoryRegion::Flash(r) && r.range == (AddressRange {
        start: 0,
        end: 0x40000,
    }) && r.is_boot_memory && r.sector_size == 0x400 && r.page_size == 0x400 && r.erased_byte_value == 0xFF);
    assert(family.variants@[0].memory_map@[1] matches MemoryRegion::Flash(r) && r.range == (AddressRange {
        start: 0x10001000,
        end: 0x10001100,
    }) && !r.is_boot_memory && r.sector_size == 0x100 && r.page_size == 0x100 && r.erased_byte_value == 0xFF);
    assert(family.variants@[0].memory_map@[2] matches MemoryRegion::Ram(r) && r.range == (AddressRange {
        start: 0x20000000,
        end: 0x20004000,
    }) && !r.is_boot_memory);
    family
}

} // verus!
