use probe_rs::builder::{ErasedFill, FlashBuilder, FlashLayout, FlashSector, NoFill, RestoreFill};
use probe_rs::error::FlashError;
use probe_rs::flash_algorithm::{FlashAlgorithm, FlashProperties, SectorDescription};
use probe_rs::memory::AddressRange;

fn assemble_demo_flash1() -> FlashAlgorithm {
    let sd = SectorDescription { size: 4096, address: 0 };

    let mut flash_algorithm = FlashAlgorithm::default();
    flash_algorithm.flash_properties = FlashProperties {
        address_range: AddressRange { start: 0, end: 1 << 16 },
        page_size: 1024,
        erased_byte_value: 255,
        program_page_timeout: 200,
        erase_sector_timeout: 200,
        sectors: vec![sd],
    };

    flash_algorithm
}

fn sector(address: u32) -> FlashSector {
    FlashSector { address, size: 4096, page_size: 1024 }
}

/// Unwritten bytes of a page read as erased flash.
const NO_FILL: NoFill = NoFill { erased_byte_value: 0xff };

/// Every page of a layout: its address, its size and its bytes.
fn pages_of(layout: &FlashLayout) -> Vec<(u32, u32, Vec<u8>)> {
    layout.pages().iter().map(|p| (p.address, p.size, p.data.clone())).collect()
}

/// `n` bytes of `value` after `gap` erased bytes.
fn gap_then(gap: usize, value: u8, n: usize) -> Vec<u8> {
    let mut v = vec![0xff; gap];
    v.extend(std::iter::repeat(value).take(n));
    v
}

#[test]
fn test1() {
    let flash_algorithm = assemble_demo_flash1();
    let mut flash_builder = FlashBuilder::new();
    flash_builder.add_data(0, &[42]).unwrap();
    let flash_layout = flash_builder.build_sectors_and_pages(&flash_algorithm, &NO_FILL).unwrap();
    assert_eq!(flash_layout.sectors(), &[sector(0)]);
    assert_eq!(pages_of(&flash_layout), vec![(0, 1024, vec![42])]);
}

#[test]
fn test2() {
    let flash_algorithm = assemble_demo_flash1();
    let mut flash_builder = FlashBuilder::new();
    flash_builder.add_data(0, &[42; 1024]).unwrap();
    let flash_layout = flash_builder.build_sectors_and_pages(&flash_algorithm, &NO_FILL).unwrap();
    assert_eq!(flash_layout.sectors(), &[sector(0)]);
    assert_eq!(pages_of(&flash_layout), vec![(0, 1024, vec![42; 1024])]);
}

#[test]
fn test3() {
    let flash_algorithm = assemble_demo_flash1();
    let mut flash_builder = FlashBuilder::new();
    flash_builder.add_data(0, &[42; 1025]).unwrap();
    let flash_layout = flash_builder.build_sectors_and_pages(&flash_algorithm, &NO_FILL).unwrap();
    assert_eq!(flash_layout.sectors(), &[sector(0)]);
    assert_eq!(
        pages_of(&flash_layout),
        vec![(0, 1024, vec![42; 1024]), (1024, 1024, vec![42])]
    );
}

#[test]
fn test4() {
    let flash_algorithm = assemble_demo_flash1();
    let mut flash_builder = FlashBuilder::new();
    flash_builder.add_data(42, &[42; 1024]).unwrap();
    let flash_layout = flash_builder.build_sectors_and_pages(&flash_algorithm, &NO_FILL).unwrap();
    assert_eq!(flash_layout.sectors(), &[sector(0)]);
    // Each byte sits at the offset of its address in its page.
    assert_eq!(
        pages_of(&flash_layout),
        vec![(0, 1024, gap_then(42, 42, 982)), (1024, 1024, vec![42; 42])]
    );
}

#[test]
fn test5() {
    let flash_algorithm = assemble_demo_flash1();
    let mut flash_builder = FlashBuilder::new();
    flash_builder.add_data(40, &[42; 1024]).unwrap();
    let flash_layout = flash_builder.build_sectors_and_pages(&flash_algorithm, &NO_FILL).unwrap();
    assert_eq!(flash_layout.sectors(), &[sector(0)]);
    assert_eq!(
        pages_of(&flash_layout),
        vec![(0, 1024, gap_then(40, 42, 984)), (1024, 1024, vec![42; 40])]
    );
}

#[test]
fn test6() {
    let flash_algorithm = assemble_demo_flash1();
    let mut flash_builder = FlashBuilder::new();
    flash_builder.add_data(0, &[42; 5024]).unwrap();
    let flash_layout = flash_builder.build_sectors_and_pages(&flash_algorithm, &NO_FILL).unwrap();
    assert_eq!(flash_layout.sectors(), &[sector(0), sector(4096)]);
    assert_eq!(
        pages_of(&flash_layout),
        vec![
            (0, 1024, vec![42; 1024]),
            (1024, 1024, vec![42; 1024]),
            (2048, 1024, vec![42; 1024]),
            (3072, 1024, vec![42; 1024]),
            (4096, 1024, vec![42; 928])
        ]
    );
}

#[test]
fn duplicate_address_is_refused() {
    let mut flash_builder = FlashBuilder::new();
    flash_builder.add_data(16, &[1, 2]).unwrap();
    assert!(matches!(
        flash_builder.add_data(16, &[3]),
        Err(FlashError::DuplicateDataEntry(16))
    ));
}

#[test]
fn overlapping_data_is_refused() {
    let mut flash_builder = FlashBuilder::new();
    flash_builder.add_data(0, &[1, 2, 3, 4]).unwrap();
    assert!(matches!(
        flash_builder.add_data(2, &[5]),
        Err(FlashError::DataOverlap(2))
    ));
}

#[test]
fn adjacent_blocks_are_accepted_in_any_order() {
    let mut flash_builder = FlashBuilder::new();
    flash_builder.add_data(4, &[5, 6]).unwrap();
    flash_builder.add_data(0, &[1, 2, 3, 4]).unwrap();
    let flash_layout = flash_builder
        .build_sectors_and_pages(&assemble_demo_flash1(), &NO_FILL)
        .unwrap();
    // No byte is lost or added: the page holds the blocks in address order.
    assert_eq!(flash_layout.pages()[0].data, vec![1, 2, 3, 4, 5, 6]);
}

#[test]
fn address_outside_flash_is_refused() {
    let mut flash_builder = FlashBuilder::new();
    flash_builder.add_data(1 << 16, &[1]).unwrap();
    assert!(matches!(
        flash_builder.build_sectors_and_pages(&assemble_demo_flash1(), &NO_FILL),
        Err(FlashError::InvalidFlashAddress(0x10000))
    ));
}

#[test]
fn erased_fill_pads_every_page() {
    let mut flash_builder = FlashBuilder::new();
    flash_builder.add_data(0, &[1; 1030]).unwrap();
    let filler = ErasedFill { erased_byte_value: 0xff };
    let flash_layout = flash_builder
        .build_sectors_and_pages(&assemble_demo_flash1(), &filler)
        .unwrap();
    let pages = flash_layout.pages();
    assert_eq!(pages.len(), 2);
    assert_eq!(pages[1].data.len(), 1024);
    assert_eq!(pages[1].data[5], 1);
    assert_eq!(pages[1].data[6], 0xff);
    // Pages never overlap.
    assert!(pages[0].address + pages[0].size <= pages[1].address);
}

#[test]
fn gaps_between_blocks_keep_offsets() {
    let mut flash_builder = FlashBuilder::new();
    flash_builder.add_data(10, &[1, 2]).unwrap();
    flash_builder.add_data(20, &[3]).unwrap();
    let flash_layout = flash_builder
        .build_sectors_and_pages(&assemble_demo_flash1(), &NO_FILL)
        .unwrap();
    let mut expected = vec![0xff; 21];
    expected[10] = 1;
    expected[11] = 2;
    expected[20] = 3;
    assert_eq!(pages_of(&flash_layout), vec![(0, 1024, expected)]);
}

#[test]
fn restore_fill_keeps_old_contents() {
    let mut flash_builder = FlashBuilder::new();
    flash_builder.add_data(2, &[9]).unwrap();
    let old: Vec<u8> = (0..8).collect();
    let filler = RestoreFill { start: 0, contents: old, erased_byte_value: 0xff };
    let flash_layout = flash_builder
        .build_sectors_and_pages(&assemble_demo_flash1(), &filler)
        .unwrap();
    let mut expected = vec![0xff; 1024];
    expected[..8].copy_from_slice(&[0, 1, 9, 3, 4, 5, 6, 7]);
    assert_eq!(pages_of(&flash_layout), vec![(0, 1024, expected)]);
}

#[test]
fn sector_and_page_info() {
    let algo = assemble_demo_flash1();
    let s = algo.sector_info(5000).unwrap();
    assert_eq!((s.base_address, s.size, s.page_size), (4096, 4096, 1024));
    let p = algo.page_info(5000).unwrap();
    assert_eq!((p.base_address, p.size), (4096, 1024));
    assert!(algo.sector_info(1 << 16).is_none());
    assert!(algo.page_info(1 << 16).is_none());
}

#[test]
fn blocks_give_the_same_layout_in_either_order() {
    let algo = assemble_demo_flash1();
    let first = [1u8; 1500];
    let second = [2u8; 700];
    let mut forward = FlashBuilder::new();
    forward.add_data(0, &first).unwrap();
    forward.add_data(3000, &second).unwrap();
    let mut backward = FlashBuilder::new();
    backward.add_data(3000, &second).unwrap();
    backward.add_data(0, &first).unwrap();
    let a = forward.build_sectors_and_pages(&algo, &NO_FILL).unwrap();
    let b = backward.build_sectors_and_pages(&algo, &NO_FILL).unwrap();
    assert_eq!(a.sectors(), b.sectors());
    assert_eq!(pages_of(&a), pages_of(&b));
    assert_eq!(
        pages_of(&a),
        vec![
            (0, 1024, vec![1; 1024]),
            (1024, 1024, vec![1; 476]),
            (2048, 1024, gap_then(952, 2, 72)),
            (3072, 1024, vec![2; 628])
        ]
    );
}

#[test]
fn overlap_is_refused_in_either_order() {
    let mut forward = FlashBuilder::new();
    forward.add_data(0, &[1, 2, 3]).unwrap();
    assert!(matches!(forward.add_data(2, &[4]), Err(FlashError::DataOverlap(2))));
    let mut backward = FlashBuilder::new();
    backward.add_data(2, &[4]).unwrap();
    assert!(matches!(backward.add_data(0, &[1, 2, 3]), Err(FlashError::DataOverlap(2))));
}
