use probe_rs::builder::{FlashBuilder, NoFill};
use probe_rs::download::{
    add_blocks, download_bin, download_elf, download_hex, gather_hex_blocks, BinOptions,
    FileDownloadError, HexRecord,
};
use ihex::ReaderError;
use probe_rs::error::FlashError;
use probe_rs::targets::nRF51822;

const UPPER: &str = ":020000040800F2";
const DATA_10: &str = ":0400100001020304E2";
const DATA_100: &str = ":02010000AABB98";
const END: &str = ":00000001FF";

#[test]
fn hex_data_records_become_blocks() {
    let text = format!("{}\n{}\n\n{}\n", UPPER, DATA_10, DATA_100);
    let blocks = download_hex(&text).unwrap();
    assert_eq!(
        blocks,
        vec![(0x0800_0010, vec![1, 2, 3, 4]), (0x0800_0100, vec![0xAA, 0xBB])]
    );
}

#[test]
fn hex_data_without_extended_address_starts_at_zero() {
    let blocks = download_hex(DATA_10).unwrap();
    assert_eq!(blocks, vec![(0x10, vec![1, 2, 3, 4])]);
}

#[test]
fn hex_end_of_file_record_ends_the_data() {
    let text = format!("{}\n{}\n{}\n", UPPER, DATA_10, END);
    assert_eq!(download_hex(&text).unwrap(), vec![(0x0800_0010, vec![1, 2, 3, 4])]);
}

#[test]
fn gathered_records_stop_at_end_of_file() {
    let records = vec![
        Ok(HexRecord::ExtendedLinearAddress(0x0800)),
        Ok(HexRecord::Data { offset: 0x10, value: vec![1, 2] }),
        Ok(HexRecord::EndOfFile),
        Ok(HexRecord::Data { offset: 0x20, value: vec![3] }),
    ];
    assert_eq!(gather_hex_blocks(records).unwrap(), vec![(0x0800_0010, vec![1, 2])]);
    let records = vec![
        Ok(HexRecord::Data { offset: 0x10, value: vec![1, 2] }),
        Err(ReaderError::RecordTooShort),
    ];
    assert!(matches!(
        gather_hex_blocks(records),
        Err(FileDownloadError::IhexRead(ReaderError::RecordTooShort))
    ));
}

#[test]
fn hex_read_errors() {
    assert!(matches!(
        download_hex("0400100001020304E2"),
        Err(FileDownloadError::IhexRead(ReaderError::MissingStartCode))
    ));
    assert!(matches!(
        download_hex(":0400100001020304E3"),
        Err(FileDownloadError::IhexRead(ReaderError::ChecksumMismatch(_, _)))
    ));
    // The error of a later line ends the reading after the earlier records.
    let text = format!("{}\n:zz\n", DATA_10);
    assert!(matches!(download_hex(&text), Err(FileDownloadError::IhexRead(_))));
}

#[test]
fn bin_skips_bytes_and_uses_the_base_address() {
    let file = [1u8, 2, 3, 4, 5];
    let block = download_bin(&file, &BinOptions { base_address: Some(0x8000), skip: 2 });
    assert_eq!(block, (0x8000, vec![3, 4, 5]));
    let block = download_bin(&file, &BinOptions { base_address: None, skip: 0 });
    assert_eq!(block, (0, vec![1, 2, 3, 4, 5]));
    let block = download_bin(&file, &BinOptions { base_address: None, skip: 9 });
    assert_eq!(block, (0, vec![]));
}

/// A 32-bit little-endian ARM executable with the given program headers
/// (type, file offset, physical address, size in the file) followed by `payload`.
fn elf32(segments: &[(u32, u32, u32, u32)], payload: &[u8]) -> Vec<u8> {
    let mut f: Vec<u8> = vec![0x7f, b'E', b'L', b'F', 1, 1, 1, 0, 0, 0, 0, 0, 0, 0, 0, 0];
    let push16 = |f: &mut Vec<u8>, v: u16| f.extend_from_slice(&v.to_le_bytes());
    let push32 = |f: &mut Vec<u8>, v: u32| f.extend_from_slice(&v.to_le_bytes());
    push16(&mut f, 2);
    push16(&mut f, 40);
    push32(&mut f, 1);
    push32(&mut f, 0x1000);
    push32(&mut f, 52);
    push32(&mut f, 0);
    push32(&mut f, 0x0500_0200);
    push16(&mut f, 52);
    push16(&mut f, 32);
    push16(&mut f, segments.len() as u16);
    push16(&mut f, 40);
    push16(&mut f, 0);
    push16(&mut f, 0);
    for &(p_type, offset, paddr, filesz) in segments {
        push32(&mut f, p_type);
        push32(&mut f, offset);
        push32(&mut f, paddr);
        push32(&mut f, paddr);
        push32(&mut f, filesz);
        push32(&mut f, filesz);
        push32(&mut f, 5);
        push32(&mut f, 4);
    }
    f.extend_from_slice(payload);
    f
}

#[test]
fn elf_loaded_segments_become_blocks() {
    let payload_at = 52 + 3 * 32;
    let file = elf32(
        &[
            (1, payload_at, 0x1000, 4),
            (4, payload_at, 0x2000, 4),
            (1, payload_at + 4, 0x3000, 2),
        ],
        &[9, 8, 7, 6, 5, 4],
    );
    let blocks = download_elf(&file).unwrap();
    assert_eq!(blocks, vec![(0x1000, vec![9, 8, 7, 6]), (0x3000, vec![5, 4])]);
}

#[test]
fn elf_segment_past_the_end_is_refused() {
    let file = elf32(&[(1, 52 + 32, 0x1000, 64)], &[1, 2, 3]);
    assert!(matches!(
        download_elf(&file),
        Err(FileDownloadError::Object("segment reaches past the end of the file"))
    ));
}

#[test]
fn unparsable_elf_gives_no_block() {
    assert_eq!(download_elf(&[1, 2, 3, 4]).unwrap(), vec![]);
}

#[test]
fn blocks_are_added_to_the_builder() {
    let algo = nRF51822().flash_algorithms.remove(0);
    let blocks = vec![(0x400u32, vec![1u8, 2]), (0x10u32, vec![3u8])];
    let mut builder = FlashBuilder::new();
    add_blocks(&mut builder, &blocks).unwrap();
    let layout = builder.build_sectors_and_pages(&algo, &NoFill { erased_byte_value: 0xff }).unwrap();
    let pages: Vec<_> = layout.pages().iter().map(|p| (p.address, p.data.clone())).collect();
    let mut first = vec![0xff; 16];
    first.push(3);
    assert_eq!(pages, vec![(0, first), (0x400, vec![1, 2])]);
}

#[test]
fn adding_overlapping_blocks_stops_with_the_flash_error() {
    let blocks = vec![(0x10u32, vec![1u8, 2, 3]), (0x11u32, vec![4u8]), (0x40u32, vec![5u8])];
    let mut builder = FlashBuilder::new();
    assert!(matches!(
        add_blocks(&mut builder, &blocks),
        Err(FileDownloadError::Flash(FlashError::DataOverlap(0x11)))
    ));
    let blocks = vec![(0x10u32, vec![1u8]), (0x10u32, vec![4u8])];
    let mut builder = FlashBuilder::new();
    assert!(matches!(
        add_blocks(&mut builder, &blocks),
        Err(FileDownloadError::Flash(FlashError::DuplicateDataEntry(0x10)))
    ));
}
