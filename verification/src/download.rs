//! Turning binary, Intel HEX and ELF files into blocks of data for flashing.

use vstd::prelude::*;
use crate::builder::{add_result, FlashBuilder, WriteView};
use crate::error::FlashError;

verus! {

/// `ihex::ReaderError`, the error of a line that the reader could not read;
/// carried through as it is.
#[verifier::external_type_specification]
#[verifier::external_body]
pub struct ExIhexReaderError(ihex::ReaderError);

/// `std::io::Error`, the error of reading a file; carried through as it is.
#[verifier::external_type_specification]
#[verifier::external_body]
pub struct ExIoError(std::io::Error);

/// Extended options for flashing a binary file.
#[derive(Clone, Copy, Debug)]
pub struct BinOptions {
    /// The address in memory where the binary will be put at.
    pub base_address: Option<u32>,
    /// The number of bytes to skip at the start of the binary file.
    pub skip: u32,
}

/// The file formats the library understands.
#[derive(Clone, Copy, Debug)]
pub enum Format {
    Bin(BinOptions),
    Hex,
    Elf,
}

/// A record of an Intel HEX file.
#[derive(Clone, Debug)]
pub enum HexRecord {
    Data { offset: u16, value: Vec<u8> },
    EndOfFile,
    ExtendedSegmentAddress(u16),
    StartSegmentAddress { cs: u16, ip: u16 },
    ExtendedLinearAddress(u16),
    StartLinearAddress(u32),
}

/// A record as a mathematical value.
pub enum HexRecordView {
    Data { offset: u16, value: Seq<u8> },
    EndOfFile,
    ExtendedSegmentAddress(u16),
    StartSegmentAddress { cs: u16, ip: u16 },
    ExtendedLinearAddress(u16),
    StartLinearAddress(u32),
}

impl View for HexRecord {
    type V = HexRecordView;

    open spec fn view(&self) -> HexRecordView {
        match self {
            HexRecord::Data { offset, value } => HexRecordView::Data { offset: *offset, value: value@ },
            HexRecord::EndOfFile => HexRecordView::EndOfFile,
            HexRecord::ExtendedSegmentAddress(a) => HexRecordView::ExtendedSegmentAddress(*a),
            HexRecord::StartSegmentAddress { cs, ip } => HexRecordView::StartSegmentAddress { cs: *cs, ip: *ip },
            HexRecord::ExtendedLinearAddress(a) => HexRecordView::ExtendedLinearAddress(*a),
            HexRecord::StartLinearAddress(a) => HexRecordView::StartLinearAddress(*a),
        }
    }
}

/// Everything that can go wrong when flashing a file.
#[derive(Debug)]
pub enum FileDownloadError {
    Flash(FlashError),
    IhexRead(ihex::ReaderError),
    IO(std::io::Error),
    Object(&'static str),
}

/// The records that `ihex::Reader` yields for a text, in order, `None` for a
/// line that it could not read. With its default options the reader stops
/// after the first such line and after the end-of-file record.
pub uninterp spec fn ihex_records(text: Seq<char>) -> Seq<Option<HexRecordView>>;

/// The records as mathematical values, `None` for a read error.
pub open spec fn records_view(records: Seq<Result<HexRecord, ihex::ReaderError>>) -> Seq<Option<HexRecordView>> {
    records.map_values(|r: Result<HexRecord, ihex::ReaderError>| match r {
        Ok(record) => Some(record@),
        Err(_) => None,
    })
}

/// Reads the records of an Intel HEX text with `ihex::Reader::new`, each
/// record turned into a `HexRecord` field by field: the records are those
/// that `ihex_records` names for the text. Which reader error a bad line gives
/// is carried along and not stated.
#[verifier::external_body]
fn read_hex_records(text: &str) -> (records: Vec<Result<HexRecord, ihex::ReaderError>>)
    ensures
        records_view(records@) == ihex_records(text@),
{
    ihex::Reader::new(text).map(|r| r.map(|record| match record {
        ihex::Record::Data { offset, value } => HexRecord::Data { offset, value },
        ihex::Record::EndOfFile => HexRecord::EndOfFile,
        ihex::Record::ExtendedSegmentAddress(a) => HexRecord::ExtendedSegmentAddress(a),
        ihex::Record::StartSegmentAddress { cs, ip } => HexRecord::StartSegmentAddress { cs, ip },
        ihex::Record::ExtendedLinearAddress(a) => HexRecord::ExtendedLinearAddress(a),
        ihex::Record::StartLinearAddress(a) => HexRecord::StartLinearAddress(a),
    })).collect()
}

/// A block as a mathematical value.
pub open spec fn blocks_view(blocks: Seq<(u32, Vec<u8>)>) -> Seq<WriteView> {
    blocks.map_values(|b: (u32, Vec<u8>)| (b.0, b.1@))
}

/// The blocks of an Intel HEX file, gathered from its data records with the
/// upper address bits of the last extended linear address record. At an
/// end-of-file record the walk stops with the blocks gathered so far; a line
/// that could not be read stops it with `None`.
pub open spec fn hex_blocks(records: Seq<Option<HexRecordView>>, upper: u32, gathered: Seq<WriteView>) -> Option<Seq<WriteView>>
    decreases records.len(),
{
    if records.len() == 0 {
        Some(gathered)
    } else {
        match records[0] {
            None => None,
            Some(HexRecordView::EndOfFile) => Some(gathered),
            Some(HexRecordView::Data { offset, value }) => hex_blocks(
                records.drop_first(),
                upper,
                gathered.push(((upper | (offset as u32)), value)),
            ),
            Some(HexRecordView::ExtendedLinearAddress(address)) => hex_blocks(
                records.drop_first(),
                ((address as u32) << 16u32),
                gathered,
            ),
            Some(_) => hex_blocks(records.drop_first(), upper, gathered),
        }
    }
}

/// Gathers the blocks of the records that `ihex` read from a text.
pub fn gather_hex_blocks(records: Vec<Result<HexRecord, ihex::ReaderError>>) -> (blocks: Result<Vec<(u32, Vec<u8>)>, FileDownloadError>)
    ensures
        match hex_blocks(records_view(records@), 0, Seq::empty()) {
            Some(b) => blocks matches Ok(v) && blocks_view(v@) == b,
            None => blocks matches Err(FileDownloadError::IhexRead(_)),
        },
{
    let ghost all = records_view(records@);
    let mut buffer: Vec<(u32, Vec<u8>)> = Vec::new();
    let mut extended_linear_address: u32 = 0;
    let mut i: usize = 0;
    assert(all.skip(0) =~= all);
    assert(blocks_view(buffer@) =~= Seq::<WriteView>::empty());
    while i < records.len()
        invariant
            0 <= i <= records@.len(),
            all == records_view(records@),
            hex_blocks(all.skip(i as int), extended_linear_address, blocks_view(buffer@))
                == hex_blocks(all, 0, Seq::empty()),
        decreases records@.len() - i,
    {
        assert(all.skip(i as int).drop_first() =~= all.skip(i + 1));
        assert(all.skip(i as int)[0] == all[i as int]);
        match &records[i] {
            Err(e) => {
                return Err(FileDownloadError::IhexRead(*e));
            },
            Ok(HexRecord::EndOfFile) => {
                return Ok(buffer);
            },
            Ok(HexRecord::Data { offset, value }) => {
                let address = extended_linear_address | (*offset as u32);
                let data = value.clone();
                assert(data@ =~= value@);
                let ghost before = buffer@;
                buffer.push((address, data));
                assert(blocks_view(buffer@) =~= blocks_view(before).push((address, value@)));
            },
            Ok(HexRecord::ExtendedLinearAddress(address)) => {
                extended_linear_address = (*address as u32) << 16u32;
            },
            Ok(_) => {},
        }
        i = i + 1;
    }
    assert(all.skip(i as int) =~= Seq::<Option<HexRecordView>>::empty());
    Ok(buffer)
}

/// The blocks that an Intel HEX text gives for flashing.
pub fn download_hex(text: &str) -> (blocks: Result<Vec<(u32, Vec<u8>)>, FileDownloadError>)
    ensures
        match hex_blocks(ihex_records(text@), 0, Seq::empty()) {
            Some(b) => blocks matches Ok(v) && blocks_view(v@) == b,
            None => blocks matches Err(FileDownloadError::IhexRead(_)),
        },
{
    let records = read_hex_records(text);
    gather_hex_blocks(records)
}

/// The block that a binary file gives: its bytes after the first `skip`,
/// at the base address, or at 0 when none is given.
pub fn download_bin(file: &[u8], options: &BinOptions) -> (block: (u32, Vec<u8>))
    ensures
        block.0 == match options.base_address {
            Some(a) => a,
            None => 0u32,
        },
        block.1@ == if options.skip as int <= file@.len() {
            file@.skip(options.skip as int)
        } else {
            Seq::empty()
        },
{
    let start: usize = if (options.skip as u64) < (file.len() as u64) {
        options.skip as usize
    } else {
        file.len()
    };
    let data = copy_range(file, start, file.len() - start);
    let address = match options.base_address {
        Some(a) => a,
        None => 0,
    };
    proof {
        if options.skip as int <= file@.len() {
            assert(data@ =~= file@.skip(options.skip as int));
        } else {
            assert(data@ =~= Seq::<u8>::empty());
        }
    }
    (address, data)
}

/// A copy of `length` bytes of `data` from `start` on.
fn copy_range(data: &[u8], start: usize, length: usize) -> (copy: Vec<u8>)
    requires
        start + length <= data@.len(),
    ensures
        copy@ == data@.subrange(start as int, start + length),
{
    let mut copy: Vec<u8> = Vec::new();
    let mut k: usize = 0;
    while k < length
        invariant
            start + length <= data@.len(),
            data@.len() == data.len(),
            0 <= k <= length,
            copy@ == data@.subrange(start as int, start + k),
        decreases length - k,
    {
        copy.push(data[start + k]);
        k = k + 1;
        assert(copy@ =~= data@.subrange(start as int, start + k));
    }
    copy
}

/// A program header of an ELF file, as far as flashing needs it.
#[derive(Clone, Copy, Debug, PartialEq, Eq, Structural)]
pub struct ElfSegment {
    pub p_type: u32,
    pub p_offset: u64,
    pub p_filesz: u64,
    pub p_paddr: u64,
}

/// A loadable program header type.
pub const PT_LOAD: u32 = 1;

/// The program headers, in the file's order, that `goblin::elf::Elf::parse`
/// reads from an ELF file, or `None` when it refuses the file.
pub uninterp spec fn elf_program_headers(bytes: Seq<u8>) -> Option<Seq<ElfSegment>>;

/// Parses an ELF file with `goblin::elf::Elf::parse` and keeps of each
/// program header its type, file offset, size in the file and physical
/// address: the segments are those that `elf_program_headers` names for the
/// bytes, and `None` comes exactly when goblin refuses the file. The
/// contract takes it that goblin returns on every input, malformed ones
/// included; goblin's parser is not shown here to be free of panics.
#[verifier::external_body]
fn parse_elf_segments(bytes: &[u8]) -> (segments: Option<Vec<ElfSegment>>)
    ensures
        match elf_program_headers(bytes@) {
            None => segments is None,
            Some(s) => segments matches Some(v) && v@ == s,
        },
{
    let elf = goblin::elf::Elf::parse(bytes).ok()?;
    Some(elf.program_headers.iter().map(|ph| ElfSegment {
        p_type: ph.p_type,
        p_offset: ph.p_offset,
        p_filesz: ph.p_filesz,
        p_paddr: ph.p_paddr,
    }).collect())
}

/// A segment is loaded when it is loadable and holds bytes in the file.
pub open spec fn is_loaded(segment: ElfSegment) -> bool {
    segment.p_type == PT_LOAD && segment.p_filesz > 0
}

/// Every loaded segment lies within the file.
pub open spec fn segments_in_file(segments: Seq<ElfSegment>, file_len: int) -> bool {
    forall|i: int|
        0 <= i < segments.len() && is_loaded(#[trigger] segments[i]) ==> segments[i].p_offset
            + segments[i].p_filesz <= file_len
}

/// The blocks of the loaded segments, in order: the segment's bytes in the
/// file, at its physical address cut to 32 bits.
pub open spec fn elf_blocks_spec(file: Seq<u8>, segments: Seq<ElfSegment>) -> Seq<WriteView>
    decreases segments.len(),
{
    if segments.len() == 0 {
        Seq::empty()
    } else {
        let rest = elf_blocks_spec(file, segments.drop_last());
        let s = segments.last();
        if is_loaded(s) {
            rest.push(
                (
                    s.p_paddr as u32,
                    file.subrange(s.p_offset as int, s.p_offset + s.p_filesz),
                ),
            )
        } else {
            rest
        }
    }
}

/// The blocks of the loaded segments of an ELF file.
pub fn elf_blocks(file: &[u8], segments: &Vec<ElfSegment>) -> (blocks: Vec<(u32, Vec<u8>)>)
    requires
        segments_in_file(segments@, file@.len() as int),
    ensures
        blocks_view(blocks@) == elf_blocks_spec(file@, segments@),
{
    let mut blocks: Vec<(u32, Vec<u8>)> = Vec::new();
    let mut i: usize = 0;
    assert(blocks_view(blocks@) =~= elf_blocks_spec(file@, segments@.take(0)));
    while i < segments.len()
        invariant
            0 <= i <= segments@.len(),
            segments_in_file(segments@, file@.len() as int),
            blocks_view(blocks@) == elf_blocks_spec(file@, segments@.take(i as int)),
        decreases segments@.len() - i,
    {
        let s = segments[i];
        assert(segments@.take(i + 1).drop_last() =~= segments@.take(i as int));
        assert(segments@.take(i + 1).last() == s);
        if s.p_type == PT_LOAD && s.p_filesz > 0 {
            assert(is_loaded(segments@[i as int]));
            assert(s.p_offset + s.p_filesz <= file@.len());
            assert(file@.len() == file.len());
            let start = s.p_offset as usize;
            let length = s.p_filesz as usize;
            let data = copy_range(file, start, length);
            let ghost before = blocks@;
            blocks.push((s.p_paddr as u32, data));
            assert(blocks_view(blocks@) =~= blocks_view(before).push((s.p_paddr as u32, data@)));
            assert(elf_blocks_spec(file@, segments@.take(i + 1)) == elf_blocks_spec(
                file@,
                segments@.take(i as int),
            ).push((s.p_paddr as u32, file@.subrange(s.p_offset as int, s.p_offset + s.p_filesz))));
        } else {
            assert(!is_loaded(segments@[i as int]));
            assert(elf_blocks_spec(file@, segments@.take(i + 1)) == elf_blocks_spec(
                file@,
                segments@.take(i as int),
            ));
        }
        i = i + 1;
    }
    assert(segments@.take(segments@.len() as int) =~= segments@);
    blocks
}

/// The blocks that an ELF file gives for flashing: none when the file cannot
/// be parsed; an error when a loaded segment reaches past the end of the file.
pub fn download_elf(file: &[u8]) -> (blocks: Result<Vec<(u32, Vec<u8>)>, FileDownloadError>)
    ensures
        match elf_program_headers(file@) {
            None => blocks matches Ok(v) && v@.len() == 0,
            Some(segments) => if segments_in_file(segments, file@.len() as int) {
                blocks matches Ok(v) && blocks_view(v@) == elf_blocks_spec(file@, segments)
            } else {
                blocks matches Err(FileDownloadError::Object(msg)) && msg@ == "segment reaches past the end of the file"@
            },
        },
{
    let segments = match parse_elf_segments(file) {
        None => {
            return Ok(Vec::new());
        },
        Some(segments) => segments,
    };
    let mut i: usize = 0;
    while i < segments.len()
        invariant
            0 <= i <= segments@.len(),
            elf_program_headers(file@) == Some(segments@),
            forall|k: int|
                0 <= k < i && is_loaded(#[trigger] segments@[k]) ==> segments@[k].p_offset
                    + segments@[k].p_filesz <= file@.len(),
        decreases segments@.len() - i,
    {
        let s = segments[i];
        if s.p_type == PT_LOAD && s.p_filesz > 0 {
            if s.p_offset > file.len() as u64 || s.p_filesz > file.len() as u64 - s.p_offset {
                assert(is_loaded(segments@[i as int]));
                assert(segments@[i as int].p_offset + segments@[i as int].p_filesz > file@.len());
                assert(!segments_in_file(segments@, file@.len() as int));
                assert(elf_program_headers(file@) == Some(segments@));
                return Err(FileDownloadError::Object("segment reaches past the end of the file"));
            }
        }
        i = i + 1;
    }
    Ok(elf_blocks(file, &segments))
}

/// The outcome of adding blocks one after the other, stopping at the first error.
pub open spec fn add_all(writes: Seq<WriteView>, blocks: Seq<WriteView>) -> (Result<(), FlashError>, Seq<WriteView>)
    decreases blocks.len(),
{
    if blocks.len() == 0 {
        (Ok(()), writes)
    } else {
        let (r, after) = add_result(writes, blocks[0].0, blocks[0].1);
        match r {
            Err(e) => (Err(e), after),
            Ok(()) => add_all(after, blocks.drop_first()),
        }
    }
}

/// Adds blocks to a builder in order, stopping at the first error.
pub fn add_blocks<'b>(loader: &mut FlashBuilder<'b>, blocks: &'b Vec<(u32, Vec<u8>)>) -> (result: Result<(), FileDownloadError>)
    requires
        old(loader).sorted(),
        forall|i: int| 0 <= i < blocks@.len() ==> #[trigger] blocks@[i].0 + blocks@[i].1@.len() <= 0x1_0000_0000,
        old(loader).buffered_data_size() + blocks_total(blocks_view(blocks@)) <= usize::MAX,
    ensures
        match add_all(old(loader).writes(), blocks_view(blocks@)) {
            (Ok(()), w) => result is Ok && final(loader).writes() == w,
            (Err(e), w) => result matches Err(FileDownloadError::Flash(e2)) && e2 == e && final(loader).writes() == w,
        },
{
    let ghost all = blocks_view(blocks@);
    let mut i: usize = 0;
    assert(all.skip(0) =~= all);
    while i < blocks.len()
        invariant
            0 <= i <= blocks@.len(),
            all == blocks_view(blocks@),
            loader.sorted(),
            add_all(loader.writes(), all.skip(i as int)) == add_all(old(loader).writes(), all),
            loader.buffered_data_size() + blocks_total(all.skip(i as int)) <= usize::MAX,
            forall|k: int| 0 <= k < blocks@.len() ==> #[trigger] blocks@[k].0 + blocks@[k].1@.len() <= 0x1_0000_0000,
        decreases blocks@.len() - i,
    {
        assert(all.skip(i as int).drop_first() =~= all.skip(i + 1));
        assert(all.skip(i as int)[0] == (blocks@[i as int].0, blocks@[i as int].1@));
        assert(blocks_total(all.skip(i as int)) == blocks@[i as int].1@.len() + blocks_total(
            all.skip(i + 1),
        ));
        proof {
            lemma_blocks_total_nonneg(all.skip(i + 1));
        }
        let block = &blocks[i];
        match loader.add_data(block.0, block.1.as_slice()) {
            Err(e) => {
                return Err(FileDownloadError::Flash(e));
            },
            Ok(()) => {},
        }
        i = i + 1;
    }
    Ok(())
}

proof fn lemma_blocks_total_nonneg(blocks: Seq<WriteView>)
    ensures
        blocks_total(blocks) >= 0,
    decreases blocks.len(),
{
    if blocks.len() > 0 {
        lemma_blocks_total_nonneg(blocks.drop_first());
    }
}

/// The number of bytes of a list of blocks.
pub open spec fn blocks_total(blocks: Seq<WriteView>) -> int
    decreases blocks.len(),
{
    if blocks.len() == 0 {
        0
    } else {
        blocks[0].1.len() + blocks_total(blocks.drop_first())
    }
}

} // verus!
