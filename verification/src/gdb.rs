//! Replies of the GDB remote serial protocol.

use vstd::prelude::*;
use vstd::utf8::{decode_utf8, encode_utf8, is_ascii_chars, valid_utf8};
use crate::memory::MemoryRegion;

verus! {

broadcast use {vstd::utf8::is_ascii_chars_encode_utf8, vstd::utf8::encode_utf8_decode_utf8, vstd::utf8::encode_utf8_valid_utf8, vstd::utf8::is_ascii_chars_concat};

/// The features the server supports.
pub fn q_supported() -> (reply: Option<String>)
    ensures
        reply matches Some(s) && s@ == "PacketSize=2048;swbreak-;hwbreak+;vContSupported+;qXfer:memory-map:read+"@,
{
    Some(String::from_str("PacketSize=2048;swbreak-;hwbreak+;vContSupported+;qXfer:memory-map:read+"))
}

/// The empty reply, for packets the server does not support.
pub fn reply_empty() -> (reply: Option<String>)
    ensures
        reply matches Some(s) && s@ == ""@,
{
    Some(String::from_str(""))
}

/// The server is attached to an existing process.
pub fn q_attached() -> (reply: Option<String>)
    ensures
        reply matches Some(s) && s@ == "1"@,
{
    Some(String::from_str("1"))
}

/// The target stopped on a trap signal.
pub fn halt_reason() -> (reply: Option<String>)
    ensures
        reply matches Some(s) && s@ == "S05"@,
{
    Some(String::from_str("S05"))
}

/// The general registers, which the server does not report.
pub fn read_general_registers() -> (reply: Option<String>)
    ensures
        reply matches Some(s) && s@ == "xxxxxxxx"@,
{
    Some(String::from_str("xxxxxxxx"))
}

/// The `vCont` actions the server supports.
pub fn vcont_supported() -> (reply: Option<String>)
    ensures
        reply matches Some(s) && s@ == "vCont;c;t;s"@,
{
    Some(String::from_str("vCont;c;t;s"))
}

/// The host the target looks like to the debugger.
pub fn host_info() -> (reply: Option<String>)
    ensures
        reply matches Some(s) && s@ == "cputype:12;cpusubtype:14;triple:armv6m--none-eabi;endian:litte;ptrsize:4"@,
{
    Some(String::from_str("cputype:12;cpusubtype:14;triple:armv6m--none-eabi;endian:litte;ptrsize:4"))
}

/// The core was set running: the server awaits a halt and sends no reply yet.
pub fn run(awaits_halt: &mut bool) -> (reply: Option<String>)
    ensures
        *final(awaits_halt),
        reply is None,
{
    *awaits_halt = true;
    None
}

/// The core was stopped.
pub fn stop(awaits_halt: &mut bool) -> (reply: Option<String>)
    ensures
        !*final(awaits_halt),
        reply matches Some(s) && s@ == "OK"@,
{
    *awaits_halt = false;
    Some(String::from_str("OK"))
}

/// The core stepped one instruction.
pub fn step(awaits_halt: &mut bool) -> (reply: Option<String>)
    ensures
        !*final(awaits_halt),
        reply matches Some(s) && s@ == "S05"@,
{
    *awaits_halt = false;
    Some(String::from_str("S05"))
}

/// The user interrupted the core.
pub fn user_halt(awaits_halt: &mut bool) -> (reply: Option<String>)
    ensures
        !*final(awaits_halt),
        reply matches Some(s) && s@ == "T02"@,
{
    *awaits_halt = false;
    Some(String::from_str("T02"))
}

/// The debugger detaches: the session is to end.
pub fn detach(break_due: &mut bool) -> (reply: Option<String>)
    ensures
        *final(break_due),
        reply matches Some(s) && s@ == "OK"@,
{
    *break_due = true;
    Some(String::from_str("OK"))
}

/// The lower-case hexadecimal digit of `d`.
pub open spec fn hex_char(d: int) -> char {
    if d < 10 {
        (48 + d) as char
    } else {
        (87 + d) as char
    }
}

/// The two hexadecimal digits of a byte.
pub open spec fn byte_hex(b: int) -> Seq<char> {
    seq![hex_char(b / 16), hex_char(b % 16)]
}

/// The hexadecimal digits of `n`, without leading zeros.
pub open spec fn hex_digits(n: nat) -> Seq<char>
    decreases n,
{
    if n < 16 {
        seq![hex_char(n as int)]
    } else {
        hex_digits(n / 16) + seq![hex_char((n % 16) as int)]
    }
}

/// Two hexadecimal digits for each byte.
pub open spec fn bytes_hex(bytes: Seq<u8>) -> Seq<char>
    decreases bytes.len(),
{
    if bytes.len() == 0 {
        Seq::empty()
    } else {
        bytes_hex(bytes.drop_last()) + byte_hex(bytes.last() as int)
    }
}

pub(crate) fn hex_digit(d: u32) -> (s: &'static str)
    requires
        d < 16,
    ensures
        s@ == seq![hex_char(d as int)],
        is_ascii_chars(s@),
{
    proof {
        reveal_strlit("0");
        reveal_strlit("1");
        reveal_strlit("2");
        reveal_strlit("3");
        reveal_strlit("4");
        reveal_strlit("5");
        reveal_strlit("6");
        reveal_strlit("7");
        reveal_strlit("8");
        reveal_strlit("9");
        reveal_strlit("a");
        reveal_strlit("b");
        reveal_strlit("c");
        reveal_strlit("d");
        reveal_strlit("e");
        reveal_strlit("f");
    }
    let s = if d == 0 {
        "0"
    } else if d == 1 {
        "1"
    } else if d == 2 {
        "2"
    } else if d == 3 {
        "3"
    } else if d == 4 {
        "4"
    } else if d == 5 {
        "5"
    } else if d == 6 {
        "6"
    } else if d == 7 {
        "7"
    } else if d == 8 {
        "8"
    } else if d == 9 {
        "9"
    } else if d == 10 {
        "a"
    } else if d == 11 {
        "b"
    } else if d == 12 {
        "c"
    } else if d == 13 {
        "d"
    } else if d == 14 {
        "e"
    } else {
        "f"
    };
    assert(s@ =~= seq![hex_char(d as int)]);
    s
}

fn append_byte_hex(s: &mut String, b: u32)
    requires
        b < 256,
        is_ascii_chars(old(s)@),
    ensures
        final(s)@ == old(s)@ + byte_hex(b as int),
        is_ascii_chars(final(s)@),
{
    let ghost start = s@;
    s.append(hex_digit(b / 16));
    s.append(hex_digit(b % 16));
    assert(s@ =~= start + byte_hex(b as int));
}

fn append_hex(s: &mut String, n: u32)
    requires
        is_ascii_chars(old(s)@),
    ensures
        final(s)@ == old(s)@ + hex_digits(n as nat),
        is_ascii_chars(final(s)@),
    decreases n,
{
    let ghost start = s@;
    if n < 16 {
        s.append(hex_digit(n));
    } else {
        append_hex(s, n / 16);
        s.append(hex_digit(n % 16));
        assert(s@ =~= start + hex_digits(n as nat));
    }
}

/// The value of a register: its four bytes in hexadecimal, least significant first.
pub fn read_register(value: u32) -> (reply: Option<String>)
    ensures
        reply matches Some(s) && s@ == byte_hex(value as int % 256) + byte_hex((value as int / 256) % 256)
            + byte_hex((value as int / 65536) % 256) + byte_hex(value as int / 16777216),
{
    let mut s = String::new();
    append_byte_hex(&mut s, value % 256);
    append_byte_hex(&mut s, (value / 256) % 256);
    append_byte_hex(&mut s, (value / 65536) % 256);
    append_byte_hex(&mut s, value / 16777216);
    Some(s)
}

/// The bytes read from memory, two hexadecimal digits each; when the read
/// failed, error 79.
pub fn read_memory(readback: Option<&[u8]>) -> (reply: Option<String>)
    ensures
        match readback {
            Some(data) => reply matches Some(s) && s@ == bytes_hex(data@),
            None => reply matches Some(s) && s@ == "E79"@,
        },
{
    match readback {
        None => Some(String::from_str("E79")),
        Some(data) => {
            let mut s = String::new();
            let mut i: usize = 0;
            while i < data.len()
                invariant
                    0 <= i <= data@.len(),
                    s@ == bytes_hex(data@.take(i as int)),
                    is_ascii_chars(s@),
                decreases data@.len() - i,
            {
                append_byte_hex(&mut s, data[i] as u32);
                assert(data@.take(i + 1).drop_last() =~= data@.take(i as int));
                i = i + 1;
            }
            assert(data@.take(data@.len() as int) =~= data@);
            Some(s)
        },
    }
}

/// A part of a file sent in reply to a `qXfer` read: up to `len` items from
/// `offset` on, after `more` when that many were there and after `last`
/// otherwise; only `last` when the offset lies past the end.
pub open spec fn sanitize<A>(data: Seq<A>, offset: int, len: int, more: A, last: A) -> Seq<A> {
    if offset > data.len() {
        seq![last]
    } else {
        let end = if offset + len > data.len() {
            data.len() as int
        } else {
            offset + len
        };
        let part = data.subrange(offset, end);
        if part.len() >= len {
            seq![more] + part
        } else {
            seq![last] + part
        }
    }
}

/// The bytes of a file from `offset`, at most `len` of them, prefixed with
/// `m` when there may be more and with `l` when they are the last.
pub fn gdb_sanitize_file(data: &[u8], offset: u32, len: u32) -> (reply: Vec<u8>)
    ensures
        reply@ == sanitize(data@, offset as int, len as int, 109u8, 108u8),
{
    if offset as u64 > data.len() as u64 {
        let mut v: Vec<u8> = Vec::new();
        v.push(108u8);
        assert(v@ =~= seq![108u8]);
        return v;
    }
    let start = offset as usize;
    let end: usize = if offset as u64 + len as u64 > data.len() as u64 {
        data.len()
    } else {
        (offset as u64 + len as u64) as usize
    };
    let mut trimmed: Vec<u8> = Vec::new();
    let mut k = start;
    while k < end
        invariant
            start <= k <= end,
            end <= data@.len(),
            trimmed@ == data@.subrange(start as int, k as int),
        decreases end - k,
    {
        trimmed.push(data[k]);
        k = k + 1;
        assert(trimmed@ =~= data@.subrange(start as int, k as int));
    }
    let ghost part = trimmed@;
    if trimmed.len() as u64 >= len as u64 {
        trimmed.insert(0, 109u8);
    } else {
        trimmed.insert(0, 108u8);
    }
    assert(trimmed@ =~= sanitize(data@, offset as int, len as int, 109u8, 108u8));
    trimmed
}

/// The start of a memory map document.
pub const MEMORY_MAP_HEADER: &'static str = "<?xml version=\"1.0\"?>\n<!DOCTYPE memory-map PUBLIC \"+//IDN gnu.org//DTD GDB Memory Map V1.0//EN\" \"http://sourceware.org/gdb/gdb-memory-map.dtd\">\n<memory-map>\n";

/// The entry of a region: RAM, or ROM for flash and other memory, with its
/// start and length in hexadecimal. Each entry ends in a backslash and `n`.
pub open spec fn region_xml(region: MemoryRegion) -> Seq<char> {
    let range = region.spec_range();
    "<memory type=\""@ + (if region is Ram {
        "ram"@
    } else {
        "rom"@
    }) + "\" start=\"0x"@ + hex_digits(range.start as nat) + "\" length=\"0x"@ + hex_digits(
        (range.end - range.start) as nat,
    ) + "\"/>\\n"@
}

/// The entries of the regions, in order.
pub open spec fn regions_xml(regions: Seq<MemoryRegion>) -> Seq<char>
    decreases regions.len(),
{
    if regions.len() == 0 {
        Seq::empty()
    } else {
        regions_xml(regions.drop_last()) + region_xml(regions.last())
    }
}

/// The memory map document of the regions.
pub open spec fn memory_map_xml(regions: Seq<MemoryRegion>) -> Seq<char> {
    MEMORY_MAP_HEADER@ + regions_xml(regions) + "</memory-map>"@
}

fn append_ascii(s: &mut String, piece: &str)
    requires
        is_ascii_chars(old(s)@),
        is_ascii_chars(piece@),
    ensures
        final(s)@ == old(s)@ + piece@,
        is_ascii_chars(final(s)@),
{
    s.append(piece);
    assert(is_ascii_chars(s@)) by {
        assert forall|i: int| 0 <= i < s@.len() implies '\0' <= #[trigger] s@[i] <= '\u{7f}' by {
            if i < old(s)@.len() {
                assert(s@[i] == old(s)@[i]);
            } else {
                assert(s@[i] == piece@[i - old(s)@.len()]);
            }
        }
    }
}

fn append_region(xml: &mut String, region: MemoryRegion)
    requires
        is_ascii_chars(old(xml)@),
        region.spec_range().start <= region.spec_range().end,
    ensures
        final(xml)@ == old(xml)@ + region_xml(region),
        is_ascii_chars(final(xml)@),
{
    proof {
        reveal_strlit("<memory type=\"");
        reveal_strlit("ram");
        reveal_strlit("rom");
        reveal_strlit("\" start=\"0x");
        reveal_strlit("\" length=\"0x");
        reveal_strlit("\"/>\\n");
    }
    let ghost before = xml@;
    let (kind, start, end) = match region {
        MemoryRegion::Ram(r) => ("ram", r.range.start, r.range.end),
        MemoryRegion::Generic(r) => ("rom", r.range.start, r.range.end),
        MemoryRegion::Flash(r) => ("rom", r.range.start, r.range.end),
    };
    append_ascii(xml, "<memory type=\"");
    append_ascii(xml, kind);
    append_ascii(xml, "\" start=\"0x");
    append_hex(xml, start);
    append_ascii(xml, "\" length=\"0x");
    append_hex(xml, end - start);
    append_ascii(xml, "\"/>\\n");
    assert(xml@ =~= before + region_xml(region));
}

/// Decodes UTF-8 bytes into a `String` with `String::from_utf8`: `None`
/// exactly when the bytes are not valid UTF-8.
#[verifier::external_body]
fn string_from_utf8(bytes: Vec<u8>) -> (result: Option<String>)
    ensures
        result is Some <==> valid_utf8(bytes@),
        result matches Some(t) ==> t@ == decode_utf8(bytes@),
{
    String::from_utf8(bytes).ok()
}

/// The memory map of the regions, sent as the first 1000 characters of the
/// document with the `qXfer` prefix.
pub fn get_memory_map(regions: &[MemoryRegion]) -> (reply: Option<String>)
    requires
        forall|i: int| 0 <= i < regions@.len() ==> (#[trigger] regions@[i]).spec_range().start <= regions@[i].spec_range().end,
    ensures
        reply matches Some(s) && s@ == sanitize(memory_map_xml(regions@), 0, 1000, 'm', 'l'),
{
    proof {
        reveal_strlit("<?xml version=\"1.0\"?>\n<!DOCTYPE memory-map PUBLIC \"+//IDN gnu.org//DTD GDB Memory Map V1.0//EN\" \"http://sourceware.org/gdb/gdb-memory-map.dtd\">\n<memory-map>\n");
        reveal_strlit("</memory-map>");
    }
    let mut xml = String::new();
    append_ascii(&mut xml, MEMORY_MAP_HEADER);
    let mut i: usize = 0;
    while i < regions.len()
        invariant
            0 <= i <= regions@.len(),
            forall|k: int| 0 <= k < regions@.len() ==> (#[trigger] regions@[k]).spec_range().start <= regions@[k].spec_range().end,
            xml@ == MEMORY_MAP_HEADER@ + regions_xml(regions@.take(i as int)),
            is_ascii_chars(xml@),
        decreases regions@.len() - i,
    {
        let region = regions[i];
        let ghost before = xml@;
        append_region(&mut xml, region);
        assert(regions@.take(i + 1).drop_last() =~= regions@.take(i as int));
        assert(xml@ =~= before + region_xml(region));
        i = i + 1;
    }
    append_ascii(&mut xml, "</memory-map>");
    assert(regions@.take(regions@.len() as int) =~= regions@);
    assert(xml@ == memory_map_xml(regions@));
    let ghost chars = xml@;
    let bytes = xml.as_str().as_bytes();
    assert(bytes@ == encode_utf8(chars));
    let sanitized = gdb_sanitize_file(bytes, 0, 1000);
    let ghost target = sanitize(chars, 0, 1000, 'm', 'l');
    proof {
        let end = if 1000 > chars.len() { chars.len() as int } else { 1000int };
        assert(chars.subrange(0, end) + Seq::<char>::empty() =~= chars.subrange(0, end));
        assert(is_ascii_chars(chars.subrange(0, end)));
        assert(is_ascii_chars(target));
        assert(sanitized@ =~= encode_utf8(target));
    }
    string_from_utf8(sanitized)
}

} // verus!
