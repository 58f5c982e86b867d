use probe_rs::gdb::{
    detach, gdb_sanitize_file, get_memory_map, halt_reason, host_info, q_attached, q_supported,
    read_general_registers, read_memory, read_register, reply_empty, run, step, stop, user_halt,
    vcont_supported, MEMORY_MAP_HEADER,
};
use probe_rs::memory::{AddressRange, FlashRegion, GenericRegion, MemoryRegion, RamRegion};

#[test]
fn fixed_replies() {
    assert_eq!(
        q_supported().unwrap(),
        "PacketSize=2048;swbreak-;hwbreak+;vContSupported+;qXfer:memory-map:read+"
    );
    assert_eq!(reply_empty().unwrap(), "");
    assert_eq!(q_attached().unwrap(), "1");
    assert_eq!(halt_reason().unwrap(), "S05");
    assert_eq!(read_general_registers().unwrap(), "xxxxxxxx");
    assert_eq!(vcont_supported().unwrap(), "vCont;c;t;s");
    assert!(host_info().unwrap().starts_with("cputype:12;cpusubtype:14;"));
}

#[test]
fn run_control_replies() {
    let mut awaits_halt = false;
    assert_eq!(run(&mut awaits_halt), None);
    assert!(awaits_halt);
    assert_eq!(stop(&mut awaits_halt).unwrap(), "OK");
    assert!(!awaits_halt);
    awaits_halt = true;
    assert_eq!(step(&mut awaits_halt).unwrap(), "S05");
    assert!(!awaits_halt);
    awaits_halt = true;
    assert_eq!(user_halt(&mut awaits_halt).unwrap(), "T02");
    assert!(!awaits_halt);
    let mut break_due = false;
    assert_eq!(detach(&mut break_due).unwrap(), "OK");
    assert!(break_due);
}

#[test]
fn register_value_in_target_byte_order() {
    assert_eq!(read_register(0x1234_5678).unwrap(), "78563412");
    assert_eq!(read_register(0x0000_00ff).unwrap(), "ff000000");
    assert_eq!(read_register(0).unwrap(), "00000000");
}

#[test]
fn memory_read_replies() {
    assert_eq!(read_memory(Some(&[0x00, 0x0a, 0xff, 0x10])).unwrap(), "000aff10");
    assert_eq!(read_memory(Some(&[])).unwrap(), "");
    assert_eq!(read_memory(None).unwrap(), "E79");
}

#[test]
fn file_parts_are_marked() {
    let data = b"abcdef";
    assert_eq!(gdb_sanitize_file(data, 0, 4), b"mabcd".to_vec());
    assert_eq!(gdb_sanitize_file(data, 4, 4), b"lef".to_vec());
    assert_eq!(gdb_sanitize_file(data, 2, 4), b"mcdef".to_vec());
    assert_eq!(gdb_sanitize_file(data, 6, 4), b"l".to_vec());
    assert_eq!(gdb_sanitize_file(data, 7, 4), b"l".to_vec());
}

#[test]
fn memory_map_document() {
    let regions = vec![
        MemoryRegion::Flash(FlashRegion {
            range: AddressRange { start: 0, end: 0x40000 },
            is_boot_memory: true,
            sector_size: 0x400,
            page_size: 0x400,
            erased_byte_value: 0xff,
        }),
        MemoryRegion::Ram(RamRegion {
            range: AddressRange { start: 0x2000_0000, end: 0x2000_4000 },
            is_boot_memory: false,
        }),
        MemoryRegion::Generic(GenericRegion { range: AddressRange { start: 0x10, end: 0x20 } }),
    ];
    let expected = format!(
        "l{}{}{}{}</memory-map>",
        MEMORY_MAP_HEADER,
        "<memory type=\"rom\" start=\"0x0\" length=\"0x40000\"/>\\n",
        "<memory type=\"ram\" start=\"0x20000000\" length=\"0x4000\"/>\\n",
        "<memory type=\"rom\" start=\"0x10\" length=\"0x10\"/>\\n",
    );
    assert_eq!(get_memory_map(&regions).unwrap(), expected);
}

#[test]
fn long_memory_map_is_cut() {
    let regions: Vec<MemoryRegion> = (0..40u32)
        .map(|i| MemoryRegion::Generic(GenericRegion { range: AddressRange { start: i << 16, end: (i << 16) + 1 } }))
        .collect();
    let reply = get_memory_map(&regions).unwrap();
    assert_eq!(reply.len(), 1001);
    assert!(reply.starts_with('m'));
    assert!(reply[1..].starts_with(MEMORY_MAP_HEADER));
}
