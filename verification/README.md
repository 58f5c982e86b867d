# probe_rs

Flash layout, target selection and debug-protocol logic for ARM and RISC-V
microcontrollers, written in Verus: the functions in `src/` carry contracts
that Verus proves, except three small wrappers around `ihex`, `goblin` and
std (`read_hex_records`, `parse_elf_segments`, `string_from_utf8`), whose
contracts are trusted.

## Layout

- `src/memory.rs`, `src/flash_algorithm.rs`: memory regions, flash
  algorithms and the geometry of the flash they drive (which sector and page
  hold an address).
- `src/builder.rs`: collecting blocks of data and laying them out over
  sectors and pages; `src/builder_laws.rs` and `src/layout_laws.rs` prove the
  properties of adding blocks and of every layout (each byte at its address,
  pages that never overlap and are never empty, blocks that may be added in
  any order).
- `src/flasher.rs`, `src/progress.rs`: the routine calls of a flash algorithm
  and the steps that program a layout; progress reports.
- `src/download.rs`: blocks of data from binary, Intel HEX (through `ihex`)
  and ELF (through `goblin`) files.
- `src/registry.rs`, `src/targets.rs`, `src/text.rs`: chip families and the
  selection of a target among them.
- `src/riscv.rs`: debug-module registers and the abstract-command protocol
  of RISC-V targets.
- `src/ap.rs`: ARM access ports.
- `src/gdb.rs`: replies of the GDB remote serial protocol.
- `src/cli.rs`: the command line of the interactive debugger.
- `app/`: what touches files and the home directory: YAML chip descriptions,
  the user's target directory, and reading files to flash.
- `tests/`: tests of the library.
