//! Flash layout, target selection and debug-protocol logic for ARM and RISC-V
//! microcontrollers, with contracts proved by Verus.

pub mod error;
pub mod flash_algorithm;
pub mod memory;
pub mod builder;
pub mod builder_laws;
pub mod layout_laws;
pub mod text;
pub mod registry;
pub mod targets;
pub mod flasher;
pub mod progress;
pub mod download;
pub mod hex_laws;
pub mod riscv;
pub mod ap;
pub mod gdb;
pub mod cli;
