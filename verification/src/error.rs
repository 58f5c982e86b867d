//! Errors of flash programming.

use vstd::prelude::*;
use crate::memory::FlashRegion;

verus! {

/// Everything that can go wrong while laying out or programming flash.
#[derive(Clone, Debug)]
pub enum FlashError {
    /// Data was already added at this address.
    DuplicateDataEntry(u32),
    /// The data added at this address overlaps the data before it.
    DataOverlap(u32),
    /// No sector or page of the flash contains this address.
    InvalidFlashAddress(u32),
    /// The data does not fit in the flash region.
    AddressNotInRegion { address: u32, region: FlashRegion },
    /// The flash algorithm read back from RAM differs from what was written.
    FlashAlgorithmNotLoaded,
    /// A routine of the flash algorithm returned a non-zero code.
    RoutineCallFailed { name: &'static str, errorcode: u32 },
    /// The flash algorithm has no such routine.
    RoutineNotSupported(&'static str),
    /// The page buffer number is refused.
    InvalidBufferNumber { n: usize, max: usize },
    /// Programming a page returned a non-zero code.
    PageWrite { page_address: u32, error_code: u32 },
}

} // verus!
