//! Memory regions of a chip.

use vstd::prelude::*;

verus! {

/// A half-open range of 32-bit addresses, `start..end`.
#[derive(Clone, Copy, Debug, PartialEq, Eq)]
pub struct AddressRange {
    pub start: u32,
    pub end: u32,
}

impl AddressRange {
    pub open spec fn spec_contains(&self, address: int) -> bool {
        self.start <= address < self.end
    }

    /// Whether `address` lies in the range.
    pub fn contains(&self, address: u32) -> (result: bool)
        ensures
            result == self.spec_contains(address as int),
    {
        self.start <= address && address < self.end
    }
}

/// A region of RAM.
#[derive(Clone, Copy, Debug)]
pub struct RamRegion {
    pub range: AddressRange,
    pub is_boot_memory: bool,
}

/// A region of memory that is neither RAM nor flash.
#[derive(Clone, Copy, Debug)]
pub struct GenericRegion {
    pub range: AddressRange,
}

/// A region of flash.
#[derive(Clone, Copy, Debug)]
pub struct FlashRegion {
    pub range: AddressRange,
    pub is_boot_memory: bool,
    pub sector_size: u32,
    pub page_size: u32,
    pub erased_byte_value: u8,
}

/// One region of a chip's memory map.
#[derive(Clone, Copy, Debug)]
pub enum MemoryRegion {
    Ram(RamRegion),
    Generic(GenericRegion),
    Flash(FlashRegion),
}

impl MemoryRegion {
    pub open spec fn spec_range(&self) -> AddressRange {
        match self {
            MemoryRegion::Ram(r) => r.range,
            MemoryRegion::Generic(r) => r.range,
            MemoryRegion::Flash(r) => r.range,
        }
    }
}

/// The non-empty range `inner` lies wholly within `outer`.
pub open spec fn spec_contains_range(outer: AddressRange, inner: AddressRange) -> bool {
    &&& inner.end > 0
    &&& outer.start <= inner.start < outer.end
    &&& outer.start <= inner.end - 1 < outer.end
}

/// Whether both the first and the last address of `inner` lie in `outer`.
/// An empty range ending at 0 has no last address and is contained nowhere.
pub fn contains_range(outer: &AddressRange, inner: &AddressRange) -> (result: bool)
    ensures
        result == spec_contains_range(*outer, *inner),
{
    if inner.end == 0 {
        false
    } else {
        let last = inner.end - 1;
        outer.start <= inner.start && inner.start < outer.end && outer.start <= last && last
            < outer.end
    }
}

} // verus!
