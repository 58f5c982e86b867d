use probe_rs::flash_algorithm::{FlashAlgorithm, SectorDescription};
use probe_rs::memory::{contains_range, AddressRange};
use probe_rs::targets::nRF51822;

#[test]
fn ranges() {
    let range = AddressRange { start: 0x100, end: 0x200 };
    assert!(range.contains(0x100));
    assert!(range.contains(0x1ff));
    assert!(!range.contains(0x200));
    assert!(contains_range(&range, &AddressRange { start: 0x100, end: 0x200 }));
    assert!(contains_range(&range, &AddressRange { start: 0x180, end: 0x181 }));
    assert!(!contains_range(&range, &AddressRange { start: 0x180, end: 0x201 }));
    assert!(!contains_range(&range, &AddressRange { start: 0xff, end: 0x101 }));
    // An empty range ending at zero has no last address.
    assert!(!contains_range(&AddressRange { start: 0, end: 10 }, &AddressRange { start: 0, end: 0 }));
}

#[test]
fn algorithm_validity() {
    let algo = nRF51822().flash_algorithms.remove(0);
    assert!(algo.is_valid());
    let mut algo = FlashAlgorithm::default();
    algo.flash_properties.page_size = 1024;
    algo.flash_properties.sectors = vec![SectorDescription { size: 4096, address: 0 }];
    assert!(algo.is_valid());
    algo.flash_properties.sectors.push(SectorDescription { size: 0, address: 0x1000 });
    assert!(!algo.is_valid());
    algo.flash_properties.sectors.pop();
    algo.flash_properties.page_size = 0;
    assert!(!algo.is_valid());
}
