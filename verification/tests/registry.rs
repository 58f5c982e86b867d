use probe_rs::registry::{
    get_core, ChipInfo, CoreType, Jep106Code, MissingKind, NotFoundKind, Registry, RegistryError,
    SelectionStrategy, TargetIdentifier,
};
use probe_rs::targets::nRF51822;

#[test]
fn try_fetch1() {
    let registry = Registry::from_builtin_families();
    assert!(registry
        .get_target(SelectionStrategy::TargetIdentifier(TargetIdentifier::from("nrf51")))
        .is_ok());
}

#[test]
fn try_fetch2() {
    let registry = Registry::from_builtin_families();
    assert!(registry
        .get_target(SelectionStrategy::TargetIdentifier(TargetIdentifier::from("nrf5182")))
        .is_ok());
}

#[test]
fn try_fetch3() {
    let registry = Registry::from_builtin_families();
    assert!(registry
        .get_target(SelectionStrategy::TargetIdentifier(TargetIdentifier::from("nrF51822_x")))
        .is_ok());
}

#[test]
fn try_fetch4() {
    let registry = Registry::from_builtin_families();
    assert!(registry
        .get_target(SelectionStrategy::TargetIdentifier(TargetIdentifier::from("nrf51822_Xxaa")))
        .is_ok());
}

#[test]
fn selected_target_has_chip_and_algorithm_names() {
    let registry = Registry::from_builtin_families();
    let target = registry
        .get_target(SelectionStrategy::TargetIdentifier(TargetIdentifier::from("NRF51822")))
        .unwrap();
    assert_eq!(target.identifier.chip_name, "nRF51822_xxAA");
    assert_eq!(target.identifier.flash_algorithm_name.as_deref(), Some("nrf51"));
    assert_eq!(target.core, CoreType::M0);
    assert_eq!(target.memory_map.len(), 3);
    assert_eq!(target.flash_algorithm.load_address, 0x20000000);
}

#[test]
fn unknown_chip_is_not_found() {
    let registry = Registry::from_builtin_families();
    assert!(matches!(
        registry.get_target(SelectionStrategy::TargetIdentifier(TargetIdentifier::from("stm32"))),
        Err(RegistryError::NotFound(NotFoundKind::Chip))
    ));
    // A name longer than the variant's is no prefix of it.
    assert!(matches!(
        registry.get_target(SelectionStrategy::TargetIdentifier(TargetIdentifier::from(
            "nrf51822_xxaab"
        ))),
        Err(RegistryError::NotFound(NotFoundKind::Chip))
    ));
}

#[test]
fn unknown_algorithm_name_falls_back_to_first() {
    let registry = Registry::from_builtin_families();
    let target = registry
        .get_target(SelectionStrategy::TargetIdentifier(TargetIdentifier::from("nrf51::other")))
        .unwrap();
    assert_eq!(target.identifier.flash_algorithm_name.as_deref(), Some("nrf51"));
}

#[test]
fn selection_by_chip_info() {
    let registry = Registry::from_builtin_families();
    let info = ChipInfo { manufacturer: Jep106Code { cc: 0x02, id: 0x44 }, part: 0x1 };
    // The built-in family reports no part number, so nothing matches.
    assert!(matches!(
        registry.get_target(SelectionStrategy::ChipInfo(info)),
        Err(RegistryError::NotFound(NotFoundKind::Chip))
    ));
    let mut registry = Registry::from_builtin_families();
    let mut family = nRF51822();
    family.part = Some(0x1);
    registry.add_family(family);
    assert_eq!(registry.families().len(), 1);
    assert!(registry.get_target(SelectionStrategy::ChipInfo(info)).is_ok());
}

#[test]
fn missing_ram_is_reported() {
    let mut registry = Registry::from_builtin_families();
    let mut family = nRF51822();
    family.variants[0].memory_map.pop();
    registry.add_family(family);
    assert!(matches!(
        registry.get_target(SelectionStrategy::TargetIdentifier(TargetIdentifier::from("nrf51"))),
        Err(RegistryError::Missing(MissingKind::RamRegion))
    ));
}

#[test]
fn unknown_core_is_not_found() {
    let mut registry = Registry::from_builtin_families();
    let mut family = nRF51822();
    family.core = String::from("riscv");
    registry.add_family(family);
    assert!(matches!(
        registry.get_target(SelectionStrategy::TargetIdentifier(TargetIdentifier::from("nrf51"))),
        Err(RegistryError::NotFound(NotFoundKind::Core))
    ));
}

#[test]
fn add_family_appends_a_new_name() {
    let mut registry = Registry::from_builtin_families();
    let mut family = nRF51822();
    family.name = String::from("nRF51 copy");
    registry.add_family(family);
    assert_eq!(registry.families().len(), 2);
    assert_eq!(registry.families()[1].name, "nRF51 copy");
}

#[test]
fn cores_are_found_ignoring_case() {
    assert_eq!(get_core("m0"), Some(CoreType::M0));
    assert_eq!(get_core("M4"), Some(CoreType::M4));
    assert_eq!(get_core("m33"), Some(CoreType::M33));
    assert_eq!(get_core("m3"), None);
}

#[test]
fn target_identifier_splits_at_double_colon() {
    let id = TargetIdentifier::from("nrf51822::nrf51");
    assert_eq!(id.chip_name, "nrf51822");
    assert_eq!(id.flash_algorithm_name.as_deref(), Some("nrf51"));
    let id = TargetIdentifier::from("stm32");
    assert_eq!(id.chip_name, "stm32");
    assert_eq!(id.flash_algorithm_name, None);
    let id = TargetIdentifier::from("a::b::c");
    assert_eq!(id.chip_name, "a");
    assert_eq!(id.flash_algorithm_name.as_deref(), Some("b"));
    let id = TargetIdentifier::from("a:::b");
    assert_eq!(id.chip_name, "a");
    assert_eq!(id.flash_algorithm_name.as_deref(), Some(":b"));
}

#[test]
fn adding_a_family_twice_keeps_one_of_its_name() {
    let mut registry = Registry::from_builtin_families();
    let mut family = nRF51822();
    family.name = String::from("extra");
    registry.add_family(family);
    let mut family = nRF51822();
    family.name = String::from("extra");
    family.core = String::from("M4");
    registry.add_family(family);
    let names: Vec<&str> = registry.families().iter().map(|f| f.name.as_str()).collect();
    assert_eq!(names, vec!["nRF51", "extra"]);
    assert_eq!(registry.families()[1].core, "M4");
}
