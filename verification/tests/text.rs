use probe_rs::text::{eq_ignore_ascii_case, find_separator_from, starts_with_ignore_ascii_case, to_ascii_lower};

#[test]
fn lower_case_of_characters() {
    assert_eq!(to_ascii_lower('A'), 'a');
    assert_eq!(to_ascii_lower('Z'), 'z');
    assert_eq!(to_ascii_lower('a'), 'a');
    assert_eq!(to_ascii_lower('_'), '_');
    assert_eq!(to_ascii_lower('Ä'), 'Ä');
}

#[test]
fn prefixes_ignoring_case() {
    assert!(starts_with_ignore_ascii_case("nRF51822_xxAA", "NRF5182"));
    assert!(starts_with_ignore_ascii_case("nRF51822_xxAA", ""));
    assert!(starts_with_ignore_ascii_case("nRF51822_xxAA", "nrf51822_XXAA"));
    assert!(!starts_with_ignore_ascii_case("nRF51822_xxAA", "nrf51822_xxaab"));
    assert!(!starts_with_ignore_ascii_case("nRF51822_xxAA", "nrf52"));
}

#[test]
fn equality_ignoring_case() {
    assert!(eq_ignore_ascii_case("M0", "m0"));
    assert!(!eq_ignore_ascii_case("M0", "m4"));
    assert!(!eq_ignore_ascii_case("M0", "m0+"));
}

#[test]
fn separators() {
    assert_eq!(find_separator_from("nrf51::algo", 0), Some(5));
    assert_eq!(find_separator_from("a::b::c", 2), Some(4));
    assert_eq!(find_separator_from("a:b", 0), None);
    assert_eq!(find_separator_from("ab", 7), None);
}
