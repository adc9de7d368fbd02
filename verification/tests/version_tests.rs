use kokona::version::{compare_versions, get_version, VERSION};

#[test]
fn version_constant_matches_getter() {
    assert_eq!(get_version(), VERSION);
    assert_eq!(VERSION, "0.4.0");
}

#[test]
fn newer_patch_is_detected() {
    assert!(compare_versions("0.3.2", "0.3.3"));
}

#[test]
fn newer_minor_is_detected() {
    assert!(compare_versions("0.3.9", "0.4.0"));
}

#[test]
fn older_version_is_not_newer() {
    assert!(!compare_versions("0.4.0", "0.3.9"));
    assert!(!compare_versions("1.0.0", "0.9.9"));
}

#[test]
fn equal_versions_are_not_newer() {
    assert!(!compare_versions("0.4.0", "0.4.0"));
}

#[test]
fn dev_suffix_reads_first_digit_of_third_component() {
    // "0.3.3-dev" reads as 0.3.3, so 0.3.4 is newer.
    assert!(compare_versions("0.3.3-dev", "0.3.4"));
    assert!(!compare_versions("0.3.4", "0.3.3-dev"));
}

#[test]
fn non_numeric_components_count_as_zero() {
    assert!(compare_versions("abc.def", "0.0.1"));
    assert!(!compare_versions("0.0.1", "abc.def"));
}

#[test]
fn missing_components_count_as_zero() {
    assert!(compare_versions("0.3", "0.3.1"));
    assert!(!compare_versions("0.3.1", "0.3"));
}

#[test]
fn huge_component_counts_as_zero() {
    // A component that overflows u32 reads as 0.
    assert!(compare_versions("99999999999999999999.0.0", "1.0.0"));
}
