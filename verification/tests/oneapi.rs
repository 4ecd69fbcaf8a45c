use gpu_probe::oneapi::{
    component_version, components, default_root, host_from, parse_version, roots, version_at,
};
use gpu_probe::{OneApiHost, OneApiVersion};

#[test]
fn parses_release_directory_names() {
    assert_eq!(parse_version("2024.2"), Some(OneApiVersion::new(2024, 2, 0)));
    assert_eq!(parse_version("2024.2.1"), Some(OneApiVersion::new(2024, 2, 1)));
    assert_eq!(parse_version("2025.0"), Some(OneApiVersion::new(2025, 0, 0)));
}

#[test]
fn rejects_non_version_directories() {
    assert_eq!(parse_version("latest"), None);
    assert_eq!(parse_version("bin"), None);
    assert_eq!(parse_version("2024"), None, "a bare year is not a version");
    assert_eq!(parse_version(""), None);
}

#[test]
fn versions_order_by_release_year_first() {
    assert!(OneApiVersion::new(2025, 0, 0) > OneApiVersion::new(2024, 2, 1));
    assert!(OneApiVersion::new(2024, 2, 1) > OneApiVersion::new(2024, 2, 0));
    assert!(OneApiVersion::new(2024, 10, 0) > OneApiVersion::new(2024, 9, 0));
}

#[test]
fn compiler_is_the_preferred_component() {
    assert_eq!(
        components().first(),
        Some(&"compiler"),
        "a GPU build needs the compiler component, so it names the release",
    );
    assert_eq!(components(), vec!["compiler", "mkl", "tbb", "dpl", "ccl"]);
}

#[test]
fn oneapi_missing_install_root_reports_nothing() {
    // A root whose components could not be read holds no release.
    assert_eq!(version_at(&vec![None, None, None, None, None]), None);
    assert_eq!(component_version(None, None), None);
}

#[test]
fn oneapi_roots_put_an_explicit_root_first() {
    assert_eq!(default_root(), "/opt/intel/oneapi");
    assert_eq!(roots(None, default_root()), vec!["/opt/intel/oneapi"]);
    assert_eq!(
        roots(Some("/tmp/oneapi-side"), default_root()),
        vec!["/tmp/oneapi-side", "/opt/intel/oneapi"]
    );
    // Roots are carried as they are, paths included.
    let side = std::path::PathBuf::from("/tmp/oneapi-side");
    assert_eq!(roots(Some(side.clone()), std::path::PathBuf::from(default_root()))[0], side);
}

#[test]
fn the_latest_link_names_the_release() {
    let entries = vec!["2025.0".to_string(), "latest".to_string()];
    assert_eq!(
        component_version(Some("2024.2"), Some(&entries)),
        Some(OneApiVersion::new(2024, 2, 0))
    );
}

#[test]
fn without_a_usable_link_the_highest_directory_wins() {
    let entries = vec![
        "2024.2".to_string(),
        "bin".to_string(),
        "2025.0".to_string(),
        "2024.10.1".to_string(),
        "latest".to_string(),
    ];
    assert_eq!(component_version(None, Some(&entries)), Some(OneApiVersion::new(2025, 0, 0)));
    // A link that names no version falls back to the listing.
    assert_eq!(
        component_version(Some("current"), Some(&entries)),
        Some(OneApiVersion::new(2025, 0, 0))
    );
    let none = vec!["bin".to_string(), "include".to_string()];
    assert_eq!(component_version(None, Some(&none)), None);
}

#[test]
fn the_first_component_and_root_with_a_release_win() {
    let v = OneApiVersion::new(2024, 2, 1);
    let w = OneApiVersion::new(2025, 0, 0);
    assert_eq!(version_at(&vec![None, Some(v), Some(w)]), Some(v));
    assert_eq!(host_from(&vec![None, Some(w)]), Some(OneApiHost { version: w }));
    assert_eq!(host_from(&vec![Some(v), Some(w)]), Some(OneApiHost { version: v }));
    assert_eq!(host_from(&vec![None, None]), None);
}

#[test]
fn listing_order_does_not_change_the_release() {
    let names = ["2024.2", "2025.0", "bin", "2024.10.1"];
    let forward: Vec<String> = names.iter().map(|n| n.to_string()).collect();
    let backward: Vec<String> = names.iter().rev().map(|n| n.to_string()).collect();
    assert_eq!(
        component_version(None, Some(&forward)),
        component_version(None, Some(&backward))
    );
    assert_eq!(component_version(None, Some(&backward)), Some(OneApiVersion::new(2025, 0, 0)));
}

#[test]
fn a_release_with_major_zero_is_passed_over() {
    let zero = OneApiVersion::new(0, 1, 0);
    let real = OneApiVersion::new(2024, 2, 0);
    assert_eq!(version_at(&vec![Some(zero), Some(real)]), Some(real));
    assert_eq!(host_from(&vec![Some(zero)]), None);
}
