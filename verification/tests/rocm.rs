use gpu_probe::rocm::{default_root, host_from, parse_version, roots, version_file};
use gpu_probe::{RocmHost, RocmVersion};

#[test]
fn parses_release_with_build_suffix() {
    assert_eq!(parse_version("6.2.4-123\n"), Some(RocmVersion::new(6, 2, 4)));
    assert_eq!(parse_version("5.7.1-63"), Some(RocmVersion::new(5, 7, 1)));
    assert_eq!(parse_version("  6.0.0-91  "), Some(RocmVersion::new(6, 0, 0)));
}

#[test]
fn parses_release_without_suffix_or_patch() {
    assert_eq!(parse_version("6.2.4"), Some(RocmVersion::new(6, 2, 4)));
    assert_eq!(parse_version("6.2"), Some(RocmVersion::new(6, 2, 0)));
    assert_eq!(parse_version("6.2+build"), Some(RocmVersion::new(6, 2, 0)));
}

#[test]
fn rejects_malformed_versions() {
    assert_eq!(parse_version(""), None);
    assert_eq!(parse_version("6"), None, "a bare major is not a version");
    assert_eq!(parse_version("six.two.four"), None);
    assert_eq!(parse_version("6.2.x"), None);
    assert_eq!(parse_version("-6.2.4"), None);
}

#[test]
fn rocm_versions_order_major_first() {
    assert!(RocmVersion::new(6, 2, 4) > RocmVersion::new(6, 2, 0));
    assert!(RocmVersion::new(6, 0, 0) > RocmVersion::new(5, 7, 1));
    assert!(RocmVersion::new(6, 10, 0) > RocmVersion::new(6, 9, 9));
}

#[test]
fn rocm_missing_install_root_reports_nothing() {
    // The version file under the root could not be read.
    assert_eq!(host_from(&vec![None]), None);
    assert_eq!(host_from(&Vec::new()), None);
}

#[test]
fn rocm_roots_put_rocm_path_first() {
    assert_eq!(default_root(), "/opt/rocm");
    assert_eq!(roots(None, default_root()), vec!["/opt/rocm"]);
    assert_eq!(roots(Some("/opt/rocm-6.2.4"), default_root()), vec!["/opt/rocm-6.2.4", "/opt/rocm"]);
    assert_eq!(version_file(), ".info/version");
}

#[test]
fn the_first_root_whose_version_parses_wins() {
    let host = |v: RocmVersion| Some(RocmHost { version: v });
    assert_eq!(
        host_from(&vec![Some("6.2.4-123\n".to_string()), Some("5.7.1".to_string())]),
        host(RocmVersion::new(6, 2, 4))
    );
    // An unreadable or malformed ROCM_PATH falls back to the default prefix.
    assert_eq!(
        host_from(&vec![None, Some("5.7.1".to_string())]),
        host(RocmVersion::new(5, 7, 1))
    );
    assert_eq!(
        host_from(&vec![Some("garbage".to_string()), Some("5.7.1".to_string())]),
        host(RocmVersion::new(5, 7, 1))
    );
}

#[test]
fn a_version_with_major_zero_names_no_release() {
    assert_eq!(
        host_from(&vec![Some("0.1.2".to_string()), Some("5.7.1".to_string())]),
        Some(RocmHost { version: RocmVersion::new(5, 7, 1) })
    );
    assert_eq!(host_from(&vec![Some("0.9".to_string())]), None);
}
