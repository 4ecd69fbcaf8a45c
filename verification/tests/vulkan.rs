use gpu_probe::vulkan::{
    highest_api_version, host_from, icd_api_version, is_manifest_name, parse_icd_api_version,
    JsonValue,
};
use gpu_probe::{VulkanHost, VulkanVersion};

/// A real `radeon_icd.x86_64.json`, trimmed to the fields read here.
const RADEON: &str = r#"{"file_format_version":"1.0.0",
                         "ICD":{"library_path":"/usr/lib/libvulkan_radeon.so",
                                "api_version":"1.3.280"}}"#;

/// Mesa's software rasterizer, an ICD like any other.
const LAVAPIPE: &str = r#"{"file_format_version":"1.0.1",
                           "ICD":{"library_path":"/usr/lib/libvulkan_lvp.so",
                                  "api_version":"1.3.255"}}"#;

/// The manifests of one directory listing that the probe reads: `.json` files
/// only, each parsed for its advertised version.
fn read(listing: &[(&str, &str)]) -> Vec<Option<VulkanVersion>> {
    listing
        .iter()
        .filter(|(name, _)| is_manifest_name(name))
        .map(|(_, content)| parse_icd_api_version(content))
        .collect()
}

#[test]
fn parses_an_icd_manifest_api_version() {
    let icd = r#"{"file_format_version":"1.0.0",
                  "ICD":{"library_path":"libvulkan_radeon.so",
                         "api_version":"1.3.280"}}"#;
    assert_eq!(parse_icd_api_version(icd), Some(VulkanVersion::new(1, 3, 280)));
    assert_eq!(parse_icd_api_version(LAVAPIPE), Some(VulkanVersion::new(1, 3, 255)));
    let nvidia = r#"{"file_format_version":"1.0.1",
                     "ICD":{"library_path":"libGLX_nvidia.so.0",
                            "api_version":"1.3.277",
                            "is_portability_driver":false}}"#;
    assert_eq!(parse_icd_api_version(nvidia), Some(VulkanVersion::new(1, 3, 277)));
}

#[test]
fn rejects_an_icd_manifest_without_an_api_version() {
    let icd = r#"{"ICD":{"library_path":"libvulkan_radeon.so"}}"#;
    assert_eq!(parse_icd_api_version(icd), None);
    assert_eq!(parse_icd_api_version("not json"), None);
    assert_eq!(parse_icd_api_version(""), None);
    assert_eq!(parse_icd_api_version("{}"), None);
    assert_eq!(parse_icd_api_version(r#"{"api_version":"1.3.280"}"#), None);
    assert_eq!(parse_icd_api_version(r#"{"ICD":{"api_version":1.3}}"#), None);
    assert_eq!(parse_icd_api_version(r#"{"ICD":"1.3.280"}"#), None);
    assert_eq!(parse_icd_api_version(r#"{"ICD":[{"api_version":"1.3.0"}]}"#), None);
}

#[test]
fn rejects_manifests_whose_version_is_not_a_version() {
    let with = |version: &str| {
        parse_icd_api_version(&format!(r#"{{"ICD":{{"api_version":"{version}"}}}}"#))
    };
    assert_eq!(with("1.2"), Some(VulkanVersion::new(1, 2, 0)));
    assert_eq!(with("1"), None, "a bare major is not a version");
    assert_eq!(with(""), None);
    assert_eq!(with("one.three.zero"), None);
    assert_eq!(with("1.3.x"), None);
}

#[test]
fn vulkan_versions_order_major_first() {
    assert!(VulkanVersion::new(1, 3, 0) > VulkanVersion::new(1, 2, 300));
    assert!(VulkanVersion::new(2, 0, 0) > VulkanVersion::new(1, 9, 9));
}

#[test]
fn reads_the_version_from_a_parsed_document() {
    let doc = JsonValue::Object(vec![(
        "ICD".to_string(),
        JsonValue::Object(vec![
            ("library_path".to_string(), JsonValue::Str("x.so".to_string())),
            ("api_version".to_string(), JsonValue::Str("1.3.280".to_string())),
        ]),
    )]);
    assert_eq!(icd_api_version(Some(&doc)), Some(VulkanVersion::new(1, 3, 280)));
    let number = JsonValue::Object(vec![(
        "ICD".to_string(),
        JsonValue::Object(vec![("api_version".to_string(), JsonValue::Number("1.3".to_string()))]),
    )]);
    assert_eq!(icd_api_version(Some(&number)), None);
    assert_eq!(icd_api_version(Some(&JsonValue::Null)), None);
    assert_eq!(icd_api_version(None), None);
}

#[test]
fn highest_api_version_wins_across_manifests() {
    let icd = read(&[("lvp_icd.x86_64.json", LAVAPIPE), ("radeon_icd.x86_64.json", RADEON)]);
    assert_eq!(highest_api_version(&icd), Some(VulkanVersion::new(1, 3, 280)));
    // Two directories are a union, not a preference order.
    let local = read(&[("lvp_icd.x86_64.json", LAVAPIPE)]);
    let shared = read(&[("radeon_icd.x86_64.json", RADEON)]);
    let one_way: Vec<_> = local.iter().chain(shared.iter()).copied().collect();
    let other_way: Vec<_> = shared.iter().chain(local.iter()).copied().collect();
    assert_eq!(highest_api_version(&one_way), Some(VulkanVersion::new(1, 3, 280)));
    assert_eq!(
        highest_api_version(&other_way),
        Some(VulkanVersion::new(1, 3, 280)),
        "directory order must not change the answer",
    );
}

#[test]
fn only_json_manifests_are_read() {
    let icd = read(&[
        ("lvp_icd.x86_64.json", LAVAPIPE),
        ("radeon_icd.x86_64.json.disabled", RADEON),
        ("radeon_icd.x86_64.json.bak", RADEON),
        ("notes.txt", RADEON),
        ("README", RADEON),
    ]);
    assert_eq!(
        highest_api_version(&icd),
        Some(VulkanVersion::new(1, 3, 255)),
        "only the .json manifest counts, so lavapipe's version stands",
    );
}

#[test]
fn manifest_names_follow_the_json_extension() {
    assert!(is_manifest_name("radeon_icd.x86_64.json"));
    assert!(is_manifest_name("a.json"));
    assert!(!is_manifest_name(".json"));
    assert!(!is_manifest_name("json"));
    assert!(!is_manifest_name("a.json.bak"));
    assert!(!is_manifest_name("a.JSON"));
    assert!(!is_manifest_name(""));
}

#[test]
fn a_malformed_manifest_does_not_hide_a_good_one() {
    let icd = read(&[
        ("broken_icd.json", "{ not json"),
        ("empty_icd.json", ""),
        ("versionless_icd.json", r#"{"ICD":{"library_path":"x.so"}}"#),
        ("radeon_icd.x86_64.json", RADEON),
    ]);
    assert_eq!(highest_api_version(&icd), Some(VulkanVersion::new(1, 3, 280)));
}

#[test]
fn missing_or_empty_icd_directories_report_nothing() {
    assert_eq!(highest_api_version(&read(&[])), None);
    assert_eq!(highest_api_version(&Vec::new()), None, "an absent directory is skipped, not an error");
    assert_eq!(highest_api_version(&vec![None, None]), None);
}

#[test]
fn both_halves_are_required() {
    let manifests = vec![RADEON.to_string()];
    assert_eq!(
        host_from(true, &manifests),
        Some(VulkanHost { api_version: VulkanVersion::new(1, 3, 280) })
    );
    assert_eq!(
        host_from(false, &manifests),
        None,
        "manifests describe drivers nothing can dispatch to without a loader",
    );
    assert_eq!(
        host_from(true, &Vec::new()),
        None,
        "a loader with no ICD advertises no version to report",
    );
}

#[test]
fn any_reordering_of_the_manifests_gives_the_same_version() {
    let v = |p: u32| Some(VulkanVersion::new(1, 3, p));
    let listing = vec![v(255), None, v(280), v(277), None];
    let mut reordered = listing.clone();
    reordered.reverse();
    reordered.rotate_left(2);
    assert_eq!(highest_api_version(&listing), highest_api_version(&reordered));
    assert_eq!(highest_api_version(&reordered), v(280));
    // Repeats do not matter either: what is advertised decides.
    let repeated = vec![v(280), v(280), v(255)];
    assert_eq!(highest_api_version(&repeated), v(280));
}

#[test]
fn a_host_needs_a_version_with_a_major() {
    let zero = vec![r#"{"ICD":{"api_version":"0.9.0"}}"#.to_string()];
    assert_eq!(host_from(true, &zero), None);
    let both = vec![zero[0].clone(), RADEON.to_string()];
    assert_eq!(host_from(true, &both), Some(VulkanHost { api_version: VulkanVersion::new(1, 3, 280) }));
}
