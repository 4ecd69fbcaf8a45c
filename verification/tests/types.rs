use gpu_probe::{
    parse_dotted_version, AppleFamily, ArchTarget, ComputeCapability, CudaVersion, GfxTarget,
    GpuInfo, IntelArch, OneApiVersion, RocmVersion, Vendor, VulkanHost, VulkanVersion,
};

#[test]
fn parses_dotted_versions_in_both_shapes() {
    assert_eq!(parse_dotted_version("6.2.4-123"), Some((6, 2, 4)));
    assert_eq!(parse_dotted_version("2024.2"), Some((2024, 2, 0)));
    assert_eq!(parse_dotted_version("  5.7.1  "), Some((5, 7, 1)));
    assert_eq!(parse_dotted_version("6"), None, "a bare major is not one");
    assert_eq!(parse_dotted_version("latest"), None);
    assert_eq!(parse_dotted_version(""), None);
}

#[test]
fn dotted_versions_ignore_extra_pieces_and_trim_each_part() {
    assert_eq!(parse_dotted_version("1. 2 .3.4"), Some((1, 2, 3)));
    assert_eq!(parse_dotted_version("1.2+meta-1"), Some((1, 2, 0)));
    assert_eq!(parse_dotted_version("1.2."), None);
    assert_eq!(parse_dotted_version("4294967296.0"), None);
}

#[test]
fn oneapi_version_renders_with_patch() {
    assert_eq!(OneApiVersion::new(2024, 2, 1).to_string(), "2024.2.1");
    assert_eq!(OneApiVersion::new(2025, 0, 0).to_string(), "2025.0.0");
}

#[test]
fn rocm_version_renders_with_patch() {
    assert_eq!(RocmVersion::new(6, 2, 4).to_string(), "6.2.4");
    assert_eq!(RocmVersion::new(6, 2, 0).to_string(), "6.2.0");
}

#[test]
fn vulkan_version_renders_with_patch() {
    assert_eq!(VulkanVersion::new(1, 3, 280).to_string(), "1.3.280");
    assert_eq!(VulkanVersion::new(1, 0, 0).to_string(), "1.0.0");
    assert_eq!(VulkanVersion::new(1, 10, 5).to_string(), "1.10.5");
}

#[test]
fn vulkan_host_carries_only_an_api_version() {
    let host = VulkanHost {
        api_version: VulkanVersion::new(1, 3, 280),
    };
    let copied = host;
    assert_eq!(copied, host);
    assert_eq!(copied.api_version, VulkanVersion::new(1, 3, 280));
    assert_ne!(
        host,
        VulkanHost {
            api_version: VulkanVersion::new(1, 2, 0)
        }
    );
}

#[test]
fn display_includes_free_when_present() {
    let gpu = GpuInfo {
        name: "Test GPU".to_string(),
        vendor: Vendor::Nvidia,
        total_bytes: 24 * 1024 * 1024 * 1024,
        free_bytes: Some(12 * 1024 * 1024 * 1024),
        used_bytes: Some(12 * 1024 * 1024 * 1024),
        arch_target: None,
    };
    let shown = gpu.to_string();
    assert!(shown.contains("NVIDIA"));
    assert!(shown.contains("24.0 GiB total"));
    assert!(shown.contains("12.0 GiB free"));
}

#[test]
fn display_omits_free_when_absent() {
    let gpu = GpuInfo {
        name: "AMD GPU (card0)".to_string(),
        vendor: Vendor::Amd,
        total_bytes: 8 * 1024 * 1024 * 1024,
        free_bytes: None,
        used_bytes: None,
        arch_target: None,
    };
    let shown = gpu.to_string();
    assert!(shown.contains("8.0 GiB total"));
    assert!(!shown.contains("free"));
}

#[test]
fn display_includes_gfx_target_when_present() {
    let gpu = GpuInfo {
        name: "AMD cyan_skillfish".to_string(),
        vendor: Vendor::Amd,
        total_bytes: 15 * 1024 * 1024 * 1024,
        free_bytes: None,
        used_bytes: None,
        arch_target: Some(ArchTarget::Gfx(GfxTarget::new(10, 1, 3))),
    };
    assert!(gpu.to_string().contains("(AMD, gfx1013)"));
}

#[test]
fn display_includes_compute_capability_when_present() {
    let gpu = GpuInfo {
        name: "NVIDIA GeForce RTX 4090".to_string(),
        vendor: Vendor::Nvidia,
        total_bytes: 24 * 1024 * 1024 * 1024,
        free_bytes: None,
        used_bytes: None,
        arch_target: Some(ArchTarget::Sm(ComputeCapability::new(8, 9))),
    };
    assert!(gpu.to_string().contains("(NVIDIA, sm_89)"));
}

#[test]
fn display_renders_the_whole_line() {
    let gpu = GpuInfo {
        name: "NVIDIA GeForce RTX 3090".to_string(),
        vendor: Vendor::Nvidia,
        total_bytes: 24 * 1024 * 1024 * 1024,
        free_bytes: Some(9 * 1024 * 1024 * 1024 + 800 * 1024 * 1024),
        used_bytes: None,
        arch_target: Some(ArchTarget::Sm(ComputeCapability::new(8, 6))),
    };
    assert_eq!(
        gpu.to_string(),
        "NVIDIA GeForce RTX 3090 (NVIDIA, sm_86): 24.0 GiB total, 9.8 GiB free"
    );
}

#[test]
fn arch_target_unwraps_only_its_own_vendor() {
    let amd = ArchTarget::Gfx(GfxTarget::new(10, 1, 3));
    assert_eq!(amd.gfx(), Some(GfxTarget::new(10, 1, 3)));
    assert_eq!(amd.sm(), None);

    let nvidia = ArchTarget::Sm(ComputeCapability::new(8, 9));
    assert_eq!(nvidia.sm(), Some(ComputeCapability::new(8, 9)));
    assert_eq!(nvidia.gfx(), None);
}

#[test]
fn arch_target_accessors_are_exclusive_across_all_vendors() {
    let targets = [
        ArchTarget::Gfx(GfxTarget::new(10, 1, 3)),
        ArchTarget::Sm(ComputeCapability::new(8, 9)),
        ArchTarget::Xe(IntelArch::XeHpg),
        ArchTarget::Apple(AppleFamily::new(8)),
    ];
    for target in targets {
        let hits = [
            target.gfx().is_some(),
            target.sm().is_some(),
            target.xe().is_some(),
            target.apple().is_some(),
        ];
        assert_eq!(
            hits.iter().filter(|hit| **hit).count(),
            1,
            "{} must answer exactly one accessor",
            target.to_string(),
        );
    }
}

#[test]
fn intel_and_apple_targets_render_by_family() {
    assert_eq!(ArchTarget::Xe(IntelArch::XeHpg).to_string(), "xe-hpg");
    assert_eq!(ArchTarget::Xe(IntelArch::Xe2).to_string(), "xe2");
    assert_eq!(ArchTarget::Apple(AppleFamily::new(8)).to_string(), "apple8");
}

#[test]
fn apple_families_are_ordered() {
    assert!(AppleFamily::new(9) > AppleFamily::new(8));
    assert!(AppleFamily::new(8) > AppleFamily::new(7));
}

#[test]
fn arch_target_renders_per_vendor_toolchain() {
    assert_eq!(ArchTarget::Sm(ComputeCapability::new(8, 9)).to_string(), "sm_89");
    assert_eq!(ArchTarget::Gfx(GfxTarget::new(10, 1, 3)).to_string(), "gfx1013");
}

#[test]
fn gfx_target_renders_as_offload_arch() {
    assert_eq!(GfxTarget::new(10, 1, 3).to_string(), "gfx1013");
    assert_eq!(GfxTarget::new(10, 3, 0).to_string(), "gfx1030");
    assert_eq!(GfxTarget::new(11, 0, 0).to_string(), "gfx1100");
    // Stepping 10 is the `a` in `gfx90a`, not a literal "10".
    assert_eq!(GfxTarget::new(9, 0, 10).to_string(), "gfx90a");
    assert_eq!(GfxTarget::new(9, 4, 2).to_string(), "gfx942");
}

#[test]
fn gfx_targets_order_major_first() {
    assert!(GfxTarget::new(11, 0, 0) > GfxTarget::new(10, 3, 0));
    assert!(GfxTarget::new(10, 3, 0) > GfxTarget::new(10, 1, 3));
    assert!(GfxTarget::new(10, 1, 3) > GfxTarget::new(10, 1, 0));
}

#[test]
fn orderings_agree_with_the_derived_total_order() {
    let pairs = [
        (GfxTarget::new(11, 0, 0), GfxTarget::new(10, 3, 0)),
        (GfxTarget::new(10, 1, 3), GfxTarget::new(10, 1, 3)),
        (GfxTarget::new(9, 0, 10), GfxTarget::new(9, 4, 2)),
    ];
    for (a, b) in pairs {
        assert_eq!(a.partial_cmp(&b), Some(a.cmp(&b)));
    }
    let a = VulkanVersion::new(1, 2, 300);
    let b = VulkanVersion::new(1, 3, 0);
    assert_eq!(a.partial_cmp(&b), Some(a.cmp(&b)));
    assert_eq!(a.max(b), b);
}

#[test]
fn vendor_display_covers_every_variant() {
    assert_eq!(Vendor::Nvidia.to_string(), "NVIDIA");
    assert_eq!(Vendor::Amd.to_string(), "AMD");
    assert_eq!(Vendor::Intel.to_string(), "Intel");
    assert_eq!(Vendor::Apple.to_string(), "Apple");
    assert_eq!(Vendor::Unknown.to_string(), "Unknown");
}

#[test]
fn display_rounds_to_one_decimal_place() {
    // 25 GiB + 256 MiB -> 25.25 GiB, which "{:.1}" renders as "25.2".
    let gpu = GpuInfo {
        name: "Rounding".to_string(),
        vendor: Vendor::Nvidia,
        total_bytes: 25 * 1024 * 1024 * 1024 + 256 * 1024 * 1024,
        free_bytes: None,
        used_bytes: None,
        arch_target: None,
    };
    assert!(gpu.to_string().contains("25.2 GiB total"));
}

#[test]
fn display_rounding_matches_float_formatting() {
    // The GiB figure is rendered as `{:.1}` renders `bytes as f64 / 2^30`.
    let gib: u64 = 1024 * 1024 * 1024;
    let cases = [
        0,
        1,
        gib / 20,
        gib * 3 / 20,
        gib + gib / 4,
        gib * 7 / 4,
        25 * gib + 256 * 1024 * 1024,
        123_456_789_012,
        u64::MAX,
        (1u64 << 60) + 12345,
        9_007_199_254_740_993,
    ];
    for bytes in cases {
        let gpu = GpuInfo {
            name: "G".to_string(),
            vendor: Vendor::Unknown,
            total_bytes: bytes,
            free_bytes: None,
            used_bytes: None,
            arch_target: None,
        };
        let expected = format!("G (Unknown): {:.1} GiB total", bytes as f64 / gib as f64);
        assert_eq!(gpu.to_string(), expected, "for {bytes} bytes");
    }
}

#[test]
fn versions_display_as_major_dot_minor() {
    assert_eq!(ComputeCapability::new(8, 6).to_string(), "8.6");
    assert_eq!(CudaVersion::new(12, 9).to_string(), "12.9");
    assert_eq!(ComputeCapability::new(8, 10).to_string(), "8.10");
}

#[test]
fn versions_order_by_major_then_minor() {
    assert!(ComputeCapability::new(8, 6) > ComputeCapability::new(8, 0));
    assert!(ComputeCapability::new(9, 0) > ComputeCapability::new(8, 9));
    assert_eq!(ComputeCapability::new(8, 6), ComputeCapability::new(8, 6));
    assert!(CudaVersion::new(12, 9) > CudaVersion::new(12, 0));
    assert!(CudaVersion::new(13, 0) > CudaVersion::new(12, 9));
    assert!(ComputeCapability::new(9, 0) > ComputeCapability::new(8, 10));
}

#[test]
fn gpu_info_equality_compares_all_fields() {
    let base = GpuInfo {
        name: "G".to_string(),
        vendor: Vendor::Intel,
        total_bytes: 16 * 1024 * 1024 * 1024,
        free_bytes: None,
        used_bytes: None,
        arch_target: None,
    };
    assert_eq!(base.clone(), base);
    let mut other = base.clone();
    other.vendor = Vendor::Amd;
    assert_ne!(base, other);
}

#[test]
fn rendered_versions_parse_back() {
    for (major, minor, patch) in [(6, 2, 4), (2024, 2, 1), (1, 3, 280), (0, 0, 0), (u32::MAX, 10, 7)] {
        let rocm = RocmVersion::new(major, minor, patch).to_string();
        assert_eq!(parse_dotted_version(&rocm), Some((major, minor, patch)));
        let oneapi = OneApiVersion::new(major, minor, patch).to_string();
        assert_eq!(parse_dotted_version(&oneapi), Some((major, minor, patch)));
        let vulkan = VulkanVersion::new(major, minor, patch).to_string();
        assert_eq!(parse_dotted_version(&vulkan), Some((major, minor, patch)));
    }
}

#[test]
fn vendor_is_publicly_usable() {
    // `Vendor` is part of the public API and `Copy`.
    let v = gpu_probe::Vendor::Apple;
    let copied = v;
    assert_eq!(copied.to_string(), "Apple");
    assert_eq!(v, copied);
}

#[test]
fn two_part_versions_read_with_patch_zero() {
    for (major, minor) in [(6, 2), (2024, 10), (0, 0), (u32::MAX, u32::MAX)] {
        assert_eq!(parse_dotted_version(&format!("{major}.{minor}")), Some((major, minor, 0)));
    }
}

#[test]
fn build_suffixes_are_ignored() {
    for s in ["6.2.4", " 5.7.1 ", "2024.2", "6", "x.y", "", "1 . 2"] {
        for t in ["123", "", "build.7", "-+-", " 9.9.9 "] {
            assert_eq!(parse_dotted_version(&format!("{s}-{t}")), parse_dotted_version(s), "{s}-{t}");
            assert_eq!(parse_dotted_version(&format!("{s}+{t}")), parse_dotted_version(s), "{s}+{t}");
        }
    }
}
