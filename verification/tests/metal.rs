use gpu_probe::metal::{
    apple_family, needs_usage, page_count, parse_memsize, parse_page_size, parse_system_profiler,
    parse_vm_stat_used, parse_vram, profiler_vram_fits, unified_split, unify, vendor_from_id,
};
use gpu_probe::{AppleFamily, ArchTarget, GpuInfo, Vendor};

#[test]
fn maps_apple_silicon_chips_to_metal_families() {
    assert_eq!(apple_family("Apple M1"), Some(AppleFamily::new(7)));
    assert_eq!(apple_family("Apple M1 Max"), Some(AppleFamily::new(7)));
    assert_eq!(apple_family("Apple M2 Pro"), Some(AppleFamily::new(8)));
    assert_eq!(apple_family("Apple M3 Ultra"), Some(AppleFamily::new(9)));
    assert_eq!(apple_family("Apple M4"), Some(AppleFamily::new(9)));
    // M5 is the first generation on apple10.
    assert_eq!(apple_family("Apple M5"), Some(AppleFamily::new(10)));
    assert_eq!(apple_family("Apple M5 Pro"), Some(AppleFamily::new(10)));
    assert_eq!(apple_family("Apple M5 Max"), Some(AppleFamily::new(10)));
}

#[test]
fn two_digit_families_render_unpacked() {
    // `apple10` must not collapse to `apple1`.
    assert_eq!(
        apple_family("Apple M5").map(|family| family.to_string()),
        Some("apple10".to_string())
    );
}

#[test]
fn unknown_chips_report_no_family() {
    assert_eq!(apple_family("Apple M9"), None);
    assert_eq!(apple_family("Apple M10"), None, "not M1");
    assert_eq!(apple_family("AMD Radeon Pro 5500M"), None);
    assert_eq!(apple_family("Intel Iris Plus Graphics"), None);
    assert_eq!(apple_family("Apple GPU"), None);
    assert_eq!(apple_family(""), None);
}

#[test]
fn apple_silicon_block_has_no_vram() {
    let text = "Graphics/Displays:\n\n    Apple M2 Pro:\n\n      Chipset Model: Apple M2 Pro\n      Type: GPU\n      Vendor: Apple (0x106b)\n      Metal Support: Metal 3\n";
    let gpus = parse_system_profiler(text);
    assert_eq!(gpus.len(), 1);
    assert_eq!(gpus[0].name, "Apple M2 Pro");
    assert_eq!(gpus[0].vendor, Vendor::Apple);
    assert_eq!(gpus[0].total_bytes, 0, "unified memory; backfilled in detect()");
}

#[test]
fn intel_mac_discrete_gpu_reports_vram() {
    let text = "      Chipset Model: AMD Radeon Pro 5500M\n      Type: GPU\n      Bus: PCIe\n      VRAM (Total): 8 GB\n      Vendor: AMD (0x1002)\n";
    let gpus = parse_system_profiler(text);
    assert_eq!(gpus.len(), 1);
    assert_eq!(gpus[0].vendor, Vendor::Amd);
    assert_eq!(gpus[0].total_bytes, 8 * 1024 * 1024 * 1024);
}

#[test]
fn dynamic_vram_line_is_parsed() {
    let text = "      Chipset Model: Intel Iris Pro\n      VRAM (Dynamic, Max): 1536 MB\n      Vendor: Intel (0x8086)\n";
    let gpus = parse_system_profiler(text);
    assert_eq!(gpus[0].vendor, Vendor::Intel);
    assert_eq!(gpus[0].total_bytes, 1536 * 1024 * 1024);
}

#[test]
fn vram_and_memsize_parsers() {
    assert_eq!(parse_vram("8 GB"), Some(8 * 1024 * 1024 * 1024));
    assert_eq!(parse_vram("1536 MB"), Some(1536 * 1024 * 1024));
    assert_eq!(parse_vram("weird"), None);
    assert_eq!(parse_memsize("17179869184\n"), Some(17_179_869_184));
}

#[test]
fn vendor_id_mapping() {
    assert_eq!(vendor_from_id("0x106b"), Vendor::Apple);
    assert_eq!(vendor_from_id("0x10DE"), Vendor::Nvidia);
    assert_eq!(vendor_from_id("0x1002"), Vendor::Amd);
    assert_eq!(vendor_from_id("0xbeef"), Vendor::Unknown);
}

#[test]
fn parses_multiple_gpu_blocks() {
    let text = "      Chipset Model: AMD Radeon Pro 5500M\n      VRAM (Total): 8 GB\n      Vendor: AMD (0x1002)\n      Chipset Model: Intel UHD Graphics 630\n      VRAM (Dynamic, Max): 1536 MB\n      Vendor: Intel (0x8086)\n";
    let gpus = parse_system_profiler(text);
    assert_eq!(gpus.len(), 2);
    assert_eq!(gpus[0].vendor, Vendor::Amd);
    assert_eq!(gpus[0].total_bytes, 8 * 1024 * 1024 * 1024);
    assert_eq!(gpus[1].vendor, Vendor::Intel);
    assert_eq!(gpus[1].total_bytes, 1536 * 1024 * 1024);
}

#[test]
fn empty_output_yields_no_gpus() {
    assert!(parse_system_profiler("").is_empty());
    // Lines before any "Chipset Model:" have no GPU to attach to.
    assert!(parse_system_profiler("Graphics/Displays:\n      VRAM (Total): 8 GB\n").is_empty());
}

#[test]
fn vendor_line_without_parens_keeps_default() {
    let text = "      Chipset Model: Mystery GPU\n      Vendor: sieve\n";
    let gpus = parse_system_profiler(text);
    assert_eq!(gpus.len(), 1);
    // No "(id)" to parse, so the Apple default placed at block start stands.
    assert_eq!(gpus[0].vendor, Vendor::Apple);
}

#[test]
fn malformed_vram_leaves_total_at_zero() {
    let text =
        "      Chipset Model: Broken\n      VRAM (Total): lots\n      Vendor: Apple (0x106b)\n";
    let gpus = parse_system_profiler(text);
    assert_eq!(gpus[0].total_bytes, 0);
}

#[test]
fn parse_vram_rejects_unknown_units_and_bad_numbers() {
    assert_eq!(parse_vram("8 TB"), None);
    assert_eq!(parse_vram("8"), None);
    assert_eq!(parse_vram("eight GB"), None);
    assert_eq!(parse_vram("512 kb"), Some(512 * 1024), "unit is case-insensitive");
}

#[test]
fn parse_memsize_rejects_non_numeric() {
    assert_eq!(parse_memsize("nope"), None);
    assert_eq!(parse_memsize(""), None);
    assert_eq!(parse_memsize("0"), Some(0));
}

/// Trimmed from a real M2 running macOS 26.5, keeping the rows the parser
/// reads plus the compressor pair it must tell apart.
const VM_STAT: &str = "Mach Virtual Memory Statistics: (page size of 16384 bytes)\n\
                       Pages free:                                     3480.\n\
                       Pages active:                                  77803.\n\
                       Pages inactive:                                74322.\n\
                       Pages speculative:                              2300.\n\
                       Pages wired down:                             137287.\n\
                       Pages purgeable:                                   0.\n\
                       Pages stored in compressor:                  1263882.\n\
                       Pages occupied by compressor:                 192142.\n";

#[test]
fn reads_vm_stat_page_size_and_counts() {
    assert_eq!(parse_page_size(VM_STAT), Some(16384));
    assert_eq!(page_count(VM_STAT, "Pages active:"), Some(77803));
    assert_eq!(page_count(VM_STAT, "Pages wired down:"), Some(137_287));
    assert_eq!(page_count(VM_STAT, "Pages free:"), Some(3480));
    assert_eq!(page_count(VM_STAT, "Pages absent:"), None);
}

#[test]
fn sums_used_pages_the_way_activity_monitor_does() {
    // active + wired + compressor, at 16 KiB per page.
    let expected = (77803 + 137_287 + 192_142) * 16384;
    assert_eq!(parse_vm_stat_used(VM_STAT), Some(expected));
    // ~6.2 GiB of the 8 GiB this fixture was taken from.
    assert!(expected < 8 * 1024 * 1024 * 1024);
}

#[test]
fn used_counts_the_compressor_footprint_not_its_contents() {
    let stored = 1_263_882u64 * 16384;
    assert!(stored > 8 * 1024 * 1024 * 1024, "fixture must expose the trap");
    assert!(parse_vm_stat_used(VM_STAT).is_some_and(|used| used < stored));
}

#[test]
fn vm_stat_parsing_needs_every_field() {
    assert_eq!(parse_vm_stat_used(""), None);
    assert_eq!(parse_page_size("Pages free: 1.\n"), None);
    let no_wired = "Mach Virtual Memory Statistics: (page size of 16384 bytes)\n\
                    Pages active:                                  77803.\n\
                    Pages occupied by compressor:                 192142.\n";
    assert_eq!(parse_vm_stat_used(no_wired), None);
}

#[test]
fn page_size_survives_a_four_kib_intel_header() {
    let intel = "Mach Virtual Memory Statistics: (page size of 4096 bytes)\n";
    assert_eq!(parse_page_size(intel), Some(4096));
    assert_eq!(parse_page_size("(page size of many bytes)"), None);
    assert_eq!(parse_page_size("(page size of 4096)"), None);
}

#[test]
fn apple_silicon_blocks_carry_their_metal_family() {
    let text = "      Chipset Model: Apple M2 Pro\n      Vendor: Apple (0x106b)\n";
    let gpus = parse_system_profiler(text);
    assert_eq!(gpus[0].arch_target, Some(ArchTarget::Apple(AppleFamily::new(8))));
}

#[test]
fn vram_that_overflows_is_caught_before_parsing() {
    assert!(profiler_vram_fits("      Chipset Model: X\n      VRAM (Total): 8 GB\n"));
    assert!(!profiler_vram_fits(
        "      Chipset Model: X\n      VRAM (Total): 99999999999999 GB\n"
    ));
    // A value before any block is never read, so it cannot overflow.
    assert!(profiler_vram_fits("      VRAM (Total): 99999999999999 GB\n"));
}

#[test]
fn unified_split_needs_a_usage_within_the_pool() {
    assert_eq!(unified_split(100, Some(30)), (Some(30), Some(70)));
    assert_eq!(unified_split(100, Some(100)), (Some(100), Some(0)));
    assert_eq!(unified_split(100, Some(101)), (None, None));
    assert_eq!(unified_split(100, None), (None, None));
}

fn gpu(name: &str, vendor: Vendor, total: u64) -> GpuInfo {
    GpuInfo {
        name: name.to_string(),
        vendor,
        total_bytes: total,
        free_bytes: None,
        used_bytes: None,
        arch_target: None,
    }
}

#[test]
fn unified_memory_is_backfilled_from_physical_memory() {
    let gpus = vec![gpu("Apple M2 Pro", Vendor::Apple, 0), gpu("Radeon", Vendor::Amd, 8)];
    assert!(needs_usage(&gpus, Some(32)));
    let done = unify(gpus, Some(32), Some(12));
    assert_eq!(done[0].total_bytes, 32);
    assert_eq!(done[0].used_bytes, Some(12));
    assert_eq!(done[0].free_bytes, Some(20));
    // A discrete card keeps its own VRAM and gets no split.
    assert_eq!(done[1].total_bytes, 8);
    assert_eq!(done[1].used_bytes, None);
}

#[test]
fn nothing_parsed_still_yields_one_apple_gpu() {
    assert!(needs_usage(&Vec::new(), Some(16)));
    let done = unify(Vec::new(), Some(16), None);
    assert_eq!(done.len(), 1);
    assert_eq!(done[0].name, "Apple GPU");
    assert_eq!(done[0].vendor, Vendor::Apple);
    assert_eq!(done[0].total_bytes, 16);
    assert_eq!(done[0].free_bytes, None);
}

#[test]
fn without_physical_memory_nothing_is_backfilled() {
    let gpus = vec![gpu("Apple M1", Vendor::Apple, 0), gpu("Radeon", Vendor::Amd, 8)];
    assert!(!needs_usage(&gpus, None));
    // A GPU left with no memory is not reported; one with VRAM stands.
    let done = unify(gpus.clone(), None, Some(5));
    assert_eq!(done, vec![gpus[1].clone()]);
    assert!(unify(Vec::new(), None, None).is_empty());
    assert!(unify(Vec::new(), Some(0), None).is_empty());
    assert!(unify(vec![gpu("", Vendor::Apple, 8)], None, None).is_empty());
    // Every card reported VRAM: usage is not needed.
    assert!(!needs_usage(&vec![gpu("Radeon", Vendor::Amd, 8)], Some(32)));
}

#[test]
fn finished_gpus_keep_coherent_memory() {
    let text = "      Chipset Model: Apple M2\n      Vendor: Apple (0x106b)\n      Chipset Model: Radeon\n      VRAM (Total): 8 GB\n";
    let gpus = parse_system_profiler(text);
    assert!(gpus.iter().all(|g| g.free_bytes.is_none() && g.used_bytes.is_none()));
    for g in unify(gpus, Some(16 << 30), Some(6 << 30)) {
        if let Some(free) = g.free_bytes {
            assert!(free <= g.total_bytes);
            assert_eq!(free + g.used_bytes.unwrap(), g.total_bytes);
        }
    }
}

#[test]
fn each_block_is_read_alone_and_its_last_lines_win() {
    let text = "      VRAM (Total): 4 GB\n      Vendor: AMD (0x1002)\n\
                      Chipset Model: First\n      Vendor: Intel (0x8086)\n      Vendor: AMD (0x1002)\n\
                      VRAM (Total): 2 GB\n      VRAM (Total): junk\n      VRAM (Total): 3 GB\n\
                      Chipset Model: Second\n      Vendor: none here\n";
    let gpus = parse_system_profiler(text);
    assert_eq!(gpus.len(), 2);
    assert_eq!(gpus[0].name, "First");
    assert_eq!(gpus[0].vendor, Vendor::Amd);
    assert_eq!(gpus[0].total_bytes, 3 * 1024 * 1024 * 1024);
    // Nothing from the first block leaks into the second.
    assert_eq!(gpus[1].name, "Second");
    assert_eq!(gpus[1].vendor, Vendor::Apple);
    assert_eq!(gpus[1].total_bytes, 0);
}
