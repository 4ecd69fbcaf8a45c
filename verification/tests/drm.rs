use gpu_probe::drm::{
    card_gpu, fold_gtt, is_card_dir, needs_pool_usage, needs_system_memory, parse_bytes,
    parse_meminfo_kb, parse_meminfo_total, parse_render_node, render_minor, sysfs_vendor,
    wants_compute_node, wants_device_id, INTEGRATED_VRAM_MAX,
};
use gpu_probe::kfd::ComputeNode;
use gpu_probe::{ArchTarget, GfxTarget, IntelArch, Vendor};

#[test]
fn card_dir_matches_only_primary_nodes() {
    assert!(is_card_dir("card0"));
    assert!(is_card_dir("card12"));
    assert!(!is_card_dir("card0-eDP-1"));
    assert!(!is_card_dir("renderD128"));
    assert!(!is_card_dir("controlD64"));
    assert!(!is_card_dir("card"));
    assert!(!is_card_dir("cardX"));
}

#[test]
fn parses_sysfs_byte_count() {
    assert_eq!(parse_bytes("17163091968\n"), Some(17_163_091_968));
    assert_eq!(parse_bytes("  8589934592 "), Some(8_589_934_592));
    assert_eq!(parse_bytes("nope"), None);
    assert_eq!(parse_bytes(""), None);
}

#[test]
fn vendor_ids_amd_and_intel_only() {
    assert_eq!(sysfs_vendor("0x1002"), Some(Vendor::Amd));
    assert_eq!(sysfs_vendor("0x8086\n"), Some(Vendor::Intel));
    assert_eq!(sysfs_vendor("0x10DE"), None, "NVIDIA is handled by NVML");
    assert_eq!(sysfs_vendor("0xffff"), None);
}

#[test]
fn parses_meminfo_memtotal() {
    let meminfo = "MemTotal:       32789868 kB\nMemFree:         1234 kB\n";
    assert_eq!(parse_meminfo_total(meminfo), Some(32_789_868 * 1024));
    assert_eq!(parse_meminfo_total("MemFree: 100 kB"), None);
}

#[test]
fn meminfo_handles_empty_and_malformed() {
    assert_eq!(parse_meminfo_total(""), None);
    assert_eq!(parse_meminfo_total("MemTotal:"), None);
    assert_eq!(parse_meminfo_total("MemTotal:        kB"), None);
    assert_eq!(parse_meminfo_total("MemTotal: notanumber kB"), None);
}

#[test]
fn parse_bytes_handles_zero_and_large_values() {
    assert_eq!(parse_bytes("0"), Some(0));
    assert_eq!(parse_bytes(&u64::MAX.to_string()), Some(u64::MAX));
    // Overflowing u64 must fail rather than wrap.
    assert_eq!(parse_bytes("99999999999999999999999"), None);
    assert_eq!(parse_bytes("-1"), None);
    assert_eq!(parse_bytes("12 34"), None);
}

#[test]
fn card_dir_rejects_render_and_control_nodes() {
    assert!(!is_card_dir("renderD129"));
    assert!(!is_card_dir("by-path"));
    assert!(!is_card_dir(""));
    // Leading zeros are still all-digits, so they count as a card node.
    assert!(is_card_dir("card007"));
}

#[test]
fn apu_carveout_folds_in_gtt_pool() {
    // A 512 MiB carveout over a 14 GiB GTT pool, as an APU reports it.
    let (total, used) = fold_gtt(
        536_870_912,
        Some(522_469_376),
        Some(15_032_385_536),
        Some(705_626_112),
    );
    assert_eq!(total, 15_569_256_448);
    assert_eq!(used, Some(1_228_095_488));
}

#[test]
fn discrete_vram_ignores_gtt_pool() {
    // A 24 GiB card keeps its own total even though GTT is large.
    let (total, used) = fold_gtt(
        25_757_220_864,
        Some(1_073_741_824),
        Some(33_483_649_024),
        Some(268_435_456),
    );
    assert_eq!(total, 25_757_220_864);
    assert_eq!(used, Some(1_073_741_824));
}

#[test]
fn threshold_is_inclusive_at_two_gib() {
    let (at, _) = fold_gtt(INTEGRATED_VRAM_MAX, None, Some(1024), None);
    assert_eq!(
        at,
        INTEGRATED_VRAM_MAX + 1024,
        "2 GiB still counts as a carveout"
    );
    let (over, _) = fold_gtt(INTEGRATED_VRAM_MAX + 1, None, Some(1024), None);
    assert_eq!(over, INTEGRATED_VRAM_MAX + 1, "just over is dedicated VRAM");
}

#[test]
fn missing_gtt_total_leaves_card_untouched() {
    let (total, used) = fold_gtt(536_870_912, Some(1024), None, Some(2048));
    assert_eq!(total, 536_870_912);
    assert_eq!(used, Some(1024));
}

#[test]
fn used_needs_both_pools_to_report() {
    // Summing one pool alone would understate usage, so report neither.
    assert_eq!(fold_gtt(1024, Some(512), Some(4096), None).1, None);
    assert_eq!(fold_gtt(1024, None, Some(4096), Some(512)).1, None);
}

#[test]
fn folded_totals_saturate_instead_of_wrapping() {
    let (total, used) = fold_gtt(1024, Some(u64::MAX), Some(u64::MAX), Some(u64::MAX));
    assert_eq!(total, u64::MAX);
    assert_eq!(used, Some(u64::MAX));
}

#[test]
fn sysfs_vendor_trims_and_lowercases() {
    assert_eq!(sysfs_vendor("  0x1002\n"), Some(Vendor::Amd));
    assert_eq!(sysfs_vendor("0X8086"), Some(Vendor::Intel));
    assert_eq!(sysfs_vendor(""), None);
    assert_eq!(sysfs_vendor("1002"), None, "missing 0x prefix is unknown");
}

#[test]
fn meminfo_kb_is_read_from_the_first_memtotal_line_only() {
    assert_eq!(parse_meminfo_kb("MemTotal: 16 kB\nMemTotal: 32 kB\n"), Some(16));
    // The first MemTotal line decides, even when it does not parse.
    assert_eq!(parse_meminfo_kb("MemTotal: x kB\nMemTotal: 32 kB\n"), None);
    assert_eq!(parse_meminfo_kb("MemTotal:\t+7 kB\r\n"), Some(7));
}

#[test]
fn render_nodes_give_their_minor() {
    assert_eq!(parse_render_node("renderD128"), Some(128));
    assert_eq!(parse_render_node("card1"), None);
    assert_eq!(parse_render_node("renderD"), None);
    assert_eq!(parse_render_node("renderDx"), None);
    let entries = vec!["card1".to_string(), "renderD129".to_string(), "renderD130".to_string()];
    assert_eq!(render_minor(&entries), Some(129));
    assert_eq!(render_minor(&vec!["card1".to_string()]), None);
}

#[test]
fn amd_card_takes_its_kfd_name_and_target() {
    let node = ComputeNode::new(128, GfxTarget::new(10, 1, 3), Some("cyan_skillfish\n"));
    let gpu = card_gpu(
        "card1",
        Vendor::Amd,
        Some(&node),
        None,
        Some(536_870_912),
        Some(522_469_376),
        Some(15_032_385_536),
        Some(705_626_112),
        None,
    )
    .unwrap();
    assert_eq!(gpu.name, "AMD cyan_skillfish");
    assert_eq!(gpu.total_bytes, 15_569_256_448);
    assert_eq!(gpu.used_bytes, Some(1_228_095_488));
    assert_eq!(gpu.free_bytes, Some(15_569_256_448 - 1_228_095_488));
    assert_eq!(gpu.arch_target, Some(ArchTarget::Gfx(GfxTarget::new(10, 1, 3))));
}

#[test]
fn card_without_kfd_name_is_named_by_its_node() {
    let gpu = card_gpu("card0", Vendor::Amd, None, None, Some(8), None, None, None, None).unwrap();
    assert_eq!(gpu.name, "AMD GPU (card0)");
    assert_eq!(gpu.free_bytes, None);
    assert_eq!(gpu.used_bytes, None);
    assert_eq!(gpu.arch_target, None);
}

#[test]
fn intel_igpu_reports_system_memory_and_family() {
    let gpu = card_gpu(
        "card0",
        Vendor::Intel,
        None,
        Some("0x9a49\n"),
        None,
        None,
        None,
        None,
        Some(16 * 1024 * 1024 * 1024),
    )
    .unwrap();
    assert_eq!(gpu.name, "Intel GPU (card0)");
    assert_eq!(gpu.total_bytes, 16 * 1024 * 1024 * 1024);
    assert_eq!(gpu.free_bytes, None);
    assert_eq!(gpu.arch_target, Some(ArchTarget::Xe(IntelArch::XeLp)));
    // No VRAM and no system-memory figure: nothing to report.
    assert!(card_gpu("card0", Vendor::Intel, None, None, None, None, None, None, None).is_none());
}

#[test]
fn used_beyond_total_is_not_reported() {
    let gpu = card_gpu("card2", Vendor::Amd, None, None, Some(8 * 1024 * 1024 * 1024), Some(9 * 1024 * 1024 * 1024), None, None, None).unwrap();
    assert_eq!(gpu.used_bytes, None);
    assert_eq!(gpu.free_bytes, None);
    assert_eq!(gpu.total_bytes, 8 * 1024 * 1024 * 1024);
}

#[test]
fn a_card_reporting_no_memory_is_not_reported() {
    assert_eq!(card_gpu("card0", Vendor::Amd, None, None, Some(0), Some(0), None, None, Some(64)), None);
    assert_eq!(card_gpu("card0", Vendor::Intel, None, None, None, None, None, None, Some(0)), None);
    // A zero carveout with a GTT pool still reports the pool.
    let apu = card_gpu("card0", Vendor::Amd, None, None, Some(0), Some(0), Some(4096), Some(1024), None).unwrap();
    assert_eq!(apu.total_bytes, 4096);
    assert_eq!(apu.used_bytes, Some(1024));
    assert_eq!(apu.free_bytes, Some(3072));
}

#[test]
fn each_card_reads_only_what_its_report_uses() {
    assert!(wants_compute_node(Vendor::Amd));
    assert!(!wants_compute_node(Vendor::Intel));
    assert!(wants_device_id(Vendor::Intel));
    assert!(!wants_device_id(Vendor::Amd));
    assert!(needs_system_memory(None));
    assert!(!needs_system_memory(Some(8)));
    assert!(needs_pool_usage(Some(8)));
    assert!(!needs_pool_usage(None));
    // What is not read for a card does not change its report.
    let node = ComputeNode::new(128, GfxTarget::new(10, 1, 3), Some("cyan_skillfish"));
    let full = card_gpu("card1", Vendor::Intel, Some(&node), Some("0x9a49"), Some(8), Some(2), Some(4), Some(1), Some(64));
    let lean = card_gpu("card1", Vendor::Intel, None, Some("0x9a49"), Some(8), Some(2), Some(4), Some(1), None);
    assert_eq!(full, lean);
    let amd = card_gpu("card1", Vendor::Amd, Some(&node), Some("0x9a49"), None, Some(2), Some(4), Some(1), Some(64));
    let amd_lean = card_gpu("card1", Vendor::Amd, Some(&node), None, None, None, None, None, Some(64));
    assert_eq!(amd, amd_lean);
    assert_eq!(amd.unwrap().arch_target, Some(ArchTarget::Gfx(GfxTarget::new(10, 1, 3))));
}
