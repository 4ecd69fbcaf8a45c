use gpu_probe::kfd::{find_node, node_ids, parse_gfx_target, property, ComputeNode};
use gpu_probe::GfxTarget;

/// Trimmed from a real BC-250 node.
const NODE: &str = "cpu_cores_count 0\nsimd_count 48\ngfx_target_version 100103\n\
                    vendor_id 4098\ndevice_id 5118\ndrm_render_minor 128\nnum_xcc 1\n";

#[test]
fn reads_properties_by_key() {
    assert_eq!(property(NODE, "gfx_target_version"), Some(100_103));
    assert_eq!(property(NODE, "drm_render_minor"), Some(128));
    assert_eq!(property(NODE, "simd_count"), Some(48));
    assert_eq!(property(NODE, "absent"), None);
}

#[test]
fn property_matches_whole_key_only() {
    // A prefix must not match: `simd_count` is not `simd_count_base`.
    assert_eq!(property("simd_count_base 7\n", "simd_count"), None);
    assert_eq!(property("simd 1\nsimd_count 48\n", "simd_count"), Some(48));
}

#[test]
fn property_tolerates_malformed_lines() {
    assert_eq!(property("gfx_target_version\n", "gfx_target_version"), None);
    assert_eq!(property("gfx_target_version x\n", "gfx_target_version"), None);
    assert_eq!(property("", "gfx_target_version"), None);
}

#[test]
fn decodes_gfx_target_versions() {
    // The BC-250 this was written against.
    assert_eq!(parse_gfx_target(100_103), Some(GfxTarget::new(10, 1, 3)));
    assert_eq!(parse_gfx_target(100_300), Some(GfxTarget::new(10, 3, 0)));
    // MI200: step 10, which renders as the `a` in `gfx90a`.
    assert_eq!(parse_gfx_target(90_010), Some(GfxTarget::new(9, 0, 10)));
    assert_eq!(parse_gfx_target(110_000), Some(GfxTarget::new(11, 0, 0)));
}

#[test]
fn cpu_nodes_have_no_gfx_target() {
    assert_eq!(parse_gfx_target(0), None);
}

#[test]
fn versions_with_major_zero_name_no_target() {
    assert_eq!(parse_gfx_target(5), None);
    assert_eq!(parse_gfx_target(9_999), None);
    assert_eq!(parse_gfx_target(10_000), Some(GfxTarget::new(1, 0, 0)));
    assert_eq!(node_ids("gfx_target_version 103\ndrm_render_minor 128\n"), None);
}

#[test]
fn node_ids_need_a_gpu_target_and_a_render_minor() {
    assert_eq!(node_ids(NODE), Some((128, GfxTarget::new(10, 1, 3))));
    // A CPU node: target 0.
    assert_eq!(node_ids("gfx_target_version 0\ndrm_render_minor 0\n"), None);
    // A GPU with no render node is skipped too.
    assert_eq!(node_ids("gfx_target_version 100103\ndrm_render_minor 0\n"), None);
    assert_eq!(node_ids("gfx_target_version 100103\n"), None);
}

#[test]
fn node_names_are_trimmed_and_empty_ones_dropped() {
    let named = ComputeNode::new(128, GfxTarget::new(10, 1, 3), Some(" cyan_skillfish\n"));
    assert_eq!(named.name.as_deref(), Some("cyan_skillfish"));
    let blank = ComputeNode::new(128, GfxTarget::new(10, 1, 3), Some(" \n"));
    assert_eq!(blank.name, None);
    let unread = ComputeNode::new(129, GfxTarget::new(11, 0, 0), None);
    assert_eq!(unread.name, None);
    let nodes = vec![named, blank, unread];
    assert_eq!(find_node(&nodes, 128), Some(0));
    assert_eq!(find_node(&nodes, 129), Some(2));
    assert_eq!(find_node(&nodes, 130), None);
}
