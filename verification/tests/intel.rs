use gpu_probe::intel::{arch_for_device_id, family_table, parse_device_id};
use gpu_probe::IntelArch;

#[test]
fn parses_sysfs_pci_ids() {
    assert_eq!(parse_device_id("0x56a0\n"), Some(0x56A0));
    assert_eq!(parse_device_id("0X9A49"), Some(0x9A49));
    assert_eq!(parse_device_id("  0xe20b "), Some(0xE20B));
}

#[test]
fn rejects_ids_without_a_hex_prefix() {
    // The bare form would be ambiguous with decimal, so it is not accepted.
    assert_eq!(parse_device_id("56a0"), None);
    assert_eq!(parse_device_id("0xzzzz"), None);
    assert_eq!(parse_device_id("0x1ffff"), None, "wider than u16");
    assert_eq!(parse_device_id(""), None);
}

#[test]
fn maps_discrete_parts_to_their_family() {
    // A770 / A750, and a Battlemage B580.
    assert_eq!(arch_for_device_id(0x56A0), Some(IntelArch::XeHpg));
    assert_eq!(arch_for_device_id(0xE20B), Some(IntelArch::Xe2));
    // DG1 and Ponte Vecchio.
    assert_eq!(arch_for_device_id(0x4905), Some(IntelArch::XeLp));
    assert_eq!(arch_for_device_id(0x0BD5), Some(IntelArch::XeHpc));
}

#[test]
fn maps_integrated_parts_to_their_family() {
    assert_eq!(arch_for_device_id(0x9A49), Some(IntelArch::XeLp), "Tiger Lake");
    assert_eq!(arch_for_device_id(0x4680), Some(IntelArch::XeLp), "Alder Lake");
    assert_eq!(arch_for_device_id(0x7D55), Some(IntelArch::XeLpg), "Meteor Lake");
    assert_eq!(arch_for_device_id(0x64A0), Some(IntelArch::Xe2), "Lunar Lake");
}

#[test]
fn unknown_ids_report_nothing_rather_than_guessing() {
    // Pre-Xe integrated graphics are deliberately unmapped: Skylake (Gen9)
    // and Ice Lake (Gen11).
    assert_eq!(arch_for_device_id(0x1912), None, "Skylake GT2");
    assert_eq!(arch_for_device_id(0x8A52), None, "Ice Lake");
    // A device id no range covers.
    assert_eq!(arch_for_device_id(0x0000), None);
    assert_eq!(arch_for_device_id(0xFFFF), None);
}

#[test]
fn ranges_do_not_overlap() {
    // Overlapping ranges would make the result depend on table order.
    let families = family_table();
    for (i, &(first, last, _)) in families.iter().enumerate() {
        assert!(first <= last, "range {i} is inverted");
        for &(other_first, other_last, _) in &families[i + 1..] {
            assert!(
                last < other_first || other_last < first,
                "ranges {first:#06x}..={last:#06x} and \
                 {other_first:#06x}..={other_last:#06x} overlap",
            );
        }
    }
}

#[test]
fn range_ends_are_inclusive() {
    assert_eq!(arch_for_device_id(0x4909), Some(IntelArch::XeLp));
    assert_eq!(arch_for_device_id(0x490A), None);
    assert_eq!(arch_for_device_id(0xE2FF), Some(IntelArch::Xe2));
    assert_eq!(parse_device_id("0x+56a0"), Some(0x56A0));
}
