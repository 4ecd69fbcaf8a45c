//! Intel GPU architecture identification from the PCI device id.
//!
//! Neither `i915` nor `xe` publishes an architecture anywhere a caller can read
//! it; what is readable is the PCI device id in
//! `/sys/class/drm/card*/device/device`, which identifies the family. Ids are
//! matched by range, one per architecture; anything unrecognised reports
//! `None`, since a wrong architecture would be acted on and an absent one
//! would not.
use vstd::prelude::*;
use crate::IntelArch;
use crate::text::{after_prefix, chars_of, parse_uint, parse_unsigned, strip_prefix, trim, trimmed};

verus! {

/// PCI device id ranges, one per architecture family, inclusive on both ends.
pub open spec fn families() -> Seq<(u16, u16, IntelArch)> {
    seq![
        // DG1 — the first discrete Xe part.
        (0x4905u16, 0x4909u16, IntelArch::XeLp),
        // Alder Lake and Raptor Lake integrated.
        (0x4600u16, 0x46FFu16, IntelArch::XeLp),
        // Rocket Lake integrated.
        (0x4C80u16, 0x4CFFu16, IntelArch::XeLp),
        // Tiger Lake integrated.
        (0x9A40u16, 0x9AFFu16, IntelArch::XeLp),
        // Raptor Lake refresh integrated.
        (0xA700u16, 0xA7FFu16, IntelArch::XeLp),
        // DG2 — Arc A-series (Alchemist).
        (0x5690u16, 0x56CFu16, IntelArch::XeHpg),
        // Ponte Vecchio — Data Center GPU Max.
        (0x0BD0u16, 0x0BDFu16, IntelArch::XeHpc),
        // Meteor Lake and Arrow Lake integrated.
        (0x7D00u16, 0x7DFFu16, IntelArch::XeLpg),
        // Lunar Lake integrated.
        (0x6400u16, 0x64FFu16, IntelArch::Xe2),
        // Battlemage — Arc B-series.
        (0xE200u16, 0xE2FFu16, IntelArch::Xe2),
    ]
}

/// The family table, in its declared order.
pub fn family_table() -> (t: Vec<(u16, u16, IntelArch)>)
    ensures
        t@ == families(),
{
    let t = vec![
        (0x4905u16, 0x4909u16, IntelArch::XeLp),
        (0x4600u16, 0x46FFu16, IntelArch::XeLp),
        (0x4C80u16, 0x4CFFu16, IntelArch::XeLp),
        (0x9A40u16, 0x9AFFu16, IntelArch::XeLp),
        (0xA700u16, 0xA7FFu16, IntelArch::XeLp),
        (0x5690u16, 0x56CFu16, IntelArch::XeHpg),
        (0x0BD0u16, 0x0BDFu16, IntelArch::XeHpc),
        (0x7D00u16, 0x7DFFu16, IntelArch::XeLpg),
        (0x6400u16, 0x64FFu16, IntelArch::Xe2),
        (0xE200u16, 0xE2FFu16, IntelArch::Xe2),
    ];
    assert(t@ =~= families());
    t
}

/// The family of the first range in `table` that holds `id`.
pub open spec fn first_family(table: Seq<(u16, u16, IntelArch)>, id: u16) -> Option<IntelArch>
    decreases table.len(),
{
    if table.len() == 0 {
        None
    } else if table[0].0 <= id <= table[0].1 {
        Some(table[0].2)
    } else {
        first_family(table.drop_first(), id)
    }
}

/// The architecture family a PCI device id belongs to.
pub open spec fn arch_for(id: u16) -> Option<IntelArch> {
    first_family(families(), id)
}

/// Architecture family for a PCI device id, or `None` when the id is outside
/// every known range.
pub fn arch_for_device_id(id: u16) -> (r: Option<IntelArch>)
    ensures
        r == arch_for(id),
{
    let table = family_table();
    let n = table.len();
    let mut i: usize = 0;
    assert(table@.skip(0) =~= table@);
    while i < n
        invariant
            i <= n == table@.len(),
            table@ == families(),
            first_family(table@, id) == first_family(table@.skip(i as int), id),
        decreases n - i,
    {
        let (first, last, arch) = table[i];
        assert(table@.skip(i as int).drop_first() =~= table@.skip(i + 1));
        if first <= id && id <= last {
            return Some(arch);
        }
        i = i + 1;
    }
    None
}

/// The ranges are well formed and pairwise disjoint, so which family an id
/// maps to does not depend on the order of the table.
pub proof fn ranges_do_not_overlap()
    ensures
        forall|i: int| 0 <= i < families().len() ==> families()[i].0 <= families()[i].1,
        forall|i: int, j: int|
            0 <= i < j < families().len() ==> families()[i].1 < families()[j].0 || families()[j].1
                < families()[i].0,
{
}

/// What the lookup answers: the family of the range that holds `id`, and
/// `None` when no range does.
pub proof fn arch_is_the_range_that_holds_the_id(id: u16)
    ensures
        forall|i: int|
            0 <= i < families().len() && families()[i].0 <= id <= families()[i].1 ==> arch_for(id)
                == Some(families()[i].2),
        (forall|i: int|
            0 <= i < families().len() ==> !(#[trigger] families()[i].0 <= id <= families()[i].1)) ==> arch_for(
            id,
        ) is None,
{
    ranges_do_not_overlap();
    lemma_first_family(families(), id);
}

/// The Intel generations each family spans, by PCI device id: Xe-LP is DG1
/// (`0x4905`–`0x4909`), Alder and Raptor Lake (`0x4600`–`0x46FF`), Rocket
/// Lake (`0x4C80`–`0x4CFF`), Tiger Lake (`0x9A40`–`0x9AFF`) and Raptor Lake
/// refresh (`0xA700`–`0xA7FF`); Xe-HPG is Arc A-series (`0x5690`–`0x56CF`);
/// Xe-HPC is Ponte Vecchio (`0x0BD0`–`0x0BDF`); Xe-LPG is Meteor and Arrow
/// Lake (`0x7D00`–`0x7DFF`); Xe2 is Lunar Lake (`0x6400`–`0x64FF`) and Arc
/// B-series (`0xE200`–`0xE2FF`). Every other id maps to no family.
pub proof fn intel_generations(id: u16)
    ensures
        (arch_for(id) == Some(IntelArch::XeLp)) <==> (0x4905 <= id <= 0x4909 || 0x4600 <= id
            <= 0x46FF || 0x4C80 <= id <= 0x4CFF || 0x9A40 <= id <= 0x9AFF || 0xA700 <= id
            <= 0xA7FF),
        (arch_for(id) == Some(IntelArch::XeHpg)) <==> (0x5690 <= id <= 0x56CF),
        (arch_for(id) == Some(IntelArch::XeHpc)) <==> (0x0BD0 <= id <= 0x0BDF),
        (arch_for(id) == Some(IntelArch::XeLpg)) <==> (0x7D00 <= id <= 0x7DFF),
        (arch_for(id) == Some(IntelArch::Xe2)) <==> (0x6400 <= id <= 0x64FF || 0xE200 <= id
            <= 0xE2FF),
        (arch_for(id) is None) <==> !(0x4905 <= id <= 0x4909 || 0x4600 <= id <= 0x46FF || 0x4C80
            <= id <= 0x4CFF || 0x9A40 <= id <= 0x9AFF || 0xA700 <= id <= 0xA7FF || 0x5690 <= id
            <= 0x56CF || 0x0BD0 <= id <= 0x0BDF || 0x7D00 <= id <= 0x7DFF || 0x6400 <= id
            <= 0x64FF || 0xE200 <= id <= 0xE2FF),
{
    arch_is_the_range_that_holds_the_id(id);
    let f = families();
    assert(f.len() == 10);
    assert(f[0] == (0x4905u16, 0x4909u16, IntelArch::XeLp));
    assert(f[1] == (0x4600u16, 0x46FFu16, IntelArch::XeLp));
    assert(f[2] == (0x4C80u16, 0x4CFFu16, IntelArch::XeLp));
    assert(f[3] == (0x9A40u16, 0x9AFFu16, IntelArch::XeLp));
    assert(f[4] == (0xA700u16, 0xA7FFu16, IntelArch::XeLp));
    assert(f[5] == (0x5690u16, 0x56CFu16, IntelArch::XeHpg));
    assert(f[6] == (0x0BD0u16, 0x0BDFu16, IntelArch::XeHpc));
    assert(f[7] == (0x7D00u16, 0x7DFFu16, IntelArch::XeLpg));
    assert(f[8] == (0x6400u16, 0x64FFu16, IntelArch::Xe2));
    assert(f[9] == (0xE200u16, 0xE2FFu16, IntelArch::Xe2));
}

proof fn lemma_first_family(table: Seq<(u16, u16, IntelArch)>, id: u16)
    requires
        forall|i: int, j: int|
            0 <= i < j < table.len() ==> table[i].1 < table[j].0 || table[j].1 < table[i].0,
    ensures
        forall|i: int|
            0 <= i < table.len() && table[i].0 <= id <= table[i].1 ==> first_family(table, id)
                == Some(table[i].2),
        (forall|i: int| 0 <= i < table.len() ==> !(#[trigger] table[i].0 <= id <= table[i].1)) ==> first_family(
            table,
            id,
        ) is None,
    decreases table.len(),
{
    if table.len() > 0 {
        let rest = table.drop_first();
        assert forall|i: int, j: int| 0 <= i < j < rest.len() implies rest[i].1 < rest[j].0
            || rest[j].1 < rest[i].0 by {
            assert(rest[i] == table[i + 1] && rest[j] == table[j + 1]);
        }
        lemma_first_family(rest, id);
        assert forall|i: int|
            0 <= i < table.len() && table[i].0 <= id <= table[i].1 implies first_family(table, id)
            == Some(table[i].2) by {
            if i > 0 {
                assert(rest[i - 1] == table[i]);
            }
        }
        if forall|i: int| 0 <= i < table.len() ==> !(#[trigger] table[i].0 <= id <= table[i].1) {
            assert forall|i: int| 0 <= i < rest.len() implies !(#[trigger] rest[i].0 <= id <= rest[i].1) by {
                assert(rest[i] == table[i + 1]);
            }
        }
    }
}

/// What `parse_device_id` reads from a sysfs PCI id file: after trimming, a
/// `0x` or `0X` prefix and then a hexadecimal `u16`.
pub open spec fn device_id(content: Seq<char>) -> Option<u16> {
    let text = trim(content);
    let digits = match strip_prefix(text, "0x"@) {
        Some(d) => Some(d),
        None => strip_prefix(text, "0X"@),
    };
    match digits {
        Some(d) => match parse_uint(d, true, 0xFFFF) {
            Some(v) => Some(v as u16),
            None => None,
        },
        None => None,
    }
}

/// Parse a sysfs PCI id file (`0x56a0`) into its numeric value.
pub fn parse_device_id(content: &str) -> (r: Option<u16>)
    ensures
        r == device_id(content@),
{
    let chars = chars_of(content);
    let text = trimmed(chars.as_slice());
    let lower = chars_of("0x");
    let upper = chars_of("0X");
    let digits = match after_prefix(text, lower.as_slice()) {
        Some(d) => d,
        None => match after_prefix(text, upper.as_slice()) {
            Some(d) => d,
            None => return None,
        },
    };
    match parse_unsigned(digits, true, 0xFFFF) {
        Some(v) => Some(v as u16),
        None => None,
    }
}

} // verus!
