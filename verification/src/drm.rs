//! AMD and Intel detection from Linux DRM sysfs (`/sys/class/drm/card*/device`).
//!
//! GPUs that expose `mem_info_vram_total` report dedicated VRAM with used/free;
//! any card without it falls back to the shared system-memory ceiling with
//! used/free `None`. NVIDIA cards are left to NVML.
//!
//! AMD APUs do expose `mem_info_vram_total`, but only as a small BIOS carveout;
//! the memory such a part really allocates from is the GTT pool in
//! `mem_info_gtt_total`. [`fold_gtt`] adds the two together for cards that look
//! integrated, so a unified-memory part reports what it can actually hand out.
use vstd::prelude::*;
use crate::{lemma_vendor_text_nonempty, well_reported, ArchTarget, GpuInfo, GpuView, Vendor};
use crate::intel::{arch_for, arch_for_device_id, device_id, parse_device_id};
use crate::kfd::{ComputeNode, ComputeNodeView};
use crate::text::{
    after_prefix, chars_of, lines, lines_of, lowercase, parse_uint, parse_unsigned,
    push_str, same_chars, strip_prefix, to_lowercase, trim, trimmed, words, words_of,
};

verus! {

broadcast use vstd::string::group_string_axioms;

/// An ASCII decimal digit.
pub open spec fn is_digit(c: char) -> bool {
    48 <= (c as u32) <= 57
}

/// A primary DRM card node name: `card` and at least one digit, nothing else.
pub open spec fn card_dir(name: Seq<char>) -> bool {
    match strip_prefix(name, "card"@) {
        Some(rest) => rest.len() > 0 && forall|i: int| 0 <= i < rest.len() ==> is_digit(rest[i]),
        None => false,
    }
}

/// True for a primary DRM card node (`card0`, `card1`, …) — not a connector
/// (`card0-eDP-1`) or a render node (`renderD128`).
pub fn is_card_dir(name: &str) -> (b: bool)
    ensures
        b == card_dir(name@),
{
    let chars = chars_of(name);
    let prefix = chars_of("card");
    let rest = match after_prefix(chars.as_slice(), prefix.as_slice()) {
        Some(r) => r,
        None => return false,
    };
    if rest.len() == 0 {
        return false;
    }
    let n = rest.len();
    let mut i: usize = 0;
    while i < n
        invariant
            i <= n == rest@.len(),
            strip_prefix(name@, "card"@) == Some(rest@),
            forall|j: int| 0 <= j < i ==> is_digit(rest@[j]),
        decreases n - i,
    {
        let u = rest[i] as u32;
        if !(48 <= u && u <= 57) {
            assert(!is_digit(rest@[i as int]));
            assert(strip_prefix(name@, "card"@) == Some(rest@));
            return false;
        }
        i = i + 1;
    }
    true
}

/// A sysfs byte count: trimmed, then a decimal `u64`.
pub open spec fn byte_count(content: Seq<char>) -> Option<u64> {
    match parse_uint(trim(content), false, u64::MAX as nat) {
        Some(v) => Some(v as u64),
        None => None,
    }
}

/// Parse a sysfs integer file (e.g. `mem_info_vram_total`) holding a decimal
/// byte count.
pub fn parse_bytes(content: &str) -> (r: Option<u64>)
    ensures
        r == byte_count(content@),
{
    let chars = chars_of(content);
    parse_unsigned(trimmed(chars.as_slice()), false, u64::MAX)
}

/// The vendor this scanner owns for a PCI vendor id: AMD (`0x1002`) and
/// Intel (`0x8086`), trimmed and compared without regard to ASCII case.
pub open spec fn vendor_of_id(id: Seq<char>) -> Option<Vendor> {
    let key = lowercase(trim(id));
    if key == "0x1002"@ {
        Some(Vendor::Amd)
    } else if key == "0x8086"@ {
        Some(Vendor::Intel)
    } else {
        None
    }
}

/// Map a PCI vendor id (`device/vendor`, e.g. `0x1002`) to the [`Vendor`] this
/// scanner owns. NVIDIA (`0x10de`) returns `None` — NVML handles it — as do
/// unknown vendors.
pub fn sysfs_vendor(id: &str) -> (r: Option<Vendor>)
    ensures
        r == vendor_of_id(id@),
{
    let chars = chars_of(id);
    let key = to_lowercase(trimmed(chars.as_slice()));
    let amd = chars_of("0x1002");
    let intel = chars_of("0x8086");
    if same_chars(key.as_slice(), amd.as_slice()) {
        Some(Vendor::Amd)
    } else if same_chars(key.as_slice(), intel.as_slice()) {
        Some(Vendor::Intel)
    } else {
        None
    }
}

/// What follows `MemTotal:` on the first line of `ls` that starts with it.
pub open spec fn memtotal_rest(ls: Seq<Seq<char>>) -> Option<Seq<char>>
    decreases ls.len(),
{
    if ls.len() == 0 {
        None
    } else {
        match strip_prefix(ls[0], "MemTotal:"@) {
            Some(rest) => Some(rest),
            None => memtotal_rest(ls.drop_first()),
        }
    }
}

/// The `MemTotal:` figure of `/proc/meminfo`, in kB: the first word after the
/// key on the first line holding it, as a `u64`.
pub open spec fn meminfo_kb(content: Seq<char>) -> Option<u64> {
    match memtotal_rest(lines(content)) {
        Some(rest) => {
            let w = words(rest);
            if w.len() > 0 {
                match parse_uint(w[0], false, u64::MAX as nat) {
                    Some(v) => Some(v as u64),
                    None => None,
                }
            } else {
                None
            }
        },
        None => None,
    }
}

/// Parse the `MemTotal:` figure (in kB) out of `/proc/meminfo` contents.
pub fn parse_meminfo_kb(content: &str) -> (r: Option<u64>)
    ensures
        r == meminfo_kb(content@),
{
    let chars = chars_of(content);
    let key = chars_of("MemTotal:");
    let ls = lines_of(chars.as_slice());
    let n = ls.len();
    let ghost all = lines(content@);
    assert(all.skip(0) =~= all);
    let mut i: usize = 0;
    while i < n
        invariant
            i <= n == ls@.len() == all.len(),
            all == lines(content@),
            key@ == "MemTotal:"@,
            forall|k: int| 0 <= k < n ==> #[trigger] ls@[k]@ == all[k],
            memtotal_rest(all) == memtotal_rest(all.skip(i as int)),
        decreases n - i,
    {
        assert(all.skip(i as int)[0] == all[i as int]);
        assert(all.skip(i as int).drop_first() =~= all.skip(i + 1));
        match after_prefix(ls[i], key.as_slice()) {
            Some(rest) => {
                let w = words_of(rest);
                if w.len() == 0 {
                    return None;
                }
                return parse_unsigned(w[0], false, u64::MAX);
            },
            None => {},
        }
        i = i + 1;
    }
    None
}

/// `MemTotal:` from `/proc/meminfo` in bytes.
pub open spec fn meminfo_total(content: Seq<char>) -> Option<u64> {
    match meminfo_kb(content) {
        Some(kb) => Some((kb * 1024) as u64),
        None => None,
    }
}

/// Parse `MemTotal:` (in kB) from `/proc/meminfo` contents into bytes.
pub fn parse_meminfo_total(content: &str) -> (r: Option<u64>)
    requires
        meminfo_kb(content@) matches Some(kb) ==> kb * 1024 <= u64::MAX,
    ensures
        r == meminfo_total(content@),
{
    match parse_meminfo_kb(content) {
        Some(kb) => Some(kb * 1024),
        None => None,
    }
}

/// Largest `mem_info_vram_total` still treated as an APU carveout rather than
/// real dedicated VRAM: 2 GiB. APU carveouts are typically 512 MiB to 2 GiB,
/// while no current discrete AMD card ships under 4 GiB.
pub const INTEGRATED_VRAM_MAX: u64 = 2 * 1024 * 1024 * 1024;

/// Total and used memory for a card reporting `vram_total`: the GTT pool folded
/// in when the VRAM is no larger than an APU carveout and a GTT total is
/// known. Sums saturate; `used` is a sum only when both pools report one.
pub open spec fn folded(
    vram_total: u64,
    vram_used: Option<u64>,
    gtt_total: Option<u64>,
    gtt_used: Option<u64>,
) -> (u64, Option<u64>) {
    match gtt_total {
        Some(g) => if vram_total <= INTEGRATED_VRAM_MAX {
            (
                vram_total.saturating_add(g),
                match (vram_used, gtt_used) {
                    (Some(v), Some(u)) => Some(v.saturating_add(u)),
                    _ => None,
                },
            )
        } else {
            (vram_total, vram_used)
        },
        None => (vram_total, vram_used),
    }
}

/// Total and used memory for a card reporting `vram_total`, folding in the GTT
/// pool when the VRAM looks like an APU carveout.
///
/// `used` is `None` unless both pools report it — summing only the half that
/// answered would understate usage and so overstate free memory.
pub fn fold_gtt(
    vram_total: u64,
    vram_used: Option<u64>,
    gtt_total: Option<u64>,
    gtt_used: Option<u64>,
) -> (r: (u64, Option<u64>))
    ensures
        r == folded(vram_total, vram_used, gtt_total, gtt_used),
        r.0 >= vram_total,
        r.1 is Some ==> vram_used is Some,
{
    match gtt_total {
        Some(gtt_total) => if vram_total <= INTEGRATED_VRAM_MAX {
            (
                vram_total.saturating_add(gtt_total),
                match (vram_used, gtt_used) {
                    (Some(v), Some(g)) => Some(v.saturating_add(g)),
                    _ => None,
                },
            )
        } else {
            (vram_total, vram_used)
        },
        None => (vram_total, vram_used),
    }
}

/// The minor number in a render node name: `renderD128` is `128`.
pub open spec fn render_minor_of(name: Seq<char>) -> Option<u32> {
    match strip_prefix(name, "renderD"@) {
        Some(rest) => match parse_uint(rest, false, u32::MAX as nat) {
            Some(v) => Some(v as u32),
            None => None,
        },
        None => None,
    }
}

/// The minor number of a render node name (`renderD128` → `128`), which is
/// how a DRM card lines up with its KFD compute node.
pub fn parse_render_node(name: &str) -> (r: Option<u32>)
    ensures
        r == render_minor_of(name@),
{
    let chars = chars_of(name);
    let prefix = chars_of("renderD");
    match after_prefix(chars.as_slice(), prefix.as_slice()) {
        Some(rest) => match parse_unsigned(rest, false, 0xFFFF_FFFF) {
            Some(v) => Some(v as u32),
            None => None,
        },
        None => None,
    }
}

/// The first render minor among the entry names of a card's `drm` directory.
pub fn render_minor(entries: &Vec<String>) -> (r: Option<u32>)
    ensures
        match r {
            Some(m) => exists|i: int|
                0 <= i < entries@.len() && render_minor_of(#[trigger] entries@[i]@) == Some(m)
                    && forall|j: int| 0 <= j < i ==> render_minor_of(#[trigger] entries@[j]@) is None,
            None => forall|i: int|
                0 <= i < entries@.len() ==> render_minor_of(#[trigger] entries@[i]@) is None,
        },
{
    let n = entries.len();
    let mut i: usize = 0;
    while i < n
        invariant
            i <= n == entries@.len(),
            forall|j: int| 0 <= j < i ==> render_minor_of(#[trigger] entries@[j]@) is None,
        decreases n - i,
    {
        match parse_render_node(entries[i].as_str()) {
            Some(m) => {
                assert(render_minor_of(entries@[i as int]@) == Some(m));
                return Some(m);
            },
            None => {},
        }
        i = i + 1;
    }
    None
}

/// Whether a card of `vendor` is matched against the KFD topology: only AMD
/// cards carry a `gfx` target and an ASIC codename there.
pub open spec fn uses_compute_node(vendor: Vendor) -> bool {
    vendor == Vendor::Amd
}

/// Whether a card of `vendor` is looked up in the KFD topology.
pub fn wants_compute_node(vendor: Vendor) -> (b: bool)
    ensures
        b == uses_compute_node(vendor),
{
    vendor == Vendor::Amd
}

/// Whether a card of `vendor` has its PCI device id read: only Intel's
/// architecture comes from it.
pub open spec fn uses_device_id(vendor: Vendor) -> bool {
    vendor == Vendor::Intel
}

/// Whether the scan reads a card's `device` id file.
pub fn wants_device_id(vendor: Vendor) -> (b: bool)
    ensures
        b == uses_device_id(vendor),
{
    vendor == Vendor::Intel
}

/// Whether a card needs the system-memory total: only one without a VRAM
/// pool reports it.
pub fn needs_system_memory(vram_total: Option<u64>) -> (b: bool)
    ensures
        b == (vram_total is None),
{
    vram_total.is_none()
}

/// Whether a card needs the rest of its memory attributes (VRAM used, GTT
/// total and used): only one reporting a VRAM pool reads them.
pub fn needs_pool_usage(vram_total: Option<u64>) -> (b: bool)
    ensures
        b == (vram_total is Some),
{
    vram_total.is_some()
}


/// The name a DRM card is reported under: `AMD cyan_skillfish` when KFD gave
/// the ASIC a name, `AMD GPU (card1)` otherwise.
pub open spec fn card_name(vendor: Vendor, card: Seq<char>, asic: Option<Seq<char>>) -> Seq<char> {
    match asic {
        Some(a) => vendor.text() + " "@ + a,
        None => vendor.text() + " GPU ("@ + card + ")"@,
    }
}

/// The architecture target of a DRM card: an AMD card's KFD `gfx` target, an
/// Intel card's family from its PCI device id, and nothing for others.
pub open spec fn card_arch(
    vendor: Vendor,
    node: Option<ComputeNodeView>,
    device: Option<Seq<char>>,
) -> Option<ArchTarget> {
    match vendor {
        Vendor::Amd => match node {
            Some(n) => Some(ArchTarget::Gfx(n.gfx_target)),
            None => None,
        },
        Vendor::Intel => match device {
            Some(d) => match device_id(d) {
                Some(id) => match arch_for(id) {
                    Some(a) => Some(ArchTarget::Xe(a)),
                    None => None,
                },
                None => None,
            },
            None => None,
        },
        _ => None,
    }
}

/// What the DRM scan reports for one card, given what it read: the card's
/// node name, its vendor, its KFD node (consulted for AMD only), the contents
/// of its `device` id file (consulted for Intel only), its memory attributes,
/// and the system memory total. `None` when the card reports no memory: its
/// pools total nothing, or it has no VRAM pool and no system-memory total is
/// known. A used figure beyond the total is not reported, and free memory is
/// the total less what is used.
pub open spec fn card_gpu_of(
    card: Seq<char>,
    vendor: Vendor,
    node: Option<ComputeNodeView>,
    device: Option<Seq<char>>,
    vram_total: Option<u64>,
    vram_used: Option<u64>,
    gtt_total: Option<u64>,
    gtt_used: Option<u64>,
    system_memory: Option<u64>,
) -> Option<GpuView> {
    let node = if uses_compute_node(vendor) {
        node
    } else {
        None
    };
    let asic = match node {
        Some(n) => n.name,
        None => None,
    };
    let name = card_name(vendor, card, asic);
    let arch = card_arch(vendor, node, device);
    match vram_total {
        Some(v) => {
            let (total, used) = folded(v, vram_used, gtt_total, gtt_used);
            let used = match used {
                Some(u) => if u <= total {
                    Some(u)
                } else {
                    None
                },
                None => None,
            };
            if total == 0 {
                None
            } else {
                Some(
                    GpuView {
                        name,
                        vendor,
                        total_bytes: total,
                        free_bytes: match used {
                            Some(u) => Some((total - u) as u64),
                            None => None,
                        },
                        used_bytes: used,
                        arch_target: arch,
                    },
                )
            }
        },
        None => match system_memory {
            Some(t) => if t == 0 {
                None
            } else {
                Some(
                GpuView {
                    name,
                    vendor,
                    total_bytes: t,
                    free_bytes: None,
                    used_bytes: None,
                    arch_target: arch,
                },
            )
            },
            None => None,
        },
    }
}

/// The [`GpuInfo`] for one DRM card, from what the scan read for it.
///
/// Dedicated VRAM (plus the GTT pool for an APU carveout) when the card reports
/// `mem_info_vram_total`, with free memory the total less what is used;
/// otherwise the shared system-memory ceiling with used/free unknown.
pub fn card_gpu(
    card: &str,
    vendor: Vendor,
    node: Option<&ComputeNode>,
    device: Option<&str>,
    vram_total: Option<u64>,
    vram_used: Option<u64>,
    gtt_total: Option<u64>,
    gtt_used: Option<u64>,
    system_memory: Option<u64>,
) -> (r: Option<GpuInfo>)
    ensures
        r matches Some(g) ==> card_gpu_of(
            card@,
            vendor,
            match node {
                Some(n) => Some(n@),
                None => None,
            },
            match device {
                Some(d) => Some(d@),
                None => None,
            },
            vram_total,
            vram_used,
            gtt_total,
            gtt_used,
            system_memory,
        ) == Some(g@),
        r is None ==> card_gpu_of(
            card@,
            vendor,
            match node {
                Some(n) => Some(n@),
                None => None,
            },
            match device {
                Some(d) => Some(d@),
                None => None,
            },
            vram_total,
            vram_used,
            gtt_total,
            gtt_used,
            system_memory,
        ) is None,
        r matches Some(g) ==> (g.free_bytes is Some <==> g.used_bytes is Some),
        r matches Some(g) ==> (g.used_bytes matches Some(u) ==> g.free_bytes == Some(
            (g.total_bytes - u) as u64,
        )),
        (node matches Some(n) ==> n.gfx_target.major > 0) ==> (r matches Some(g) ==> well_reported(
            g@,
        )),
{
    let node = if wants_compute_node(vendor) {
        node
    } else {
        None
    };
    let mut name = String::new();
    vendor.push_to(&mut name);
    let asic: Option<&String> = match node {
        Some(n) => match &n.name {
            Some(a) => Some(a),
            None => None,
        },
        None => None,
    };
    match asic {
        Some(a) => {
            push_str(&mut name, " ");
            push_str(&mut name, a.as_str());
        },
        None => {
            push_str(&mut name, " GPU (");
            push_str(&mut name, card);
            push_str(&mut name, ")");
        },
    }
    let ghost asic_view: Option<Seq<char>> = match node {
        Some(n) => n@.name,
        None => None,
    };
    assert(name@ =~= card_name(vendor, card@, asic_view));
    proof {
        lemma_vendor_text_nonempty(vendor);
    }
    let arch = match vendor {
        Vendor::Amd => match node {
            Some(n) => Some(ArchTarget::Gfx(n.gfx_target)),
            None => None,
        },
        Vendor::Intel => match device {
            Some(d) => match parse_device_id(d) {
                Some(id) => match arch_for_device_id(id) {
                    Some(a) => Some(ArchTarget::Xe(a)),
                    None => None,
                },
                None => None,
            },
            None => None,
        },
        _ => None,
    };
    match vram_total {
        Some(v) => {
            let (total, used) = fold_gtt(v, vram_used, gtt_total, gtt_used);
            let used = match used {
                Some(u) => if u <= total {
                    Some(u)
                } else {
                    None
                },
                None => None,
            };
            if total == 0 {
                return None;
            }
            let free = match used {
                Some(u) => Some(total - u),
                None => None,
            };
            Some(
                GpuInfo {
                    name,
                    vendor,
                    total_bytes: total,
                    free_bytes: free,
                    used_bytes: used,
                    arch_target: arch,
                },
            )
        },
        None => match system_memory {
            Some(t) => if t == 0 {
                None
            } else {
                Some(
                    GpuInfo {
                        name,
                        vendor,
                        total_bytes: t,
                        free_bytes: None,
                        used_bytes: None,
                        arch_target: arch,
                    },
                )
            },
            None => None,
        },
    }
}

/// What is reported for a card depends only on what the scan reads for it:
/// the KFD node of an AMD card, the device id of an Intel card, the pool
/// usage of a card with VRAM, and the system memory of one without. Whatever
/// else is passed in is ignored, so leaving it unread changes nothing.
pub proof fn card_depends_only_on_what_is_read(
    card: Seq<char>,
    vendor: Vendor,
    node: Option<ComputeNodeView>,
    device: Option<Seq<char>>,
    vram_total: Option<u64>,
    vram_used: Option<u64>,
    gtt_total: Option<u64>,
    gtt_used: Option<u64>,
    system_memory: Option<u64>,
)
    ensures
        card_gpu_of(
            card,
            vendor,
            node,
            device,
            vram_total,
            vram_used,
            gtt_total,
            gtt_used,
            system_memory,
        ) == card_gpu_of(
            card,
            vendor,
            if uses_compute_node(vendor) {
                node
            } else {
                None
            },
            if uses_device_id(vendor) {
                device
            } else {
                None
            },
            vram_total,
            if vram_total is Some {
                vram_used
            } else {
                None
            },
            if vram_total is Some {
                gtt_total
            } else {
                None
            },
            if vram_total is Some {
                gtt_used
            } else {
                None
            },
            if vram_total is None {
                system_memory
            } else {
                None
            },
        ),
{
}

/// An APU carveout is at most 2 GiB: a card with at most 2 GiB of VRAM and a
/// GTT pool reports both pools together (summed, saturating at `u64::MAX`),
/// with used memory summed only when both pools report it; a card with more
/// VRAM, or without a GTT pool, reports its VRAM alone.
pub proof fn carveouts_fold_in_the_gtt_pool(
    vram_total: u64,
    vram_used: Option<u64>,
    gtt_total: Option<u64>,
    gtt_used: Option<u64>,
)
    ensures
        (vram_total <= 2_147_483_648 && gtt_total is Some) ==> folded(
            vram_total,
            vram_used,
            gtt_total,
            gtt_used,
        ).0 == (if vram_total + gtt_total->0 <= u64::MAX {
            (vram_total + gtt_total->0) as u64
        } else {
            u64::MAX
        }),
        (vram_total <= 2_147_483_648 && gtt_total is Some) ==> folded(
            vram_total,
            vram_used,
            gtt_total,
            gtt_used,
        ).1 == (if vram_used is Some && gtt_used is Some {
            let s = vram_used->0 + gtt_used->0;
            Some(
                if s <= u64::MAX {
                    s as u64
                } else {
                    u64::MAX
                },
            )
        } else {
            None
        }),
        (vram_total > 2_147_483_648 || gtt_total is None) ==> folded(
            vram_total,
            vram_used,
            gtt_total,
            gtt_used,
        ) == (vram_total, vram_used),
{
}

/// The DRM scan owns AMD (PCI vendor `0x1002`) and Intel (`0x8086`) cards,
/// whatever the case of the id and whitespace around it; every other id —
/// NVIDIA's `0x10de` among them — is left to another probe.
pub proof fn drm_owns_amd_and_intel(id: Seq<char>)
    ensures
        (vendor_of_id(id) == Some(Vendor::Amd)) <==> lowercase(trim(id)) == seq!['0', 'x', '1', '0', '0', '2'],
        (vendor_of_id(id) == Some(Vendor::Intel)) <==> lowercase(trim(id)) == seq!['0', 'x', '8', '0', '8', '6'],
        (vendor_of_id(id) is None) <==> (lowercase(trim(id)) != seq!['0', 'x', '1', '0', '0', '2']
            && lowercase(trim(id)) != seq!['0', 'x', '8', '0', '8', '6']),
{
    reveal_strlit("0x1002");
    reveal_strlit("0x8086");
    assert("0x1002"@ =~= seq!['0', 'x', '1', '0', '0', '2']);
    assert("0x8086"@ =~= seq!['0', 'x', '8', '0', '8', '6']);
}

} // verus!
