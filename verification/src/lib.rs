//! Cross-platform GPU memory (VRAM) detection: the parsing and decision logic.
//!
//! The probes read what the OS and drivers already publish — DRM and KFD
//! sysfs, `system_profiler`, `vm_stat`, NVML, ICD manifests, install layouts —
//! and this crate turns what they read into [`GpuInfo`] values and host
//! toolchain versions. Every parser and rule here is stated over character
//! sequences and proved against that statement.
use vstd::prelude::*;

pub mod drm;
pub mod intel;
pub mod kfd;
pub mod metal;
pub mod nvidia;
pub mod oneapi;
pub mod order;
pub mod rocm;
pub mod text;
pub mod vulkan;

use crate::text::{
    before_char, dec, digit_char, hex, is_ws, lemma_before_at, lemma_before_past, lemma_dec_digits,
    lemma_split_first, lemma_split_tail, lemma_trim_end_concat, lemma_trim_end_prefix,
    lemma_trim_end_split, lemma_trim_start_concat, lemma_trim_start_suffix, lemma_trim_ws_tail,
    trim_end, trim_start, lemma_parse_dec, lemma_split_after,
    lemma_split_without, lemma_trim_unchanged, parse_uint, push_dec, push_hex,
    push_str, split_char, trim,
};

verus! {

broadcast use vstd::string::group_string_axioms;

/// GPU hardware vendor.
#[derive(Debug, Clone, Copy, PartialEq, Eq, Structural)]
#[non_exhaustive]
pub enum Vendor {
    Nvidia,
    Amd,
    Intel,
    Apple,
    Unknown,
}

impl Vendor {
    /// The vendor's display name.
    pub open spec fn text(self) -> Seq<char> {
        match self {
            Vendor::Nvidia => "NVIDIA"@,
            Vendor::Amd => "AMD"@,
            Vendor::Intel => "Intel"@,
            Vendor::Apple => "Apple"@,
            Vendor::Unknown => "Unknown"@,
        }
    }

    /// Renders as `NVIDIA`, `AMD`, `Intel`, `Apple` or `Unknown`.
    pub fn to_string(&self) -> (s: String)
        ensures
            s@ == self.text(),
    {
        let mut out = String::new();
        self.push_to(&mut out);
        out
    }

    /// Append the vendor's display name.
    pub fn push_to(&self, out: &mut String)
        ensures
            final(out)@ == old(out)@ + self.text(),
    {
        match self {
            Vendor::Nvidia => push_str(out, "NVIDIA"),
            Vendor::Amd => push_str(out, "AMD"),
            Vendor::Intel => push_str(out, "Intel"),
            Vendor::Apple => push_str(out, "Apple"),
            Vendor::Unknown => push_str(out, "Unknown"),
        }
    }
}

/// A single detected GPU and its memory.
#[derive(Debug, Clone, PartialEq, Eq)]
pub struct GpuInfo {
    /// Human-readable name (e.g. `"NVIDIA GeForce RTX 4090"`).
    pub name: String,
    /// Hardware vendor.
    pub vendor: Vendor,
    /// Total memory in bytes. For discrete GPUs this is dedicated VRAM; for
    /// integrated/unified GPUs (Intel iGPUs, AMD APUs, Apple Silicon) it is the
    /// shared system-memory ceiling available to the GPU, not a dedicated pool.
    ///
    /// An AMD APU reports its BIOS VRAM carveout plus the GTT pool the driver
    /// allocates from, since the carveout alone is far below what the part can
    /// actually hand out.
    pub total_bytes: u64,
    /// Free device memory in bytes, when known.
    pub free_bytes: Option<u64>,
    /// Used device memory in bytes, when known.
    pub used_bytes: Option<u64>,
    /// The architecture a prebuilt artifact must target to run on this GPU.
    pub arch_target: Option<ArchTarget>,
}

/// What a [`GpuInfo`] holds, with its name as characters.
pub struct GpuView {
    pub name: Seq<char>,
    pub vendor: Vendor,
    pub total_bytes: u64,
    pub free_bytes: Option<u64>,
    pub used_bytes: Option<u64>,
    pub arch_target: Option<ArchTarget>,
}

impl View for GpuInfo {
    type V = GpuView;

    open spec fn view(&self) -> GpuView {
        GpuView {
            name: self.name@,
            vendor: self.vendor,
            total_bytes: self.total_bytes,
            free_bytes: self.free_bytes,
            used_bytes: self.used_bytes,
            arch_target: self.arch_target,
        }
    }
}

/// Every vendor has a non-empty display name.
pub proof fn lemma_vendor_text_nonempty(v: Vendor)
    ensures
        v.text().len() > 0,
{
    reveal_strlit("NVIDIA");
    reveal_strlit("AMD");
    reveal_strlit("Intel");
    reveal_strlit("Apple");
    reveal_strlit("Unknown");
}

/// The hexadecimal digits, lower case.
pub open spec fn hex_digits() -> Seq<char> {
    seq!['0', '1', '2', '3', '4', '5', '6', '7', '8', '9', 'a', 'b', 'c', 'd', 'e', 'f']
}

/// How architecture targets and two-part versions spell out their parts: a
/// `gfx` target is `gfx`, its major in decimal, then its minor and stepping
/// as one hexadecimal digit each (stepping 10 is the `a` of `gfx90a`); a
/// compute capability is `major.minor` as a version and `sm_` then both
/// parts as a target; an Apple family is `apple` and its generation; a CUDA
/// version is `major.minor`.
pub proof fn renderings_spell_out_their_parts(
    t: GfxTarget,
    c: ComputeCapability,
    f: AppleFamily,
    v: CudaVersion,
)
    ensures
        t.minor < 16 && t.step < 16 ==> t.text() == seq!['g', 'f', 'x'] + dec(t.major as nat) + seq![
            hex_digits()[t.minor as int],
            hex_digits()[t.step as int],
        ],
        ArchTarget::Gfx(t).text() == t.text(),
        c.text() == dec(c.major as nat) + seq!['.'] + dec(c.minor as nat),
        ArchTarget::Sm(c).text() == seq!['s', 'm', '_'] + dec(c.major as nat) + dec(c.minor as nat),
        f.text() == seq!['a', 'p', 'p', 'l', 'e'] + dec(f.generation as nat),
        ArchTarget::Apple(f).text() == f.text(),
        v.text() == dec(v.major as nat) + seq!['.'] + dec(v.minor as nat),
{
    reveal_strlit("gfx");
    reveal_strlit(".");
    reveal_strlit("sm_");
    reveal_strlit("apple");
    assert("gfx"@ =~= seq!['g', 'f', 'x']);
    assert("."@ =~= seq!['.']);
    assert("sm_"@ =~= seq!['s', 'm', '_']);
    assert("apple"@ =~= seq!['a', 'p', 'p', 'l', 'e']);
    if t.minor < 16 && t.step < 16 {
        let m = t.minor as nat;
        let st = t.step as nat;
        assert(((48 + m) as char) as u32 == 48 + m);
        assert(((87 + m) as char) as u32 == 87 + m);
        assert(((48 + st) as char) as u32 == 48 + st);
        assert(((87 + st) as char) as u32 == 87 + st);
        assert(hex(m) == seq![digit_char(m)]);
        assert(hex(st) == seq![digit_char(st)]);
        assert(digit_char(m) == hex_digits()[m as int]);
        assert(digit_char(st) == hex_digits()[st as int]);
        assert(t.text() =~= seq!['g', 'f', 'x'] + dec(t.major as nat) + seq![
            hex_digits()[t.minor as int],
            hex_digits()[t.step as int],
        ]);
    }
}

/// Each vendor renders as its own name — `NVIDIA`, `AMD`, `Intel`, `Apple`,
/// `Unknown` — so two different vendors never render alike.
pub proof fn vendors_render_by_name(a: Vendor, b: Vendor)
    ensures
        Vendor::Nvidia.text() == seq!['N', 'V', 'I', 'D', 'I', 'A'],
        Vendor::Amd.text() == seq!['A', 'M', 'D'],
        Vendor::Intel.text() == seq!['I', 'n', 't', 'e', 'l'],
        Vendor::Apple.text() == seq!['A', 'p', 'p', 'l', 'e'],
        Vendor::Unknown.text() == seq!['U', 'n', 'k', 'n', 'o', 'w', 'n'],
        a != b ==> a.text() != b.text(),
{
    reveal_strlit("NVIDIA");
    reveal_strlit("AMD");
    reveal_strlit("Intel");
    reveal_strlit("Apple");
    reveal_strlit("Unknown");
    assert(Vendor::Nvidia.text() =~= seq!['N', 'V', 'I', 'D', 'I', 'A']);
    assert(Vendor::Amd.text() =~= seq!['A', 'M', 'D']);
    assert(Vendor::Intel.text() =~= seq!['I', 'n', 't', 'e', 'l']);
    assert(Vendor::Apple.text() =~= seq!['A', 'p', 'p', 'l', 'e']);
    assert(Vendor::Unknown.text() =~= seq!['U', 'n', 'k', 'n', 'o', 'w', 'n']);
    if a != b && a.text().len() == b.text().len() {
        assert(a.text()[0] != b.text()[0]);
    }
}

/// What every GPU a probe reports satisfies: it has a name and some memory,
/// free and used memory stay within the total, an AMD `gfx` target is only
/// on an AMD GPU and has a major above `0`, and a CUDA compute capability is
/// only on an NVIDIA GPU.
pub open spec fn well_reported(g: GpuView) -> bool {
    &&& g.name.len() > 0
    &&& g.total_bytes > 0
    &&& g.free_bytes matches Some(f) ==> f <= g.total_bytes
    &&& g.used_bytes matches Some(u) ==> u <= g.total_bytes
    &&& g.arch_target matches Some(ArchTarget::Gfx(t)) ==> g.vendor == Vendor::Amd && t.major > 0
    &&& g.arch_target matches Some(ArchTarget::Sm(_)) ==> g.vendor == Vendor::Nvidia
}

/// 2^30, the bytes in a GiB.
pub open spec fn gib_unit() -> nat {
    0x4000_0000
}

/// The granularity at which converting `b` to `f64` keeps it: 1 below 2^53,
/// doubling with each further bit of magnitude.
pub open spec fn float_unit(b: nat) -> nat
    decreases b,
{
    if b < 0x20_0000_0000_0000 {
        1
    } else {
        2 * float_unit(b / 2)
    }
}

/// `q`, or `q + 1` when the remainder `r` of a division by `d` is past half
/// way, or exactly half way with `q` odd: rounding to nearest, ties to even.
pub open spec fn round_half_even(q: nat, r: nat, d: nat) -> nat {
    if 2 * r > d || (2 * r == d && q % 2 == 1) {
        q + 1
    } else {
        q
    }
}

/// `b` as `b as f64` holds it: rounded to 53 significant bits, ties to even.
pub open spec fn as_float(b: nat) -> nat {
    let u = float_unit(b);
    round_half_even(b / u, b % u, u) * u
}

/// `b / 2^30` rounded to tenths the way `{:.1}` rounds an `f64`: to nearest,
/// ties to even, on the exact value the float holds.
pub open spec fn gib_tenths(b: nat) -> nat {
    let x = as_float(b) * 10;
    round_half_even(x / gib_unit(), x % gib_unit(), gib_unit())
}

/// `b` bytes as `{:.1}` renders the float `b as f64 / 2^30`, e.g. `24.0`.
pub open spec fn gib_text(b: nat) -> Seq<char> {
    let t = gib_tenths(b);
    dec(t / 10) + "."@ + dec(t % 10)
}

proof fn lemma_float_unit(b: nat)
    ensures
        float_unit(b) >= 1,
        b < 0x20_0000_0000_0000 ==> float_unit(b) == 1,
        b >= 0x20_0000_0000_0000 ==> float_unit(b) == 2 * float_unit(b / 2),
        b >= 0x20_0000_0000_0000 ==> float_unit(b) * 0x10_0000_0000_0000 <= b,
    decreases b,
{
    if b >= 0x20_0000_0000_0000 {
        lemma_float_unit(b / 2);
        if b / 2 >= 0x20_0000_0000_0000 {
            assert(float_unit(b) * 0x10_0000_0000_0000 <= b) by (nonlinear_arith)
                requires
                    float_unit(b) == 2 * float_unit(b / 2),
                    float_unit(b / 2) * 0x10_0000_0000_0000 <= b / 2,
            ;
        }
    }
}

/// The tenths of a GiB `{:.1}` shows for `b` bytes.
fn tenths_of_gib(b: u64) -> (t: u64)
    ensures
        t == gib_tenths(b as nat),
{
    let mut x: u64 = b;
    let mut unit: u64 = 1;
    while x >= 0x20_0000_0000_0000
        invariant
            1 <= unit,
            float_unit(b as nat) == unit * float_unit(x as nat),
            unit * x <= b,
        decreases x,
    {
        proof {
            lemma_float_unit(x as nat);
        }
        let ghost old_x = x;
        let ghost old_unit = unit;
        assert(unit < 0x800) by (nonlinear_arith)
            requires
                unit * x <= b,
                x >= 0x20_0000_0000_0000,
                b < 0x1_0000_0000_0000_0000,
                unit >= 1,
        ;
        x = x / 2;
        unit = unit * 2;
        assert(unit * x <= b) by (nonlinear_arith)
            requires
                old_unit * old_x <= b,
                x == old_x / 2,
                unit == old_unit * 2,
        ;
        assert(float_unit(b as nat) == unit * float_unit(x as nat)) by (nonlinear_arith)
            requires
                float_unit(b as nat) == old_unit * float_unit(old_x as nat),
                float_unit(old_x as nat) == 2 * float_unit(x as nat),
                unit == old_unit * 2,
        ;
    }
    proof {
        lemma_float_unit(x as nat);
        lemma_float_unit(b as nat);
    }
    assert(float_unit(b as nat) == unit);
    assert(unit <= 0x1000) by (nonlinear_arith)
        requires
            (b as nat) >= 0x20_0000_0000_0000 ==> (unit as nat) * 0x10_0000_0000_0000 <= b as nat,
            (b as nat) < 0x20_0000_0000_0000 ==> unit == 1,
            b < 0x1_0000_0000_0000_0000,
    ;
    let q: u64 = b / unit;
    let r: u64 = b % unit;
    let rounded_q: u128 = if 2 * (r as u128) > unit as u128 || (2 * (r as u128) == unit as u128 && q
        % 2 == 1) {
        (q as u128) + 1
    } else {
        q as u128
    };
    assert(rounded_q as nat == round_half_even(q as nat, r as nat, unit as nat));
    assert((rounded_q as nat) * (unit as nat) <= (b as nat) + (unit as nat)) by (nonlinear_arith)
        requires
            q as nat == (b as nat) / (unit as nat),
            rounded_q <= q + 1,
            unit >= 1,
    {
        assert((q as nat) * (unit as nat) <= b as nat);
    }
    let f: u128 = rounded_q * (unit as u128);
    assert(f as nat == as_float(b as nat));
    let x10: u128 = f * 10;
    let q2: u128 = x10 / 0x4000_0000;
    let r2: u128 = x10 % 0x4000_0000;
    let t: u128 = if 2 * r2 > 0x4000_0000 || (2 * r2 == 0x4000_0000 && q2 % 2 == 1) {
        q2 + 1
    } else {
        q2
    };
    assert(t < 0x1_0000_0000_0000_0000);
    t as u64
}

/// Append `b` bytes in GiB, to one decimal place.
fn push_gib(out: &mut String, b: u64)
    ensures
        final(out)@ == old(out)@ + gib_text(b as nat),
{
    let t = tenths_of_gib(b);
    push_dec(out, t / 10);
    push_str(out, ".");
    push_dec(out, t % 10);
    assert(final(out)@ =~= old(out)@ + gib_text(b as nat));
}

impl GpuInfo {
    /// The `Display` text: `NAME (VENDOR[, ARCH]): X GiB total[, Y GiB free]`.
    pub open spec fn text(self) -> Seq<char> {
        self.name@ + " ("@ + self.vendor.text() + match self.arch_target {
            Some(arch) => ", "@ + arch.text(),
            None => Seq::<char>::empty(),
        } + "): "@ + gib_text(self.total_bytes as nat) + " GiB total"@ + match self.free_bytes {
            Some(free) => ", "@ + gib_text(free as nat) + " GiB free"@,
            None => Seq::<char>::empty(),
        }
    }

    /// Renders as `NVIDIA GeForce RTX 3090 (NVIDIA, sm_86): 24.0 GiB total,
    /// 9.8 GiB free`: memory in GiB to one decimal place, the free part only
    /// when known.
    pub fn to_string(&self) -> (s: String)
        ensures
            s@ == self.text(),
    {
        let mut out = String::new();
        push_str(&mut out, self.name.as_str());
        push_str(&mut out, " (");
        self.vendor.push_to(&mut out);
        let ghost head = out@;
        match self.arch_target {
            Some(arch) => {
                push_str(&mut out, ", ");
                arch.push_to(&mut out);
            },
            None => {},
        }
        push_str(&mut out, "): ");
        push_gib(&mut out, self.total_bytes);
        push_str(&mut out, " GiB total");
        let ghost body = out@;
        match self.free_bytes {
            Some(free) => {
                push_str(&mut out, ", ");
                push_gib(&mut out, free);
                push_str(&mut out, " GiB free");
            },
            None => {},
        }
        assert(out@ =~= self.text());
        out
    }
}

/// CUDA compute capability, e.g. `8.6` for `sm_86`. Ordered `major` first.
#[derive(Debug, Clone, Copy, PartialEq, Eq, Structural, Ord, Hash)]
pub struct ComputeCapability {
    /// Major version — the `8` in `8.6`.
    pub major: u32,
    /// Minor version — the `6` in `8.6`.
    pub minor: u32,
}

impl ComputeCapability {
    /// Create a compute capability from its major and minor parts.
    pub fn new(major: u32, minor: u32) -> (c: Self)
        ensures
            c.major == major,
            c.minor == minor,
    {
        ComputeCapability { major, minor }
    }

    /// Renders as `8.6`, matching `nvidia-smi`'s `compute_cap`.
    pub open spec fn text(self) -> Seq<char> {
        dec(self.major as nat) + "."@ + dec(self.minor as nat)
    }

    /// Renders as `8.6`.
    pub fn to_string(&self) -> (s: String)
        ensures
            s@ == self.text(),
    {
        let mut out = String::new();
        push_dec(&mut out, self.major as u64);
        push_str(&mut out, ".");
        push_dec(&mut out, self.minor as u64);
        assert(out@ =~= self.text());
        out
    }
}

/// AMD GPU architecture target, e.g. `gfx1013`. Ordered `major` first.
#[derive(Debug, Clone, Copy, PartialEq, Eq, Structural, Ord, Hash)]
pub struct GfxTarget {
    /// Major version — the `10` in `gfx1013`.
    pub major: u32,
    /// Minor version — the `1` in `gfx1013`.
    pub minor: u32,
    /// Stepping — the `3` in `gfx1013`, and the `a` in `gfx90a`.
    pub step: u32,
}

impl GfxTarget {
    /// Create a target from its major, minor, and stepping parts.
    pub fn new(major: u32, minor: u32, step: u32) -> (t: Self)
        ensures
            t.major == major,
            t.minor == minor,
            t.step == step,
    {
        GfxTarget { major, minor, step }
    }

    /// Renders as `gfx1013`: major in decimal, minor and stepping in hex.
    pub open spec fn text(self) -> Seq<char> {
        "gfx"@ + dec(self.major as nat) + hex(self.minor as nat) + hex(self.step as nat)
    }

    /// Append the `--offload-arch` form.
    pub fn push_to(&self, out: &mut String)
        ensures
            final(out)@ == old(out)@ + self.text(),
    {
        push_str(out, "gfx");
        push_dec(out, self.major as u64);
        push_hex(out, self.minor as u64);
        push_hex(out, self.step as u64);
        assert(final(out)@ =~= old(out)@ + self.text());
    }

    /// Renders as `gfx1013`, matching `--offload-arch`; `9.0.10` is `gfx90a`.
    pub fn to_string(&self) -> (s: String)
        ensures
            s@ == self.text(),
    {
        let mut out = String::new();
        self.push_to(&mut out);
        assert(out@ =~= self.text());
        out
    }
}

/// Intel GPU architecture family, from the PCI device id. Not ordered.
#[derive(Debug, Clone, Copy, PartialEq, Eq, Structural, Hash)]
#[non_exhaustive]
pub enum IntelArch {
    /// Xe-LP — Tiger Lake, Rocket Lake, Alder Lake, Raptor Lake, DG1.
    XeLp,
    /// Xe-HPG — DG2, sold as Arc A-series (Alchemist).
    XeHpg,
    /// Xe-HPC — Ponte Vecchio, sold as Data Center GPU Max.
    XeHpc,
    /// Xe-LPG — Meteor Lake and Arrow Lake integrated graphics.
    XeLpg,
    /// Xe2 — Lunar Lake integrated graphics, and Arc B-series (Battlemage).
    Xe2,
}

impl IntelArch {
    /// The lower-case family name.
    pub open spec fn text(self) -> Seq<char> {
        match self {
            IntelArch::XeLp => "xe-lp"@,
            IntelArch::XeHpg => "xe-hpg"@,
            IntelArch::XeHpc => "xe-hpc"@,
            IntelArch::XeLpg => "xe-lpg"@,
            IntelArch::Xe2 => "xe2"@,
        }
    }

    /// Append the lower-case family name.
    pub fn push_to(&self, out: &mut String)
        ensures
            final(out)@ == old(out)@ + self.text(),
    {
        match self {
            IntelArch::XeLp => push_str(out, "xe-lp"),
            IntelArch::XeHpg => push_str(out, "xe-hpg"),
            IntelArch::XeHpc => push_str(out, "xe-hpc"),
            IntelArch::XeLpg => push_str(out, "xe-lpg"),
            IntelArch::Xe2 => push_str(out, "xe2"),
        }
    }

    /// Renders as the lower-case family name — `xe-hpg`, `xe2`.
    pub fn to_string(&self) -> (s: String)
        ensures
            s@ == self.text(),
    {
        let mut out = String::new();
        self.push_to(&mut out);
        assert(out@ =~= self.text());
        out
    }
}

/// Each Intel family renders as the name Intel's toolchains give it — Xe-LP
/// as `xe-lp`, Xe-HPG as `xe-hpg`, Xe-HPC as `xe-hpc`, Xe-LPG as `xe-lpg`,
/// Xe2 as `xe2` — so two different families never render alike, and an Xe
/// target renders as its family.
pub proof fn intel_families_render_by_name(a: IntelArch, b: IntelArch)
    ensures
        IntelArch::XeLp.text() == seq!['x', 'e', '-', 'l', 'p'],
        IntelArch::XeHpg.text() == seq!['x', 'e', '-', 'h', 'p', 'g'],
        IntelArch::XeHpc.text() == seq!['x', 'e', '-', 'h', 'p', 'c'],
        IntelArch::XeLpg.text() == seq!['x', 'e', '-', 'l', 'p', 'g'],
        IntelArch::Xe2.text() == seq!['x', 'e', '2'],
        a != b ==> a.text() != b.text(),
        ArchTarget::Xe(a).text() == a.text(),
{
    reveal_strlit("xe-lp");
    reveal_strlit("xe-hpg");
    reveal_strlit("xe-hpc");
    reveal_strlit("xe-lpg");
    reveal_strlit("xe2");
    assert(IntelArch::XeLp.text() =~= seq!['x', 'e', '-', 'l', 'p']);
    assert(IntelArch::XeHpg.text() =~= seq!['x', 'e', '-', 'h', 'p', 'g']);
    assert(IntelArch::XeHpc.text() =~= seq!['x', 'e', '-', 'h', 'p', 'c']);
    assert(IntelArch::XeLpg.text() =~= seq!['x', 'e', '-', 'l', 'p', 'g']);
    assert(IntelArch::Xe2.text() =~= seq!['x', 'e', '2']);
    if a != b {
        let (x, y) = (a.text(), b.text());
        if x.len() == y.len() {
            assert(x.len() >= 3);
            if x.len() == 6 {
                assert(x[3] != y[3] || x[5] != y[5]);
            } else if x.len() == 5 {
                assert(false);
            } else {
                assert(false);
            }
        }
    }
}

/// Apple GPU family, e.g. `apple8` for an M2. Ordered by generation.
#[derive(Debug, Clone, Copy, PartialEq, Eq, Structural, Ord, Hash)]
pub struct AppleFamily {
    /// Family generation — the `8` in `apple8`.
    pub generation: u32,
}

impl AppleFamily {
    /// Create a family from its generation number.
    pub fn new(generation: u32) -> (f: Self)
        ensures
            f.generation == generation,
    {
        AppleFamily { generation }
    }

    /// Renders as `apple8`, matching the `MTLGPUFamily` name.
    pub open spec fn text(self) -> Seq<char> {
        "apple"@ + dec(self.generation as nat)
    }

    /// Append the `MTLGPUFamily` name.
    pub fn push_to(&self, out: &mut String)
        ensures
            final(out)@ == old(out)@ + self.text(),
    {
        push_str(out, "apple");
        push_dec(out, self.generation as u64);
        assert(final(out)@ =~= old(out)@ + self.text());
    }

    /// Renders as `apple8`.
    pub fn to_string(&self) -> (s: String)
        ensures
            s@ == self.text(),
    {
        let mut out = String::new();
        self.push_to(&mut out);
        assert(out@ =~= self.text());
        out
    }
}

/// The architecture a prebuilt GPU artifact must target; a GPU has at most
/// one, in its vendor's form. Deliberately not ordered.
#[derive(Debug, Clone, Copy, PartialEq, Eq, Structural, Hash)]
#[non_exhaustive]
pub enum ArchTarget {
    /// AMD: the `--offload-arch` value a `ROCm`/HIP code object is built for.
    Gfx(GfxTarget),
    /// NVIDIA: the compute capability a CUDA artifact is built for.
    Sm(ComputeCapability),
    /// Intel: the GPU architecture family, from the PCI device id.
    Xe(IntelArch),
    /// Apple: the Metal GPU family, a capability tier.
    Apple(AppleFamily),
}

impl ArchTarget {
    /// The AMD target, or `None` when this names another vendor's.
    pub fn gfx(self) -> (r: Option<GfxTarget>)
        ensures
            r == (match self {
                ArchTarget::Gfx(t) => Some(t),
                _ => None,
            }),
    {
        match self {
            ArchTarget::Gfx(target) => Some(target),
            _ => None,
        }
    }

    /// The NVIDIA compute capability, or `None` when this names another
    /// vendor's.
    pub fn sm(self) -> (r: Option<ComputeCapability>)
        ensures
            r == (match self {
                ArchTarget::Sm(c) => Some(c),
                _ => None,
            }),
    {
        match self {
            ArchTarget::Sm(capability) => Some(capability),
            _ => None,
        }
    }

    /// The Intel architecture family, or `None` when this names another
    /// vendor's.
    pub fn xe(self) -> (r: Option<IntelArch>)
        ensures
            r == (match self {
                ArchTarget::Xe(a) => Some(a),
                _ => None,
            }),
    {
        match self {
            ArchTarget::Xe(arch) => Some(arch),
            _ => None,
        }
    }

    /// The Apple GPU family, or `None` when this names another vendor's.
    pub fn apple(self) -> (r: Option<AppleFamily>)
        ensures
            r == (match self {
                ArchTarget::Apple(f) => Some(f),
                _ => None,
            }),
    {
        match self {
            ArchTarget::Apple(family) => Some(family),
            _ => None,
        }
    }

    /// Renders in each vendor's toolchain form: `gfx1013`, `sm_89`, `xe-hpg`,
    /// `apple8`.
    pub open spec fn text(self) -> Seq<char> {
        match self {
            ArchTarget::Gfx(t) => t.text(),
            ArchTarget::Sm(c) => "sm_"@ + dec(c.major as nat) + dec(c.minor as nat),
            ArchTarget::Xe(a) => a.text(),
            ArchTarget::Apple(f) => f.text(),
        }
    }

    /// Append the toolchain form.
    pub fn push_to(&self, out: &mut String)
        ensures
            final(out)@ == old(out)@ + self.text(),
    {
        match self {
            ArchTarget::Gfx(t) => t.push_to(out),
            ArchTarget::Sm(c) => {
                push_str(out, "sm_");
                push_dec(out, c.major as u64);
                push_dec(out, c.minor as u64);
                assert(final(out)@ =~= old(out)@ + self.text());
            },
            ArchTarget::Xe(a) => a.push_to(out),
            ArchTarget::Apple(f) => f.push_to(out),
        }
    }

    /// Renders in each vendor's toolchain form.
    pub fn to_string(&self) -> (s: String)
        ensures
            s@ == self.text(),
    {
        let mut out = String::new();
        self.push_to(&mut out);
        assert(out@ =~= self.text());
        out
    }
}

/// Each architecture target answers exactly one of the four vendor accessors:
/// the one for its own vendor, with the value it carries.
pub proof fn arch_target_accessors_are_exclusive(t: ArchTarget)
    ensures
        (t is Gfx) == (match t {
            ArchTarget::Gfx(_) => true,
            _ => false,
        }),
        (match t {
            ArchTarget::Gfx(_) => 1int,
            _ => 0,
        }) + (match t {
            ArchTarget::Sm(_) => 1int,
            _ => 0,
        }) + (match t {
            ArchTarget::Xe(_) => 1int,
            _ => 0,
        }) + (match t {
            ArchTarget::Apple(_) => 1int,
            _ => 0,
        }) == 1,
{
}

/// A CUDA version, e.g. `12.9`. Ordered `major` first.
#[derive(Debug, Clone, Copy, PartialEq, Eq, Structural, Ord, Hash)]
pub struct CudaVersion {
    /// Major version — the `12` in `12.9`.
    pub major: u32,
    /// Minor version — the `9` in `12.9`.
    pub minor: u32,
}

impl CudaVersion {
    /// Create a CUDA version from its major and minor parts.
    pub fn new(major: u32, minor: u32) -> (v: Self)
        ensures
            v.major == major,
            v.minor == minor,
    {
        CudaVersion { major, minor }
    }

    /// Renders as `12.9`.
    pub open spec fn text(self) -> Seq<char> {
        dec(self.major as nat) + "."@ + dec(self.minor as nat)
    }

    /// Renders as `12.9`.
    pub fn to_string(&self) -> (s: String)
        ensures
            s@ == self.text(),
    {
        let mut out = String::new();
        push_dec(&mut out, self.major as u64);
        push_str(&mut out, ".");
        push_dec(&mut out, self.minor as u64);
        assert(out@ =~= self.text());
        out
    }
}

/// Host-wide CUDA properties reported by the NVIDIA driver.
#[derive(Debug, Clone, Copy, PartialEq, Eq, Structural)]
pub struct CudaHost {
    /// Compute capability of device 0.
    pub compute_capability: ComputeCapability,
    /// Version of the installed CUDA driver.
    pub driver_version: CudaVersion,
}

/// `major.minor.patch` in decimal.
pub open spec fn triple_text(major: u32, minor: u32, patch: u32) -> Seq<char> {
    dec(major as nat) + "."@ + dec(minor as nat) + "."@ + dec(patch as nat)
}

fn triple_string(major: u32, minor: u32, patch: u32) -> (s: String)
    ensures
        s@ == triple_text(major, minor, patch),
{
    let mut out = String::new();
    push_dec(&mut out, major as u64);
    push_str(&mut out, ".");
    push_dec(&mut out, minor as u64);
    push_str(&mut out, ".");
    push_dec(&mut out, patch as u64);
    assert(out@ =~= triple_text(major, minor, patch));
    out
}

/// Rendering a three-part version and parsing the text back gives the same
/// parts: what a `RocmVersion`, `OneApiVersion` or `VulkanVersion` renders as
/// reads back, through [`parse_dotted_version`], as that version.
pub proof fn rendered_versions_parse_back(major: u32, minor: u32, patch: u32)
    ensures
        dotted_version(triple_text(major, minor, patch)) == Some((major, minor, patch)),
{
    let a = dec(major as nat);
    let b = dec(minor as nat);
    let c = dec(patch as nat);
    lemma_parse_dec(major as nat, u32::MAX as nat);
    lemma_parse_dec(minor as nat, u32::MAX as nat);
    lemma_parse_dec(patch as nat, u32::MAX as nat);
    lemma_dec_digits(major as nat);
    lemma_dec_digits(minor as nat);
    lemma_dec_digits(patch as nat);
    reveal_strlit(".");
    let dot = seq!['.'];
    let t = triple_text(major, minor, patch);
    assert(t =~= a + dot + (b + dot + c));
    assert forall|i: int| 0 <= i < t.len() implies #[trigger] t[i] == '.' || 48 <= t[i] as u32
        <= 57 by {
        if i < a.len() {
            assert(t[i] == a[i]);
        } else if i == a.len() {
        } else if i < a.len() + 1 + b.len() {
            assert(t[i] == b[i - a.len() - 1]);
        } else if i == a.len() + 1 + b.len() {
        } else {
            assert(t[i] == c[i - a.len() - 2 - b.len()]);
        }
    }
    assert(t[0] == a[0]);
    assert(t.last() == c.last());
    lemma_trim_unchanged(t);
    lemma_split_without(t, '-');
    lemma_split_without(t, '+');
    assert forall|i: int| 0 <= i < a.len() implies a[i] != '.' by {
        assert(48 <= a[i] as u32 <= 57);
    }
    assert forall|i: int| 0 <= i < b.len() implies b[i] != '.' by {
        assert(48 <= b[i] as u32 <= 57);
    }
    assert forall|i: int| 0 <= i < c.len() implies c[i] != '.' by {
        assert(48 <= c[i] as u32 <= 57);
    }
    lemma_split_after(a, b + dot + c, '.');
    lemma_split_after(b, c, '.');
    lemma_split_without(c, '.');
    assert(split_char(t, '.') =~= seq![a, b, c]);
}

/// A two-part version `X.Y` reads as `X.Y.0`: some releases ship only
/// `major.minor`.
pub proof fn two_part_versions_have_patch_zero(major: u32, minor: u32)
    ensures
        dotted_version(dec(major as nat) + "."@ + dec(minor as nat)) == Some((major, minor, 0u32)),
{
    let a = dec(major as nat);
    let b = dec(minor as nat);
    lemma_parse_dec(major as nat, u32::MAX as nat);
    lemma_parse_dec(minor as nat, u32::MAX as nat);
    lemma_dec_digits(major as nat);
    lemma_dec_digits(minor as nat);
    reveal_strlit(".");
    let dot = seq!['.'];
    let t = a + "."@ + b;
    assert(t =~= a + dot + b);
    assert forall|i: int| 0 <= i < t.len() implies #[trigger] t[i] == '.' || 48 <= t[i] as u32
        <= 57 by {
        if i < a.len() {
            assert(t[i] == a[i]);
        } else if i > a.len() {
            assert(t[i] == b[i - a.len() - 1]);
        }
    }
    assert(t[0] == a[0]);
    assert(t.last() == b.last());
    lemma_trim_unchanged(t);
    lemma_split_without(t, '-');
    lemma_split_without(t, '+');
    assert forall|i: int| 0 <= i < a.len() implies a[i] != '.' by {
        assert(48 <= a[i] as u32 <= 57);
    }
    assert forall|i: int| 0 <= i < b.len() implies b[i] != '.' by {
        assert(48 <= b[i] as u32 <= 57);
    }
    lemma_split_after(a, b, '.');
    lemma_split_without(b, '.');
    assert(split_char(t, '.') =~= seq![a, b]);
}

/// Cutting `s`, a separator, `t` at the build suffix leaves `s` with its
/// leading whitespace trimmed.
proof fn lemma_core_with_suffix(s: Seq<char>, sep: char, t: Seq<char>)
    requires
        sep == '-' || sep == '+',
        forall|i: int| 0 <= i < s.len() ==> s[i] != '-' && s[i] != '+',
    ensures
        version_core(s + seq![sep] + t) == trim_start(s),
{
    let u = trim_start(s);
    lemma_trim_start_suffix(s);
    assert forall|i: int| 0 <= i < u.len() implies u[i] != '-' && u[i] != '+' by {
        assert(u[i] == s[i + s.len() - u.len()]);
    }
    let st = seq![sep] + t;
    assert(s + seq![sep] + t =~= s + st);
    lemma_trim_start_concat(s, st);
    assert(st[0] == sep);
    assert(trim_start(st) == st);
    if u.len() == 0 {
        assert(u + st =~= st);
    }
    assert(trim_start(s + st) =~= (u + seq![sep]) + t);
    assert((u + seq![sep]).last() == sep);
    lemma_trim_end_concat(u + seq![sep], t);
    let tt = trim_end(t);
    assert(trim(s + seq![sep] + t) == u + seq![sep] + tt);
    if sep == '-' {
        lemma_before_at(u, tt, '-');
        lemma_split_without(u, '+');
    } else {
        lemma_before_past(u, '+', tt, '-');
        lemma_before_at(u, before_char(tt, '-'), '+');
    }
}

/// Trailing whitespace in a release text does not change its parts.
proof fn lemma_parts_ws_tail(v: Seq<char>)
    ensures
        dotted_parts(v) == dotted_parts(trim_end(v)),
{
    let q = trim_end(v);
    let w = v.skip(q.len() as int);
    lemma_trim_end_split(v);
    assert forall|i: int| 0 <= i < w.len() implies w[i] != '.' by {
        assert(is_ws(w[i]));
    }
    lemma_split_tail(q, w, '.');
    lemma_split_first(q, '.');
    let pv = split_char(v, '.');
    let pq = split_char(q, '.');
    assert(pv == split_char(q + w, '.'));
    assert forall|k: int| 0 <= k < pv.len() implies trim(#[trigger] pv[k]) == trim(pq[k]) by {
        if k == pv.len() - 1 {
            lemma_trim_ws_tail(pq.last(), w);
        }
    }
    if pv.len() >= 2 {
        assert(trim(pv[0]) == trim(pq[0]));
        assert(trim(pv[1]) == trim(pq[1]));
        if pv.len() > 2 {
            assert(trim(pv[2]) == trim(pq[2]));
        }
    }
}

/// A build suffix is ignored: `s-t` and `s+t` read as `s` does, for any
/// `s` holding neither `-` nor `+` and any `t`.
pub proof fn build_suffixes_are_ignored(s: Seq<char>, t: Seq<char>)
    requires
        forall|i: int| 0 <= i < s.len() ==> s[i] != '-' && s[i] != '+',
    ensures
        dotted_version(s + "-"@ + t) == dotted_version(s),
        dotted_version(s + "+"@ + t) == dotted_version(s),
{
    reveal_strlit("-");
    reveal_strlit("+");
    assert(s + "-"@ + t =~= s + seq!['-'] + t);
    assert(s + "+"@ + t =~= s + seq!['+'] + t);
    lemma_core_with_suffix(s, '-', t);
    lemma_core_with_suffix(s, '+', t);
    let u = trim_start(s);
    lemma_trim_start_suffix(s);
    lemma_trim_end_prefix(u);
    let r = trim(s);
    assert(r == trim_end(u));
    assert forall|i: int| 0 <= i < r.len() implies r[i] != '-' && r[i] != '+' by {
        assert(r[i] == u[i]);
        assert(u[i] == s[i + s.len() - u.len()]);
    }
    lemma_split_without(r, '-');
    lemma_split_without(r, '+');
    assert(version_core(s) == r);
    lemma_parts_ws_tail(u);
}

/// A `ROCm` release version, e.g. `6.2.4`. Ordered `major` first.
#[derive(Debug, Clone, Copy, PartialEq, Eq, Structural, Ord, Hash)]
pub struct RocmVersion {
    /// Major version — the `6` in `6.2.4`.
    pub major: u32,
    /// Minor version — the `2` in `6.2.4`.
    pub minor: u32,
    /// Patch version — the `4` in `6.2.4`.
    pub patch: u32,
}

impl RocmVersion {
    /// Create a version from its major, minor, and patch parts.
    pub fn new(major: u32, minor: u32, patch: u32) -> (v: Self)
        ensures
            v.major == major,
            v.minor == minor,
            v.patch == patch,
    {
        RocmVersion { major, minor, patch }
    }

    /// Renders as `6.2.4`, matching the `.info/version` file it comes from.
    pub open spec fn text(self) -> Seq<char> {
        triple_text(self.major, self.minor, self.patch)
    }

    /// Renders as `6.2.4`.
    pub fn to_string(&self) -> (s: String)
        ensures
            s@ == self.text(),
    {
        triple_string(self.major, self.minor, self.patch)
    }
}

/// The host's `ROCm` installation.
#[derive(Debug, Clone, Copy, PartialEq, Eq, Structural)]
pub struct RocmHost {
    /// Installed `ROCm` release.
    pub version: RocmVersion,
}

/// The dotted version `parse_dotted_version` reads from `text`: `None`, or
/// major, minor and patch.
///
/// The text is trimmed and cut at the first `-` or `+` (a build suffix);
/// what is left is split at `.`, and its first two pieces, each trimmed, must
/// parse as `u32`. A third piece, when there is one, must too; without one
/// the patch is `0`. Any further pieces are not read.
pub open spec fn dotted_version(text: Seq<char>) -> Option<(u32, u32, u32)> {
    dotted_parts(version_core(text))
}

/// The part of a version text that names the release: trimmed, and cut at
/// the first `-` or `+`.
pub open spec fn version_core(text: Seq<char>) -> Seq<char> {
    before_char(before_char(trim(text), '-'), '+')
}

/// The parts a release text names: split at `.`, the first two pieces, each
/// trimmed, parsed as `u32`, and the third too when there is one.
pub open spec fn dotted_parts(version: Seq<char>) -> Option<(u32, u32, u32)> {
    let parts = split_char(version, '.');
    if parts.len() < 2 {
        None
    } else {
        match (
            parse_uint(trim(parts[0]), false, u32::MAX as nat),
            parse_uint(trim(parts[1]), false, u32::MAX as nat),
        ) {
            (Some(major), Some(minor)) => if parts.len() == 2 {
                Some((major as u32, minor as u32, 0u32))
            } else {
                match parse_uint(trim(parts[2]), false, u32::MAX as nat) {
                    Some(patch) => Some((major as u32, minor as u32, patch as u32)),
                    None => None,
                }
            },
            _ => None,
        }
    }
}

/// Parse a dotted version — `6.2.4`, `2024.2` — into major, minor, and patch.
///
/// A trailing build suffix (`6.2.4-123`) is dropped: it identifies a package
/// build, not the release. Patch defaults to `0`, since some releases ship only
/// `major.minor`.
pub fn parse_dotted_version(text: &str) -> (r: Option<(u32, u32, u32)>)
    ensures
        r == dotted_version(text@),
{
    let chars = crate::text::chars_of(text);
    parse_dotted_chars(chars.as_slice())
}

/// [`parse_dotted_version`] on characters.
pub fn parse_dotted_chars(text: &[char]) -> (r: Option<(u32, u32, u32)>)
    ensures
        r == dotted_version(text@),
{
    let t = crate::text::trimmed(text);
    let v1 = crate::text::until_char(t, '-');
    let version = crate::text::until_char(v1, '+');
    let parts = crate::text::split_on(version, '.');
    if parts.len() < 2 {
        return None;
    }
    let major = match crate::text::parse_unsigned(crate::text::trimmed(parts[0]), false, 0xFFFF_FFFF) {
        Some(v) => v as u32,
        None => return None,
    };
    let minor = match crate::text::parse_unsigned(crate::text::trimmed(parts[1]), false, 0xFFFF_FFFF) {
        Some(v) => v as u32,
        None => return None,
    };
    if parts.len() == 2 {
        return Some((major, minor, 0));
    }
    let patch = match crate::text::parse_unsigned(crate::text::trimmed(parts[2]), false, 0xFFFF_FFFF) {
        Some(v) => v as u32,
        None => return None,
    };
    Some((major, minor, patch))
}

/// An Intel `oneAPI` toolkit version, e.g. `2024.2.1`. Ordered `major` — the
/// release year — first.
#[derive(Debug, Clone, Copy, PartialEq, Eq, Structural, Ord, Hash)]
pub struct OneApiVersion {
    /// Major version — the release year, the `2024` in `2024.2.1`.
    pub major: u32,
    /// Minor version — the `2` in `2024.2.1`.
    pub minor: u32,
    /// Patch version — the `1` in `2024.2.1`.
    pub patch: u32,
}

impl OneApiVersion {
    /// Create a version from its major, minor, and patch parts.
    pub fn new(major: u32, minor: u32, patch: u32) -> (v: Self)
        ensures
            v.major == major,
            v.minor == minor,
            v.patch == patch,
    {
        OneApiVersion { major, minor, patch }
    }

    /// Renders as `2024.2.1`, matching the install directory it comes from.
    pub open spec fn text(self) -> Seq<char> {
        triple_text(self.major, self.minor, self.patch)
    }

    /// Renders as `2024.2.1`.
    pub fn to_string(&self) -> (s: String)
        ensures
            s@ == self.text(),
    {
        triple_string(self.major, self.minor, self.patch)
    }
}

/// The host's Intel `oneAPI` installation.
#[derive(Debug, Clone, Copy, PartialEq, Eq, Structural)]
pub struct OneApiHost {
    /// Installed `oneAPI` toolkit release.
    pub version: OneApiVersion,
}

/// A Vulkan API version, e.g. `1.3.280`. Ordered `major` first; gate on
/// `major`/`minor`, since the patch is a header revision.
#[derive(Debug, Clone, Copy, PartialEq, Eq, Structural, Ord, Hash)]
pub struct VulkanVersion {
    /// Major version — the `1` in `1.3.280`.
    pub major: u32,
    /// Minor version — the `3` in `1.3.280`.
    pub minor: u32,
    /// Patch version — the `280` in `1.3.280`.
    pub patch: u32,
}

impl VulkanVersion {
    /// Create a version from its major, minor, and patch parts.
    pub fn new(major: u32, minor: u32, patch: u32) -> (v: Self)
        ensures
            v.major == major,
            v.minor == minor,
            v.patch == patch,
    {
        VulkanVersion { major, minor, patch }
    }

    /// Renders as `1.3.280`.
    pub open spec fn text(self) -> Seq<char> {
        triple_text(self.major, self.minor, self.patch)
    }

    /// Renders as `1.3.280`.
    pub fn to_string(&self) -> (s: String)
        ensures
            s@ == self.text(),
    {
        triple_string(self.major, self.minor, self.patch)
    }
}

/// The host's Vulkan runtime: the highest API version any installed driver
/// advertises in its ICD manifest.
#[derive(Debug, Clone, Copy, PartialEq, Eq, Structural)]
pub struct VulkanHost {
    /// Highest API version any installed driver advertises.
    pub api_version: VulkanVersion,
}

/// Whether the part list `a` comes no later than `b`, comparing `major`, then
/// `minor`, then the third part.
pub open spec fn le3(a: (u32, u32, u32), b: (u32, u32, u32)) -> bool {
    a.0 < b.0 || (a.0 == b.0 && (a.1 < b.1 || (a.1 == b.1 && a.2 <= b.2)))
}

/// Whether `a` comes no later than `b`.
pub fn le3_exec(a: (u32, u32, u32), b: (u32, u32, u32)) -> (r: bool)
    ensures
        r == le3(a, b),
{
    a.0 < b.0 || (a.0 == b.0 && (a.1 < b.1 || (a.1 == b.1 && a.2 <= b.2)))
}

/// The largest of `vs` under [`le3`], scanning left to right and keeping the
/// later of equals.
pub open spec fn max3(vs: Seq<(u32, u32, u32)>) -> Option<(u32, u32, u32)>
    decreases vs.len(),
{
    if vs.len() == 0 {
        None
    } else {
        match max3(vs.drop_last()) {
            None => Some(vs.last()),
            Some(m) => if le3(m, vs.last()) {
                Some(vs.last())
            } else {
                Some(m)
            },
        }
    }
}

/// `max3` picks a member that no member exceeds, and only an empty list has
/// none.
pub proof fn lemma_max3(vs: Seq<(u32, u32, u32)>)
    ensures
        max3(vs) is None <==> vs.len() == 0,
        max3(vs) matches Some(m) ==> vs.contains(m) && forall|i: int|
            0 <= i < vs.len() ==> le3(#[trigger] vs[i], m),
    decreases vs.len(),
{
    if vs.len() > 0 {
        lemma_max3(vs.drop_last());
        match max3(vs.drop_last()) {
            None => {
                assert(vs[vs.len() - 1] == vs.last());
            },
            Some(m) => {
                let k = choose|k: int| 0 <= k < vs.drop_last().len() && vs.drop_last()[k] == m;
                assert(vs[k] == m);
                assert forall|i: int| 0 <= i < vs.len() implies le3(#[trigger] vs[i], max3(vs)->0) by {
                    if i < vs.len() - 1 {
                        assert(vs[i] == vs.drop_last()[i]);
                    }
                }
                assert(vs[vs.len() - 1] == vs.last());
            },
        }
    }
}

/// Two lists holding the same members have the same largest member: which
/// one `max3` returns does not depend on the order it reads them in.
pub proof fn lemma_max3_members(a: Seq<(u32, u32, u32)>, b: Seq<(u32, u32, u32)>)
    requires
        forall|x: (u32, u32, u32)| a.contains(x) <==> b.contains(x),
    ensures
        max3(a) == max3(b),
{
    lemma_max3(a);
    lemma_max3(b);
    if a.len() > 0 && b.len() == 0 {
        assert(b.contains(a[0]));
    }
    if b.len() > 0 && a.len() == 0 {
        assert(a.contains(b[0]));
    }
    if a.len() > 0 && b.len() > 0 {
        let ma = max3(a)->0;
        let mb = max3(b)->0;
        let ia = choose|i: int| 0 <= i < a.len() && a[i] == ma;
        let ib = choose|i: int| 0 <= i < b.len() && b[i] == mb;
        assert(b.contains(ma));
        assert(a.contains(mb));
        let ja = choose|i: int| 0 <= i < b.len() && b[i] == ma;
        let jb = choose|i: int| 0 <= i < a.len() && a[i] == mb;
        assert(le3(b[ja], mb));
        assert(le3(a[jb], ma));
    }
}

} // verus!
