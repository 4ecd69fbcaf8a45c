//! Apple/macOS detection from `system_profiler SPDisplaysDataType`, `sysctl
//! hw.memsize` and `vm_stat` output. Apple Silicon uses a unified memory
//! architecture (no dedicated VRAM), so `total_bytes` falls back to total
//! physical memory and the used/free split comes from system-wide paging
//! statistics. Running the three tools is the caller's; reading what they
//! print is here.
use vstd::prelude::*;
use crate::{well_reported, AppleFamily, ArchTarget, GpuInfo, GpuView, Vendor};
use crate::text::{
    dec, lemma_dec_digits, lemma_parse_dec, after_prefix, before_char, chars_of, find_char, first_index, lines, lines_of, lowercase,
    parse_uint, parse_unsigned, push_str, same_chars, split_at_first, split_char, split_on,
    split_once, strip_prefix, to_lowercase, to_uppercase, trim, trimmed, until_char, uppercase,
};

verus! {

broadcast use vstd::string::group_string_axioms;

/// The vendor a `system_profiler` vendor id names, trimmed and compared
/// without regard to ASCII case.
pub open spec fn vendor_of(id: Seq<char>) -> Vendor {
    let key = lowercase(trim(id));
    if key == "0x106b"@ {
        Vendor::Apple
    } else if key == "0x1002"@ {
        Vendor::Amd
    } else if key == "0x10de"@ {
        Vendor::Nvidia
    } else if key == "0x8086"@ {
        Vendor::Intel
    } else {
        Vendor::Unknown
    }
}

/// Map a vendor id as printed by `system_profiler` (e.g. `0x106b`) to a
/// [`Vendor`].
pub fn vendor_from_id(id: &str) -> (v: Vendor)
    ensures
        v == vendor_of(id@),
{
    let chars = chars_of(id);
    vendor_from_chars(chars.as_slice())
}

fn vendor_from_chars(id: &[char]) -> (v: Vendor)
    ensures
        v == vendor_of(id@),
{
    let key = to_lowercase(trimmed(id));
    if same_chars(key.as_slice(), chars_of("0x106b").as_slice()) {
        Vendor::Apple
    } else if same_chars(key.as_slice(), chars_of("0x1002").as_slice()) {
        Vendor::Amd
    } else if same_chars(key.as_slice(), chars_of("0x10de").as_slice()) {
        Vendor::Nvidia
    } else if same_chars(key.as_slice(), chars_of("0x8086").as_slice()) {
        Vendor::Intel
    } else {
        Vendor::Unknown
    }
}

/// The amount and unit multiplier of a `system_profiler` VRAM value such as
/// `8 GB`: the text is trimmed and split at its first space; the amount is the
/// trimmed left side as a `u64`, the unit the trimmed right side, `GB`, `MB`
/// or `KB` in any ASCII case.
pub open spec fn vram_parts(value: Seq<char>) -> Option<(nat, nat)> {
    let t = trim(value);
    match first_index(t, ' ') {
        Some(i) => match parse_uint(trim(t.take(i)), false, u64::MAX as nat) {
            Some(amount) => {
                let unit = uppercase(trim(t.skip(i + 1)));
                if unit == "GB"@ {
                    Some((amount, 0x4000_0000nat))
                } else if unit == "MB"@ {
                    Some((amount, 0x10_0000nat))
                } else if unit == "KB"@ {
                    Some((amount, 0x400nat))
                } else {
                    None
                }
            },
            None => None,
        },
        None => None,
    }
}

/// A VRAM value in bytes (binary units); it may exceed `u64`.
pub open spec fn vram_bytes(value: Seq<char>) -> Option<nat> {
    match vram_parts(value) {
        Some((amount, mult)) => Some(amount * mult),
        None => None,
    }
}

/// The amount and multiplier of a VRAM value.
fn vram_amount(value: &[char]) -> (r: Option<(u64, u64)>)
    ensures
        match r {
            Some((a, m)) => vram_parts(value@) == Some((a as nat, m as nat)) && m <= 0x4000_0000,
            None => vram_parts(value@) is None,
        },
{
    let t = trimmed(value);
    let i = match find_char(t, ' ') {
        Some(i) => i,
        None => return None,
    };
    proof {
        crate::text::lemma_first_index(t@, ' ');
    }
    let tl = t.len();
    assert(i < tl);
    let num = slice_head(t, i);
    let amount = match parse_unsigned(trimmed(num), false, u64::MAX) {
        Some(a) => a,
        None => return None,
    };
    let rest = slice_tail(t, i + 1);
    let unit = to_uppercase(trimmed(rest));
    if same_chars(unit.as_slice(), chars_of("GB").as_slice()) {
        Some((amount, 0x4000_0000))
    } else if same_chars(unit.as_slice(), chars_of("MB").as_slice()) {
        Some((amount, 0x10_0000))
    } else if same_chars(unit.as_slice(), chars_of("KB").as_slice()) {
        Some((amount, 0x400))
    } else {
        None
    }
}

fn slice_head(s: &[char], i: usize) -> (r: &[char])
    requires
        i <= s@.len(),
    ensures
        r@ == s@.take(i as int),
{
    vstd::slice::slice_subrange(s, 0, i)
}

fn slice_tail(s: &[char], i: usize) -> (r: &[char])
    requires
        i <= s@.len(),
    ensures
        r@ == s@.skip(i as int),
{
    let r = vstd::slice::slice_subrange(s, i, s.len());
    assert(r@ =~= s@.skip(i as int));
    r
}

/// Parse a `system_profiler` VRAM value like `"8 GB"` or `"1536 MB"` into bytes
/// (binary units).
pub fn parse_vram(value: &str) -> (r: Option<u64>)
    requires
        vram_bytes(value@) matches Some(b) ==> b <= u64::MAX,
    ensures
        r == match vram_bytes(value@) {
            Some(b) => Some(b as u64),
            None => None::<u64>,
        },
{
    let chars = chars_of(value);
    parse_vram_chars(chars.as_slice())
}

fn parse_vram_chars(value: &[char]) -> (r: Option<u64>)
    requires
        vram_bytes(value@) matches Some(b) ==> b <= u64::MAX,
    ensures
        r == match vram_bytes(value@) {
            Some(b) => Some(b as u64),
            None => None::<u64>,
        },
{
    match vram_amount(value) {
        Some((amount, mult)) => Some(amount * mult),
        None => None,
    }
}

/// Whether a VRAM value's byte count, when it has one, fits `u64`.
pub open spec fn vram_fits(value: Seq<char>) -> bool {
    vram_bytes(value) matches Some(b) ==> b <= u64::MAX
}

fn vram_fits_chars(value: &[char]) -> (b: bool)
    ensures
        b == vram_fits(value@),
{
    match vram_amount(value) {
        Some((amount, mult)) => (amount as u128) * (mult as u128) <= u64::MAX as u128,
        None => true,
    }
}

/// `sysctl -n hw.memsize` output: trimmed, a decimal `u64`.
pub open spec fn memsize_of(content: Seq<char>) -> Option<u64> {
    match parse_uint(trim(content), false, u64::MAX as nat) {
        Some(v) => Some(v as u64),
        None => None,
    }
}

/// Parse `sysctl -n hw.memsize` output (a decimal byte count).
pub fn parse_memsize(content: &str) -> (r: Option<u64>)
    ensures
        r == memsize_of(content@),
{
    let chars = chars_of(content);
    parse_unsigned(trimmed(chars.as_slice()), false, u64::MAX)
}

/// The page size in a `vm_stat` header `(page size of 16384 bytes)`: the text
/// between the first `page size of ` and the first ` bytes` after it,
/// trimmed, as a `u64`.
pub open spec fn page_size_of(text: Seq<char>) -> Option<u64> {
    match split_once(text, "page size of "@) {
        Some((_, rest)) => match split_once(rest, " bytes"@) {
            Some((num, _)) => match parse_uint(trim(num), false, u64::MAX as nat) {
                Some(v) => Some(v as u64),
                None => None,
            },
            None => None,
        },
        None => None,
    }
}

/// Pull the page size out of the `vm_stat` header, which reads
/// `Mach Virtual Memory Statistics: (page size of 16384 bytes)`.
///
/// Taken from the report itself so the counts and their multiplier always come
/// from the same source: Apple Silicon pages are 16 KiB where Intel Macs use
/// 4 KiB.
pub fn parse_page_size(text: &str) -> (r: Option<u64>)
    ensures
        r == page_size_of(text@),
{
    let chars = chars_of(text);
    let marker = chars_of("page size of ");
    let unit = chars_of(" bytes");
    let rest = match split_at_first(chars.as_slice(), marker.as_slice()) {
        Some((_, rest)) => rest,
        None => return None,
    };
    let num = match split_at_first(rest, unit.as_slice()) {
        Some((num, _)) => num,
        None => return None,
    };
    parse_unsigned(trimmed(num), false, u64::MAX)
}

/// `s` without its trailing `.` characters.
pub open spec fn trim_dots(s: Seq<char>) -> Seq<char>
    decreases s.len(),
{
    if s.len() > 0 && s.last() == '.' {
        trim_dots(s.drop_last())
    } else {
        s
    }
}

fn without_dots(s: &[char]) -> (r: &[char])
    ensures
        r@ == trim_dots(s@),
{
    let mut j: usize = s.len();
    assert(s@.subrange(0, j as int) =~= s@);
    while j > 0 && s[j - 1] == '.'
        invariant
            j <= s@.len(),
            trim_dots(s@) == trim_dots(s@.subrange(0, j as int)),
        decreases j,
    {
        assert(s@.subrange(0, j as int).drop_last() =~= s@.subrange(0, j - 1));
        j = j - 1;
    }
    vstd::slice::slice_subrange(s, 0, j)
}

/// The count `page_count` reads for `key` from `ls`: the first line whose
/// trimmed text starts with `key` decides; its value is trimmed, stripped of
/// trailing periods, trimmed again and read as a `u64`.
pub open spec fn page_count_in(ls: Seq<Seq<char>>, key: Seq<char>) -> Option<u64>
    decreases ls.len(),
{
    if ls.len() == 0 {
        None
    } else {
        match strip_prefix(trim(ls[0]), key) {
            Some(value) => match parse_uint(trim(trim_dots(trim(value))), false, u64::MAX as nat) {
                Some(v) => Some(v as u64),
                None => None,
            },
            None => page_count_in(ls.drop_first(), key),
        }
    }
}

/// Look up one `Pages ...: <count>.` row in `vm_stat` output. The trailing
/// period is part of the format, not the number.
pub fn page_count(text: &str, key: &str) -> (r: Option<u64>)
    ensures
        r == page_count_in(lines(text@), key@),
{
    let chars = chars_of(text);
    let key_chars = chars_of(key);
    page_count_chars(chars.as_slice(), key_chars.as_slice())
}

fn page_count_chars(text: &[char], key: &[char]) -> (r: Option<u64>)
    ensures
        r == page_count_in(lines(text@), key@),
{
    let ls = lines_of(text);
    let n = ls.len();
    let ghost all = lines(text@);
    assert(all.skip(0) =~= all);
    let mut i: usize = 0;
    while i < n
        invariant
            i <= n == ls@.len() == all.len(),
            all == lines(text@),
            forall|k: int| 0 <= k < n ==> #[trigger] ls@[k]@ == all[k],
            page_count_in(all, key@) == page_count_in(all.skip(i as int), key@),
        decreases n - i,
    {
        assert(all.skip(i as int)[0] == all[i as int]);
        assert(all.skip(i as int).drop_first() =~= all.skip(i + 1));
        match after_prefix(trimmed(ls[i]), key) {
            Some(value) => {
                return parse_unsigned(trimmed(without_dots(trimmed(value))), false, u64::MAX);
            },
            None => {},
        }
        i = i + 1;
    }
    None
}

/// Bytes in use by `vm_stat`'s account: `active` + `wired down` + `occupied
/// by compressor` pages, times the page size; `None` when any is missing or
/// the sum or product leaves `u64`.
pub open spec fn vm_stat_used_of(text: Seq<char>) -> Option<u64> {
    let ls = lines(text);
    match (
        page_size_of(text),
        page_count_in(ls, "Pages active:"@),
        page_count_in(ls, "Pages wired down:"@),
        page_count_in(ls, "Pages occupied by compressor:"@),
    ) {
        (Some(size), Some(active), Some(wired), Some(compressor)) => {
            let pages = active + wired + compressor;
            if pages <= u64::MAX && pages * size <= u64::MAX {
                Some((pages * size) as u64)
            } else {
                None
            }
        },
        _ => None,
    }
}

/// Bytes in use, as macOS itself accounts for them: resident anonymous and
/// kernel pages (`active` + `wired down`) plus the compressor's footprint —
/// the figure Activity Monitor labels "Memory Used". Reads *occupied by*
/// rather than *stored in* the compressor, the latter being the
/// pre-compression count.
pub fn parse_vm_stat_used(text: &str) -> (r: Option<u64>)
    ensures
        r == vm_stat_used_of(text@),
{
    let size = match parse_page_size(text) {
        Some(v) => v,
        None => return None,
    };
    let active = match page_count(text, "Pages active:") {
        Some(v) => v,
        None => return None,
    };
    let wired = match page_count(text, "Pages wired down:") {
        Some(v) => v,
        None => return None,
    };
    let compressor = match page_count(text, "Pages occupied by compressor:") {
        Some(v) => v,
        None => return None,
    };
    let a = match active.checked_add(wired) {
        Some(v) => v,
        None => return None,
    };
    let pages = match a.checked_add(compressor) {
        Some(v) => v,
        None => return None,
    };
    pages.checked_mul(size)
}

/// Length of the run of ASCII digits that starts `s`.
pub open spec fn digit_run(s: Seq<char>) -> int
    decreases s.len(),
{
    if s.len() > 0 && 48 <= (s[0] as u32) <= 57 {
        1 + digit_run(s.drop_first())
    } else {
        0
    }
}

/// The Metal family of an Apple Silicon chip name: the number after
/// `Apple M` (its leading digits, as a `u32`) picks the family — M1 `apple7`,
/// M2 `apple8`, M3 and M4 `apple9`, M5 `apple10` — and anything else has none.
pub open spec fn apple_family_of(name: Seq<char>) -> Option<AppleFamily> {
    match strip_prefix(name, "Apple M"@) {
        Some(rest) => match parse_uint(rest.take(digit_run(rest)), false, u32::MAX as nat) {
            Some(chip) => if chip == 1 {
                Some(AppleFamily { generation: 7 })
            } else if chip == 2 {
                Some(AppleFamily { generation: 8 })
            } else if chip == 3 || chip == 4 {
                Some(AppleFamily { generation: 9 })
            } else if chip == 5 {
                Some(AppleFamily { generation: 10 })
            } else {
                None
            },
            None => None,
        },
        None => None,
    }
}

/// Metal GPU family for an Apple Silicon chip name — `Apple M2 Pro` is
/// `apple8`. Chips this table does not know report `None`: a wrong family
/// would be acted on, an absent one would not.
pub fn apple_family(name: &str) -> (r: Option<AppleFamily>)
    ensures
        r == apple_family_of(name@),
{
    let chars = chars_of(name);
    apple_family_chars(chars.as_slice())
}

fn apple_family_chars(name: &[char]) -> (r: Option<AppleFamily>)
    ensures
        r == apple_family_of(name@),
{
    let rest = match after_prefix(name, chars_of("Apple M").as_slice()) {
        Some(r) => r,
        None => return None,
    };
    let n = rest.len();
    let mut end: usize = 0;
    assert(rest@.skip(0) =~= rest@);
    while end < n && 48 <= (rest[end] as u32) && (rest[end] as u32) <= 57
        invariant
            end <= n == rest@.len(),
            digit_run(rest@) == end + digit_run(rest@.skip(end as int)),
        decreases n - end,
    {
        assert(rest@.skip(end as int).drop_first() =~= rest@.skip(end + 1));
        end = end + 1;
    }
    assert(digit_run(rest@.skip(end as int)) == 0);
    let digits = vstd::slice::slice_subrange(rest, 0, end);
    let chip = match parse_unsigned(digits, false, 0xFFFF_FFFF) {
        Some(c) => c,
        None => return None,
    };
    let generation = if chip == 1 {
        7
    } else if chip == 2 {
        8
    } else if chip == 3 || chip == 4 {
        9
    } else if chip == 5 {
        10
    } else {
        return None;
    };
    Some(AppleFamily::new(generation))
}

/// The value of a `VRAM (Total):` or, failing that, `VRAM (Dynamic, Max):`
/// line.
pub open spec fn vram_value(line: Seq<char>) -> Option<Seq<char>> {
    match strip_prefix(line, "VRAM (Total):"@) {
        Some(v) => Some(v),
        None => strip_prefix(line, "VRAM (Dynamic, Max):"@),
    }
}

/// The id in a `Vendor:` value such as `Apple (0x106b)`: what follows the
/// first `(`, up to the next `(` and then the first `)`.
pub open spec fn paren_id(v: Seq<char>) -> Option<Seq<char>> {
    let pieces = split_char(v, '(');
    if pieces.len() > 1 {
        Some(before_char(pieces[1], ')'))
    } else {
        None
    }
}

/// The GPU a `Chipset Model:` line starts: named by the model, Apple until a
/// `Vendor:` line says otherwise, with no memory read yet.
pub open spec fn new_block(name: Seq<char>) -> GpuView {
    GpuView {
        name: name,
        vendor: Vendor::Apple,
        total_bytes: 0,
        free_bytes: None,
        used_bytes: None,
        arch_target: match apple_family_of(name) {
            Some(f) => Some(ArchTarget::Apple(f)),
            None => None,
        },
    }
}

/// The GPUs after reading one more `system_profiler` line.
pub open spec fn profile_step(gpus: Seq<GpuView>, raw: Seq<char>) -> Seq<GpuView> {
    let line = trim(raw);
    match strip_prefix(line, "Chipset Model:"@) {
        Some(name) => gpus.push(new_block(trim(name))),
        None => if gpus.len() == 0 {
            gpus
        } else {
            let last = gpus.last();
            match strip_prefix(line, "Vendor:"@) {
                Some(v) => match paren_id(v) {
                    Some(id) => gpus.update(
                        gpus.len() - 1,
                        GpuView { vendor: vendor_of(id), ..last },
                    ),
                    None => gpus,
                },
                None => match vram_value(line) {
                    Some(v) => match vram_bytes(v) {
                        Some(b) => gpus.update(
                            gpus.len() - 1,
                            GpuView { total_bytes: b as u64, ..last },
                        ),
                        None => gpus,
                    },
                    None => gpus,
                },
            }
        },
    }
}

/// The GPUs read from the lines `ls`, one per `Chipset Model:` block.
pub open spec fn profile(ls: Seq<Seq<char>>) -> Seq<GpuView>
    decreases ls.len(),
{
    if ls.len() == 0 {
        seq![]
    } else {
        profile_step(profile(ls.drop_last()), ls.last())
    }
}

/// Whether a `system_profiler` line opens a GPU block.
pub open spec fn is_header(raw: Seq<char>) -> bool {
    strip_prefix(trim(raw), "Chipset Model:"@) is Some
}

/// The model a `Chipset Model:` line names, trimmed.
pub open spec fn header_name(raw: Seq<char>) -> Seq<char> {
    match strip_prefix(trim(raw), "Chipset Model:"@) {
        Some(name) => trim(name),
        None => Seq::<char>::empty(),
    }
}

/// The indices of the lines of `ls` that open a GPU block, in order.
pub open spec fn headers(ls: Seq<Seq<char>>) -> Seq<int>
    decreases ls.len(),
{
    if ls.len() == 0 {
        seq![]
    } else if is_header(ls.last()) {
        headers(ls.drop_last()).push(ls.len() - 1)
    } else {
        headers(ls.drop_last())
    }
}

/// The lines of block `i`: those after its `Chipset Model:` line, up to the
/// next one or the end.
pub open spec fn block_body(ls: Seq<Seq<char>>, i: int) -> Seq<Seq<char>> {
    let h = headers(ls);
    let end = if i + 1 < h.len() {
        h[i + 1]
    } else {
        ls.len() as int
    };
    ls.subrange(h[i] + 1, end)
}

/// The vendor the last `Vendor:` line of a block that carries an id in
/// parentheses names.
pub open spec fn block_vendor(body: Seq<Seq<char>>) -> Option<Vendor>
    decreases body.len(),
{
    if body.len() == 0 {
        None
    } else {
        match strip_prefix(trim(body.last()), "Vendor:"@) {
            Some(v) => match paren_id(v) {
                Some(id) => Some(vendor_of(id)),
                None => block_vendor(body.drop_last()),
            },
            None => block_vendor(body.drop_last()),
        }
    }
}

/// The bytes of the last VRAM line of a block whose value reads as a size.
pub open spec fn block_vram(body: Seq<Seq<char>>) -> Option<nat>
    decreases body.len(),
{
    if body.len() == 0 {
        None
    } else {
        let line = trim(body.last());
        if strip_prefix(line, "Vendor:"@) is Some {
            block_vram(body.drop_last())
        } else {
            match vram_value(line) {
                Some(v) => match vram_bytes(v) {
                    Some(b) => Some(b),
                    None => block_vram(body.drop_last()),
                },
                None => block_vram(body.drop_last()),
            }
        }
    }
}

/// The GPU one block describes: named by its model, with the Metal family
/// that name gives; the vendor of its last `Vendor:` line carrying an id,
/// Apple without one; the size of its last readable VRAM line, `0` without
/// one; no usage.
pub open spec fn block_gpu(name: Seq<char>, body: Seq<Seq<char>>) -> GpuView {
    GpuView {
        vendor: match block_vendor(body) {
            Some(v) => v,
            None => Vendor::Apple,
        },
        total_bytes: match block_vram(body) {
            Some(b) => b as u64,
            None => 0,
        },
        ..new_block(name)
    }
}

/// Each `Chipset Model:` line yields one GPU, read from its own block alone:
/// the lines after it up to the next such line. Lines before the first are
/// ignored.
pub proof fn profiler_blocks_are_read_alone(ls: Seq<Seq<char>>)
    ensures
        profile(ls).len() == headers(ls).len(),
        forall|k: int|
            0 <= k < headers(ls).len() ==> 0 <= #[trigger] headers(ls)[k] < ls.len() && is_header(
                ls[headers(ls)[k]],
            ),
        forall|j: int, k: int|
            0 <= j < k < headers(ls).len() ==> #[trigger] headers(ls)[j] < #[trigger] headers(ls)[k],
        forall|k: int|
            0 <= k < profile(ls).len() ==> #[trigger] profile(ls)[k] == block_gpu(
                header_name(ls[headers(ls)[k]]),
                block_body(ls, k),
            ),
    decreases ls.len(),
{
    if ls.len() > 0 {
        let init = ls.drop_last();
        let n = ls.len() as int;
        profiler_blocks_are_read_alone(init);
        let h0 = headers(init);
        let h = headers(ls);
        let before = profile(init);
        let l = ls.last();
        assert(ls[n - 1] == l);
        assert forall|k: int| 0 <= k < h0.len() implies ls[h0[k]] == init[h0[k]] by {}
        if is_header(l) {
            assert(h == h0.push(n - 1));
            assert forall|k: int| 0 <= k < h.len() implies 0 <= #[trigger] h[k] < ls.len()
                && is_header(ls[h[k]]) by {
                if k < h0.len() {
                    assert(ls[h0[k]] == init[h0[k]]);
                }
            }
            assert(block_body(ls, h0.len() as int) =~= Seq::<Seq<char>>::empty());
            assert forall|k: int| 0 <= k < profile(ls).len() implies #[trigger] profile(ls)[k]
                == block_gpu(header_name(ls[h[k]]), block_body(ls, k)) by {
                if k < before.len() {
                    let end0 = if k + 1 < h0.len() {
                        h0[k + 1]
                    } else {
                        n - 1
                    };
                    assert(h[k] < end0 || h[k] + 1 <= end0);
                    assert(block_body(init, k) == init.subrange(h0[k] + 1, end0));
                    assert(block_body(ls, k) == ls.subrange(h[k] + 1, end0));
                    assert(ls.subrange(h[k] + 1, end0) =~= init.subrange(h0[k] + 1, end0));
                    assert(ls[h[k]] == init[h0[k]]);
                }
            }
        } else if before.len() == 0 {
            assert(h == h0);
        } else {
            assert(h == h0);
            let m = before.len() - 1;
            assert(block_body(ls, m) =~= block_body(init, m).push(l));
            let body = block_body(init, m);
            assert(body.push(l).drop_last() =~= body);
            assert(body.push(l).last() == l);
            assert forall|k: int| 0 <= k < profile(ls).len() implies #[trigger] profile(ls)[k]
                == block_gpu(header_name(ls[h[k]]), block_body(ls, k)) by {
                assert(ls[h[k]] == init[h0[k]]);
                if k < m {
                    assert(h0[k] < h0[k + 1]);
                    assert(ls.subrange(h[k] + 1, h[k + 1]) =~= init.subrange(h0[k] + 1, h0[k + 1]));
                }
            }
        }
    }
}

/// Whether every VRAM value `parse_system_profiler` would read from `ls`
/// fits `u64`; `started` says whether a `Chipset Model:` line came before.
pub open spec fn vram_values_fit(ls: Seq<Seq<char>>, started: bool) -> bool
    decreases ls.len(),
{
    if ls.len() == 0 {
        true
    } else {
        let line = trim(ls[0]);
        if strip_prefix(line, "Chipset Model:"@) is Some {
            vram_values_fit(ls.drop_first(), true)
        } else {
            &&& (started && strip_prefix(line, "Vendor:"@) is None) ==> (vram_value(line) matches Some(
                v,
            ) ==> vram_fits(v))
            &&& vram_values_fit(ls.drop_first(), started)
        }
    }
}

proof fn lemma_fit_prefix(ls: Seq<Seq<char>>, i: int, started: bool)
    requires
        0 <= i < ls.len(),
        vram_values_fit(ls, started),
    ensures
        vram_values_fit(ls.skip(i), started || exists|k: int|
            0 <= k < i && strip_prefix(trim(ls[k]), "Chipset Model:"@) is Some),
    decreases i,
{
    if i > 0 {
        let first = strip_prefix(trim(ls[0]), "Chipset Model:"@) is Some;
        lemma_fit_prefix(ls.drop_first(), i - 1, started || first);
        assert(ls.drop_first().skip(i - 1) =~= ls.skip(i));
        let a = started || first || exists|k: int|
            0 <= k < i - 1 && strip_prefix(trim(ls.drop_first()[k]), "Chipset Model:"@) is Some;
        let b = started || exists|k: int|
            0 <= k < i && strip_prefix(trim(ls[k]), "Chipset Model:"@) is Some;
        if a {
            if !started && !first {
                let k = choose|k: int|
                    0 <= k < i - 1 && strip_prefix(trim(ls.drop_first()[k]), "Chipset Model:"@) is Some;
                assert(ls.drop_first()[k] == ls[k + 1]);
            }
        }
        if b {
            if !started && !first {
                let k = choose|k: int|
                    0 <= k < i && strip_prefix(trim(ls[k]), "Chipset Model:"@) is Some;
                assert(k > 0);
                assert(ls.drop_first()[k - 1] == ls[k]);
            }
        }
        assert(a == b);
    } else {
        assert(ls.skip(0) =~= ls);
    }
}

/// Whether every VRAM value `parse_system_profiler` would read from `text`
/// fits `u64` — when one does not, reading it overflows.
pub fn profiler_vram_fits(text: &str) -> (b: bool)
    ensures
        b == vram_values_fit(lines(text@), false),
{
    let chars = chars_of(text);
    let ls = lines_of(chars.as_slice());
    let ghost all = lines(text@);
    let n = ls.len();
    let mut started = false;
    let mut i: usize = 0;
    assert(all.skip(0) =~= all);
    while i < n
        invariant
            i <= n == ls@.len() == all.len(),
            all == lines(text@),
            forall|k: int| 0 <= k < n ==> #[trigger] ls@[k]@ == all[k],
            vram_values_fit(all, false) == vram_values_fit(all.skip(i as int), started),
        decreases n - i,
    {
        let ghost rest = all.skip(i as int);
        assert(rest[0] == all[i as int]);
        assert(rest.drop_first() =~= all.skip(i + 1));
        let line = trimmed(ls[i]);
        if after_prefix(line, chars_of("Chipset Model:").as_slice()).is_some() {
            started = true;
        } else {
            if started && after_prefix(line, chars_of("Vendor:").as_slice()).is_none() {
                let value = match after_prefix(line, chars_of("VRAM (Total):").as_slice()) {
                    Some(v) => Some(v),
                    None => after_prefix(line, chars_of("VRAM (Dynamic, Max):").as_slice()),
                };
                match value {
                    Some(v) => {
                        if !vram_fits_chars(v) {
                            return false;
                        }
                    },
                    None => {},
                }
            }
        }
        i = i + 1;
    }
    true
}

/// [`GpuInfo`] per "Chipset Model:" block. `total_bytes` is `0` when no VRAM
/// line is present (Apple Silicon unified memory); [`unify`] backfills it
/// from physical memory.
pub fn parse_system_profiler(text: &str) -> (r: Vec<GpuInfo>)
    requires
        vram_values_fit(lines(text@), false),
    ensures
        r@.len() == profile(lines(text@)).len(),
        forall|k: int| 0 <= k < r@.len() ==> #[trigger] r@[k]@ == profile(lines(text@))[k],
        r@.len() == headers(lines(text@)).len(),
        forall|k: int|
            0 <= k < r@.len() ==> #[trigger] r@[k]@ == block_gpu(
                header_name(lines(text@)[headers(lines(text@))[k]]),
                block_body(lines(text@), k),
            ),
{
    let chars = chars_of(text);
    let ls = lines_of(chars.as_slice());
    let ghost all = lines(text@);
    let n = ls.len();
    let mut gpus: Vec<GpuInfo> = Vec::new();
    let mut i: usize = 0;
    assert(all.take(0) =~= Seq::<Seq<char>>::empty());
    while i < n
        invariant
            i <= n == ls@.len() == all.len(),
            all == lines(text@),
            vram_values_fit(all, false),
            forall|k: int| 0 <= k < n ==> #[trigger] ls@[k]@ == all[k],
            gpus@.len() == profile(all.take(i as int)).len(),
            forall|k: int|
                0 <= k < gpus@.len() ==> #[trigger] gpus@[k]@ == profile(all.take(i as int))[k],
            gpus@.len() > 0 ==> exists|k: int|
                0 <= k < i && strip_prefix(trim(all[k]), "Chipset Model:"@) is Some,
        decreases n - i,
    {
        let ghost before = profile(all.take(i as int));
        assert(all.take(i + 1).drop_last() =~= all.take(i as int));
        assert(all.take(i + 1).last() == all[i as int]);
        let ghost after = profile_step(before, all[i as int]);
        assert(profile(all.take(i + 1)) == after);
        let line = trimmed(ls[i]);
        match after_prefix(line, chars_of("Chipset Model:").as_slice()) {
            Some(name) => {
                let name = trimmed(name);
                let mut s = String::new();
                crate::text::push_chars(&mut s, name);
                assert(s@ =~= name@);
                let family = apple_family_chars(name);
                let arch = match family {
                    Some(f) => Some(ArchTarget::Apple(f)),
                    None => None,
                };
                let ghost prior = gpus@;
                gpus.push(
                    GpuInfo {
                        name: s,
                        vendor: Vendor::Apple,
                        total_bytes: 0,
                        free_bytes: None,
                        used_bytes: None,
                        arch_target: arch,
                    },
                );
                assert(after =~= before.push(new_block(name@)));
                assert forall|k: int| 0 <= k < gpus@.len() implies #[trigger] gpus@[k]@ == after[k] by {
                    if k < before.len() {
                        assert(gpus@[k] == prior[k]);
                    }
                }
            },
            None => {
                if gpus.len() > 0 {
                    proof {
                        lemma_fit_prefix(all, i as int, false);
                    }
                    let m = gpus.len() - 1;
                    match after_prefix(line, chars_of("Vendor:").as_slice()) {
                        Some(v) => {
                            let pieces = split_on(v, '(');
                            if pieces.len() > 1 {
                                let id = until_char(pieces[1], ')');
                                assert(paren_id(v@) == Some(id@));
                                let vendor = vendor_from_chars(id);
                                let ghost prior = gpus@;
                                let mut g = gpus.pop().unwrap();
                                assert(g@ == before[m as int]);
                                g.vendor = vendor;
                                gpus.push(g);
                                assert(after == before.update(
                                    m as int,
                                    GpuView { vendor: vendor_of(id@), ..before[m as int] },
                                ));
                                assert forall|k: int| 0 <= k < gpus@.len() implies #[trigger] gpus@[k]@
                                    == after[k] by {
                                    if k < m {
                                        assert(gpus@[k] == prior[k]);
                                    }
                                }
                            } else {
                                assert(paren_id(v@) is None);
                                assert(after == before);
                            }
                        },
                        None => {
                            let value = match after_prefix(line, chars_of("VRAM (Total):").as_slice()) {
                                Some(v) => Some(v),
                                None => after_prefix(
                                    line,
                                    chars_of("VRAM (Dynamic, Max):").as_slice(),
                                ),
                            };
                            match value {
                                Some(v) => {
                                    assert(all.skip(i as int)[0] == all[i as int]);
                                    match parse_vram_chars(v) {
                                        Some(b) => {
                                            let ghost prior = gpus@;
                                            let mut g = gpus.pop().unwrap();
                                            assert(g@ == before[m as int]);
                                            g.total_bytes = b;
                                            gpus.push(g);
                                            assert(vram_value(line@) == Some(v@));
                                            assert(after == before.update(
                                                m as int,
                                                GpuView { total_bytes: b, ..before[m as int] },
                                            ));
                                            assert forall|k: int| 0 <= k < gpus@.len() implies #[trigger] gpus@[k]@
                                                == after[k] by {
                                                if k < m {
                                                    assert(gpus@[k] == prior[k]);
                                                }
                                            }
                                        },
                                        None => {
                                            assert(after == before);
                                        },
                                    }
                                },
                                None => {},
                            }
                        },
                    }
                }
            },
        }
        i = i + 1;
    }
    assert(all.take(n as int) =~= all);
    proof {
        profiler_blocks_are_read_alone(all);
    }
    gpus
}

/// The `(used, free)` split of a unified pool of `total` bytes given what
/// `vm_stat` reported as used: unknown when it reported nothing, or more than
/// is installed.
pub open spec fn split_of(total: u64, used: Option<u64>) -> (Option<u64>, Option<u64>) {
    match used {
        Some(u) => if u <= total {
            (Some(u), Some((total - u) as u64))
        } else {
            (None, None)
        },
        None => (None, None),
    }
}

/// The `(used, free)` split of a unified pool of `total` bytes, or `(None,
/// None)` when `vm_stat` gave nothing or reports more than is installed — a
/// total that small would make `free` underflow.
pub fn unified_split(total: u64, used: Option<u64>) -> (r: (Option<u64>, Option<u64>))
    ensures
        r == split_of(total, used),
{
    match used {
        Some(u) => if u <= total {
            (Some(u), Some(total - u))
        } else {
            (None, None)
        },
        None => (None, None),
    }
}

/// Whether finishing `gpus` needs the unified pool's usage: physical memory is
/// known and either nothing was parsed or some GPU reported no VRAM.
pub open spec fn split_needed(gpus: Seq<GpuView>, memsize: Option<u64>) -> bool {
    memsize is Some && (gpus.len() == 0 || exists|k: int|
        0 <= k < gpus.len() && #[trigger] gpus[k].total_bytes == 0)
}

/// Whether [`unify`] will read the `vm_stat` figure it is given, so that the
/// caller only runs `vm_stat` when it is needed.
pub fn needs_usage(gpus: &Vec<GpuInfo>, memsize: Option<u64>) -> (b: bool)
    ensures
        b == split_needed(gpus@.map_values(|g: GpuInfo| g@), memsize),
{
    let ghost views = gpus@.map_values(|g: GpuInfo| g@);
    if memsize.is_none() {
        return false;
    }
    assert(views.len() == gpus@.len());
    if gpus.len() == 0 {
        return true;
    }
    let n = gpus.len();
    let mut i: usize = 0;
    while i < n
        invariant
            i <= n == gpus@.len() == views.len(),
            memsize is Some,
            views == gpus@.map_values(|g: GpuInfo| g@),
            forall|k: int| 0 <= k < i ==> views[k].total_bytes != 0,
        decreases n - i,
    {
        if gpus[i].total_bytes == 0 {
            assert(views[i as int].total_bytes == 0);
            return true;
        }
        i = i + 1;
    }
    false
}

/// A GPU backfilled with the unified pool: one that reported no VRAM takes
/// physical memory as its total and the pool's split.
pub open spec fn backfilled(g: GpuView, mem: u64, split: (Option<u64>, Option<u64>)) -> GpuView {
    if g.total_bytes == 0 {
        GpuView { total_bytes: mem, used_bytes: split.0, free_bytes: split.1, ..g }
    } else {
        g
    }
}

/// The parsed GPUs completed with physical memory and the `vm_stat` usage:
/// each GPU without VRAM takes physical memory and the unified split; with
/// nothing parsed, a single `Apple GPU` does.
pub open spec fn backfilled_all(gpus: Seq<GpuView>, memsize: Option<u64>, used: Option<u64>) -> Seq<
    GpuView,
> {
    match memsize {
        Some(mem) => {
            let split = split_of(mem, used);
            if gpus.len() == 0 {
                seq![
                    GpuView {
                        name: "Apple GPU"@,
                        vendor: Vendor::Apple,
                        total_bytes: mem,
                        free_bytes: split.1,
                        used_bytes: split.0,
                        arch_target: None,
                    },
                ]
            } else {
                gpus.map_values(|g: GpuView| backfilled(g, mem, split))
            }
        },
        None => gpus,
    }
}

/// Whether a GPU's memory figures agree: free and used memory each within the
/// total, and adding up to it when both are known.
pub open spec fn coherent(g: GpuView) -> bool {
    &&& g.free_bytes matches Some(f) ==> f <= g.total_bytes
    &&& g.used_bytes matches Some(u) ==> u <= g.total_bytes
    &&& (g.free_bytes, g.used_bytes) matches (Some(f), Some(u)) ==> f + u == g.total_bytes
}

/// `system_profiler` reports no usage: every GPU read from its output has
/// free and used memory unknown, which leaves them coherent, and carries no
/// AMD or NVIDIA target (only an Apple family, when it has one).
pub proof fn profiled_gpus_report_no_usage(ls: Seq<Seq<char>>)
    ensures
        forall|k: int|
            0 <= k < profile(ls).len() ==> (#[trigger] profile(ls)[k]).free_bytes is None
                && profile(ls)[k].used_bytes is None && coherent(profile(ls)[k]) && !(
            profile(ls)[k].arch_target matches Some(ArchTarget::Gfx(_))) && !(
            profile(ls)[k].arch_target matches Some(ArchTarget::Sm(_))),
    decreases ls.len(),
{
    if ls.len() > 0 {
        profiled_gpus_report_no_usage(ls.drop_last());
        let before = profile(ls.drop_last());
        assert forall|k: int| 0 <= k < profile(ls).len() implies (#[trigger] profile(ls)[k]).free_bytes
            is None && profile(ls)[k].used_bytes is None && !(
        profile(ls)[k].arch_target matches Some(ArchTarget::Gfx(_))) && !(
        profile(ls)[k].arch_target matches Some(ArchTarget::Sm(_))) by {
            if k < before.len() {
                assert(before[k].free_bytes is None);
            }
        }
    }
}

/// Finishing macOS detection keeps memory figures coherent: when every parsed
/// GPU's are, so are those of every GPU reported, backfilled or not. And
/// when no parsed GPU carries an AMD or NVIDIA target, every GPU reported is
/// well reported: named, with some memory, free and used within it.
pub proof fn unified_memory_stays_coherent(
    gpus: Seq<GpuView>,
    memsize: Option<u64>,
    used: Option<u64>,
)
    requires
        forall|k: int| 0 <= k < gpus.len() ==> coherent(#[trigger] gpus[k]),
    ensures
        forall|k: int|
            0 <= k < unified(gpus, memsize, used).len() ==> coherent(
                #[trigger] unified(gpus, memsize, used)[k],
            ),
        (forall|k: int|
            0 <= k < gpus.len() ==> !((#[trigger] gpus[k]).arch_target matches Some(ArchTarget::Gfx(_)))
                && !(gpus[k].arch_target matches Some(ArchTarget::Sm(_)))) ==> forall|k: int|
            0 <= k < unified(gpus, memsize, used).len() ==> well_reported(
                #[trigger] unified(gpus, memsize, used)[k],
            ),
{
    let all = backfilled_all(gpus, memsize, used);
    reveal_strlit("Apple GPU");
    assert forall|k: int| 0 <= k < all.len() implies coherent(#[trigger] all[k]) && (all[k] == gpus[k]
        || all[k].arch_target is None || all[k].arch_target == gpus[k].arch_target) by {
        match memsize {
            Some(mem) => {
                if gpus.len() > 0 {
                    assert(all[k] == backfilled(gpus[k], mem, split_of(mem, used)));
                }
            },
            None => {},
        }
    }
    lemma_kept(all);
    let out = kept(all);
    assert forall|k: int| 0 <= k < out.len() implies coherent(#[trigger] out[k]) by {
        let i = choose|i: int| 0 <= i < all.len() && all[i] == out[k];
        assert(coherent(all[i]));
    }
    if forall|k: int|
        0 <= k < gpus.len() ==> !((#[trigger] gpus[k]).arch_target matches Some(ArchTarget::Gfx(_)))
            && !(gpus[k].arch_target matches Some(ArchTarget::Sm(_))) {
        assert forall|k: int| 0 <= k < out.len() implies well_reported(#[trigger] out[k]) by {
            let i = choose|i: int| 0 <= i < all.len() && all[i] == out[k];
            assert(coherent(all[i]));
            assert(reportable(out[k]));
            if gpus.len() > 0 && memsize is Some {
                let g = gpus[i];
                assert(all[i].arch_target == g.arch_target);
            } else if memsize is None {
                let g = gpus[i];
                assert(all[i] == g);
            }
        }
    }
}

/// What the unified pool reports: physical memory as the total, the used
/// figure `vm_stat` gave as used, and the rest of physical memory as free;
/// both unknown when `vm_stat` gave nothing or more than is installed.
pub open spec fn took_the_pool(g: GpuView, memsize: Option<u64>, used: Option<u64>) -> bool {
    &&& memsize == Some(g.total_bytes)
    &&& match used {
        Some(u) => if u <= g.total_bytes {
            g.used_bytes == Some(u) && g.free_bytes == Some((g.total_bytes - u) as u64)
        } else {
            g.used_bytes is None && g.free_bytes is None
        },
        None => g.used_bytes is None && g.free_bytes is None,
    }
}

/// Every GPU macOS detection reports is either a parsed GPU that reported its
/// own memory, unchanged, or one that took the unified pool: physical memory
/// as its total, `vm_stat`'s used figure as its used memory and the rest as
/// free. With nothing parsed and physical memory known, the one GPU reported
/// is an Apple GPU that took the pool.
pub proof fn unified_split_is_what_vm_stat_reports(
    gpus: Seq<GpuView>,
    memsize: Option<u64>,
    used: Option<u64>,
)
    ensures
        forall|k: int|
            0 <= k < unified(gpus, memsize, used).len() ==> (gpus.contains(
                #[trigger] unified(gpus, memsize, used)[k],
            ) && unified(gpus, memsize, used)[k].total_bytes > 0) || took_the_pool(
                unified(gpus, memsize, used)[k],
                memsize,
                used,
            ),
        gpus.len() == 0 && memsize is Some && memsize->0 > 0 ==> unified(gpus, memsize, used).len()
            == 1 && unified(gpus, memsize, used)[0].name == "Apple GPU"@ && unified(
            gpus,
            memsize,
            used,
        )[0].vendor == Vendor::Apple && took_the_pool(unified(gpus, memsize, used)[0], memsize, used),
{
    let all = backfilled_all(gpus, memsize, used);
    let out = unified(gpus, memsize, used);
    lemma_kept(all);
    assert forall|k: int| 0 <= k < out.len() implies (gpus.contains(#[trigger] out[k])
        && out[k].total_bytes > 0) || took_the_pool(out[k], memsize, used) by {
        let i = choose|i: int| 0 <= i < all.len() && all[i] == out[k];
        assert(reportable(out[k]));
        match memsize {
            Some(mem) => {
                if gpus.len() > 0 {
                    assert(all[i] == backfilled(gpus[i], mem, split_of(mem, used)));
                    if gpus[i].total_bytes != 0 {
                        assert(gpus.contains(gpus[i]));
                    }
                }
            },
            None => {
                assert(gpus.contains(gpus[i]));
            },
        }
    }
    if gpus.len() == 0 && memsize is Some && memsize->0 > 0 {
        reveal_strlit("Apple GPU");
        assert(all.len() == 1);
        assert(reportable(all[0]));
        assert(all.drop_last() =~= Seq::<GpuView>::empty());
        assert(kept(all.drop_last()) =~= Seq::<GpuView>::empty());
        assert(out =~= seq![all[0]]);
    }
}

/// The parsed GPUs completed with physical memory and the unified split.
fn backfill(gpus: Vec<GpuInfo>, memsize: Option<u64>, used: Option<u64>) -> (r: Vec<GpuInfo>)
    ensures
        r@.map_values(|g: GpuInfo| g@) == backfilled_all(gpus@.map_values(|g: GpuInfo| g@), memsize, used),
{
    let ghost views = gpus@.map_values(|g: GpuInfo| g@);
    let mem = match memsize {
        Some(m) => m,
        None => {
            assert(gpus@.map_values(|g: GpuInfo| g@) =~= views);
            return gpus;
        },
    };
    let split = unified_split(mem, used);
    if gpus.len() == 0 {
        let mut out: Vec<GpuInfo> = Vec::new();
        let mut name = String::new();
        push_str(&mut name, "Apple GPU");
        out.push(
            GpuInfo {
                name,
                vendor: Vendor::Apple,
                total_bytes: mem,
                free_bytes: split.1,
                used_bytes: split.0,
                arch_target: None,
            },
        );
        assert(out@.map_values(|g: GpuInfo| g@) =~= backfilled_all(views, memsize, used));
        return out;
    }
    let mut rest = gpus;
    let mut out: Vec<GpuInfo> = Vec::new();
    let n = rest.len();
    let mut k: usize = 0;
    while rest.len() > 0
        invariant
            n == views.len(),
            k + rest@.len() == n,
            forall|j: int| 0 <= j < rest@.len() ==> #[trigger] rest@[j]@ == views[k + j],
            out@.len() == k,
            forall|j: int|
                0 <= j < k ==> #[trigger] out@[j]@ == backfilled(views[j], mem, split),
        decreases rest@.len(),
    {
        let mut g = rest.remove(0);
        assert(g@ == views[k as int]);
        if g.total_bytes == 0 {
            g.total_bytes = mem;
            g.used_bytes = split.0;
            g.free_bytes = split.1;
        }
        out.push(g);
        proof {
            assert forall|j: int| 0 <= j < rest@.len() implies #[trigger] rest@[j]@ == views[k + 1
                + j] by {}
        }
        k = k + 1;
    }
    assert(out@.map_values(|g: GpuInfo| g@) =~= backfilled_all(views, memsize, used));
    out
}

/// Whether a GPU is worth reporting: it has a name and some memory.
pub open spec fn reportable(g: GpuView) -> bool {
    g.total_bytes > 0 && g.name.len() > 0
}

/// The reportable GPUs of `gs`, in order.
pub open spec fn kept(gs: Seq<GpuView>) -> Seq<GpuView>
    decreases gs.len(),
{
    if gs.len() == 0 {
        gs
    } else if reportable(gs.last()) {
        kept(gs.drop_last()).push(gs.last())
    } else {
        kept(gs.drop_last())
    }
}

/// What `kept` leaves: reportable GPUs, each one of those it was given.
pub proof fn lemma_kept(gs: Seq<GpuView>)
    ensures
        forall|k: int|
            0 <= k < kept(gs).len() ==> reportable(#[trigger] kept(gs)[k]) && gs.contains(kept(gs)[k]),
    decreases gs.len(),
{
    if gs.len() > 0 {
        lemma_kept(gs.drop_last());
        let b = kept(gs.drop_last());
        assert forall|k: int| 0 <= k < kept(gs).len() implies reportable(#[trigger] kept(gs)[k])
            && gs.contains(kept(gs)[k]) by {
            if k < b.len() {
                assert(kept(gs)[k] == b[k]);
                let i = choose|i: int| 0 <= i < gs.drop_last().len() && gs.drop_last()[i] == b[k];
                assert(gs[i] == b[k]);
            } else {
                assert(gs[gs.len() - 1] == gs.last());
            }
        }
    }
}

/// What macOS detection reports from the parsed GPUs, physical memory and the
/// `vm_stat` usage: each GPU without VRAM takes physical memory and the
/// unified split, and with nothing parsed a single `Apple GPU` does; a GPU
/// left with no memory or no name is not reported.
pub open spec fn unified(gpus: Seq<GpuView>, memsize: Option<u64>, used: Option<u64>) -> Seq<
    GpuView,
> {
    kept(backfilled_all(gpus, memsize, used))
}

fn keep_reportable(gpus: Vec<GpuInfo>) -> (r: Vec<GpuInfo>)
    ensures
        r@.map_values(|g: GpuInfo| g@) == kept(gpus@.map_values(|g: GpuInfo| g@)),
{
    let ghost views = gpus@.map_values(|g: GpuInfo| g@);
    let mut rest = gpus;
    let mut out: Vec<GpuInfo> = Vec::new();
    let n = rest.len();
    let mut i: usize = 0;
    assert(views.take(0) =~= Seq::<GpuView>::empty());
    while rest.len() > 0
        invariant
            n == views.len(),
            i + rest@.len() == n,
            forall|j: int| 0 <= j < rest@.len() ==> #[trigger] rest@[j]@ == views[i + j],
            out@.map_values(|g: GpuInfo| g@) == kept(views.take(i as int)),
        decreases rest@.len(),
    {
        let g = rest.remove(0);
        assert(g@ == views[i as int]);
        assert(views.take(i + 1).drop_last() =~= views.take(i as int));
        assert(views.take(i + 1).last() == views[i as int]);
        proof {
            assert forall|j: int| 0 <= j < rest@.len() implies #[trigger] rest@[j]@ == views[i + 1
                + j] by {}
        }
        if g.total_bytes > 0 && !g.name.as_str().is_empty() {
            let ghost prior = out@;
            out.push(g);
            assert(out@.map_values(|g: GpuInfo| g@) =~= prior.map_values(|g: GpuInfo| g@).push(
                views[i as int],
            ));
        }
        i = i + 1;
    }
    assert(views.take(n as int) =~= views);
    out
}

/// Finish macOS detection: Apple Silicon reports no VRAM line, so a GPU with
/// a zero total takes physical memory `memsize`, and with it the unified
/// pool's usage from `vm_stat` (`used`); a discrete card that reported its own
/// VRAM keeps no split. When nothing was parsed, physical memory still yields
/// one `Apple GPU`. A GPU still without memory, or without a name, is not
/// reported.
pub fn unify(gpus: Vec<GpuInfo>, memsize: Option<u64>, used: Option<u64>) -> (r: Vec<GpuInfo>)
    ensures
        r@.map_values(|g: GpuInfo| g@) == unified(gpus@.map_values(|g: GpuInfo| g@), memsize, used),
        forall|k: int| 0 <= k < r@.len() ==> (#[trigger] r@[k]).total_bytes > 0,
        (forall|k: int|
            0 <= k < gpus@.len() ==> coherent((#[trigger] gpus@[k])@) && !(
            gpus@[k].arch_target matches Some(ArchTarget::Gfx(_))) && !(
            gpus@[k].arch_target matches Some(ArchTarget::Sm(_)))) ==> forall|k: int|
            0 <= k < r@.len() ==> well_reported(#[trigger] r@[k]@),
{
    let ghost views = gpus@.map_values(|g: GpuInfo| g@);
    let r = keep_reportable(backfill(gpus, memsize, used));
    proof {
        let out = r@.map_values(|g: GpuInfo| g@);
        lemma_kept(backfilled_all(views, memsize, used));
        assert forall|k: int| 0 <= k < r@.len() implies (#[trigger] r@[k]).total_bytes > 0 by {
            assert(out[k] == r@[k]@);
        }
        if forall|k: int|
            0 <= k < gpus@.len() ==> coherent((#[trigger] gpus@[k])@) && !(
            gpus@[k].arch_target matches Some(ArchTarget::Gfx(_))) && !(
            gpus@[k].arch_target matches Some(ArchTarget::Sm(_))) {
            assert forall|k: int| 0 <= k < views.len() implies coherent(#[trigger] views[k]) && !(
            views[k].arch_target matches Some(ArchTarget::Gfx(_))) && !(
            views[k].arch_target matches Some(ArchTarget::Sm(_))) by {
                assert(views[k] == gpus@[k]@);
            }
        }
        if forall|k: int|
            0 <= k < views.len() ==> coherent(#[trigger] views[k]) && !(
            views[k].arch_target matches Some(ArchTarget::Gfx(_))) && !(
            views[k].arch_target matches Some(ArchTarget::Sm(_))) {
            unified_memory_stays_coherent(views, memsize, used);
            assert forall|k: int| 0 <= k < r@.len() implies well_reported(#[trigger] r@[k]@) by {
                assert(out[k] == r@[k]@);
            }
        }
    }
    r
}

/// `system_profiler` vendor ids name Apple (`0x106b`), AMD (`0x1002`),
/// NVIDIA (`0x10de`) and Intel (`0x8086`), whatever the case of the id and
/// whitespace around it; every other id is an unknown vendor.
pub proof fn profiler_vendor_ids(id: Seq<char>)
    ensures
        (vendor_of(id) == Vendor::Apple) <==> lowercase(trim(id)) == seq!['0', 'x', '1', '0', '6', 'b'],
        (vendor_of(id) == Vendor::Amd) <==> lowercase(trim(id)) == seq!['0', 'x', '1', '0', '0', '2'],
        (vendor_of(id) == Vendor::Nvidia) <==> lowercase(trim(id)) == seq!['0', 'x', '1', '0', 'd', 'e'],
        (vendor_of(id) == Vendor::Intel) <==> lowercase(trim(id)) == seq!['0', 'x', '8', '0', '8', '6'],
{
    reveal_strlit("0x106b");
    reveal_strlit("0x1002");
    reveal_strlit("0x10de");
    reveal_strlit("0x8086");
    assert("0x106b"@ =~= seq!['0', 'x', '1', '0', '6', 'b']);
    assert("0x1002"@ =~= seq!['0', 'x', '1', '0', '0', '2']);
    assert("0x10de"@ =~= seq!['0', 'x', '1', '0', 'd', 'e']);
    assert("0x8086"@ =~= seq!['0', 'x', '8', '0', '8', '6']);
}

/// A run of digits followed by something that is not a digit is read whole.
proof fn lemma_digit_run(d: Seq<char>, rest: Seq<char>)
    requires
        forall|i: int| 0 <= i < d.len() ==> 48 <= (#[trigger] d[i]) as u32 <= 57,
        rest.len() == 0 || !(48 <= (rest[0] as u32) <= 57),
    ensures
        digit_run(d + rest) == d.len(),
    decreases d.len(),
{
    if d.len() > 0 {
        assert((d + rest)[0] == d[0]);
        assert((d + rest).drop_first() =~= d.drop_first() + rest);
        assert forall|i: int| 0 <= i < d.drop_first().len() implies 48 <= (
        #[trigger] d.drop_first()[i]) as u32 <= 57 by {
            assert(d.drop_first()[i] == d[i + 1]);
        }
        lemma_digit_run(d.drop_first(), rest);
    } else {
        assert(d + rest =~= rest);
    }
}

/// Apple Silicon chips take their Metal family from their generation — M1
/// is `apple7`, M2 `apple8`, M3 and M4 `apple9`, M5 `apple10` — whatever
/// follows the number (`Pro`, `Max`, ...); any other generation has none, and
/// so does any name that is not `Apple M` and a number.
pub proof fn apple_chip_families(n: u32, rest: Seq<char>, name: Seq<char>)
    requires
        rest.len() == 0 || !(48 <= (rest[0] as u32) <= 57),
    ensures
        apple_family_of(seq!['A', 'p', 'p', 'l', 'e', ' ', 'M'] + dec(n as nat) + rest) == (if n
            == 1 {
            Some(AppleFamily { generation: 7 })
        } else if n == 2 {
            Some(AppleFamily { generation: 8 })
        } else if n == 3 || n == 4 {
            Some(AppleFamily { generation: 9 })
        } else if n == 5 {
            Some(AppleFamily { generation: 10 })
        } else {
            None
        }),
        (name.len() < 7 || name.take(7) != seq!['A', 'p', 'p', 'l', 'e', ' ', 'M']) ==> apple_family_of(
            name,
        ) is None,
{
    reveal_strlit("Apple M");
    let p = seq!['A', 'p', 'p', 'l', 'e', ' ', 'M'];
    assert("Apple M"@ =~= p);
    let d = dec(n as nat);
    let s = p + d + rest;
    lemma_dec_digits(n as nat);
    lemma_parse_dec(n as nat, u32::MAX as nat);
    assert(s.take(7) =~= p);
    assert(s.skip(7) =~= d + rest);
    lemma_digit_run(d, rest);
    assert((d + rest).take(d.len() as int) =~= d);
}

} // verus!
