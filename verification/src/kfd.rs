//! AMD compute topology from KFD sysfs (`/sys/class/kfd/kfd/topology/nodes`).
//!
//! Each node is either the host CPU (`gfx_target_version 0`, skipped) or a GPU
//! exposing the `gfx` target its `ROCm`/HIP code objects must be built for.
//! `drm_render_minor` ties a node back to the DRM card, which is how a
//! [`GfxTarget`] reaches the right [`crate::GpuInfo`]. This module reads the
//! `properties` and `name` files a node holds; listing and reading them is
//! the caller's.
use vstd::prelude::*;
use crate::GfxTarget;
use crate::text::{
    chars_of, lines, lines_of, parse_uint, parse_unsigned, push_chars, same_chars, trim, trimmed,
    words, words_of,
};

verus! {

broadcast use vstd::string::group_string_axioms;

/// One GPU node from the KFD topology.
#[derive(Debug)]
pub struct ComputeNode {
    /// Minor number of the node's render device (`128` for `renderD128`).
    pub render_minor: u32,
    /// Kernel codename for the ASIC, e.g. `cyan_skillfish`, when non-empty.
    pub name: Option<String>,
    /// Architecture the node's code objects target.
    pub gfx_target: GfxTarget,
}

/// What a [`ComputeNode`] holds, with its name as characters.
pub struct ComputeNodeView {
    pub render_minor: u32,
    pub name: Option<Seq<char>>,
    pub gfx_target: GfxTarget,
}

impl View for ComputeNode {
    type V = ComputeNodeView;

    open spec fn view(&self) -> ComputeNodeView {
        ComputeNodeView {
            render_minor: self.render_minor,
            name: match self.name {
                Some(n) => Some(n@),
                None => None,
            },
            gfx_target: self.gfx_target,
        }
    }
}

/// The value `property` finds for `key` among `ls`: the first line whose first
/// word is `key` decides, with its second word parsed as a `u64`.
pub open spec fn property_in(ls: Seq<Seq<char>>, key: Seq<char>) -> Option<u64>
    decreases ls.len(),
{
    if ls.len() == 0 {
        None
    } else {
        let w = words(ls[0]);
        if w.len() > 0 && w[0] == key {
            if w.len() > 1 {
                match parse_uint(w[1], false, u64::MAX as nat) {
                    Some(v) => Some(v as u64),
                    None => None,
                }
            } else {
                None
            }
        } else {
            property_in(ls.drop_first(), key)
        }
    }
}

/// Look up one `key value` pair in a KFD `properties` file.
pub fn property(content: &str, key: &str) -> (r: Option<u64>)
    ensures
        r == property_in(lines(content@), key@),
{
    let chars = chars_of(content);
    let key_chars = chars_of(key);
    let ls = lines_of(chars.as_slice());
    let n = ls.len();
    let mut i: usize = 0;
    let ghost all = lines(chars@);
    assert(all.skip(0) =~= all);
    while i < n
        invariant
            i <= n == ls@.len() == all.len(),
            all == lines(content@),
            key_chars@ == key@,
            forall|k: int| 0 <= k < n ==> #[trigger] ls@[k]@ == all[k],
            property_in(all, key@) == property_in(all.skip(i as int), key@),
        decreases n - i,
    {
        let w = words_of(ls[i]);
        assert(all.skip(i as int)[0] == all[i as int]);
        assert(all.skip(i as int).drop_first() =~= all.skip(i + 1));
        if w.len() > 0 && same_chars(w[0], key_chars.as_slice()) {
            if w.len() > 1 {
                return match parse_unsigned(w[1], false, u64::MAX) {
                    Some(v) => Some(v),
                    None => None,
                };
            } else {
                return None;
            }
        }
        i = i + 1;
    }
    None
}

/// `gfx_target_version` decoded: `major * 10000 + minor * 100 + step`. A
/// version whose major is `0` names no GPU target: `0` marks a CPU node, and
/// no `gfx` architecture has major `0`.
pub open spec fn gfx_target_of(version: u64) -> Option<GfxTarget> {
    if version / 10000 == 0 || version / 10000 > u32::MAX {
        None
    } else {
        Some(
            GfxTarget {
                major: (version / 10000) as u32,
                minor: ((version / 100) % 100) as u32,
                step: (version % 100) as u32,
            },
        )
    }
}

/// Decode `gfx_target_version` — `major * 10000 + minor * 100 + step`, so
/// `100103` is `gfx1013`. Returns `None` for `0`, which marks a CPU node, and
/// for any version with major `0`, which names no GPU.
pub fn parse_gfx_target(version: u64) -> (r: Option<GfxTarget>)
    ensures
        r == gfx_target_of(version),
        r matches Some(t) ==> t.major > 0,
{
    let major = version / 10_000;
    if major == 0 || major > 0xFFFF_FFFF {
        return None;
    }
    Some(GfxTarget::new(major as u32, (version / 100 % 100) as u32, (version % 100) as u32))
}

/// Encoding a target and decoding it gives it back, for every target whose
/// minor and stepping fit the two decimal digits the encoding gives them.
pub proof fn gfx_target_version_round_trip(t: GfxTarget)
    requires
        t.minor < 100,
        t.step < 100,
        t.major > 0,
        (t.major as int) * 10000 + (t.minor as int) * 100 + (t.step as int) <= u64::MAX,
    ensures
        gfx_target_of(((t.major as int) * 10000 + (t.minor as int) * 100 + (t.step as int)) as u64)
            == Some(t),
{
    let v = (t.major as int) * 10000 + (t.minor as int) * 100 + (t.step as int);
    assert(v / 10000 == t.major as int) by (nonlinear_arith)
        requires
            v == (t.major as int) * 10000 + (t.minor as int) * 100 + (t.step as int),
            0 <= t.minor < 100,
            0 <= t.step < 100,
    ;
    assert(v / 100 == (t.major as int) * 100 + t.minor as int) by (nonlinear_arith)
        requires
            v == (t.major as int) * 10000 + (t.minor as int) * 100 + (t.step as int),
            0 <= t.step < 100,
    ;
    assert(((t.major as int) * 100 + t.minor as int) % 100 == t.minor as int) by (nonlinear_arith)
        requires
            0 <= t.minor < 100,
    ;
    assert(v % 100 == t.step as int) by (nonlinear_arith)
        requires
            v == (t.major as int) * 10000 + (t.minor as int) * 100 + (t.step as int),
            0 <= t.step < 100,
    ;
}

/// The render minor and target of a node, when `properties` describes a GPU:
/// a non-zero target, and a render minor that fits `u32` and is above `0`.
pub open spec fn node_ids_of(properties: Seq<char>) -> Option<(u32, GfxTarget)> {
    let ls = lines(properties);
    match property_in(ls, "gfx_target_version"@) {
        Some(v) => match gfx_target_of(v) {
            Some(t) => match property_in(ls, "drm_render_minor"@) {
                Some(m) => if 0 < m <= u32::MAX {
                    Some((m as u32, t))
                } else {
                    None
                },
                None => None,
            },
            None => None,
        },
        None => None,
    }
}

/// The render minor and `gfx` target a node's `properties` file gives, or
/// `None` for a CPU node or one without a usable render minor (a minor of
/// `0` would collide with a real card).
pub fn node_ids(properties: &str) -> (r: Option<(u32, GfxTarget)>)
    ensures
        r == node_ids_of(properties@),
        r matches Some((m, t)) ==> m > 0 && t.major > 0,
{
    let target = match property(properties, "gfx_target_version") {
        Some(v) => match parse_gfx_target(v) {
            Some(t) => t,
            None => return None,
        },
        None => return None,
    };
    match property(properties, "drm_render_minor") {
        Some(m) => if 0 < m && m <= 0xFFFF_FFFF {
            Some((m as u32, target))
        } else {
            None
        },
        None => None,
    }
}

/// A node's name as read from its `name` file: trimmed, and absent when empty.
pub open spec fn node_name_of(text: Option<Seq<char>>) -> Option<Seq<char>> {
    match text {
        Some(t) => if trim(t).len() > 0 {
            Some(trim(t))
        } else {
            None
        },
        None => None,
    }
}

impl ComputeNode {
    /// The node for `render_minor` and `gfx_target`, named by the contents of
    /// its `name` file when that was readable.
    pub fn new(render_minor: u32, gfx_target: GfxTarget, name_file: Option<&str>) -> (n: Self)
        ensures
            n@.render_minor == render_minor,
            n@.gfx_target == gfx_target,
            n@.name == node_name_of(
                match name_file {
                    Some(t) => Some(t@),
                    None => None,
                },
            ),
            n@.name matches Some(s) ==> s.len() > 0,
    {
        let name = match name_file {
            Some(t) => {
                let chars = chars_of(t);
                let trimmed_name = trimmed(chars.as_slice());
                if trimmed_name.len() > 0 {
                    let mut s = String::new();
                    push_chars(&mut s, trimmed_name);
                    assert(s@ =~= trim(t@));
                    Some(s)
                } else {
                    None
                }
            },
            None => None,
        };
        ComputeNode { render_minor, name, gfx_target }
    }
}

/// Where in `nodes` the node rendering through `minor` is, if any: the first.
pub fn find_node(nodes: &Vec<ComputeNode>, minor: u32) -> (r: Option<usize>)
    ensures
        match r {
            Some(i) => i < nodes@.len() && nodes@[i as int].render_minor == minor && forall|j: int|
                0 <= j < i ==> nodes@[j].render_minor != minor,
            None => forall|j: int| 0 <= j < nodes@.len() ==> nodes@[j].render_minor != minor,
        },
{
    let n = nodes.len();
    let mut i: usize = 0;
    while i < n
        invariant
            i <= n == nodes@.len(),
            forall|j: int| 0 <= j < i ==> nodes@[j].render_minor != minor,
        decreases n - i,
    {
        if nodes[i].render_minor == minor {
            return Some(i);
        }
        i = i + 1;
    }
    None
}

} // verus!
