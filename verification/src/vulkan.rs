//! Vulkan runtime detection.
//!
//! Vulkan advertises itself through two filesystem facts that need no linking:
//! the loader (`libvulkan.so.1`) and the ICD manifests each installed driver
//! drops under `/usr/share/vulkan/icd.d`. A manifest yields that driver's
//! *advertised* API version, and the host reports the highest across them.
//! Looking for the loader and reading the manifests is the caller's; what the
//! manifests say, and what the host is, is here.
use vstd::prelude::*;
use crate::{dotted_version, le3, le3_exec, lemma_max3, lemma_max3_members, max3, parse_dotted_chars, VulkanHost, VulkanVersion};
use crate::text::{chars_of, same_chars};

verus! {

broadcast use vstd::string::group_string_axioms;

/// A JSON document as `serde_json` reads it. Object members are held in key
/// order, each key once; numbers by their text.
#[derive(Debug)]
pub enum JsonValue {
    Null,
    Bool(bool),
    Number(String),
    Str(String),
    Array(Vec<JsonValue>),
    Object(Vec<(String, JsonValue)>),
}

#[verifier::external_type_specification]
#[verifier::external_body]
pub struct ExJsonValue(serde_json::Value);

/// What `serde_json::from_str` makes of `text`: the document, or `None` when
/// `text` is not JSON.
pub uninterp spec fn json_of(text: Seq<char>) -> Option<JsonValue>;

/// Converts a `serde_json::Value` into a [`JsonValue`], variant by variant:
/// strings and booleans as they are, numbers by the text `serde_json`
/// renders them as, arrays and objects element by element in the value's own
/// order. It is the result conversion of [`parse_json`], whose body alone
/// calls it; it states nothing of its own.
#[verifier::external_body]
fn from_serde(v: &serde_json::Value) -> JsonValue {
    match v {
        serde_json::Value::Null => JsonValue::Null,
        serde_json::Value::Bool(b) => JsonValue::Bool(*b),
        serde_json::Value::Number(n) => JsonValue::Number(n.to_string()),
        serde_json::Value::String(s) => JsonValue::Str(s.clone()),
        serde_json::Value::Array(a) => JsonValue::Array(a.iter().map(from_serde).collect()),
        serde_json::Value::Object(m) => JsonValue::Object(
            m.iter().map(|(k, v)| (k.clone(), from_serde(v))).collect(),
        ),
    }
}

/// `serde_json::from_str::<serde_json::Value>`: the JSON document `text`
/// holds, converted by [`from_serde`], or `None` when it does not parse.
/// Claimed: the result is [`json_of`] of the text, a function of the text
/// alone (the same text always parses to the same document). What that
/// document is for a given text — the JSON grammar — is not stated.
#[verifier::external_body]
fn parse_json(text: &str) -> (r: Option<JsonValue>)
    ensures
        r == json_of(text@),
{
    serde_json::from_str::<serde_json::Value>(text).ok().map(|v| from_serde(&v))
}

/// The value of the first member of `members` named `key`.
pub open spec fn member(members: Seq<(String, JsonValue)>, key: Seq<char>) -> Option<JsonValue>
    decreases members.len(),
{
    if members.len() == 0 {
        None
    } else if members[0].0@ == key {
        Some(members[0].1)
    } else {
        member(members.drop_first(), key)
    }
}

/// `Value::get(key)` with a string key: an object's member, and `None` for
/// any other kind of value.
pub open spec fn field(v: Option<JsonValue>, key: Seq<char>) -> Option<JsonValue> {
    match v {
        Some(JsonValue::Object(members)) => member(members@, key),
        _ => None,
    }
}

/// `ICD.api_version` of a manifest document, when it is a string.
pub open spec fn api_version_text(doc: Option<JsonValue>) -> Option<Seq<char>> {
    match field(field(doc, "ICD"@), "api_version"@) {
        Some(JsonValue::Str(s)) => Some(s@),
        _ => None,
    }
}

/// The API version a manifest document advertises: `ICD.api_version` as a
/// dotted version.
pub open spec fn icd_version_of(doc: Option<JsonValue>) -> Option<VulkanVersion> {
    match api_version_text(doc) {
        Some(t) => match dotted_version(t) {
            Some((major, minor, patch)) => Some(VulkanVersion { major, minor, patch }),
            None => None,
        },
        None => None,
    }
}

fn get_member<'a>(v: &'a JsonValue, key: &[char]) -> (r: Option<&'a JsonValue>)
    ensures
        match r {
            Some(x) => field(Some(*v), key@) == Some(*x),
            None => field(Some(*v), key@) is None,
        },
{
    match v {
        JsonValue::Object(members) => {
            let n = members.len();
            let mut i: usize = 0;
            assert(members@.skip(0) =~= members@);
            while i < n
                invariant
                    i <= n == members@.len(),
                    field(Some(*v), key@) == member(members@, key@),
                    member(members@, key@) == member(members@.skip(i as int), key@),
                decreases n - i,
            {
                assert(members@.skip(i as int)[0] == members@[i as int]);
                assert(members@.skip(i as int).drop_first() =~= members@.skip(i + 1));
                let name = chars_of(members[i].0.as_str());
                if same_chars(name.as_slice(), key) {
                    return Some(&members[i].1);
                }
                i = i + 1;
            }
            None
        },
        _ => None,
    }
}

/// The API version a parsed manifest advertises: `ICD.api_version`, which
/// must be a string holding a dotted version. `None` when it is missing, not
/// under `ICD`, not a string, or not a version.
pub fn icd_api_version(doc: Option<&JsonValue>) -> (r: Option<VulkanVersion>)
    ensures
        r == icd_version_of(
            match doc {
                Some(d) => Some(*d),
                None => None,
            },
        ),
{
    let d = match doc {
        Some(d) => d,
        None => return None,
    };
    let icd_key = chars_of("ICD");
    let version_key = chars_of("api_version");
    let icd = match get_member(d, icd_key.as_slice()) {
        Some(x) => x,
        None => return None,
    };
    let text = match get_member(icd, version_key.as_slice()) {
        Some(JsonValue::Str(s)) => s,
        _ => return None,
    };
    let chars = chars_of(text.as_str());
    match parse_dotted_chars(chars.as_slice()) {
        Some((major, minor, patch)) => Some(VulkanVersion::new(major, minor, patch)),
        None => None,
    }
}

/// Pull `ICD.api_version` out of a driver manifest.
///
/// The manifest is small, fixed-shape JSON, so this reads the one field it
/// needs rather than modelling the whole document.
pub fn parse_icd_api_version(content: &str) -> (r: Option<VulkanVersion>)
    ensures
        r == icd_version_of(json_of(content@)),
{
    let doc = parse_json(content);
    match &doc {
        Some(d) => icd_api_version(Some(d)),
        None => icd_api_version(None),
    }
}

/// Index of the last `.` in `s`.
pub open spec fn last_dot(s: Seq<char>) -> Option<int>
    decreases s.len(),
{
    if s.len() == 0 {
        None
    } else if s.last() == '.' {
        Some(s.len() - 1)
    } else {
        last_dot(s.drop_last())
    }
}

/// Whether a file name has the extension `json`, as `Path::extension` reads
/// one: the text after the last `.`, when that `.` is not the name's first
/// character.
pub open spec fn manifest_name(name: Seq<char>) -> bool {
    match last_dot(name) {
        Some(i) => i > 0 && name.skip(i + 1) == "json"@,
        None => false,
    }
}

/// Whether a file in an ICD directory is read as a driver manifest: `.json`
/// files only, as the loader reads them.
pub fn is_manifest_name(name: &str) -> (b: bool)
    ensures
        b == manifest_name(name@),
{
    let chars = chars_of(name);
    let n = chars.len();
    let mut j: usize = n;
    assert(chars@.take(n as int) =~= chars@);
    while j > 0 && chars[j - 1] != '.'
        invariant
            j <= n == chars@.len(),
            last_dot(chars@) == last_dot(chars@.take(j as int)),
        decreases j,
    {
        assert(chars@.take(j as int).drop_last() =~= chars@.take(j - 1));
        j = j - 1;
    }
    if j == 0 {
        assert(chars@.take(0) =~= Seq::<char>::empty());
        return false;
    }
    assert(last_dot(chars@.take(j as int)) == Some(j - 1));
    let i = j - 1;
    if i == 0 {
        return false;
    }
    let rest = vstd::slice::slice_subrange(chars.as_slice(), j, n);
    assert(rest@ =~= chars@.skip(i + 1));
    same_chars(rest, chars_of("json").as_slice())
}

/// A version's parts, major first.
pub open spec fn parts(v: VulkanVersion) -> (u32, u32, u32) {
    (v.major, v.minor, v.patch)
}

/// The versions the manifests in `docs` advertise, in order, skipping those
/// that advertise none.
pub open spec fn advertised(docs: Seq<Option<VulkanVersion>>) -> Seq<VulkanVersion>
    decreases docs.len(),
{
    if docs.len() == 0 {
        seq![]
    } else {
        let rest = advertised(docs.drop_last());
        match docs.last() {
            Some(v) => rest.push(v),
            None => rest,
        }
    }
}

/// The highest of the advertised versions.
pub open spec fn highest_of(versions: Seq<Option<VulkanVersion>>) -> Option<VulkanVersion> {
    match max3(advertised(versions).map_values(|v: VulkanVersion| parts(v))) {
        Some((major, minor, patch)) => Some(VulkanVersion { major, minor, patch }),
        None => None,
    }
}

/// The highest API version among the manifests' (`None` for one that
/// advertises none). Highest rather than lowest: a host with both a software
/// rasterizer and a real driver can run what the real driver supports.
pub fn highest_api_version(versions: &Vec<Option<VulkanVersion>>) -> (r: Option<VulkanVersion>)
    ensures
        r == highest_of(versions@),
{
    let n = versions.len();
    let mut best: Option<VulkanVersion> = None;
    let mut i: usize = 0;
    assert(versions@.take(0) =~= Seq::<Option<VulkanVersion>>::empty());
    while i < n
        invariant
            i <= n == versions@.len(),
            best == highest_of(versions@.take(i as int)),
        decreases n - i,
    {
        let ghost before = advertised(versions@.take(i as int));
        assert(versions@.take(i + 1).drop_last() =~= versions@.take(i as int));
        assert(versions@.take(i + 1).last() == versions@[i as int]);
        match versions[i] {
            Some(v) => {
                assert(advertised(versions@.take(i + 1)) == before.push(v));
                let ghost ps = before.map_values(|v: VulkanVersion| parts(v));
                assert(before.push(v).map_values(|v: VulkanVersion| parts(v)) =~= ps.push(parts(v)));
                assert(ps.push(parts(v)).drop_last() =~= ps);
                assert(ps.push(parts(v)).last() == parts(v));
                best = match best {
                    None => Some(v),
                    Some(b) => if le3_exec((b.major, b.minor, b.patch), (v.major, v.minor, v.patch)) {
                        Some(v)
                    } else {
                        Some(b)
                    },
                };
            },
            None => {
                assert(advertised(versions@.take(i + 1)) == before);
            },
        }
        i = i + 1;
    }
    assert(versions@.take(n as int) =~= versions@);
    best
}

/// What the Vulkan probe reports: nothing without a loader, since manifests
/// alone describe drivers nothing can dispatch to; otherwise the highest
/// version the manifests advertise, and nothing when none advertises one
/// with a major above `0` (no Vulkan API has major `0`).
pub open spec fn host_of(loader: bool, versions: Seq<Option<VulkanVersion>>) -> Option<VulkanHost> {
    if !loader {
        None
    } else {
        match highest_of(versions) {
            Some(v) => if v.major > 0 {
                Some(VulkanHost { api_version: v })
            } else {
                None
            },
            None => None,
        }
    }
}

/// The runtime from whether the loader is installed and the contents of each
/// driver manifest found: both halves are required.
pub fn host_from(loader: bool, manifests: &Vec<String>) -> (r: Option<VulkanHost>)
    ensures
        r == host_of(
            loader,
            manifests@.map_values(|m: String| icd_version_of(json_of(m@))),
        ),
        r matches Some(h) ==> h.api_version.major > 0,
{
    if !loader {
        return None;
    }
    let ghost docs = manifests@.map_values(|m: String| icd_version_of(json_of(m@)));
    let mut versions: Vec<Option<VulkanVersion>> = Vec::new();
    let n = manifests.len();
    let mut i: usize = 0;
    while i < n
        invariant
            i <= n == manifests@.len(),
            docs == manifests@.map_values(|m: String| icd_version_of(json_of(m@))),
            versions@ == docs.take(i as int),
        decreases n - i,
    {
        versions.push(parse_icd_api_version(manifests[i].as_str()));
        i = i + 1;
        assert(versions@ =~= docs.take(i as int));
    }
    assert(docs.take(n as int) =~= docs);
    match highest_api_version(&versions) {
        Some(v) => if v.major > 0 {
            Some(VulkanHost { api_version: v })
        } else {
            None
        },
        None => None,
    }
}

/// The version reported is one some manifest advertises, and none advertises
/// a higher one.
pub proof fn highest_is_the_maximum(versions: Seq<Option<VulkanVersion>>)
    ensures
        highest_of(versions) is None <==> forall|i: int|
            0 <= i < versions.len() ==> #[trigger] versions[i] is None,
        highest_of(versions) matches Some(h) ==> (exists|i: int|
            0 <= i < versions.len() && #[trigger] versions[i] == Some(h)) && forall|i: int|
            0 <= i < versions.len() ==> (#[trigger] versions[i] matches Some(v) ==> le3(
                parts(v),
                parts(h),
            )),
{
    lemma_advertised(versions);
    let ps = advertised(versions).map_values(|v: VulkanVersion| parts(v));
    lemma_max3(ps);
    if highest_of(versions) is None {
        assert forall|i: int| 0 <= i < versions.len() implies #[trigger] versions[i] is None by {
            if versions[i] is Some {
                let k = choose|k: int|
                    0 <= k < advertised(versions).len() && advertised(versions)[k] == versions[i]->0;
                assert(ps[k] == parts(versions[i]->0));
            }
        }
    } else {
        let h = highest_of(versions)->0;
        let m = max3(ps)->0;
        let k = choose|k: int| 0 <= k < ps.len() && ps[k] == m;
        let i = choose|i: int|
            0 <= i < versions.len() && versions[i] == Some(advertised(versions)[k]);
        assert(versions[i] == Some(h));
        assert forall|j: int| 0 <= j < versions.len() implies (#[trigger] versions[j] matches Some(
            v,
        ) ==> le3(parts(v), parts(h))) by {
            if versions[j] is Some {
                let k2 = choose|k2: int|
                    0 <= k2 < advertised(versions).len() && advertised(versions)[k2]
                        == versions[j]->0;
                assert(ps[k2] == parts(versions[j]->0));
            }
        }
        if forall|i: int| 0 <= i < versions.len() ==> #[trigger] versions[i] is None {
            assert(versions[i] is None);
        }
    }
}

/// `advertised` keeps exactly the versions present, in order.
proof fn lemma_advertised(docs: Seq<Option<VulkanVersion>>)
    ensures
        forall|k: int|
            0 <= k < advertised(docs).len() ==> exists|i: int|
                0 <= i < docs.len() && docs[i] == Some(#[trigger] advertised(docs)[k]),
        forall|i: int|
            0 <= i < docs.len() && #[trigger] docs[i] is Some ==> exists|k: int|
                0 <= k < advertised(docs).len() && advertised(docs)[k] == docs[i]->0,
    decreases docs.len(),
{
    if docs.len() > 0 {
        let init = docs.drop_last();
        lemma_advertised(init);
        let a = advertised(docs);
        let b = advertised(init);
        assert forall|k: int| 0 <= k < a.len() implies exists|i: int|
            0 <= i < docs.len() && docs[i] == Some(#[trigger] a[k]) by {
            if k < b.len() {
                assert(a[k] == b[k]);
                let i = choose|i: int| 0 <= i < init.len() && init[i] == Some(b[k]);
                assert(docs[i] == init[i]);
            } else {
                assert(docs[docs.len() - 1] == Some(a[k]));
            }
        }
        assert forall|i: int| 0 <= i < docs.len() && #[trigger] docs[i] is Some implies exists|k: int|
            0 <= k < a.len() && a[k] == docs[i]->0 by {
            if i < docs.len() - 1 {
                assert(docs[i] == init[i]);
                let k = choose|k: int| 0 <= k < b.len() && b[k] == init[i]->0;
                assert(a[k] == b[k]);
            } else {
                assert(a[a.len() - 1] == docs[i]->0);
            }
        }
    }
}

/// Which manifests are read, not in what order, decides the version: two
/// lists advertising the same versions give the same highest one, so any
/// reordering of the manifests — of the directories searched, or of the
/// entries within one — leaves the result unchanged.
pub proof fn highest_depends_only_on_what_is_advertised(
    a: Seq<Option<VulkanVersion>>,
    b: Seq<Option<VulkanVersion>>,
)
    requires
        forall|v: VulkanVersion| a.contains(Some(v)) <==> b.contains(Some(v)),
    ensures
        highest_of(a) == highest_of(b),
{
    lemma_advertised(a);
    lemma_advertised(b);
    let pa = advertised(a).map_values(|v: VulkanVersion| parts(v));
    let pb = advertised(b).map_values(|v: VulkanVersion| parts(v));
    assert forall|x: (u32, u32, u32)| pa.contains(x) implies pb.contains(x) by {
        let k = choose|k: int| 0 <= k < pa.len() && pa[k] == x;
        let i = choose|i: int| 0 <= i < a.len() && a[i] == Some(advertised(a)[k]);
        assert(a.contains(Some(advertised(a)[k])));
        let j = choose|j: int| 0 <= j < b.len() && b[j] == Some(advertised(a)[k]);
        assert(b[j] is Some);
        let k2 = choose|k2: int| 0 <= k2 < advertised(b).len() && advertised(b)[k2] == b[j]->0;
        assert(pb[k2] == x);
    }
    assert forall|x: (u32, u32, u32)| pb.contains(x) implies pa.contains(x) by {
        let k = choose|k: int| 0 <= k < pb.len() && pb[k] == x;
        let i = choose|i: int| 0 <= i < b.len() && b[i] == Some(advertised(b)[k]);
        assert(b.contains(Some(advertised(b)[k])));
        let j = choose|j: int| 0 <= j < a.len() && a[j] == Some(advertised(b)[k]);
        assert(a[j] is Some);
        let k2 = choose|k2: int| 0 <= k2 < advertised(a).len() && advertised(a)[k2] == a[j]->0;
        assert(pa[k2] == x);
    }
    lemma_max3_members(pa, pb);
}

/// Reading the manifests of two directories in either order gives the same
/// version: the search directories are a union, not a preference order.
pub proof fn highest_ignores_directory_order(
    first: Seq<Option<VulkanVersion>>,
    second: Seq<Option<VulkanVersion>>,
)
    ensures
        highest_of(first + second) == highest_of(second + first),
{
    let a = first + second;
    let b = second + first;
    assert forall|v: VulkanVersion| a.contains(Some(v)) implies b.contains(Some(v)) by {
        let i = choose|i: int| 0 <= i < a.len() && a[i] == Some(v);
        if i < first.len() {
            assert(b[i + second.len()] == a[i]);
        } else {
            assert(b[i - first.len()] == a[i]);
        }
    }
    assert forall|v: VulkanVersion| b.contains(Some(v)) implies a.contains(Some(v)) by {
        let i = choose|i: int| 0 <= i < b.len() && b[i] == Some(v);
        if i < second.len() {
            assert(a[i + first.len()] == b[i]);
        } else {
            assert(a[i - second.len()] == b[i]);
        }
    }
    highest_depends_only_on_what_is_advertised(a, b);
}

/// The Vulkan host needs both halves: there is one exactly when the loader is
/// installed and some manifest advertises a version (with a major above
/// `0`), and its API version is
/// then one a manifest advertises, with none advertising a higher one. Which
/// manifests advertise what, not the order they are read in, decides it.
pub proof fn host_needs_loader_and_a_manifest(
    loader: bool,
    versions: Seq<Option<VulkanVersion>>,
    reordered: Seq<Option<VulkanVersion>>,
)
    requires
        forall|v: VulkanVersion| versions.contains(Some(v)) <==> reordered.contains(Some(v)),
    ensures
        host_of(loader, versions) is Some <==> loader && exists|i: int|
            0 <= i < versions.len() && #[trigger] versions[i] is Some && versions[i]->0.major > 0,
        host_of(loader, versions) matches Some(h) ==> (exists|i: int|
            0 <= i < versions.len() && #[trigger] versions[i] == Some(h.api_version)) && forall|i: int|
            0 <= i < versions.len() ==> (#[trigger] versions[i] matches Some(v) ==> le3(
                parts(v),
                parts(h.api_version),
            )),
        host_of(loader, versions) == host_of(loader, reordered),
{
    highest_is_the_maximum(versions);
    highest_depends_only_on_what_is_advertised(versions, reordered);
    if loader && exists|i: int|
        0 <= i < versions.len() && #[trigger] versions[i] is Some && versions[i]->0.major > 0 {
        let i = choose|i: int|
            0 <= i < versions.len() && #[trigger] versions[i] is Some && versions[i]->0.major > 0;
        assert(versions[i] is Some);
    }
    if host_of(loader, versions) is Some {
        let h = highest_of(versions)->0;
        let i = choose|i: int| 0 <= i < versions.len() && #[trigger] versions[i] == Some(h);
        assert(versions[i] is Some && versions[i]->0.major > 0);
    }
}

} // verus!
