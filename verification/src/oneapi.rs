//! Intel `oneAPI` detection.
//!
//! Intel exposes no single release marker, so the release is taken from the
//! component layout the toolkit installs: `/opt/intel/oneapi/compiler/latest`
//! links to `2024.2`. `ONEAPI_ROOT` is honoured first. Listing directories and
//! reading links is the caller's; which component and which root speak for
//! the install, and what their names mean, is here.
use vstd::prelude::*;
use crate::{
    dotted_version, le3, le3_exec, lemma_max3, lemma_max3_members, max3, parse_dotted_version,
    OneApiHost, OneApiVersion,
};


verus! {

broadcast use vstd::string::group_string_axioms;

/// The release a version directory name (`2024.2`, `2024.2.1`) names.
pub open spec fn version_of(name: Seq<char>) -> Option<OneApiVersion> {
    match dotted_version(name) {
        Some((major, minor, patch)) => Some(OneApiVersion { major, minor, patch }),
        None => None,
    }
}

/// Parse a version directory name (`2024.2`, `2024.2.1`).
pub fn parse_version(name: &str) -> (r: Option<OneApiVersion>)
    ensures
        r == version_of(name@),
{
    match parse_dotted_version(name) {
        Some((major, minor, patch)) => Some(OneApiVersion::new(major, minor, patch)),
        None => None,
    }
}

/// Component directories whose release the toolkit version is read from, in
/// preference order. `compiler` leads because it is the component a GPU build
/// actually needs; the rest are fallbacks for partial installs.
pub open spec fn component_names() -> Seq<Seq<char>> {
    seq!["compiler"@, "mkl"@, "tbb"@, "dpl"@, "ccl"@]
}

/// The component directories, in preference order.
pub fn components() -> (r: Vec<&'static str>)
    ensures
        r@.len() == component_names().len(),
        forall|i: int| 0 <= i < r@.len() ==> #[trigger] r@[i]@ == component_names()[i],
{
    let r = vec!["compiler", "mkl", "tbb", "dpl", "ccl"];
    assert(r@.len() == 5);
    r
}

/// The conventional install prefix, tried when no other root is given.
pub fn default_root() -> (p: &'static str)
    ensures
        p@ == "/opt/intel/oneapi"@,
{
    "/opt/intel/oneapi"
}

/// The install roots to try, most specific first: the root `ONEAPI_ROOT` names,
/// when it is set (given here as `explicit`), then the conventional prefix
/// (given as `default`, the path [`default_root`] names). An explicit root
/// selects a side-by-side install, so it must win over the default.
pub fn roots<P>(explicit: Option<P>, default: P) -> (r: Vec<P>)
    ensures
        r@ == match explicit {
            Some(p) => seq![p, default],
            None => seq![default],
        },
{
    let ghost given = explicit;
    let ghost fallback = default;
    let mut out: Vec<P> = Vec::new();
    match explicit {
        Some(p) => out.push(p),
        None => {},
    }
    out.push(default);
    proof {
        match given {
            Some(p) => assert(out@ =~= seq![p, fallback]),
            None => assert(out@ =~= seq![fallback]),
        }
    }
    out
}

/// A version's parts, major first.
pub open spec fn parts(v: OneApiVersion) -> (u32, u32, u32) {
    (v.major, v.minor, v.patch)
}

/// The versions the names in `names` parse as, in order, skipping the rest.
pub open spec fn parsed_versions(names: Seq<Seq<char>>) -> Seq<OneApiVersion>
    decreases names.len(),
{
    if names.len() == 0 {
        seq![]
    } else {
        let rest = parsed_versions(names.drop_last());
        match version_of(names.last()) {
            Some(v) => rest.push(v),
            None => rest,
        }
    }
}

/// The release of one component: the `latest` link's target when it names a
/// version, otherwise the highest version among the directory's entries —
/// `None` when the directory could not be listed or holds none.
pub open spec fn component_version_of(
    latest: Option<Seq<char>>,
    entries: Option<Seq<Seq<char>>>,
) -> Option<OneApiVersion> {
    match (match latest {
        Some(l) => version_of(l),
        None => None,
    }) {
        Some(v) => Some(v),
        None => match entries {
            Some(names) => match max3(parsed_versions(names).map_values(|v: OneApiVersion| parts(v))) {
                Some((major, minor, patch)) => Some(OneApiVersion { major, minor, patch }),
                None => None,
            },
            None => None,
        },
    }
}

/// Release installed for one component, from the file name the `latest`
/// symlink points at (when there is such a link) and the names listed in the
/// component directory (when it could be listed): the link wins when it names
/// a version, and otherwise the highest version present rather than directory
/// order, which is arbitrary.
pub fn component_version(latest: Option<&str>, entries: Option<&Vec<String>>) -> (r: Option<
    OneApiVersion,
>)
    ensures
        r == component_version_of(
            match latest {
                Some(l) => Some(l@),
                None => None,
            },
            match entries {
                Some(e) => Some(e@.map_values(|s: String| s@)),
                None => None,
            },
        ),
{
    match latest {
        Some(l) => match parse_version(l) {
            Some(v) => return Some(v),
            None => {},
        },
        None => {},
    }
    let names = match entries {
        Some(e) => e,
        None => return None,
    };
    let ghost views = names@.map_values(|s: String| s@);
    let n = names.len();
    let mut best: Option<OneApiVersion> = None;
    let mut i: usize = 0;
    assert(views.take(0) =~= Seq::<Seq<char>>::empty());
    while i < n
        invariant
            i <= n == names@.len() == views.len(),
            views == names@.map_values(|s: String| s@),
            best == (match max3(parsed_versions(views.take(i as int)).map_values(
                |v: OneApiVersion| parts(v),
            )) {
                Some((major, minor, patch)) => Some(OneApiVersion { major, minor, patch }),
                None => None,
            }),
        decreases n - i,
    {
        let ghost before = parsed_versions(views.take(i as int));
        assert(views.take(i + 1).drop_last() =~= views.take(i as int));
        assert(views.take(i + 1).last() == views[i as int]);
        match parse_version(names[i].as_str()) {
            Some(v) => {
                assert(parsed_versions(views.take(i + 1)) == before.push(v));
                assert(before.push(v).map_values(|v: OneApiVersion| parts(v)) =~= before.map_values(
                    |v: OneApiVersion| parts(v),
                ).push(parts(v)));
                let ghost ps = before.map_values(|v: OneApiVersion| parts(v));
                assert(ps.push(parts(v)).drop_last() =~= ps);
                assert(ps.push(parts(v)).last() == parts(v));
                best = match best {
                    None => Some(v),
                    Some(b) => if le3_exec((b.major, b.minor, b.patch), (v.major, v.minor, v.patch)) {
                        Some(v)
                    } else {
                        Some(b)
                    },
                };
            },
            None => {
                assert(parsed_versions(views.take(i + 1)) == before);
            },
        }
        i = i + 1;
    }
    assert(views.take(n as int) =~= views);
    best
}

/// What `parsed_versions` keeps: each version it yields is one a name parses
/// as, and each name that parses contributes its version.
proof fn lemma_parsed(names: Seq<Seq<char>>)
    ensures
        forall|k: int|
            0 <= k < parsed_versions(names).len() ==> exists|i: int|
                0 <= i < names.len() && version_of(names[i]) == Some(
                    #[trigger] parsed_versions(names)[k],
                ),
        forall|i: int|
            0 <= i < names.len() && (#[trigger] version_of(names[i])) is Some ==> exists|k: int|
                0 <= k < parsed_versions(names).len() && parsed_versions(names)[k] == version_of(
                    names[i],
                )->0,
    decreases names.len(),
{
    if names.len() > 0 {
        let init = names.drop_last();
        lemma_parsed(init);
        let a = parsed_versions(names);
        let b = parsed_versions(init);
        assert forall|k: int| 0 <= k < a.len() implies exists|i: int|
            0 <= i < names.len() && version_of(names[i]) == Some(#[trigger] a[k]) by {
            if k < b.len() {
                assert(a[k] == b[k]);
                let i = choose|i: int| 0 <= i < init.len() && version_of(init[i]) == Some(b[k]);
                assert(names[i] == init[i]);
            } else {
                assert(names[names.len() - 1] == names.last());
            }
        }
        assert forall|i: int| 0 <= i < names.len() && (#[trigger] version_of(names[i])) is Some implies exists|k: int|
            0 <= k < a.len() && a[k] == version_of(names[i])->0 by {
            if i < names.len() - 1 {
                assert(names[i] == init[i]);
                let k = choose|k: int| 0 <= k < b.len() && b[k] == version_of(init[i])->0;
                assert(a[k] == b[k]);
            } else {
                assert(names[i] == names.last());
                assert(a[a.len() - 1] == version_of(names[i])->0);
            }
        }
    }
}

/// Without a usable `latest` link, a component's release is the highest
/// version its directory lists: one of the listed names parses as it, no
/// listed name parses as a higher one, and there is none only when no name
/// parses at all.
pub proof fn component_release_is_the_highest(names: Seq<Seq<char>>)
    ensures
        component_version_of(None, Some(names)) is None <==> forall|i: int|
            0 <= i < names.len() ==> (#[trigger] version_of(names[i])) is None,
        component_version_of(None, Some(names)) matches Some(v) ==> (exists|i: int|
            0 <= i < names.len() && #[trigger] version_of(names[i]) == Some(v)) && forall|i: int|
            0 <= i < names.len() ==> (#[trigger] version_of(names[i]) matches Some(w) ==> le3(
                parts(w),
                parts(v),
            )),
{
    lemma_parsed(names);
    let vs = parsed_versions(names);
    let ps = vs.map_values(|v: OneApiVersion| parts(v));
    lemma_max3(ps);
    if component_version_of(None, Some(names)) is None {
        assert forall|i: int| 0 <= i < names.len() implies (#[trigger] version_of(names[i])) is None by {
            if version_of(names[i]) is Some {
                let k = choose|k: int| 0 <= k < vs.len() && vs[k] == version_of(names[i])->0;
                assert(ps[k] == parts(vs[k]));
            }
        }
    } else {
        let m = max3(ps)->0;
        let k = choose|k: int| 0 <= k < ps.len() && ps[k] == m;
        assert(ps[k] == parts(vs[k]));
        let v = component_version_of(None, Some(names))->0;
        assert(vs[k] == v);
        assert forall|i: int| 0 <= i < names.len() implies (#[trigger] version_of(names[i]) matches Some(w)
            ==> le3(parts(w), parts(v))) by {
            if version_of(names[i]) is Some {
                let j = choose|j: int| 0 <= j < vs.len() && vs[j] == version_of(names[i])->0;
                assert(ps[j] == parts(vs[j]));
            }
        }
    }
}

/// Listings holding the same names hold the same versions, so their highest
/// is the same.
proof fn lemma_same_highest(first: Seq<Seq<char>>, second: Seq<Seq<char>>)
    requires
        forall|x: Seq<char>| first.contains(x) <==> second.contains(x),
    ensures
        max3(parsed_versions(first).map_values(|v: OneApiVersion| parts(v))) == max3(
            parsed_versions(second).map_values(|v: OneApiVersion| parts(v)),
        ),
{
    lemma_parsed(first);
    lemma_parsed(second);
    let va = parsed_versions(first);
    let vb = parsed_versions(second);
    let pa = va.map_values(|v: OneApiVersion| parts(v));
    let pb = vb.map_values(|v: OneApiVersion| parts(v));
    assert forall|x: (u32, u32, u32)| pa.contains(x) implies pb.contains(x) by {
        let k = choose|k: int| 0 <= k < pa.len() && pa[k] == x;
        let i = choose|i: int| 0 <= i < first.len() && version_of(first[i]) == Some(va[k]);
        assert(first.contains(first[i]));
        let j = choose|j: int| 0 <= j < second.len() && second[j] == first[i];
        assert(version_of(second[j]) is Some);
        let k2 = choose|k2: int| 0 <= k2 < vb.len() && vb[k2] == version_of(second[j])->0;
        assert(pb[k2] == x);
    }
    assert forall|x: (u32, u32, u32)| pb.contains(x) implies pa.contains(x) by {
        let k = choose|k: int| 0 <= k < pb.len() && pb[k] == x;
        let i = choose|i: int| 0 <= i < second.len() && version_of(second[i]) == Some(vb[k]);
        assert(second.contains(second[i]));
        let j = choose|j: int| 0 <= j < first.len() && first[j] == second[i];
        assert(version_of(first[j]) is Some);
        let k2 = choose|k2: int| 0 <= k2 < va.len() && va[k2] == version_of(first[j])->0;
        assert(pa[k2] == x);
    }
    lemma_max3_members(pa, pb);
}

/// Which release a component's directory listing names does not depend on
/// the order the directory is read in: two listings holding the same names
/// give the same release.
pub proof fn component_release_ignores_listing_order(
    latest: Option<Seq<char>>,
    first: Seq<Seq<char>>,
    second: Seq<Seq<char>>,
)
    requires
        forall|x: Seq<char>| first.contains(x) <==> second.contains(x),
    ensures
        component_version_of(latest, Some(first)) == component_version_of(latest, Some(second)),
{
    lemma_same_highest(first, second);
}

/// The first release found in `found`, in order. A version with major `0`
/// names no release and is passed over.
pub open spec fn first_found(found: Seq<Option<OneApiVersion>>) -> Option<OneApiVersion>
    decreases found.len(),
{
    if found.len() == 0 {
        None
    } else {
        match found[0] {
            Some(v) => if v.major > 0 {
                Some(v)
            } else {
                first_found(found.drop_first())
            },
            None => first_found(found.drop_first()),
        }
    }
}

fn first_found_exec(found: &Vec<Option<OneApiVersion>>) -> (r: Option<OneApiVersion>)
    ensures
        r == first_found(found@),
        r matches Some(v) ==> v.major > 0,
{
    let n = found.len();
    let mut i: usize = 0;
    assert(found@.skip(0) =~= found@);
    while i < n
        invariant
            i <= n == found@.len(),
            first_found(found@) == first_found(found@.skip(i as int)),
        decreases n - i,
    {
        assert(found@.skip(i as int)[0] == found@[i as int]);
        assert(found@.skip(i as int).drop_first() =~= found@.skip(i + 1));
        match found[i] {
            Some(v) => if v.major > 0 {
                return Some(v);
            },
            None => {},
        }
        i = i + 1;
    }
    None
}

/// The release one install root holds: that of the first component, in
/// preference order, that has one.
pub fn version_at(by_component: &Vec<Option<OneApiVersion>>) -> (r: Option<OneApiVersion>)
    ensures
        r == first_found(by_component@),
        r matches Some(v) ==> v.major > 0,
{
    first_found_exec(by_component)
}

/// The host's `oneAPI` installation, from the release each root holds in
/// search order: the first root that holds one.
pub fn host_from(by_root: &Vec<Option<OneApiVersion>>) -> (r: Option<OneApiHost>)
    ensures
        r == (match first_found(by_root@) {
            Some(v) => Some(OneApiHost { version: v }),
            None => None,
        }),
        r matches Some(h) ==> h.version.major > 0,
{
    match first_found_exec(by_root) {
        Some(v) => Some(OneApiHost { version: v }),
        None => None,
    }
}

} // verus!
