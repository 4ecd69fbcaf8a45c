//! `ROCm` userspace detection.
//!
//! `ROCm` has no driver-side version to read; the release lives in the
//! userspace install, in a plain text file the `rocm-core` package writes:
//! `/opt/rocm/.info/version` holds `6.2.4-123`. `ROCM_PATH` is honoured first,
//! which is how side-by-side installs are selected. Reading the files is the
//! caller's; which root wins and what its file says is here.
use vstd::prelude::*;
use crate::{dotted_version, parse_dotted_version, RocmHost, RocmVersion};


verus! {

broadcast use vstd::string::group_string_axioms;

/// A `.info/version` file's release: the dotted version in it.
pub open spec fn version_of(content: Seq<char>) -> Option<RocmVersion> {
    match dotted_version(content) {
        Some((major, minor, patch)) => Some(RocmVersion { major, minor, patch }),
        None => None,
    }
}

/// Parse a `.info/version` file: `major.minor.patch`, followed by a build
/// suffix this ignores (`6.2.4-123` → `6.2.4`).
pub fn parse_version(content: &str) -> (r: Option<RocmVersion>)
    ensures
        r == version_of(content@),
{
    match parse_dotted_version(content) {
        Some((major, minor, patch)) => Some(RocmVersion::new(major, minor, patch)),
        None => None,
    }
}

/// Path of the version file relative to an install root.
pub fn version_file() -> (p: &'static str)
    ensures
        p@ == ".info/version"@,
{
    ".info/version"
}

/// The conventional install prefix, tried when no other root is given.
pub fn default_root() -> (p: &'static str)
    ensures
        p@ == "/opt/rocm"@,
{
    "/opt/rocm"
}

/// The install roots to try, most specific first: the root `ROCM_PATH` names,
/// when it is set (given here as `explicit`), then the conventional prefix
/// (given as `default`, the path [`default_root`] names). An explicit root
/// selects a side-by-side install, so it must win over the default.
pub fn roots<P>(explicit: Option<P>, default: P) -> (r: Vec<P>)
    ensures
        r@ == match explicit {
            Some(p) => seq![p, default],
            None => seq![default],
        },
{
    let ghost given = explicit;
    let ghost fallback = default;
    let mut out: Vec<P> = Vec::new();
    match explicit {
        Some(p) => out.push(p),
        None => {},
    }
    out.push(default);
    proof {
        match given {
            Some(p) => assert(out@ =~= seq![p, fallback]),
            None => assert(out@ =~= seq![fallback]),
        }
    }
    out
}

/// The release found under the first root whose version file was read and
/// names a release, scanning `contents` — each root's version file, `None`
/// where it could not be read — in order. A version with major `0` names no
/// release and is passed over like a malformed one.
pub open spec fn first_version(contents: Seq<Option<Seq<char>>>) -> Option<RocmVersion>
    decreases contents.len(),
{
    if contents.len() == 0 {
        None
    } else {
        match contents[0] {
            Some(c) => match version_of(c) {
                Some(v) => if v.major > 0 {
                    Some(v)
                } else {
                    first_version(contents.drop_first())
                },
                None => first_version(contents.drop_first()),
            },
            None => first_version(contents.drop_first()),
        }
    }
}

/// The host's `ROCm` installation, from the version files of the roots in
/// search order (`None` for a file that could not be read): the first that
/// names a release wins, so an unreadable or malformed `ROCM_PATH` falls
/// back to the default prefix.
pub fn host_from(contents: &Vec<Option<String>>) -> (r: Option<RocmHost>)
    ensures
        r matches Some(h) ==> h.version.major > 0,
        r == (match first_version(contents@.map_values(|c: Option<String>| match c {
            Some(s) => Some(s@),
            None => None,
        })) {
            Some(v) => Some(RocmHost { version: v }),
            None => None,
        }),
{
    let ghost views = contents@.map_values(|c: Option<String>| match c {
        Some(s) => Some(s@),
        None => None,
    });
    let n = contents.len();
    let mut i: usize = 0;
    assert(views.skip(0) =~= views);
    while i < n
        invariant
            i <= n == contents@.len() == views.len(),
            views == contents@.map_values(|c: Option<String>| match c {
                Some(s) => Some(s@),
                None => None,
            }),
            first_version(views) == first_version(views.skip(i as int)),
        decreases n - i,
    {
        assert(views.skip(i as int)[0] == views[i as int]);
        assert(views.skip(i as int).drop_first() =~= views.skip(i + 1));
        match &contents[i] {
            Some(c) => match parse_version(c.as_str()) {
                Some(v) => if v.major > 0 {
                    return Some(RocmHost { version: v });
                },
                None => {},
            },
            None => {},
        }
        i = i + 1;
    }
    None
}

} // verus!
