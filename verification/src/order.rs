//! The orderings of the version types: lexicographic on their parts, in
//! declaration order, so `major` decides first.
use vstd::prelude::*;
use core::cmp::Ordering;
use vstd::std_specs::cmp::PartialOrdSpecImpl;
use crate::{
    le3, AppleFamily, ComputeCapability, CudaVersion, GfxTarget, OneApiVersion, RocmVersion,
    VulkanVersion,
};

verus! {

/// How `a` compares with `b`.
pub open spec fn compare(a: u32, b: u32) -> Ordering {
    if a < b {
        Ordering::Less
    } else if a > b {
        Ordering::Greater
    } else {
        Ordering::Equal
    }
}

/// `first`, unless it is `Equal`, in which case `next` decides.
pub open spec fn then(first: Ordering, next: Ordering) -> Ordering {
    match first {
        Ordering::Equal => next,
        _ => first,
    }
}

fn compare_u32(a: u32, b: u32) -> (r: Ordering)
    ensures
        r == compare(a, b),
{
    if a < b {
        Ordering::Less
    } else if a > b {
        Ordering::Greater
    } else {
        Ordering::Equal
    }
}

fn then_exec(first: Ordering, next: Ordering) -> (r: Ordering)
    ensures
        r == then(first, next),
{
    match first {
        Ordering::Equal => next,
        _ => first,
    }
}

/// Lexicographic comparison of two parts.
pub open spec fn compare2(a: (u32, u32), b: (u32, u32)) -> Ordering {
    then(compare(a.0, b.0), compare(a.1, b.1))
}

/// Lexicographic comparison of three parts.
pub open spec fn compare3(a: (u32, u32, u32), b: (u32, u32, u32)) -> Ordering {
    then(compare(a.0, b.0), then(compare(a.1, b.1), compare(a.2, b.2)))
}

/// The opposite answer: `Less` for `Greater` and back, `Equal` unchanged.
pub open spec fn reversed(o: Ordering) -> Ordering {
    match o {
        Ordering::Less => Ordering::Greater,
        Ordering::Equal => Ordering::Equal,
        Ordering::Greater => Ordering::Less,
    }
}

/// Whether `a` comes strictly before `b`, deciding on the first part that
/// differs.
pub open spec fn before3(a: (u32, u32, u32), b: (u32, u32, u32)) -> bool {
    a.0 < b.0 || (a.0 == b.0 && (a.1 < b.1 || (a.1 == b.1 && a.2 < b.2)))
}

/// Versions order major first: `a` is less than `b` exactly when it is
/// smaller at the first part where they differ, equal only when every part
/// is, and swapping the two reverses the answer. "No later than" is
/// [`le3`], the order in which the highest version is picked.
pub proof fn triples_order_major_first(a: (u32, u32, u32), b: (u32, u32, u32))
    ensures
        (compare3(a, b) == Ordering::Less) <==> before3(a, b),
        (compare3(a, b) == Ordering::Equal) <==> a == b,
        compare3(b, a) == reversed(compare3(a, b)),
        (compare3(a, b) != Ordering::Greater) <==> le3(a, b),
{
}

/// The order on triples is transitive.
pub proof fn triples_order_transitively(
    a: (u32, u32, u32),
    b: (u32, u32, u32),
    c: (u32, u32, u32),
)
    ensures
        compare3(a, b) == Ordering::Less && compare3(b, c) == Ordering::Less ==> compare3(a, c)
            == Ordering::Less,
        le3(a, b) && le3(b, c) ==> le3(a, c),
{
}

/// Two-part versions order major first: `a` is less than `b` when its major
/// is smaller, or the majors agree and its minor is; equal only when both
/// parts are; swapping reverses the answer; and the order is transitive.
pub proof fn pairs_order_major_first(a: (u32, u32), b: (u32, u32), c: (u32, u32))
    ensures
        (compare2(a, b) == Ordering::Less) <==> (a.0 < b.0 || (a.0 == b.0 && a.1 < b.1)),
        (compare2(a, b) == Ordering::Equal) <==> a == b,
        compare2(b, a) == reversed(compare2(a, b)),
        compare2(a, b) == Ordering::Less && compare2(b, c) == Ordering::Less ==> compare2(a, c)
            == Ordering::Less,
{
}

fn compare3_exec(a: (u32, u32, u32), b: (u32, u32, u32)) -> (r: Ordering)
    ensures
        r == compare3(a, b),
{
    then_exec(compare_u32(a.0, b.0), then_exec(compare_u32(a.1, b.1), compare_u32(a.2, b.2)))
}

impl PartialOrdSpecImpl for ComputeCapability {
    open spec fn obeys_partial_cmp_spec() -> bool {
        true
    }

    open spec fn partial_cmp_spec(&self, other: &Self) -> Option<Ordering> {
        Some(compare2((self.major, self.minor), (other.major, other.minor)))
    }
}

impl PartialOrd for ComputeCapability {
    fn partial_cmp(&self, other: &Self) -> (r: Option<Ordering>) {
        Some(then_exec(compare_u32(self.major, other.major), compare_u32(self.minor, other.minor)))
    }
}

impl PartialOrdSpecImpl for CudaVersion {
    open spec fn obeys_partial_cmp_spec() -> bool {
        true
    }

    open spec fn partial_cmp_spec(&self, other: &Self) -> Option<Ordering> {
        Some(compare2((self.major, self.minor), (other.major, other.minor)))
    }
}

impl PartialOrd for CudaVersion {
    fn partial_cmp(&self, other: &Self) -> (r: Option<Ordering>) {
        Some(then_exec(compare_u32(self.major, other.major), compare_u32(self.minor, other.minor)))
    }
}

impl PartialOrdSpecImpl for AppleFamily {
    open spec fn obeys_partial_cmp_spec() -> bool {
        true
    }

    open spec fn partial_cmp_spec(&self, other: &Self) -> Option<Ordering> {
        Some(compare(self.generation, other.generation))
    }
}

impl PartialOrd for AppleFamily {
    fn partial_cmp(&self, other: &Self) -> (r: Option<Ordering>) {
        Some(compare_u32(self.generation, other.generation))
    }
}

impl PartialOrdSpecImpl for GfxTarget {
    open spec fn obeys_partial_cmp_spec() -> bool {
        true
    }

    open spec fn partial_cmp_spec(&self, other: &Self) -> Option<Ordering> {
        Some(compare3((self.major, self.minor, self.step), (other.major, other.minor, other.step)))
    }
}

impl PartialOrd for GfxTarget {
    fn partial_cmp(&self, other: &Self) -> (r: Option<Ordering>) {
        Some(compare3_exec((self.major, self.minor, self.step), (other.major, other.minor, other.step)))
    }
}

impl PartialOrdSpecImpl for RocmVersion {
    open spec fn obeys_partial_cmp_spec() -> bool {
        true
    }

    open spec fn partial_cmp_spec(&self, other: &Self) -> Option<Ordering> {
        Some(compare3((self.major, self.minor, self.patch), (other.major, other.minor, other.patch)))
    }
}

impl PartialOrd for RocmVersion {
    fn partial_cmp(&self, other: &Self) -> (r: Option<Ordering>) {
        Some(compare3_exec((self.major, self.minor, self.patch), (other.major, other.minor, other.patch)))
    }
}

impl PartialOrdSpecImpl for OneApiVersion {
    open spec fn obeys_partial_cmp_spec() -> bool {
        true
    }

    open spec fn partial_cmp_spec(&self, other: &Self) -> Option<Ordering> {
        Some(compare3((self.major, self.minor, self.patch), (other.major, other.minor, other.patch)))
    }
}

impl PartialOrd for OneApiVersion {
    fn partial_cmp(&self, other: &Self) -> (r: Option<Ordering>) {
        Some(compare3_exec((self.major, self.minor, self.patch), (other.major, other.minor, other.patch)))
    }
}

impl PartialOrdSpecImpl for VulkanVersion {
    open spec fn obeys_partial_cmp_spec() -> bool {
        true
    }

    open spec fn partial_cmp_spec(&self, other: &Self) -> Option<Ordering> {
        Some(compare3((self.major, self.minor, self.patch), (other.major, other.minor, other.patch)))
    }
}

impl PartialOrd for VulkanVersion {
    fn partial_cmp(&self, other: &Self) -> (r: Option<Ordering>) {
        Some(compare3_exec((self.major, self.minor, self.patch), (other.major, other.minor, other.patch)))
    }
}

} // verus!
