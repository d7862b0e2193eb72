//! Effective lower and upper bounds of a version requirement, and whether
//! two requirements' bounds leave no version in common.
use vstd::prelude::*;
use crate::semver_model::{Comparator, ComparatorOp, ComparatorView, clone_prerelease};

verus! {

/// Order that `semver` gives two prerelease tags (by their text): negative,
/// zero or positive.
pub uninterp spec fn semver_pre_order(a: Seq<char>, b: Seq<char>) -> i8;

/// A version bound: `major.minor.patch` with a prerelease tag, beside the
/// `semver` tag it was made from.
pub struct BoundVersion {
    major: u64,
    minor: u64,
    patch: u64,
    pre: String,
    pre_raw: semver::Prerelease,
}

/// Abstract value of a [`BoundVersion`].
pub struct BoundView {
    pub major: u64,
    pub minor: u64,
    pub patch: u64,
    pub pre: Seq<char>,
}

impl View for BoundVersion {
    type V = BoundView;

    closed spec fn view(&self) -> BoundView {
        BoundView { major: self.major, minor: self.minor, patch: self.patch, pre: self.pre@ }
    }
}

/// `semver::Prerelease::EMPTY`: the empty prerelease tag.
#[verifier::external_body]
fn empty_prerelease() -> semver::Prerelease {
    semver::Prerelease::EMPTY
}

/// The order `semver` gives the prerelease tags of two bounds. A bound's
/// `semver` tag is always the one its text was taken from (bounds are only
/// made in this module, from a comparator or with the empty tag), so the
/// answer is named by [`semver_pre_order`] over the texts.
#[verifier::external_body]
fn pre_order(a: &BoundVersion, b: &BoundVersion) -> (r: i8)
    ensures
        r == semver_pre_order(a@.pre, b@.pre),
{
    match a.pre_raw.cmp(&b.pre_raw) {
        std::cmp::Ordering::Less => -1,
        std::cmp::Ordering::Equal => 0,
        std::cmp::Ordering::Greater => 1,
    }
}


/// Three-way order of bound versions: by major, minor and patch, then by
/// prerelease tag (build metadata is empty on every bound).
pub open spec fn ver_order(a: BoundView, b: BoundView) -> int {
    if a.major != b.major {
        if a.major < b.major { -1 } else { 1 }
    } else if a.minor != b.minor {
        if a.minor < b.minor { -1 } else { 1 }
    } else if a.patch != b.patch {
        if a.patch < b.patch { -1 } else { 1 }
    } else {
        semver_pre_order(a.pre, b.pre) as int
    }
}

/// An optional bound: a version and whether it is inclusive.
pub type BoundSpec = Option<(BoundView, bool)>;

/// The version a comparator names, missing parts read as zero.
pub open spec fn comp_version(c: ComparatorView) -> BoundView {
    BoundView {
        major: c.major,
        minor: match c.minor { Some(v) => v, None => 0 },
        patch: match c.patch { Some(v) => v, None => 0 },
        pre: c.pre,
    }
}

/// The release `m.n.p` without prerelease tag.
pub open spec fn release(m: u64, n: u64, p: u64) -> BoundView {
    BoundView { major: m, minor: n, patch: p, pre: Seq::<char>::empty() }
}

/// The exclusive upper end of a caret comparator `^m.n.p`.
pub open spec fn caret_upper(c: ComparatorView) -> BoundView {
    let m = c.major;
    let n = match c.minor { Some(v) => v, None => 0 };
    let p = match c.patch { Some(v) => v, None => 0 };
    if m > 0 {
        release((m + 1) as u64, 0, 0)
    } else if n > 0 {
        release(0, (n + 1) as u64, 0)
    } else {
        release(0, 0, (p + 1) as u64)
    }
}

/// Whether the caret comparators' upper ends can be written without overflow.
pub open spec fn caret_fits(c: ComparatorView) -> bool {
    c.op == ComparatorOp::Caret ==> {
        let n = match c.minor { Some(v) => v, None => 0 };
        let p = match c.patch { Some(v) => v, None => 0 };
        if c.major > 0 {
            c.major < u64::MAX
        } else if n > 0 {
            n < u64::MAX
        } else {
            p < u64::MAX
        }
    }
}

/// Raising a lower bound by `v`: taken if above the current one; an equal
/// bound becomes inclusive if `v` is.
pub open spec fn raise_min(min: BoundSpec, v: BoundView, incl: bool) -> BoundSpec {
    match min {
        None => Some((v, incl)),
        Some((w, wi)) => if ver_order(v, w) > 0 {
            Some((v, incl))
        } else if v == w && incl && !wi {
            Some((w, true))
        } else {
            min
        },
    }
}

/// Lowering an upper bound by `v`: taken if below the current one; an equal
/// bound becomes inclusive if `v` is.
pub open spec fn lower_max(max: BoundSpec, v: BoundView, incl: bool) -> BoundSpec {
    match max {
        None => Some((v, incl)),
        Some((w, wi)) => if ver_order(v, w) < 0 {
            Some((v, incl))
        } else if v == w && incl && !wi {
            Some((w, true))
        } else {
            max
        },
    }
}

/// Lowering an upper bound by an exclusive `v`: taken if below the current
/// one; an equal inclusive bound becomes exclusive.
pub open spec fn lower_max_exclusive(max: BoundSpec, v: BoundView) -> BoundSpec {
    match max {
        None => Some((v, false)),
        Some((w, wi)) => if ver_order(v, w) < 0 {
            Some((v, false))
        } else if v == w && wi {
            Some((w, false))
        } else {
            max
        },
    }
}

/// The bounds after the comparators from position `i` on, starting from
/// `min` and `max`: an exact comparator fixes both and ends the scan;
/// `>`/`>=` raise the lower bound, `<`/`<=` lower the upper one, a caret
/// does both; other operators are passed over.
pub open spec fn bounds_from(cs: Seq<ComparatorView>, i: int, min: BoundSpec, max: BoundSpec) -> (BoundSpec, BoundSpec)
    decreases cs.len() - i,
{
    if i >= cs.len() || i < 0 {
        (min, max)
    } else {
        let c = cs[i];
        let v = comp_version(c);
        match c.op {
            ComparatorOp::Exact => (Some((v, true)), Some((v, true))),
            ComparatorOp::Greater => bounds_from(cs, i + 1, raise_min(min, v, false), max),
            ComparatorOp::GreaterEq => bounds_from(cs, i + 1, raise_min(min, v, true), max),
            ComparatorOp::Less => bounds_from(cs, i + 1, min, lower_max(max, v, false)),
            ComparatorOp::LessEq => bounds_from(cs, i + 1, min, lower_max(max, v, true)),
            ComparatorOp::Caret => bounds_from(
                cs,
                i + 1,
                raise_min(min, release(v.major, v.minor, v.patch), true),
                lower_max_exclusive(max, caret_upper(c)),
            ),
            _ => bounds_from(cs, i + 1, min, max),
        }
    }
}

/// The effective (lower, upper) bounds of a requirement's comparators.
pub open spec fn effective_bounds(cs: Seq<ComparatorView>) -> (BoundSpec, BoundSpec) {
    bounds_from(cs, 0, None, None)
}

/// Whether two pairs of bounds leave no version in common: one range's
/// lower end lies above the other's upper end, or they meet at a version
/// that one of them excludes.
pub open spec fn bounds_disjoint(a: (BoundSpec, BoundSpec), b: (BoundSpec, BoundSpec)) -> bool {
    ||| (match (a.1, b.0) {
        (Some((max_a, max_a_incl)), Some((min_b, min_b_incl))) => ver_order(min_b, max_a) > 0 || (min_b == max_a
            && (!min_b_incl || !max_a_incl)),
        _ => false,
    })
    ||| (match (b.1, a.0) {
        (Some((max_b, max_b_incl)), Some((min_a, min_a_incl))) => ver_order(min_a, max_b) > 0 || (min_a == max_b
            && (!min_a_incl || !max_b_incl)),
        _ => false,
    })
}

/// Law: disjointness of bounds does not depend on the order of the two ranges.
pub proof fn lemma_bounds_disjoint_symmetric(a: (BoundSpec, BoundSpec), b: (BoundSpec, BoundSpec))
    ensures
        bounds_disjoint(a, b) == bounds_disjoint(b, a),
{
}

/// Exec form of a bound.
pub type Bound = Option<(BoundVersion, bool)>;

/// Abstract value of an exec bound.
pub open spec fn bound_view(b: Bound) -> BoundSpec {
    match b {
        Some((v, incl)) => Some((v@, incl)),
        None => None,
    }
}

/// Three-way order of two bound versions.
fn compare_versions(a: &BoundVersion, b: &BoundVersion) -> (r: i8)
    ensures
        r as int == ver_order(a@, b@),
        -1 <= r as int <= 1 || a@.major == b@.major && a@.minor == b@.minor && a@.patch == b@.patch,
{
    if a.major != b.major {
        if a.major < b.major { -1 } else { 1 }
    } else if a.minor != b.minor {
        if a.minor < b.minor { -1 } else { 1 }
    } else if a.patch != b.patch {
        if a.patch < b.patch { -1 } else { 1 }
    } else {
        pre_order(a, b)
    }
}

/// Whether two bound versions are equal (parts and prerelease text).
fn same_version(a: &BoundVersion, b: &BoundVersion) -> (r: bool)
    ensures
        r == (a@ == b@),
{
    a.major == b.major && a.minor == b.minor && a.patch == b.patch && a.pre == b.pre
}

/// The version a comparator names.
fn comparator_version(c: &Comparator) -> (r: BoundVersion)
    ensures
        r@ == comp_version(c@),
{
    BoundVersion {
        major: c.major(),
        minor: match c.minor() { Some(v) => v, None => 0 },
        patch: match c.patch() { Some(v) => v, None => 0 },
        pre: c.pre().to_owned(),
        pre_raw: clone_prerelease(c.pre_raw()),
    }
}

/// The release `m.n.p` without prerelease tag.
fn release_version(m: u64, n: u64, p: u64) -> (r: BoundVersion)
    ensures
        r@ == release(m, n, p),
{
    BoundVersion { major: m, minor: n, patch: p, pre: String::new(), pre_raw: empty_prerelease() }
}

fn exec_raise_min(min: Bound, v: BoundVersion, incl: bool) -> (r: Bound)
    ensures
        bound_view(r) == raise_min(bound_view(min), v@, incl),
{
    match min {
        None => Some((v, incl)),
        Some((w, wi)) => {
            if compare_versions(&v, &w) > 0 {
                Some((v, incl))
            } else if same_version(&v, &w) && incl && !wi {
                Some((w, true))
            } else {
                Some((w, wi))
            }
        },
    }
}

fn exec_lower_max(max: Bound, v: BoundVersion, incl: bool) -> (r: Bound)
    ensures
        bound_view(r) == lower_max(bound_view(max), v@, incl),
{
    match max {
        None => Some((v, incl)),
        Some((w, wi)) => {
            if compare_versions(&v, &w) < 0 {
                Some((v, incl))
            } else if same_version(&v, &w) && incl && !wi {
                Some((w, true))
            } else {
                Some((w, wi))
            }
        },
    }
}

fn exec_lower_max_exclusive(max: Bound, v: BoundVersion) -> (r: Bound)
    ensures
        bound_view(r) == lower_max_exclusive(bound_view(max), v@),
{
    match max {
        None => Some((v, false)),
        Some((w, wi)) => {
            if compare_versions(&v, &w) < 0 {
                Some((v, false))
            } else if same_version(&v, &w) && wi {
                Some((w, false))
            } else {
                Some((w, wi))
            }
        },
    }
}

/// Extracts the effective minimum and maximum version bounds from a
/// requirement's comparators, as (lower, upper) with inclusiveness.
pub fn get_effective_bounds_from_req(cs: &Vec<Comparator>) -> (r: (Bound, Bound))
    requires
        forall|k: int| 0 <= k < cs@.len() ==> caret_fits(#[trigger] cs@[k]@),
    ensures
        (bound_view(r.0), bound_view(r.1)) == effective_bounds(cs@.map_values(|c: Comparator| c@)),
{
    let ghost views = cs@.map_values(|c: Comparator| c@);
    let mut min_bound: Bound = None;
    let mut max_bound: Bound = None;
    let mut i: usize = 0;
    while i < cs.len()
        invariant
            i <= cs@.len(),
            views == cs@.map_values(|c: Comparator| c@),
            forall|k: int| 0 <= k < cs@.len() ==> caret_fits(#[trigger] cs@[k]@),
            bounds_from(views, 0, None, None) == bounds_from(views, i as int, bound_view(min_bound), bound_view(max_bound)),
        decreases cs.len() - i,
    {
        let c = &cs[i];
        let v = comparator_version(c);
        proof {
            assert(views[i as int] == c@);
        }
        match c.op() {
            ComparatorOp::Exact => {
                let v2 = comparator_version(c);
                return (Some((v, true)), Some((v2, true)));
            },
            ComparatorOp::Greater => {
                min_bound = exec_raise_min(min_bound, v, false);
            },
            ComparatorOp::GreaterEq => {
                min_bound = exec_raise_min(min_bound, v, true);
            },
            ComparatorOp::Less => {
                max_bound = exec_lower_max(max_bound, v, false);
            },
            ComparatorOp::LessEq => {
                max_bound = exec_lower_max(max_bound, v, true);
            },
            ComparatorOp::Caret => {
                let m = c.major();
                let n = match c.minor() { Some(x) => x, None => 0 };
                let p = match c.patch() { Some(x) => x, None => 0 };
                proof {
                    assert(caret_fits(cs@[i as int]@));
                }
                let lower = release_version(m, n, p);
                let upper = if m > 0 {
                    release_version(m + 1, 0, 0)
                } else if n > 0 {
                    release_version(0, n + 1, 0)
                } else {
                    release_version(0, 0, p + 1)
                };
                min_bound = exec_raise_min(min_bound, lower, true);
                max_bound = exec_lower_max_exclusive(max_bound, upper);
            },
            _ => {},
        }
        i = i + 1;
    }
    (min_bound, max_bound)
}

/// Checks whether two pairs of (lower, upper) bounds are disjoint.
pub fn are_bounds_disjoint(bounds_a: &(Bound, Bound), bounds_b: &(Bound, Bound)) -> (r: bool)
    ensures
        r == bounds_disjoint(
            (bound_view(bounds_a.0), bound_view(bounds_a.1)),
            (bound_view(bounds_b.0), bound_view(bounds_b.1)),
        ),
{
    if let (Some((max_a, max_a_incl)), Some((min_b, min_b_incl))) = (&bounds_a.1, &bounds_b.0) {
        if compare_versions(min_b, max_a) > 0 {
            return true;
        }
        if same_version(min_b, max_a) && (!*min_b_incl || !*max_a_incl) {
            return true;
        }
    }
    if let (Some((max_b, max_b_incl)), Some((min_a, min_a_incl))) = (&bounds_b.1, &bounds_a.0) {
        if compare_versions(min_a, max_b) > 0 {
            return true;
        }
        if same_version(min_a, max_b) && (!*min_a_incl || !*max_b_incl) {
            return true;
        }
    }
    false
}

} // verus!
