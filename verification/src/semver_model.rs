//! Semantic versions and version requirements, read and matched by the
//! `semver` crate and held here as plain values for the logic of the crate.
use vstd::prelude::*;
use vstd::string::StringExecFns;

verus! {

#[verifier::external_type_specification]
#[verifier::external_body]
pub struct ExVersionReq(semver::VersionReq);

#[verifier::external_type_specification]
#[verifier::external_body]
pub struct ExSemverVersion(semver::Version);

#[verifier::external_type_specification]
#[verifier::external_body]
pub struct ExPrerelease(semver::Prerelease);

#[verifier::external_type_specification]
pub struct ExOp(semver::Op);

/// Operator of one comparator in a version requirement.
#[derive(Debug, Clone, Copy, PartialEq, Eq, Structural)]
pub enum ComparatorOp {
    Exact,
    Greater,
    GreaterEq,
    Less,
    LessEq,
    Tilde,
    Caret,
    Wildcard,
}


/// The operator of this crate that stands for a `semver` operator.
pub open spec fn spec_op_model(op: semver::Op) -> ComparatorOp {
    if op is Exact {
        ComparatorOp::Exact
    } else if op is Greater {
        ComparatorOp::Greater
    } else if op is GreaterEq {
        ComparatorOp::GreaterEq
    } else if op is Less {
        ComparatorOp::Less
    } else if op is LessEq {
        ComparatorOp::LessEq
    } else if op is Tilde {
        ComparatorOp::Tilde
    } else if op is Caret {
        ComparatorOp::Caret
    } else {
        ComparatorOp::Wildcard
    }
}

/// Converts a `semver` operator.
pub fn op_model(op: semver::Op) -> (r: ComparatorOp)
    ensures
        r == spec_op_model(op),
{
    match op {
        semver::Op::Exact => ComparatorOp::Exact,
        semver::Op::Greater => ComparatorOp::Greater,
        semver::Op::GreaterEq => ComparatorOp::GreaterEq,
        semver::Op::Less => ComparatorOp::Less,
        semver::Op::LessEq => ComparatorOp::LessEq,
        semver::Op::Tilde => ComparatorOp::Tilde,
        semver::Op::Caret => ComparatorOp::Caret,
        semver::Op::Wildcard => ComparatorOp::Wildcard,
        _ => {
            proof {
                assert(false);
            }
            ComparatorOp::Exact
        },
    }
}


/// One comparator of a version requirement (for example `>=1.2`), held as
/// plain values beside the `semver` prerelease it was read with.
#[derive(Debug)]
pub struct Comparator {
    op: ComparatorOp,
    major: u64,
    minor: Option<u64>,
    patch: Option<u64>,
    pre: String,
    pre_raw: semver::Prerelease,
}

/// Abstract value of a [`Comparator`].
pub struct ComparatorView {
    pub op: ComparatorOp,
    pub major: u64,
    pub minor: Option<u64>,
    pub patch: Option<u64>,
    pub pre: Seq<char>,
}

impl View for Comparator {
    type V = ComparatorView;

    closed spec fn view(&self) -> ComparatorView {
        ComparatorView {
            op: self.op,
            major: self.major,
            minor: self.minor,
            patch: self.patch,
            pre: self.pre@,
        }
    }
}

/// `Prerelease::clone`: a copy of a prerelease tag.
#[verifier::external_body]
pub(crate) fn clone_prerelease(p: &semver::Prerelease) -> semver::Prerelease {
    p.clone()
}

impl Clone for Comparator {
    fn clone(&self) -> (r: Self)
        ensures
            r@ == self@,
    {
        Comparator {
            op: self.op,
            major: self.major,
            minor: self.minor,
            patch: self.patch,
            pre: self.pre.clone(),
            pre_raw: clone_prerelease(&self.pre_raw),
        }
    }
}

impl Comparator {
    pub fn op(&self) -> (r: ComparatorOp)
        ensures
            r == self@.op,
    {
        self.op
    }

    pub fn major(&self) -> (r: u64)
        ensures
            r == self@.major,
    {
        self.major
    }

    pub fn minor(&self) -> (r: Option<u64>)
        ensures
            r == self@.minor,
    {
        self.minor
    }

    pub fn patch(&self) -> (r: Option<u64>)
        ensures
            r == self@.patch,
    {
        self.patch
    }

    /// The `semver` prerelease tag the comparator holds.
    pub closed spec fn spec_pre_raw(&self) -> semver::Prerelease {
        self.pre_raw
    }

    /// The `semver` prerelease tag the comparator was read with.
    pub(crate) fn pre_raw(&self) -> (r: &semver::Prerelease)
        ensures
            *r == self.spec_pre_raw(),
    {
        &self.pre_raw
    }

    /// The prerelease tag of the comparator (empty if none).
    pub fn pre(&self) -> (r: &str)
        ensures
            r@ == self@.pre,
    {
        self.pre.as_str()
    }
}

/// A semantic version `major.minor.patch[-pre][+build]` as plain values,
/// beside the `semver` value it was read as.
#[derive(Debug)]
pub struct SemVersion {
    major: u64,
    minor: u64,
    patch: u64,
    pre: String,
    build: String,
    raw: semver::Version,
}

/// Abstract value of a [`SemVersion`].
pub struct SemVersionView {
    pub major: u64,
    pub minor: u64,
    pub patch: u64,
    pub pre: Seq<char>,
    pub build: Seq<char>,
}

impl View for SemVersion {
    type V = SemVersionView;

    closed spec fn view(&self) -> SemVersionView {
        SemVersionView {
            major: self.major,
            minor: self.minor,
            patch: self.patch,
            pre: self.pre@,
            build: self.build@,
        }
    }
}

impl SemVersion {
    pub fn major(&self) -> (r: u64)
        ensures
            r == self@.major,
    {
        self.major
    }

    pub fn minor(&self) -> (r: u64)
        ensures
            r == self@.minor,
    {
        self.minor
    }

    pub fn patch(&self) -> (r: u64)
        ensures
            r == self@.patch,
    {
        self.patch
    }

    pub fn pre(&self) -> (r: &str)
        ensures
            r@ == self@.pre,
    {
        self.pre.as_str()
    }
}

/// What `semver::Version::parse` makes of a text: the version, or the text of its error.
pub uninterp spec fn semver_version_parse(text: Seq<char>) -> Result<SemVersionView, Seq<char>>;

/// What `semver::VersionReq::parse` makes of a text: its comparators, or the text of its error.
pub uninterp spec fn semver_req_parse(text: Seq<char>) -> Result<Seq<ComparatorView>, Seq<char>>;

/// Whether `semver::VersionReq::matches` accepts a version for the requirement read from a text.
pub uninterp spec fn semver_req_matches(constraint: Seq<char>, v: SemVersionView) -> bool;

/// Abstract value of the result of reading a version.
pub open spec fn sem_version_result_view(r: Result<SemVersion, String>) -> Result<SemVersionView, Seq<char>> {
    match r {
        Ok(v) => Ok(v@),
        Err(e) => Err(e@),
    }
}

/// `semver::Version::parse`: reads `major.minor.patch[-pre][+build]`. The
/// result, or the text of the error, is named by [`semver_version_parse`].
#[verifier::external_body]
pub(crate) fn parse_sem_version(text: &str) -> (r: Result<SemVersion, String>)
    ensures
        sem_version_result_view(r) == semver_version_parse(text@),
{
    match semver::Version::parse(text) {
        Ok(v) => Ok(SemVersion {
            major: v.major,
            minor: v.minor,
            patch: v.patch,
            pre: v.pre.as_str().to_string(),
            build: v.build.as_str().to_string(),
            raw: v,
        }),
        Err(e) => Err(e.to_string()),
    }
}

/// Abstract value of the result of reading a requirement.
pub open spec fn req_result_view(r: Result<(semver::VersionReq, Vec<Comparator>), String>) -> Result<Seq<ComparatorView>, Seq<char>> {
    match r {
        Ok(p) => Ok(p.1@.map_values(|c: Comparator| c@)),
        Err(e) => Err(e@),
    }
}

/// `semver::VersionReq::parse`: reads a requirement such as `>=1.2, <2`. Its
/// comparators (as plain values), or the text of its error, are named by
/// [`semver_req_parse`].
#[verifier::external_body]
fn parse_version_req(text: &str) -> (r: Result<(semver::VersionReq, Vec<Comparator>), String>)
    ensures
        req_result_view(r) == semver_req_parse(text@),
{
    match semver::VersionReq::parse(text) {
        Ok(req) => {
            let cs = req.comparators.iter().map(|c| Comparator {
                op: op_model(c.op),
                major: c.major,
                minor: c.minor,
                patch: c.patch,
                pre: c.pre.as_str().to_string(),
                pre_raw: c.pre.clone(),
            }).collect();
            Ok((req, cs))
        },
        Err(e) => Err(e.to_string()),
    }
}

/// A version requirement: the constraint text it was read from, the `semver`
/// requirement, and its comparators as plain values.
#[derive(Debug)]
pub struct VersionRange {
    constraint: String,
    req: semver::VersionReq,
    comparators: Vec<Comparator>,
}

impl View for VersionRange {
    type V = Seq<char>;

    /// A range is known by the constraint text it was read from.
    closed spec fn view(&self) -> Seq<char> {
        self.constraint@
    }
}

impl VersionRange {
    /// The comparators of the range, as plain values.
    pub closed spec fn spec_comparators(&self) -> Seq<ComparatorView> {
        self.comparators@.map_values(|c: Comparator| c@)
    }

    /// The comparators are those that `semver` reads from the constraint text.
    #[verifier::type_invariant]
    closed spec fn inv(&self) -> bool {
        semver_req_parse(self.constraint@) == Ok::<Seq<ComparatorView>, Seq<char>>(self.spec_comparators())
    }

    /// Reads a range from a constraint text; on failure, the message names the
    /// constraint and says why `semver` refused it.
    pub fn from_constraint(constraint: &str) -> (r: Result<Self, crate::version::VersionError>)
        ensures
            match r {
                Ok(range) => range@ == constraint@ && semver_req_parse(constraint@) is Ok,
                Err(e) => semver_req_parse(constraint@) is Err && e@ == crate::version::VersionErrorView::ParseError(
                    "Invalid version constraint '"@ + constraint@ + "': "@ + semver_req_parse(constraint@)->Err_0,
                ),
            },
    {
        match parse_version_req(constraint) {
            Ok(parsed) => {
                let (req, comparators) = parsed;
                let range = VersionRange { constraint: constraint.to_owned(), req, comparators };
                Ok(range)
            },
            Err(e) => {
                let mut msg = String::from_str("Invalid version constraint '");
                msg.append(constraint);
                msg.append("': ");
                msg.append(e.as_str());
                Err(crate::version::VersionError::ParseError(msg))
            },
        }
    }

    /// Reads a range from its text (the same as [`VersionRange::from_constraint`]).
    pub fn from_str(s: &str) -> (r: Result<Self, crate::version::VersionError>)
        ensures
            match r {
                Ok(range) => range@ == s@ && semver_req_parse(s@) is Ok,
                Err(e) => semver_req_parse(s@) is Err && e@ == crate::version::VersionErrorView::ParseError(
                    "Invalid version constraint '"@ + s@ + "': "@ + semver_req_parse(s@)->Err_0,
                ),
            },
    {
        VersionRange::from_constraint(s)
    }

    /// Whether a version satisfies this range (`semver::VersionReq::matches`).
    pub fn includes(&self, version: &SemVersion) -> (r: bool)
        ensures
            r == semver_req_matches(self@, version@),
    {
        req_matches(self, version)
    }

    /// The constraint text the range was read from.
    pub fn constraint_string(&self) -> (r: &str)
        ensures
            r@ == self@,
    {
        self.constraint.as_str()
    }

    /// The text form of the range (what `Display` writes): its constraint text.
    pub fn to_string(&self) -> (r: String)
        ensures
            r@ == self@,
    {
        self.constraint.clone()
    }

    /// The comparators of the range, as plain values.
    pub fn comparators(&self) -> (r: &Vec<Comparator>)
        ensures
            r@.map_values(|c: Comparator| c@) == self.spec_comparators(),
            semver_req_parse(self@) == Ok::<Seq<ComparatorView>, Seq<char>>(self.spec_comparators()),
    {
        proof {
            use_type_invariant(self);
        }
        &self.comparators
    }

    /// The `semver` requirement the range holds.
    pub closed spec fn spec_req(&self) -> semver::VersionReq {
        self.req
    }

    /// The underlying `semver` requirement.
    pub fn semver_req(&self) -> (r: &semver::VersionReq)
        ensures
            *r == self.spec_req(),
    {
        &self.req
    }
}

/// `semver::VersionReq::matches` on the requirement a range holds. The range's
/// requirement is the one read from its constraint text (the fields are only
/// set by `VersionRange::from_constraint`), so the answer is named by
/// [`semver_req_matches`] over that text.
#[verifier::external_body]
fn req_matches(range: &VersionRange, version: &SemVersion) -> (r: bool)
    ensures
        r == semver_req_matches(range@, version@),
{
    range.req.matches(&version.raw)
}

/// `VersionReq::clone`: a copy of a requirement.
#[verifier::external_body]
fn clone_req(r: &semver::VersionReq) -> semver::VersionReq {
    r.clone()
}

impl Clone for VersionRange {
    fn clone(&self) -> (r: Self)
        ensures
            r@ == self@,
    {
        proof {
            use_type_invariant(self);
        }
        let mut cs: Vec<Comparator> = Vec::new();
        let mut i: usize = 0;
        while i < self.comparators.len()
            invariant
                i <= self.comparators@.len(),
                cs@.len() == i,
                forall|k: int| 0 <= k < i ==> #[trigger] cs@[k]@ == self.comparators@[k]@,
            decreases self.comparators.len() - i,
        {
            cs.push(self.comparators[i].clone());
            i = i + 1;
        }
        assert(cs@.map_values(|c: Comparator| c@) =~= self.comparators@.map_values(|c: Comparator| c@));
        VersionRange { constraint: self.constraint.clone(), req: clone_req(&self.req), comparators: cs }
    }
}

} // verus!
