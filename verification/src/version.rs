//! API versions (`major.minor.patch`) and the errors of reading them.
use vstd::prelude::*;
use vstd::string::StringExecFns;
use crate::text::{
    decimal, split_char, parse_unsigned, IntErrorKind, str_chars, split_chars,
    parse_unsigned_chars, push_char, push_decimal, u64_to_decimal, lemma_split_without_sep,
    lemma_split_append, lemma_parse_decimal, lemma_decimal_lacks, is_digit,
};

verus! {

/// Error type for version parsing.
#[derive(Debug)]
pub enum VersionError {
    /// The text does not have the expected shape.
    InvalidFormat,
    /// A part of the text could not be read; the message says why.
    ParseError(String),
}

/// Abstract value of a [`VersionError`].
pub enum VersionErrorView {
    InvalidFormat,
    ParseError(Seq<char>),
}

impl View for VersionError {
    type V = VersionErrorView;

    open spec fn view(&self) -> VersionErrorView {
        match self {
            VersionError::InvalidFormat => VersionErrorView::InvalidFormat,
            VersionError::ParseError(m) => VersionErrorView::ParseError(m@),
        }
    }
}

/// The message of a failed integer read, as the standard library words it.
pub open spec fn int_error_text(e: IntErrorKind) -> Seq<char> {
    match e {
        IntErrorKind::Empty => "cannot parse integer from empty string"@,
        IntErrorKind::InvalidDigit => "invalid digit found in string"@,
        IntErrorKind::PosOverflow => "number too large to fit in target type"@,
    }
}

/// The message of a failed integer read.
pub fn int_error_message(e: IntErrorKind) -> (r: String)
    ensures
        r@ == int_error_text(e),
{
    match e {
        IntErrorKind::Empty => String::from_str("cannot parse integer from empty string"),
        IntErrorKind::InvalidDigit => String::from_str("invalid digit found in string"),
        IntErrorKind::PosOverflow => String::from_str("number too large to fit in target type"),
    }
}

impl VersionError {
    /// The text that describes this error.
    pub open spec fn spec_text(self) -> Seq<char> {
        match self {
            VersionError::InvalidFormat => "Invalid version format"@,
            VersionError::ParseError(m) => "Version parse error: "@ + m@,
        }
    }

    /// The human-readable description of this error.
    pub fn message(&self) -> (r: String)
        ensures
            r@ == self.spec_text(),
    {
        match self {
            VersionError::InvalidFormat => String::from_str("Invalid version format"),
            VersionError::ParseError(m) => String::from_str("Version parse error: ").concat(m.as_str()),
        }
    }
}

/// A semantic version of the host API.
#[derive(Debug, Clone, Copy, PartialEq, Eq, PartialOrd, Ord)]
pub struct ApiVersion {
    pub major: u32,
    pub minor: u32,
    pub patch: u32,
}

/// The text `major.minor.patch` of a version.
pub open spec fn api_version_text(v: ApiVersion) -> Seq<char> {
    decimal(v.major as nat) + seq!['.'] + decimal(v.minor as nat) + seq!['.'] + decimal(
        v.patch as nat,
    )
}

/// Reading one decimal part of a version.
pub open spec fn read_part(s: Seq<char>) -> Result<u32, VersionErrorView> {
    match parse_unsigned(s, u32::MAX as nat) {
        Ok(v) => Ok(v as u32),
        Err(e) => Err(VersionErrorView::ParseError(int_error_text(e))),
    }
}

/// Reading a version from text: exactly three dot-separated parts, each a `u32`.
pub open spec fn api_version_from_text(s: Seq<char>) -> Result<ApiVersion, VersionErrorView> {
    let parts = split_char(s, '.');
    if parts.len() != 3 {
        Err(VersionErrorView::InvalidFormat)
    } else {
        match read_part(parts[0]) {
            Err(e) => Err(e),
            Ok(major) => match read_part(parts[1]) {
                Err(e) => Err(e),
                Ok(minor) => match read_part(parts[2]) {
                    Err(e) => Err(e),
                    Ok(patch) => Ok(ApiVersion { major, minor, patch }),
                },
            },
        }
    }
}

/// Abstract value of the result of reading a version.
pub open spec fn version_result_view(r: Result<ApiVersion, VersionError>) -> Result<ApiVersion, VersionErrorView> {
    match r {
        Ok(v) => Ok(v),
        Err(e) => Err(e@),
    }
}

fn read_part_exec(cs: &Vec<char>) -> (r: Result<u32, VersionError>)
    ensures
        match r {
            Ok(v) => read_part(cs@) == Ok::<u32, VersionErrorView>(v),
            Err(e) => read_part(cs@) == Err::<u32, VersionErrorView>(e@),
        },
{
    match parse_unsigned_chars(cs, u32::MAX as u64) {
        Ok(v) => Ok(v as u32),
        Err(e) => Err(VersionError::ParseError(int_error_message(e))),
    }
}

impl ApiVersion {
    /// Creates a new API version.
    pub fn new(major: u32, minor: u32, patch: u32) -> (r: Self)
        ensures
            r == (ApiVersion { major, minor, patch }),
    {
        ApiVersion { major, minor, patch }
    }

    /// Parses a version string like "1.2.3".
    pub fn from_str(version: &str) -> (r: Result<Self, VersionError>)
        ensures
            version_result_view(r) == api_version_from_text(version@),
    {
        let cs = str_chars(version);
        let parts = split_chars(&cs, '.');
        if parts.len() != 3 {
            return Err(VersionError::InvalidFormat);
        }
        let major = match read_part_exec(&parts[0]) {
            Ok(v) => v,
            Err(e) => return Err(e),
        };
        let minor = match read_part_exec(&parts[1]) {
            Ok(v) => v,
            Err(e) => return Err(e),
        };
        let patch = match read_part_exec(&parts[2]) {
            Ok(v) => v,
            Err(e) => return Err(e),
        };
        Ok(ApiVersion::new(major, minor, patch))
    }

    /// Checks if this version is compatible with another version:
    /// the major versions must match.
    pub fn is_compatible_with(&self, other: &ApiVersion) -> (r: bool)
        ensures
            r == (self.major == other.major),
    {
        self.major == other.major
    }

    /// Returns the version as a string like "1.2.3".
    pub fn to_string(&self) -> (r: String)
        ensures
            r@ == api_version_text(*self),
    {
        let mut s = u64_to_decimal(self.major as u64);
        push_char(&mut s, '.');
        push_decimal(&mut s, self.minor as u64);
        push_char(&mut s, '.');
        push_decimal(&mut s, self.patch as u64);
        s
    }
}

/// Law: a version read back from its own text is the same version.
pub proof fn lemma_api_version_roundtrip(v: ApiVersion)
    ensures
        api_version_from_text(api_version_text(v)) == Ok::<ApiVersion, VersionErrorView>(v),
{
    let d1 = decimal(v.major as nat);
    let d2 = decimal(v.minor as nat);
    let d3 = decimal(v.patch as nat);
    lemma_decimal_lacks(v.major as nat, '.');
    lemma_decimal_lacks(v.minor as nat, '.');
    lemma_decimal_lacks(v.patch as nat, '.');
    lemma_split_without_sep(d1, '.');
    lemma_split_append(d1, d2, '.');
    lemma_split_append(d1 + seq!['.'] + d2, d3, '.');
    assert(split_char(api_version_text(v), '.') =~= seq![d1, d2, d3]);
    lemma_parse_decimal(v.major as nat, u32::MAX as nat);
    lemma_parse_decimal(v.minor as nat, u32::MAX as nat);
    lemma_parse_decimal(v.patch as nat, u32::MAX as nat);
}

} // verus!
