//! Dependencies of a plugin on other plugins, and the errors of resolving them.
use vstd::prelude::*;
use vstd::string::StringExecFns;
use crate::semver_model::{
    VersionRange, SemVersion, parse_sem_version, semver_version_parse, semver_req_matches,
};

verus! {

/// Represents a dependency on another plugin.
#[derive(Debug)]
pub struct PluginDependency {
    /// The name of the required plugin
    pub plugin_name: String,
    /// The version range that is acceptable
    pub version_range: Option<VersionRange>,
    /// Whether this is a hard requirement or optional dependency
    pub required: bool,
}

/// Abstract value of a [`PluginDependency`].
pub struct PluginDependencyView {
    pub plugin_name: Seq<char>,
    pub version_range: Option<Seq<char>>,
    pub required: bool,
}

/// Abstract value of an optional range: its constraint text.
pub open spec fn range_view(r: Option<VersionRange>) -> Option<Seq<char>> {
    match r {
        Some(v) => Some(v@),
        None => None,
    }
}

impl View for PluginDependency {
    type V = PluginDependencyView;

    open spec fn view(&self) -> PluginDependencyView {
        PluginDependencyView {
            plugin_name: self.plugin_name@,
            version_range: range_view(self.version_range),
            required: self.required,
        }
    }
}

/// Copies an optional range.
pub fn clone_range(r: &Option<VersionRange>) -> (c: Option<VersionRange>)
    ensures
        range_view(c) == range_view(*r),
{
    match r {
        Some(v) => Some(v.clone()),
        None => None,
    }
}

impl Clone for PluginDependency {
    fn clone(&self) -> (r: Self)
        ensures
            r@ == self@,
    {
        PluginDependency {
            plugin_name: self.plugin_name.clone(),
            version_range: clone_range(&self.version_range),
            required: self.required,
        }
    }
}

/// Whether a version text satisfies an optional constraint: always without a
/// constraint; otherwise only a text that reads as a version and that the
/// constraint accepts.
pub open spec fn version_text_satisfies(range: Option<Seq<char>>, version: Seq<char>) -> bool {
    match range {
        None => true,
        Some(c) => match semver_version_parse(version) {
            Ok(v) => semver_req_matches(c, v),
            Err(_) => false,
        },
    }
}

/// Whether a version text satisfies an optional range.
pub fn range_accepts(range: &Option<VersionRange>, version_str: &str) -> (r: bool)
    ensures
        r == version_text_satisfies(range_view(*range), version_str@),
{
    match range {
        Some(range) => match parse_sem_version(version_str) {
            Ok(v) => range.includes(&v),
            Err(_) => false,
        },
        None => true,
    }
}

impl PluginDependency {
    /// Create a new required dependency with a specific version range.
    pub fn required(plugin_name: &str, version_range: VersionRange) -> (r: Self)
        ensures
            r@ == (PluginDependencyView { plugin_name: plugin_name@, version_range: Some(version_range@), required: true }),
    {
        PluginDependency { plugin_name: plugin_name.to_owned(), version_range: Some(version_range), required: true }
    }

    /// Create a new required dependency with any version.
    pub fn required_any(plugin_name: &str) -> (r: Self)
        ensures
            r@ == (PluginDependencyView { plugin_name: plugin_name@, version_range: None, required: true }),
    {
        PluginDependency { plugin_name: plugin_name.to_owned(), version_range: None, required: true }
    }

    /// Create a new optional dependency with a specific version range.
    pub fn optional(plugin_name: &str, version_range: VersionRange) -> (r: Self)
        ensures
            r@ == (PluginDependencyView { plugin_name: plugin_name@, version_range: Some(version_range@), required: false }),
    {
        PluginDependency { plugin_name: plugin_name.to_owned(), version_range: Some(version_range), required: false }
    }

    /// Create a new optional dependency with any version.
    pub fn optional_any(plugin_name: &str) -> (r: Self)
        ensures
            r@ == (PluginDependencyView { plugin_name: plugin_name@, version_range: None, required: false }),
    {
        PluginDependency { plugin_name: plugin_name.to_owned(), version_range: None, required: false }
    }

    /// Check if this dependency is compatible with the given plugin version
    /// string: any version without a range; otherwise a version text that
    /// reads as a version and lies in the range (an unreadable text is not).
    pub fn is_compatible_with(&self, version_str: &str) -> (r: bool)
        ensures
            r == version_text_satisfies(self@.version_range, version_str@),
    {
        range_accepts(&self.version_range, version_str)
    }

    /// The text that describes the dependency (what `Display` writes).
    pub open spec fn spec_text(self) -> Seq<char> {
        let kind = if self.required { "Requires"@ } else { "Optional"@ };
        match self@.version_range {
            Some(c) => kind + " plugin: "@ + self.plugin_name@ + " (version: "@ + c + ")"@,
            None => kind + " plugin: "@ + self.plugin_name@ + " (any version)"@,
        }
    }

    /// The text that describes the dependency, e.g. `Requires plugin: core (version: ^1.0)`.
    pub fn to_string(&self) -> (r: String)
        ensures
            r@ == self.spec_text(),
    {
        let mut s = if self.required { String::from_str("Requires") } else { String::from_str("Optional") };
        s.append(" plugin: ");
        s.append(self.plugin_name.as_str());
        match &self.version_range {
            Some(range) => {
                s.append(" (version: ");
                s.append(range.constraint_string());
                s.append(")");
            },
            None => {
                s.append(" (any version)");
            },
        }
        s
    }
}

/// Texts joined with a separator between consecutive ones.
pub open spec fn join(parts: Seq<Seq<char>>, sep: Seq<char>) -> Seq<char>
    decreases parts.len(),
{
    if parts.len() == 0 {
        Seq::<char>::empty()
    } else if parts.len() == 1 {
        parts[0]
    } else {
        join(parts.drop_last(), sep) + sep + parts.last()
    }
}

/// Joins strings with a separator.
pub fn join_strings(parts: &Vec<String>, sep: &str) -> (r: String)
    ensures
        r@ == join(parts@.map_values(|s: String| s@), sep@),
{
    let ghost views = parts@.map_values(|s: String| s@);
    let mut r = String::new();
    let mut i: usize = 0;
    while i < parts.len()
        invariant
            i <= parts.len(),
            views == parts@.map_values(|s: String| s@),
            r@ == join(views.take(i as int), sep@),
        decreases parts.len() - i,
    {
        proof {
            assert(views.take(i + 1).drop_last() =~= views.take(i as int));
            assert(views.take(i + 1).last() == parts@[i as int]@);
        }
        if i > 0 {
            r.append(sep);
        } else {
            assert(views.take(1) =~= seq![parts@[0]@]);
            assert(Seq::<char>::empty() + parts@[0]@ =~= parts@[0]@);
        }
        r.append(parts[i].as_str());
        i = i + 1;
    }
    assert(views.take(parts.len() as int) =~= views);
    r
}

/// Error that can occur when resolving dependencies.
#[derive(Debug)]
pub enum DependencyError {
    /// The required plugin was not found
    MissingPlugin(String),
    /// The plugin was found, but the version is incompatible
    IncompatibleVersion { plugin_name: String, required_range: VersionRange, actual_version: String },
    /// Dependency cycle detected
    CyclicDependency(Vec<String>),
    /// Other dependency resolution error
    Other(String),
}

/// Abstract value of a [`DependencyError`].
pub enum DependencyErrorView {
    MissingPlugin(Seq<char>),
    IncompatibleVersion { plugin_name: Seq<char>, required_range: Seq<char>, actual_version: Seq<char> },
    CyclicDependency(Seq<Seq<char>>),
    Other(Seq<char>),
}

impl View for DependencyError {
    type V = DependencyErrorView;

    open spec fn view(&self) -> DependencyErrorView {
        match self {
            DependencyError::MissingPlugin(n) => DependencyErrorView::MissingPlugin(n@),
            DependencyError::IncompatibleVersion { plugin_name, required_range, actual_version } => {
                DependencyErrorView::IncompatibleVersion {
                    plugin_name: plugin_name@,
                    required_range: required_range@,
                    actual_version: actual_version@,
                }
            },
            DependencyError::CyclicDependency(ids) => DependencyErrorView::CyclicDependency(
                ids@.map_values(|s: String| s@),
            ),
            DependencyError::Other(m) => DependencyErrorView::Other(m@),
        }
    }
}

impl DependencyError {
    /// The text that describes the error (what `Display` writes).
    pub open spec fn spec_text(self) -> Seq<char> {
        match self@ {
            DependencyErrorView::MissingPlugin(n) => "Required plugin not found: "@ + n,
            DependencyErrorView::IncompatibleVersion { plugin_name, required_range, actual_version } => {
                "Plugin version mismatch: '"@ + plugin_name + "' requires version '"@ + required_range
                    + "' but found '"@ + actual_version + "'"@
            },
            DependencyErrorView::CyclicDependency(ids) => "Circular dependency detected: "@ + join(ids, " -> "@),
            DependencyErrorView::Other(m) => "Dependency error: "@ + m,
        }
    }

    /// The text that describes the error.
    pub fn message(&self) -> (r: String)
        ensures
            r@ == self.spec_text(),
    {
        match self {
            DependencyError::MissingPlugin(n) => String::from_str("Required plugin not found: ").concat(n.as_str()),
            DependencyError::IncompatibleVersion { plugin_name, required_range, actual_version } => {
                let mut s = String::from_str("Plugin version mismatch: '");
                s.append(plugin_name.as_str());
                s.append("' requires version '");
                s.append(required_range.constraint_string());
                s.append("' but found '");
                s.append(actual_version.as_str());
                s.append("'");
                s
            },
            DependencyError::CyclicDependency(ids) => {
                let joined = join_strings(ids, " -> ");
                String::from_str("Circular dependency detected: ").concat(joined.as_str())
            },
            DependencyError::Other(m) => String::from_str("Dependency error: ").concat(m.as_str()),
        }
    }
}

} // verus!
