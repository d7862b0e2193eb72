//! Conflicts between plugins: what kinds there are, which of them must be
//! resolved, and a manager that records and resolves them.
use vstd::prelude::*;
use vstd::string::StringExecFns;
use crate::error::PluginSystemError;
use crate::text::{u64_to_decimal, decimal};
use crate::manifest::{PluginManifest, ResourceClaim as ManifestResourceClaim, ResourceAccessType as ManifestAccess};

verus! {

/// Unique identifier for a resource.
#[derive(Debug, PartialEq, Eq, Hash)]
pub struct ResourceIdentifier {
    /// The kind of resource (e.g. "FilePath", "NetworkPort").
    pub kind: String,
    /// The unique ID of the resource within its kind.
    pub id: String,
}

impl Clone for ResourceIdentifier {
    fn clone(&self) -> (r: Self)
        ensures
            r == *self,
    {
        ResourceIdentifier { kind: self.kind.clone(), id: self.id.clone() }
    }
}

impl ResourceIdentifier {
    /// Whether two identifiers name the same resource (same kind and id).
    pub fn same_as(&self, other: &ResourceIdentifier) -> (r: bool)
        ensures
            r == (self.kind@ == other.kind@ && self.id@ == other.id@),
    {
        self.kind == other.kind && self.id == other.id
    }
}

/// Defines how a plugin intends to use a resource.
#[derive(Debug, Clone, Copy, PartialEq, Eq, Hash, Structural)]
pub enum ResourceAccessType {
    /// Exclusive read access.
    ExclusiveRead,
    /// Exclusive write access (implies read).
    ExclusiveWrite,
    /// Shared read access.
    SharedRead,
    /// Shared write access (implies read).
    SharedWrite,
    /// The plugin defines or provides this resource uniquely.
    ProvidesUniqueId,
}

/// Whether two claims on the same resource conflict: every pair of access
/// types does, except shared reads together or beside a unique provider.
pub open spec fn accesses_conflict(a: ResourceAccessType, b: ResourceAccessType) -> bool {
    match (a, b) {
        (ResourceAccessType::SharedRead, ResourceAccessType::SharedRead) => false,
        (ResourceAccessType::SharedRead, ResourceAccessType::ProvidesUniqueId) => false,
        (ResourceAccessType::ProvidesUniqueId, ResourceAccessType::SharedRead) => false,
        _ => true,
    }
}

/// Whether a resource conflict with these two access types must be resolved.
pub open spec fn accesses_critical(a: ResourceAccessType, b: ResourceAccessType) -> bool {
    match (a, b) {
        (ResourceAccessType::ExclusiveWrite, _) => true,
        (_, ResourceAccessType::ExclusiveWrite) => true,
        (ResourceAccessType::ExclusiveRead, ResourceAccessType::ExclusiveRead) => true,
        (ResourceAccessType::ExclusiveRead, ResourceAccessType::SharedWrite) => true,
        (ResourceAccessType::SharedWrite, ResourceAccessType::ExclusiveRead) => true,
        (ResourceAccessType::ExclusiveRead, ResourceAccessType::SharedRead) => true,
        (ResourceAccessType::SharedRead, ResourceAccessType::ExclusiveRead) => true,
        (ResourceAccessType::ExclusiveRead, ResourceAccessType::ProvidesUniqueId) => true,
        (ResourceAccessType::ProvidesUniqueId, ResourceAccessType::ExclusiveRead) => true,
        (ResourceAccessType::ProvidesUniqueId, ResourceAccessType::ProvidesUniqueId) => true,
        (ResourceAccessType::ProvidesUniqueId, ResourceAccessType::SharedWrite) => true,
        (ResourceAccessType::SharedWrite, ResourceAccessType::ProvidesUniqueId) => true,
        _ => false,
    }
}

/// Whether two claims on the same resource conflict.
pub fn access_conflict(a: ResourceAccessType, b: ResourceAccessType) -> (r: bool)
    ensures
        r == accesses_conflict(a, b),
{
    match (a, b) {
        (ResourceAccessType::SharedRead, ResourceAccessType::SharedRead) => false,
        (ResourceAccessType::SharedRead, ResourceAccessType::ProvidesUniqueId) => false,
        (ResourceAccessType::ProvidesUniqueId, ResourceAccessType::SharedRead) => false,
        _ => true,
    }
}

/// Law: the conflict and criticality relations between access types are
/// symmetric, and every critical pair is a conflicting pair.
pub proof fn lemma_access_relations(a: ResourceAccessType, b: ResourceAccessType)
    ensures
        accesses_conflict(a, b) == accesses_conflict(b, a),
        accesses_critical(a, b) == accesses_critical(b, a),
        accesses_critical(a, b) ==> accesses_conflict(a, b),
{
}

/// Whether an access type writes to the resource.
pub open spec fn access_writes(a: ResourceAccessType) -> bool {
    a is ExclusiveWrite || a is SharedWrite
}

/// Whether an access type asks for the resource alone.
pub open spec fn access_exclusive(a: ResourceAccessType) -> bool {
    a is ExclusiveRead || a is ExclusiveWrite
}

/// Law: two claims on one resource conflict exactly when one of them writes
/// to it or asks for it alone, or both claim to provide it uniquely; shared
/// reads do not conflict with each other nor with a unique provider.
pub proof fn lemma_access_conflict_meaning(a: ResourceAccessType, b: ResourceAccessType)
    ensures
        accesses_conflict(a, b) <==> (access_writes(a) || access_writes(b) || access_exclusive(a) || access_exclusive(b)
            || (a is ProvidesUniqueId && b is ProvidesUniqueId)),
        access_writes(a) ==> accesses_conflict(a, b),
        (a is SharedRead || a is ProvidesUniqueId) && (b is SharedRead || b is ProvidesUniqueId) ==> (accesses_conflict(a, b)
            <==> a == b && a is ProvidesUniqueId),
{
}

/// Law: a conflict between two claims on one resource must be resolved
/// exactly when one of them asks for the resource alone, or one claims to
/// provide it uniquely while the other also provides it or writes to it.
pub proof fn lemma_access_critical_meaning(a: ResourceAccessType, b: ResourceAccessType)
    ensures
        accesses_critical(a, b) <==> (access_exclusive(a) || access_exclusive(b) || (a is ProvidesUniqueId && (b is ProvidesUniqueId
            || access_writes(b))) || (b is ProvidesUniqueId && access_writes(a))),
        a is ProvidesUniqueId && b is ProvidesUniqueId ==> accesses_critical(a, b),
{
}

/// Law: which conflicts are critical: mutual exclusions, dependency version
/// clashes and declared incompatibilities always; resource conflicts as
/// their access types say; partial overlaps and custom conflicts never.
pub proof fn lemma_conflict_type_critical(t: ConflictType)
    ensures
        t.spec_is_critical() <==> match t {
            ConflictType::MutuallyExclusive => true,
            ConflictType::DependencyVersion { .. } => true,
            ConflictType::ExplicitlyIncompatible => true,
            ConflictType::ResourceConflict { first_plugin_access: a, second_plugin_access: b, .. } => access_exclusive(a)
                || access_exclusive(b) || (a is ProvidesUniqueId && (b is ProvidesUniqueId || access_writes(b))) || (
            b is ProvidesUniqueId && access_writes(a)),
            ConflictType::PartialOverlap => false,
            ConflictType::Custom(_) => false,
        },
{
    match t {
        ConflictType::ResourceConflict { first_plugin_access: a, second_plugin_access: b, .. } => {
            lemma_access_critical_meaning(a, b);
        },
        _ => {},
    }
}

/// The name of an access type, as `Debug` writes it.
pub open spec fn access_name(a: ResourceAccessType) -> Seq<char> {
    match a {
        ResourceAccessType::ExclusiveRead => "ExclusiveRead"@,
        ResourceAccessType::ExclusiveWrite => "ExclusiveWrite"@,
        ResourceAccessType::SharedRead => "SharedRead"@,
        ResourceAccessType::SharedWrite => "SharedWrite"@,
        ResourceAccessType::ProvidesUniqueId => "ProvidesUniqueId"@,
    }
}

/// The name of an access type.
pub fn access_type_name(a: ResourceAccessType) -> (r: &'static str)
    ensures
        r@ == access_name(a),
{
    match a {
        ResourceAccessType::ExclusiveRead => "ExclusiveRead",
        ResourceAccessType::ExclusiveWrite => "ExclusiveWrite",
        ResourceAccessType::SharedRead => "SharedRead",
        ResourceAccessType::SharedWrite => "SharedWrite",
        ResourceAccessType::ProvidesUniqueId => "ProvidesUniqueId",
    }
}

/// Represents a single resource claim made by a plugin.
#[derive(Debug, PartialEq, Eq)]
pub struct ResourceClaim {
    pub resource: ResourceIdentifier,
    pub access_type: ResourceAccessType,
}

impl Clone for ResourceClaim {
    fn clone(&self) -> (r: Self)
        ensures
            r == *self,
    {
        ResourceClaim { resource: self.resource.clone(), access_type: self.access_type }
    }
}

/// Types of plugin conflicts.
#[derive(Debug, PartialEq, Eq)]
pub enum ConflictType {
    /// Two plugins provide the same functionality and are mutually exclusive
    MutuallyExclusive,
    /// Two plugins have conflicting versions of the same dependency
    DependencyVersion {
        /// The name of the dependency that has conflicting version requirements.
        dependency_name: String,
        /// The version range string required by the first plugin.
        required_by_first: String,
        /// The version range string required by the second plugin.
        required_by_second: String,
    },
    /// A plugin requires a resource already claimed by another plugin
    ResourceConflict {
        resource: ResourceIdentifier,
        first_plugin_access: ResourceAccessType,
        second_plugin_access: ResourceAccessType,
    },
    /// Plugin capabilities overlap but may be used together with caution
    PartialOverlap,
    /// A plugin has been marked as incompatible with another
    ExplicitlyIncompatible,
    /// Custom conflict type
    Custom(String),
}

impl Clone for ConflictType {
    fn clone(&self) -> (r: Self)
        ensures
            r == *self,
    {
        match self {
            ConflictType::MutuallyExclusive => ConflictType::MutuallyExclusive,
            ConflictType::DependencyVersion { dependency_name, required_by_first, required_by_second } => {
                ConflictType::DependencyVersion {
                    dependency_name: dependency_name.clone(),
                    required_by_first: required_by_first.clone(),
                    required_by_second: required_by_second.clone(),
                }
            },
            ConflictType::ResourceConflict { resource, first_plugin_access, second_plugin_access } => {
                ConflictType::ResourceConflict {
                    resource: resource.clone(),
                    first_plugin_access: *first_plugin_access,
                    second_plugin_access: *second_plugin_access,
                }
            },
            ConflictType::PartialOverlap => ConflictType::PartialOverlap,
            ConflictType::ExplicitlyIncompatible => ConflictType::ExplicitlyIncompatible,
            ConflictType::Custom(s) => ConflictType::Custom(s.clone()),
        }
    }
}

impl ConflictType {
    /// Whether a conflict of this type must be resolved.
    pub open spec fn spec_is_critical(&self) -> bool {
        match self {
            ConflictType::MutuallyExclusive => true,
            ConflictType::DependencyVersion { .. } => true,
            ConflictType::ExplicitlyIncompatible => true,
            ConflictType::ResourceConflict { first_plugin_access, second_plugin_access, .. } => {
                accesses_critical(*first_plugin_access, *second_plugin_access)
            },
            ConflictType::PartialOverlap => false,
            ConflictType::Custom(_) => false,
        }
    }

    /// The human-readable description of the type.
    pub open spec fn spec_description(&self) -> Seq<char> {
        match self {
            ConflictType::MutuallyExclusive => "Mutually exclusive plugins"@,
            ConflictType::DependencyVersion { .. } => "Conflicting dependency versions"@,
            ConflictType::ResourceConflict { .. } => "Resource conflict"@,
            ConflictType::PartialOverlap => "Partial functionality overlap"@,
            ConflictType::ExplicitlyIncompatible => "Explicitly marked as incompatible"@,
            ConflictType::Custom(_) => "Custom conflict"@,
        }
    }

    /// Check if this conflict type is critical (must be resolved).
    pub fn is_critical(&self) -> (r: bool)
        ensures
            r == self.spec_is_critical(),
    {
        match self {
            ConflictType::MutuallyExclusive => true,
            ConflictType::DependencyVersion { .. } => true,
            ConflictType::ExplicitlyIncompatible => true,
            ConflictType::ResourceConflict { resource: _, first_plugin_access, second_plugin_access } => {
                match (first_plugin_access, second_plugin_access) {
                    (ResourceAccessType::ExclusiveWrite, _) | (_, ResourceAccessType::ExclusiveWrite) => true,
                    (ResourceAccessType::ExclusiveRead, ResourceAccessType::ExclusiveRead) => true,
                    (ResourceAccessType::ExclusiveRead, ResourceAccessType::SharedWrite)
                    | (ResourceAccessType::SharedWrite, ResourceAccessType::ExclusiveRead) => true,
                    (ResourceAccessType::ExclusiveRead, ResourceAccessType::SharedRead)
                    | (ResourceAccessType::SharedRead, ResourceAccessType::ExclusiveRead) => true,
                    (ResourceAccessType::ExclusiveRead, ResourceAccessType::ProvidesUniqueId)
                    | (ResourceAccessType::ProvidesUniqueId, ResourceAccessType::ExclusiveRead) => true,
                    (ResourceAccessType::ProvidesUniqueId, ResourceAccessType::ProvidesUniqueId) => true,
                    (ResourceAccessType::ProvidesUniqueId, ResourceAccessType::SharedWrite)
                    | (ResourceAccessType::SharedWrite, ResourceAccessType::ProvidesUniqueId) => true,
                    _ => false,
                }
            },
            ConflictType::PartialOverlap => false,
            ConflictType::Custom(_) => false,
        }
    }

    /// Get a human-readable description of this conflict type.
    pub fn description(&self) -> (r: &str)
        ensures
            r@ == self.spec_description(),
    {
        match self {
            ConflictType::MutuallyExclusive => "Mutually exclusive plugins",
            ConflictType::DependencyVersion { .. } => "Conflicting dependency versions",
            ConflictType::ResourceConflict { .. } => "Resource conflict",
            ConflictType::PartialOverlap => "Partial functionality overlap",
            ConflictType::ExplicitlyIncompatible => "Explicitly marked as incompatible",
            ConflictType::Custom(_) => "Custom conflict",
        }
    }
}

/// Abstract value of a [`ConflictType`].
pub enum ConflictTypeView {
    MutuallyExclusive,
    DependencyVersion { dependency_name: Seq<char>, required_by_first: Seq<char>, required_by_second: Seq<char> },
    ResourceConflict {
        kind: Seq<char>,
        id: Seq<char>,
        first_plugin_access: ResourceAccessType,
        second_plugin_access: ResourceAccessType,
    },
    PartialOverlap,
    ExplicitlyIncompatible,
    Custom(Seq<char>),
}

impl View for ConflictType {
    type V = ConflictTypeView;

    open spec fn view(&self) -> ConflictTypeView {
        match self {
            ConflictType::MutuallyExclusive => ConflictTypeView::MutuallyExclusive,
            ConflictType::DependencyVersion { dependency_name, required_by_first, required_by_second } => {
                ConflictTypeView::DependencyVersion {
                    dependency_name: dependency_name@,
                    required_by_first: required_by_first@,
                    required_by_second: required_by_second@,
                }
            },
            ConflictType::ResourceConflict { resource, first_plugin_access, second_plugin_access } => {
                ConflictTypeView::ResourceConflict {
                    kind: resource.kind@,
                    id: resource.id@,
                    first_plugin_access: *first_plugin_access,
                    second_plugin_access: *second_plugin_access,
                }
            },
            ConflictType::PartialOverlap => ConflictTypeView::PartialOverlap,
            ConflictType::ExplicitlyIncompatible => ConflictTypeView::ExplicitlyIncompatible,
            ConflictType::Custom(s) => ConflictTypeView::Custom(s@),
        }
    }
}

/// Strategies for resolving plugin conflicts.
#[derive(Debug, PartialEq, Eq)]
pub enum ResolutionStrategy {
    /// Disable the first plugin
    DisableFirst,
    /// Disable the second plugin
    DisableSecond,
    /// Manually configure to avoid conflict
    ManualConfiguration,
    /// Use a compatibility layer
    CompatibilityLayer,
    /// Merge the plugins
    Merge,
    /// Allow both to run with awareness of potential issues
    AllowWithWarning,
    /// Custom resolution strategy
    Custom(String),
}

impl Clone for ResolutionStrategy {
    fn clone(&self) -> (r: Self)
        ensures
            r == *self,
    {
        match self {
            ResolutionStrategy::DisableFirst => ResolutionStrategy::DisableFirst,
            ResolutionStrategy::DisableSecond => ResolutionStrategy::DisableSecond,
            ResolutionStrategy::ManualConfiguration => ResolutionStrategy::ManualConfiguration,
            ResolutionStrategy::CompatibilityLayer => ResolutionStrategy::CompatibilityLayer,
            ResolutionStrategy::Merge => ResolutionStrategy::Merge,
            ResolutionStrategy::AllowWithWarning => ResolutionStrategy::AllowWithWarning,
            ResolutionStrategy::Custom(s) => ResolutionStrategy::Custom(s.clone()),
        }
    }
}

/// Represents a conflict between plugins.
#[derive(Debug)]
pub struct PluginConflict {
    /// First plugin ID
    pub first_plugin: String,
    /// Second plugin ID
    pub second_plugin: String,
    /// Type of conflict
    pub conflict_type: ConflictType,
    /// Detailed description of the conflict
    pub description: String,
    /// Whether the conflict has been resolved
    pub resolved: bool,
    /// Resolution strategy, if any
    pub resolution: Option<ResolutionStrategy>,
}

/// Abstract value of a [`PluginConflict`].
pub struct PluginConflictView {
    pub first_plugin: Seq<char>,
    pub second_plugin: Seq<char>,
    pub conflict_type: ConflictTypeView,
    pub description: Seq<char>,
    pub resolved: bool,
    pub resolution: Option<ResolutionStrategy>,
}

impl View for PluginConflict {
    type V = PluginConflictView;

    open spec fn view(&self) -> PluginConflictView {
        PluginConflictView {
            first_plugin: self.first_plugin@,
            second_plugin: self.second_plugin@,
            conflict_type: self.conflict_type@,
            description: self.description@,
            resolved: self.resolved,
            resolution: self.resolution,
        }
    }
}

/// The abstract values of a list of conflicts.
pub open spec fn conflict_views(s: Seq<PluginConflict>) -> Seq<PluginConflictView> {
    s.map_values(|c: PluginConflict| c@)
}

/// Copies an optional strategy.
fn clone_resolution(r: &Option<ResolutionStrategy>) -> (c: Option<ResolutionStrategy>)
    ensures
        c == *r,
{
    match r {
        Some(s) => Some(s.clone()),
        None => None,
    }
}

impl Clone for PluginConflict {
    fn clone(&self) -> (r: Self)
        ensures
            r == *self,
    {
        PluginConflict {
            first_plugin: self.first_plugin.clone(),
            second_plugin: self.second_plugin.clone(),
            conflict_type: self.conflict_type.clone(),
            description: self.description.clone(),
            resolved: self.resolved,
            resolution: clone_resolution(&self.resolution),
        }
    }
}

impl PluginConflict {
    /// Whether the conflict must be resolved.
    pub open spec fn spec_is_critical(&self) -> bool {
        self.conflict_type.spec_is_critical()
    }

    /// Create a new, unresolved plugin conflict.
    pub fn new(first_plugin: &str, second_plugin: &str, conflict_type: ConflictType, description: &str) -> (r: Self)
        ensures
            r.first_plugin@ == first_plugin@,
            r.second_plugin@ == second_plugin@,
            r.conflict_type == conflict_type,
            r.description@ == description@,
            !r.resolved,
            r.resolution is None,
    {
        PluginConflict {
            first_plugin: first_plugin.to_owned(),
            second_plugin: second_plugin.to_owned(),
            conflict_type,
            description: description.to_owned(),
            resolved: false,
            resolution: None,
        }
    }

    /// Mark this conflict as resolved with the given strategy.
    pub fn resolve(&mut self, strategy: ResolutionStrategy)
        ensures
            *final(self) == (PluginConflict { resolved: true, resolution: Some(strategy), ..*old(self) }),
    {
        self.resolved = true;
        self.resolution = Some(strategy);
    }

    /// Check if this is a critical conflict that must be resolved.
    pub fn is_critical(&self) -> (r: bool)
        ensures
            r == self.spec_is_critical(),
    {
        self.conflict_type.is_critical()
    }
}

/// The conflicts of a list that satisfy a predicate, in order.
pub open spec fn conflicts_where(s: Seq<PluginConflict>, keep: spec_fn(PluginConflict) -> bool) -> Seq<PluginConflict>
    decreases s.len(),
{
    if s.len() == 0 {
        Seq::<PluginConflict>::empty()
    } else {
        let init = conflicts_where(s.drop_last(), keep);
        if keep(s.last()) {
            init.push(s.last())
        } else {
            init
        }
    }
}

/// Whether a conflict is still open.
pub open spec fn is_unresolved(c: PluginConflict) -> bool {
    !c.resolved
}

/// Whether a conflict is still open and must be resolved.
pub open spec fn is_critical_unresolved(c: PluginConflict) -> bool {
    !c.resolved && c.spec_is_critical()
}

/// Law: resolving a conflict closes it and opens none: afterwards it is no
/// longer a critical unresolved conflict, and no other conflict becomes one;
/// so once every critical conflict is resolved, resolving more keeps it so.
pub proof fn lemma_resolving_closes(s: Seq<PluginConflict>, i: int, strategy: ResolutionStrategy)
    requires
        0 <= i < s.len(),
    ensures
        ({
            let t = s.update(i, PluginConflict { resolved: true, resolution: Some(strategy), ..s[i] });
            &&& !is_critical_unresolved(t[i])
            &&& forall|k: int| 0 <= k < s.len() && !is_critical_unresolved(#[trigger] s[k]) ==> !is_critical_unresolved(t[k])
            &&& (forall|k: int| 0 <= k < s.len() ==> !is_critical_unresolved(#[trigger] s[k])) ==> forall|k: int|
                0 <= k < t.len() ==> !is_critical_unresolved(#[trigger] t[k])
        }),
{
}

/// Whether a conflict is recorded between two plugins, in either order.
pub open spec fn involves_pair(c: PluginConflict, a: Seq<char>, b: Seq<char>) -> bool {
    (c.first_plugin@ == a && c.second_plugin@ == b) || (c.first_plugin@ == b && c.second_plugin@ == a)
}

/// The plugins that resolved conflicts ask to disable: the first plugin of a
/// conflict resolved with `DisableFirst`, the second of one resolved with
/// `DisableSecond`.
pub open spec fn disable_target(c: PluginConflict, name: Seq<char>) -> bool {
    c.resolved && ((c.resolution == Some(ResolutionStrategy::DisableFirst) && c.first_plugin@ == name) || (
    c.resolution == Some(ResolutionStrategy::DisableSecond) && c.second_plugin@ == name))
}

/// Whether a list of strings holds a given text.
pub open spec fn contains_text(s: Seq<String>, name: Seq<char>) -> bool {
    exists|k: int| 0 <= k < s.len() && #[trigger] s[k]@ == name
}

/// Whether a resolved conflict among the first `n` asks to disable the named plugin.
pub open spec fn disable_requested(s: Seq<PluginConflict>, n: int, name: Seq<char>) -> bool {
    exists|k: int| 0 <= k < n && disable_target(#[trigger] s[k], name)
}

/// Lexicographic order on texts by character code (the order of `String`).
pub open spec fn text_lt(a: Seq<char>, b: Seq<char>) -> bool
    decreases a.len(),
{
    if a.len() == 0 {
        b.len() > 0
    } else if b.len() == 0 {
        false
    } else if a[0] != b[0] {
        a[0] < b[0]
    } else {
        text_lt(a.drop_first(), b.drop_first())
    }
}

/// Lemma: no text sorts before itself.
pub proof fn lemma_text_lt_irreflexive(a: Seq<char>)
    ensures
        !text_lt(a, a),
    decreases a.len(),
{
    if a.len() > 0 {
        lemma_text_lt_irreflexive(a.drop_first());
    }
}

/// Lemma: of two different texts exactly one sorts first.
pub proof fn lemma_text_lt_total(a: Seq<char>, b: Seq<char>)
    ensures
        a != b ==> text_lt(a, b) || text_lt(b, a),
        !(text_lt(a, b) && text_lt(b, a)),
    decreases a.len(),
{
    if a.len() > 0 && b.len() > 0 {
        lemma_text_lt_total(a.drop_first(), b.drop_first());
        if a != b && a[0] == b[0] {
            assert(a.drop_first() != b.drop_first()) by {
                if a.drop_first() == b.drop_first() {
                    assert(a =~= seq![a[0]] + a.drop_first());
                    assert(b =~= seq![b[0]] + b.drop_first());
                }
            }
        }
    }
    if a.len() == 0 && b.len() == 0 {
        assert(a =~= b);
    }
}

/// Lemma: the text order is transitive.
pub proof fn lemma_text_lt_transitive(a: Seq<char>, b: Seq<char>, c: Seq<char>)
    requires
        text_lt(a, b),
        text_lt(b, c),
    ensures
        text_lt(a, c),
    decreases a.len(),
{
    if a.len() > 0 && b.len() > 0 && c.len() > 0 && a[0] == b[0] && b[0] == c[0] {
        lemma_text_lt_transitive(a.drop_first(), b.drop_first(), c.drop_first());
    }
}

/// Whether one string sorts before another (the order of `String`).
pub fn string_less(a: &String, b: &String) -> (r: bool)
    ensures
        r == text_lt(a@, b@),
{
    let x = crate::text::str_chars(a.as_str());
    let y = crate::text::str_chars(b.as_str());
    let mut i: usize = 0;
    proof {
        assert(x@.skip(0) =~= x@);
        assert(y@.skip(0) =~= y@);
    }
    while i < x.len() && i < y.len()
        invariant
            x@ == a@,
            y@ == b@,
            i <= x.len(),
            i <= y.len(),
            forall|k: int| 0 <= k < i ==> x@[k] == y@[k],
            text_lt(x@, y@) == text_lt(x@.skip(i as int), y@.skip(i as int)),
        decreases x.len() - i,
    {
        if x[i] != y[i] {
            proof {
                assert(x@.skip(i as int).len() > 0);
                assert(y@.skip(i as int).len() > 0);
                assert(x@.skip(i as int)[0] == x@[i as int]);
                assert(y@.skip(i as int)[0] == y@[i as int]);
                assert(text_lt(x@.skip(i as int), y@.skip(i as int)) == (x@[i as int] < y@[i as int]));
            }
            return x[i] < y[i];
        }
        proof {
            assert(x@.skip(i as int).drop_first() =~= x@.skip(i + 1));
            assert(y@.skip(i as int).drop_first() =~= y@.skip(i + 1));
        }
        i = i + 1;
    }
    proof {
        assert(x@.skip(i as int).len() == x@.len() - i);
        assert(y@.skip(i as int).len() == y@.len() - i);
    }
    i < y.len()
}

/// Manager for recording and resolving plugin conflicts.
pub struct ConflictManager {
    conflicts: Vec<PluginConflict>,
}

impl View for ConflictManager {
    type V = Seq<PluginConflict>;

    closed spec fn view(&self) -> Seq<PluginConflict> {
        self.conflicts@
    }
}

impl ConflictManager {
    /// Create a new conflict manager with no conflicts.
    pub fn new() -> (r: Self)
        ensures
            r@ == Seq::<PluginConflict>::empty(),
    {
        ConflictManager { conflicts: Vec::new() }
    }

    /// Add a conflict at the end of the list.
    pub fn add_conflict(&mut self, conflict: PluginConflict)
        ensures
            final(self)@ == old(self)@.push(conflict),
    {
        self.conflicts.push(conflict);
    }

    /// Get all conflicts, in the order they were added.
    pub fn get_conflicts(&self) -> (r: &[PluginConflict])
        ensures
            r@ == self@,
    {
        self.conflicts.as_slice()
    }

    /// The conflicts satisfying a predicate, in order.
    fn collect_where(&self, Ghost(keep): Ghost<spec_fn(PluginConflict) -> bool>, critical_too: bool) -> (r: Vec<&PluginConflict>)
        requires
            forall|c: PluginConflict| #[trigger] keep(c) == (!c.resolved && (critical_too ==> c.spec_is_critical())),
        ensures
            r@.len() == conflicts_where(self@, keep).len(),
            forall|k: int| 0 <= k < r@.len() ==> *#[trigger] r@[k] == conflicts_where(self@, keep)[k],
    {
        let mut out: Vec<&PluginConflict> = Vec::new();
        let mut i: usize = 0;
        while i < self.conflicts.len()
            invariant
                i <= self.conflicts@.len(),
                forall|c: PluginConflict| #[trigger] keep(c) == (!c.resolved && (critical_too ==> c.spec_is_critical())),
                out@.len() == conflicts_where(self.conflicts@.take(i as int), keep).len(),
                forall|k: int| 0 <= k < out@.len() ==> *#[trigger] out@[k] == conflicts_where(self.conflicts@.take(i as int), keep)[k],
            decreases self.conflicts.len() - i,
        {
            let c = &self.conflicts[i];
            proof {
                assert(self.conflicts@.take(i + 1).drop_last() =~= self.conflicts@.take(i as int));
                assert(self.conflicts@.take(i + 1).last() == *c);
            }
            if !c.resolved && (!critical_too || c.is_critical()) {
                out.push(c);
            }
            i = i + 1;
        }
        assert(self.conflicts@.take(self.conflicts@.len() as int) =~= self.conflicts@);
        out
    }

    /// Get the unresolved conflicts, in order.
    pub fn get_unresolved_conflicts(&self) -> (r: Vec<&PluginConflict>)
        ensures
            r@.len() == conflicts_where(self@, |c: PluginConflict| is_unresolved(c)).len(),
            forall|k: int| 0 <= k < r@.len() ==> *#[trigger] r@[k] == conflicts_where(
                self@,
                |c: PluginConflict| is_unresolved(c),
            )[k],
    {
        self.collect_where(Ghost(|c: PluginConflict| is_unresolved(c)), false)
    }

    /// Get the critical unresolved conflicts, in order.
    pub fn get_critical_unresolved_conflicts(&self) -> (r: Vec<&PluginConflict>)
        ensures
            r@.len() == conflicts_where(self@, |c: PluginConflict| is_critical_unresolved(c)).len(),
            forall|k: int| 0 <= k < r@.len() ==> *#[trigger] r@[k] == conflicts_where(
                self@,
                |c: PluginConflict| is_critical_unresolved(c),
            )[k],
    {
        self.collect_where(Ghost(|c: PluginConflict| is_critical_unresolved(c)), true)
    }

    /// Check if a conflict already exists between two specific plugins (order doesn't matter).
    pub fn has_conflict_between(&self, id1: &str, id2: &str) -> (r: bool)
        ensures
            r == exists|k: int| 0 <= k < self@.len() && involves_pair(#[trigger] self@[k], id1@, id2@),
    {
        let a = id1.to_owned();
        let b = id2.to_owned();
        let mut i: usize = 0;
        while i < self.conflicts.len()
            invariant
                i <= self.conflicts@.len(),
                a@ == id1@,
                b@ == id2@,
                forall|k: int| 0 <= k < i ==> !involves_pair(#[trigger] self.conflicts@[k], id1@, id2@),
            decreases self.conflicts.len() - i,
        {
            let c = &self.conflicts[i];
            if (c.first_plugin == a && c.second_plugin == b) || (c.first_plugin == b && c.second_plugin == a) {
                assert(involves_pair(self.conflicts@[i as int], id1@, id2@));
                assert(self@[i as int] == self.conflicts@[i as int]);
                return true;
            }
            i = i + 1;
        }
        false
    }

    /// Resolve the conflict at `index`; fails if there is no conflict there.
    pub fn resolve_conflict(&mut self, index: usize, strategy: ResolutionStrategy) -> (r: Result<(), PluginSystemError>)
        ensures
            index < old(self)@.len() ==> r is Ok && final(self)@ == old(self)@.update(
                index as int,
                PluginConflict { resolved: true, resolution: Some(strategy), ..old(self)@[index as int] },
            ),
            index >= old(self)@.len() ==> final(self)@ == old(self)@ && (r matches Err(
                PluginSystemError::ConflictError { message },
            ) && message@ == "Conflict index out of bounds: "@ + decimal(index as nat)),
    {
        if index >= self.conflicts.len() {
            let message = String::from_str("Conflict index out of bounds: ").concat(u64_to_decimal(index as u64).as_str());
            return Err(PluginSystemError::ConflictError { message });
        }
        let mut c = self.conflicts[index].clone();
        c.resolve(strategy);
        self.conflicts.set(index, c);
        Ok(())
    }

    /// Check if all critical conflicts are resolved.
    pub fn all_critical_conflicts_resolved(&self) -> (r: bool)
        ensures
            r == forall|k: int| 0 <= k < self@.len() ==> !is_critical_unresolved(#[trigger] self@[k]),
    {
        let mut i: usize = 0;
        while i < self.conflicts.len()
            invariant
                i <= self.conflicts@.len(),
                forall|k: int| 0 <= k < i ==> !is_critical_unresolved(#[trigger] self.conflicts@[k]),
            decreases self.conflicts.len() - i,
        {
            let c = &self.conflicts[i];
            if !c.resolved && c.is_critical() {
                assert(is_critical_unresolved(self.conflicts@[i as int]));
                assert(self@[i as int] == self.conflicts@[i as int]);
                return false;
            }
            i = i + 1;
        }
        true
    }

    /// Detect resource conflicts between plugins based on their manifests:
    /// replaces the recorded conflicts with one unresolved resource conflict
    /// for each pair of manifests `i < j` and each pair of claims on the same
    /// resource (same type and identifier) whose access types clash.
    pub fn detect_conflicts(&mut self, manifests: &[PluginManifest]) -> (r: Result<(), PluginSystemError>)
        ensures
            r is Ok,
            extends_with(final(self)@, Seq::<PluginConflict>::empty(), manifests@, all_clashes(manifests@, manifests@.len() as int)),
    {
        self.conflicts = Vec::new();
        let mut i: usize = 0;
        proof {
            assert(all_clashes(manifests@, 0) =~= Seq::<ClashAt>::empty());
        }
        while i < manifests.len()
            invariant
                i <= manifests@.len(),
                extends_with(self.conflicts@, Seq::<PluginConflict>::empty(), manifests@, all_clashes(manifests@, i as int)),
            decreases manifests.len() - i,
        {
            let ghost before_i = self.conflicts@;
            let mut j: usize = i + 1;
            proof {
                assert(clashes_of_manifest(manifests@, i as int, (i + 1) as int) =~= Seq::<ClashAt>::empty());
            }
            while j < manifests.len()
                invariant
                    i < manifests@.len(),
                    i + 1 <= j <= manifests@.len(),
                    extends_with(self.conflicts@, before_i, manifests@, clashes_of_manifest(manifests@, i as int, j as int)),
                decreases manifests.len() - j,
            {
                let ghost before_j = self.conflicts@;
                let mut a: usize = 0;
                proof {
                    assert(clashes_of_pair(manifests@, i as int, j as int, 0) =~= Seq::<ClashAt>::empty());
                }
                while a < manifests[i].resources.len()
                    invariant
                        i < j < manifests@.len(),
                        a <= manifests@[i as int].resources@.len(),
                        extends_with(self.conflicts@, before_j, manifests@, clashes_of_pair(manifests@, i as int, j as int, a as int)),
                    decreases manifests@[i as int].resources@.len() - a,
                {
                    let ghost mid = self.conflicts@;
                    push_claim_clashes(&mut self.conflicts, manifests, i, j, a);
                    proof {
                        lemma_extends_concat(
                            self.conflicts@,
                            mid,
                            before_j,
                            manifests@,
                            clashes_of_pair(manifests@, i as int, j as int, a as int),
                            clashes_with_claim(manifests@, i as int, j as int, a as int, manifests@[j as int].resources@.len() as int),
                        );
                    }
                    a = a + 1;
                }
                proof {
                    lemma_extends_concat(
                        self.conflicts@,
                        before_j,
                        before_i,
                        manifests@,
                        clashes_of_manifest(manifests@, i as int, j as int),
                        clashes_of_pair(manifests@, i as int, j as int, manifests@[i as int].resources@.len() as int),
                    );
                }
                j = j + 1;
            }
            proof {
                lemma_extends_concat(
                    self.conflicts@,
                    before_i,
                    Seq::<PluginConflict>::empty(),
                    manifests@,
                    all_clashes(manifests@, i as int),
                    clashes_of_manifest(manifests@, i as int, manifests@.len() as int),
                );
            }
            i = i + 1;
        }
        Ok(())
    }

    /// Get the plugins that should be disabled according to the resolutions:
    /// each named once, in the order of `String`.
    pub fn get_plugins_to_disable(&self) -> (r: Vec<String>)
        ensures
            forall|i: int, j: int| 0 <= i < j < r@.len() ==> text_lt(r@[i]@, r@[j]@),
            forall|name: Seq<char>|
                #[trigger] contains_text(r@, name) <==> disable_requested(self@, self@.len() as int, name),
    {
        let mut out: Vec<String> = Vec::new();
        let mut i: usize = 0;
        while i < self.conflicts.len()
            invariant
                i <= self.conflicts@.len(),
                forall|a: int, b: int| 0 <= a < b < out@.len() ==> text_lt(out@[a]@, out@[b]@),
                forall|name: Seq<char>|
                    #[trigger] contains_text(out@, name) <==> disable_requested(self.conflicts@, i as int, name),
            decreases self.conflicts.len() - i,
        {
            let c = &self.conflicts[i];
            let ghost before = out@;
            if c.resolved {
                match &c.resolution {
                    Some(ResolutionStrategy::DisableFirst) => {
                        insert_sorted(&mut out, c.first_plugin.clone());
                    },
                    Some(ResolutionStrategy::DisableSecond) => {
                        insert_sorted(&mut out, c.second_plugin.clone());
                    },
                    _ => {},
                }
            }
            proof {
                assert forall|name: Seq<char>|
                    #[trigger] contains_text(out@, name) <==> disable_requested(self.conflicts@, i + 1, name) by {
                    if disable_requested(self.conflicts@, i + 1, name) {
                        let k = choose|k: int| 0 <= k < i + 1 && disable_target(#[trigger] self.conflicts@[k], name);
                        if k < i {
                            assert(disable_requested(self.conflicts@, i as int, name));
                            assert(contains_text(before, name));
                        }
                    }
                    if contains_text(out@, name) {
                        if contains_text(before, name) {
                            let q = choose|q: int| 0 <= q < i && disable_target(#[trigger] self.conflicts@[q], name);
                            assert(disable_target(self.conflicts@[q], name));
                        } else {
                            assert(disable_target(self.conflicts@[i as int], name));
                        }
                    }
                }
            }
            i = i + 1;
        }
        out
    }
}

/// Inserts a string into a strictly sorted list unless an equal one is there.
fn insert_sorted(v: &mut Vec<String>, s: String)
    requires
        forall|a: int, b: int| 0 <= a < b < old(v)@.len() ==> text_lt(old(v)@[a]@, old(v)@[b]@),
    ensures
        forall|a: int, b: int| 0 <= a < b < final(v)@.len() ==> text_lt(final(v)@[a]@, final(v)@[b]@),
        forall|name: Seq<char>|
            #[trigger] contains_text(final(v)@, name) <==> (contains_text(old(v)@, name) || name == s@),
{
    let mut j: usize = 0;
    while j < v.len() && string_less(&v[j], &s)
        invariant
            j <= v@.len(),
            v@ == old(v)@,
            forall|a: int, b: int| 0 <= a < b < v@.len() ==> text_lt(v@[a]@, v@[b]@),
            forall|k: int| 0 <= k < j ==> text_lt(#[trigger] v@[k]@, s@),
        decreases v.len() - j,
    {
        j = j + 1;
    }
    if j < v.len() && v[j] == s {
        proof {
            assert forall|name: Seq<char>|
                #[trigger] contains_text(v@, name) <==> (contains_text(old(v)@, name) || name == s@) by {
                if name == s@ {
                    assert(v@[j as int]@ == name);
                }
            }
        }
        return;
    }
    let ghost old_v = v@;
    proof {
        if j < v@.len() {
            lemma_text_lt_total(v@[j as int]@, s@);
            assert(text_lt(s@, v@[j as int]@));
        }
    }
    v.insert(j, s);
    proof {
        assert forall|a: int, b: int| 0 <= a < b < v@.len() implies text_lt(v@[a]@, v@[b]@) by {
            if b > j + 1 && a <= j {
                lemma_text_lt_transitive(s@, old_v[j as int]@, old_v[b - 1]@);
            }
            if a < j && b > j {
                lemma_text_lt_transitive(v@[a]@, s@, v@[b]@);
            }
        }
        assert forall|name: Seq<char>|
            #[trigger] contains_text(v@, name) <==> (contains_text(old_v, name) || name == s@) by {
            if contains_text(old_v, name) {
                let k = choose|k: int| 0 <= k < old_v.len() && #[trigger] old_v[k]@ == name;
                if k < j {
                    assert(v@[k]@ == name);
                } else {
                    assert(v@[k + 1]@ == name);
                }
            }
            if name == s@ {
                assert(v@[j as int]@ == name);
            }
            if contains_text(v@, name) {
                let k = choose|k: int| 0 <= k < v@.len() && #[trigger] v@[k]@ == name;
                if k < j {
                    assert(old_v[k]@ == name);
                } else if k > j {
                    assert(old_v[k - 1]@ == name);
                }
            }
        }
    }
}

/// The access type of the conflict model that a manifest's access type stands for.
pub open spec fn access_of_manifest(a: ManifestAccess) -> ResourceAccessType {
    match a {
        ManifestAccess::ExclusiveWrite => ResourceAccessType::ExclusiveWrite,
        ManifestAccess::SharedRead => ResourceAccessType::SharedRead,
        ManifestAccess::ProvidesUniqueId => ResourceAccessType::ProvidesUniqueId,
    }
}

/// Maps a manifest's access type to the conflict model's.
pub fn map_manifest_access(a: ManifestAccess) -> (r: ResourceAccessType)
    ensures
        r == access_of_manifest(a),
{
    match a {
        ManifestAccess::ExclusiveWrite => ResourceAccessType::ExclusiveWrite,
        ManifestAccess::SharedRead => ResourceAccessType::SharedRead,
        ManifestAccess::ProvidesUniqueId => ResourceAccessType::ProvidesUniqueId,
    }
}

/// Whether two manifest claims name the same resource with clashing access.
pub open spec fn claims_clash(c1: ManifestResourceClaim, c2: ManifestResourceClaim) -> bool {
    c1.resource_type@ == c2.resource_type@ && c1.identifier@ == c2.identifier@ && accesses_conflict(
        access_of_manifest(c1.access),
        access_of_manifest(c2.access),
    )
}

/// Law: two manifest claims clash exactly when they name the same resource
/// and one of them writes to it, or both claim to provide it uniquely.
pub proof fn lemma_claims_clash_meaning(c1: ManifestResourceClaim, c2: ManifestResourceClaim)
    ensures
        claims_clash(c1, c2) <==> (c1.resource_type@ == c2.resource_type@ && c1.identifier@ == c2.identifier@ && (
        c1.access is ExclusiveWrite || c2.access is ExclusiveWrite || (c1.access is ProvidesUniqueId
            && c2.access is ProvidesUniqueId))),
{
}

/// Position of a clash: manifests `i < j`, claim `a` of the first, claim `b` of the second.
pub type ClashAt = (int, int, int, int);

/// Clashes of claim `a` of manifest `i` with the first `nb` claims of manifest `j`.
pub open spec fn clashes_with_claim(ms: Seq<PluginManifest>, i: int, j: int, a: int, nb: int) -> Seq<ClashAt>
    decreases nb,
{
    if nb <= 0 {
        Seq::<ClashAt>::empty()
    } else {
        let init = clashes_with_claim(ms, i, j, a, nb - 1);
        if claims_clash(ms[i].resources@[a], ms[j].resources@[nb - 1]) {
            init.push((i, j, a, nb - 1))
        } else {
            init
        }
    }
}

/// Clashes of the first `na` claims of manifest `i` with all claims of manifest `j`.
pub open spec fn clashes_of_pair(ms: Seq<PluginManifest>, i: int, j: int, na: int) -> Seq<ClashAt>
    decreases na,
{
    if na <= 0 {
        Seq::<ClashAt>::empty()
    } else {
        clashes_of_pair(ms, i, j, na - 1) + clashes_with_claim(ms, i, j, na - 1, ms[j].resources@.len() as int)
    }
}

/// Clashes of manifest `i` with manifests `i + 1 .. nj`.
pub open spec fn clashes_of_manifest(ms: Seq<PluginManifest>, i: int, nj: int) -> Seq<ClashAt>
    decreases nj - i,
{
    if nj <= i + 1 {
        Seq::<ClashAt>::empty()
    } else {
        clashes_of_manifest(ms, i, nj - 1) + clashes_of_pair(ms, i, nj - 1, ms[i].resources@.len() as int)
    }
}

/// All clashes among the first `ni` manifests and their successors, in the
/// order of a scan over `i < j`, then claims of `i`, then claims of `j`.
pub open spec fn all_clashes(ms: Seq<PluginManifest>, ni: int) -> Seq<ClashAt>
    decreases ni,
{
    if ni <= 0 {
        Seq::<ClashAt>::empty()
    } else {
        all_clashes(ms, ni - 1) + clashes_of_manifest(ms, ni - 1, ms.len() as int)
    }
}

/// Whether a clash position names two manifests in order, a claim of each,
/// and the two claims clash.
pub open spec fn valid_clash(ms: Seq<PluginManifest>, c: ClashAt) -> bool {
    &&& 0 <= c.0 < c.1 < ms.len()
    &&& 0 <= c.2 < ms[c.0].resources@.len()
    &&& 0 <= c.3 < ms[c.1].resources@.len()
    &&& claims_clash(ms[c.0].resources@[c.2], ms[c.1].resources@[c.3])
}

/// Whether one clash position comes before another in the scan order.
pub open spec fn clash_before(x: ClashAt, y: ClashAt) -> bool {
    x.0 < y.0 || (x.0 == y.0 && (x.1 < y.1 || (x.1 == y.1 && (x.2 < y.2 || (x.2 == y.2 && x.3 < y.3)))))
}

/// Whether clash positions are listed in scan order.
pub open spec fn clashes_in_order(s: Seq<ClashAt>) -> bool {
    forall|k: int, l: int| 0 <= k < l < s.len() ==> clash_before(#[trigger] s[k], #[trigger] s[l])
}

/// Whether `s` lists exactly the clashes of claim `a` of manifest `i` with
/// the first `nb` claims of manifest `j`, in scan order.
pub open spec fn claim_row_exact(ms: Seq<PluginManifest>, s: Seq<ClashAt>, i: int, j: int, a: int, nb: int) -> bool {
    &&& forall|k: int| 0 <= k < s.len() ==> valid_clash(ms, #[trigger] s[k]) && s[k].0 == i && s[k].1 == j && s[k].2 == a
        && s[k].3 < nb
    &&& clashes_in_order(s)
    &&& forall|b: int| 0 <= b < nb && claims_clash(ms[i].resources@[a], #[trigger] ms[j].resources@[b]) ==> s.contains((i, j, a, b))
}

/// Whether `s` lists exactly the clashes of the first `na` claims of
/// manifest `i` with the claims of manifest `j`, in scan order.
pub open spec fn pair_exact(ms: Seq<PluginManifest>, s: Seq<ClashAt>, i: int, j: int, na: int) -> bool {
    &&& forall|k: int| 0 <= k < s.len() ==> valid_clash(ms, #[trigger] s[k]) && s[k].0 == i && s[k].1 == j && s[k].2 < na
    &&& clashes_in_order(s)
    &&& forall|a: int, b: int| 0 <= a < na && 0 <= b < ms[j].resources@.len() && #[trigger] claims_clash(
        ms[i].resources@[a],
        ms[j].resources@[b],
    ) ==> s.contains((i, j, a, b))
}

/// Whether `s` lists exactly the clashes of manifest `i` with manifests
/// `i + 1 .. nj`, in scan order.
pub open spec fn manifest_exact(ms: Seq<PluginManifest>, s: Seq<ClashAt>, i: int, nj: int) -> bool {
    &&& forall|k: int| 0 <= k < s.len() ==> valid_clash(ms, #[trigger] s[k]) && s[k].0 == i && s[k].1 < nj
    &&& clashes_in_order(s)
    &&& forall|j: int, a: int, b: int| i < j < nj && 0 <= a < ms[i].resources@.len() && 0 <= b < ms[j].resources@.len()
        && #[trigger] claims_clash(ms[i].resources@[a], ms[j].resources@[b]) ==> s.contains((i, j, a, b))
}

/// Whether `s` lists exactly the clashes whose first manifest is among the
/// first `ni`, in scan order.
pub open spec fn clashes_exact(ms: Seq<PluginManifest>, s: Seq<ClashAt>, ni: int) -> bool {
    &&& forall|k: int| 0 <= k < s.len() ==> valid_clash(ms, #[trigger] s[k]) && s[k].0 < ni
    &&& clashes_in_order(s)
    &&& forall|i: int, j: int, a: int, b: int| 0 <= i < ni && i < j < ms.len() && 0 <= a < ms[i].resources@.len() && 0 <= b
        < ms[j].resources@.len() && #[trigger] claims_clash(ms[i].resources@[a], ms[j].resources@[b]) ==> s.contains((i, j, a, b))
}

proof fn lemma_order_concat(s: Seq<ClashAt>, t: Seq<ClashAt>)
    requires
        clashes_in_order(s),
        clashes_in_order(t),
        forall|k: int, l: int| 0 <= k < s.len() && 0 <= l < t.len() ==> clash_before(#[trigger] s[k], #[trigger] t[l]),
    ensures
        clashes_in_order(s + t),
{
    assert forall|k: int, l: int| 0 <= k < l < (s + t).len() implies clash_before(#[trigger] (s + t)[k], #[trigger] (s + t)[l]) by {
        if l < s.len() {
            assert((s + t)[k] == s[k] && (s + t)[l] == s[l]);
        } else if k >= s.len() {
            assert((s + t)[k] == t[k - s.len()] && (s + t)[l] == t[l - s.len()]);
        } else {
            assert((s + t)[k] == s[k] && (s + t)[l] == t[l - s.len()]);
        }
    }
}

proof fn lemma_contains_concat(s: Seq<ClashAt>, t: Seq<ClashAt>, x: ClashAt)
    ensures
        s.contains(x) ==> (s + t).contains(x),
        t.contains(x) ==> (s + t).contains(x),
{
    if s.contains(x) {
        let k = choose|k: int| 0 <= k < s.len() && s[k] == x;
        assert((s + t)[k] == x);
    }
    if t.contains(x) {
        let k = choose|k: int| 0 <= k < t.len() && t[k] == x;
        assert((s + t)[s.len() + k] == x);
    }
}

proof fn lemma_claim_row_exact(ms: Seq<PluginManifest>, i: int, j: int, a: int, nb: int)
    requires
        0 <= i < j < ms.len(),
        0 <= a < ms[i].resources@.len(),
        nb <= ms[j].resources@.len(),
    ensures
        claim_row_exact(ms, clashes_with_claim(ms, i, j, a, nb), i, j, a, nb),
    decreases nb,
{
    if nb > 0 {
        lemma_claim_row_exact(ms, i, j, a, nb - 1);
        let p = clashes_with_claim(ms, i, j, a, nb - 1);
        let s = clashes_with_claim(ms, i, j, a, nb);
        if claims_clash(ms[i].resources@[a], ms[j].resources@[nb - 1]) {
            let x = (i, j, a, nb - 1);
            assert(s == p.push(x));
            assert(s[p.len() as int] == x);
            assert forall|k: int| 0 <= k < s.len() implies valid_clash(ms, #[trigger] s[k]) && s[k].0 == i && s[k].1 == j
                && s[k].2 == a && s[k].3 < nb by {
                if k < p.len() {
                    assert(s[k] == p[k]);
                }
            }
            assert forall|k: int, l: int| 0 <= k < l < s.len() implies clash_before(#[trigger] s[k], #[trigger] s[l]) by {
                assert(s[k] == p[k]);
                if l < p.len() {
                    assert(s[l] == p[l]);
                }
            }
            assert forall|b: int| 0 <= b < nb && claims_clash(ms[i].resources@[a], #[trigger] ms[j].resources@[b]) implies s.contains(
                (i, j, a, b),
            ) by {
                if b < nb - 1 {
                    let k = choose|k: int| 0 <= k < p.len() && p[k] == (i, j, a, b);
                    assert(s[k] == p[k]);
                }
            }
        } else {
            assert(s == p);
        }
    } else {
        assert(clashes_with_claim(ms, i, j, a, nb) =~= Seq::<ClashAt>::empty());
    }
}

proof fn lemma_pair_exact(ms: Seq<PluginManifest>, i: int, j: int, na: int)
    requires
        0 <= i < j < ms.len(),
        na <= ms[i].resources@.len(),
    ensures
        pair_exact(ms, clashes_of_pair(ms, i, j, na), i, j, na),
    decreases na,
{
    if na > 0 {
        lemma_pair_exact(ms, i, j, na - 1);
        let nb = ms[j].resources@.len() as int;
        lemma_claim_row_exact(ms, i, j, na - 1, nb);
        let p = clashes_of_pair(ms, i, j, na - 1);
        let r = clashes_with_claim(ms, i, j, na - 1, nb);
        let s = clashes_of_pair(ms, i, j, na);
        assert(s == p + r);
        lemma_order_concat(p, r);
        assert forall|k: int| 0 <= k < s.len() implies valid_clash(ms, #[trigger] s[k]) && s[k].0 == i && s[k].1 == j && s[k].2 < na by {
            if k < p.len() {
                assert(s[k] == p[k]);
            } else {
                assert(s[k] == r[k - p.len()]);
            }
        }
        assert forall|a: int, b: int| 0 <= a < na && 0 <= b < ms[j].resources@.len() && #[trigger] claims_clash(
            ms[i].resources@[a],
            ms[j].resources@[b],
        ) implies s.contains((i, j, a, b)) by {
            lemma_contains_concat(p, r, (i, j, a, b));
            if a == na - 1 {
                assert(claims_clash(ms[i].resources@[na - 1], ms[j].resources@[b]));
            }
        }
    } else {
        assert(clashes_of_pair(ms, i, j, na) =~= Seq::<ClashAt>::empty());
    }
}

proof fn lemma_manifest_exact(ms: Seq<PluginManifest>, i: int, nj: int)
    requires
        0 <= i < ms.len(),
        nj <= ms.len(),
    ensures
        manifest_exact(ms, clashes_of_manifest(ms, i, nj), i, nj),
    decreases nj - i,
{
    if nj > i + 1 {
        lemma_manifest_exact(ms, i, nj - 1);
        lemma_pair_exact(ms, i, nj - 1, ms[i].resources@.len() as int);
        let p = clashes_of_manifest(ms, i, nj - 1);
        let r = clashes_of_pair(ms, i, nj - 1, ms[i].resources@.len() as int);
        let s = clashes_of_manifest(ms, i, nj);
        assert(s == p + r);
        lemma_order_concat(p, r);
        assert forall|k: int| 0 <= k < s.len() implies valid_clash(ms, #[trigger] s[k]) && s[k].0 == i && s[k].1 < nj by {
            if k < p.len() {
                assert(s[k] == p[k]);
            } else {
                assert(s[k] == r[k - p.len()]);
            }
        }
        assert forall|j: int, a: int, b: int| i < j < nj && 0 <= a < ms[i].resources@.len() && 0 <= b < ms[j].resources@.len()
            && #[trigger] claims_clash(ms[i].resources@[a], ms[j].resources@[b]) implies s.contains((i, j, a, b)) by {
            lemma_contains_concat(p, r, (i, j, a, b));
        }
    } else {
        assert(clashes_of_manifest(ms, i, nj) =~= Seq::<ClashAt>::empty());
    }
}

proof fn lemma_clashes_exact(ms: Seq<PluginManifest>, ni: int)
    requires
        ni <= ms.len(),
    ensures
        clashes_exact(ms, all_clashes(ms, ni), ni),
    decreases ni,
{
    if ni > 0 {
        lemma_clashes_exact(ms, ni - 1);
        lemma_manifest_exact(ms, ni - 1, ms.len() as int);
        let p = all_clashes(ms, ni - 1);
        let r = clashes_of_manifest(ms, ni - 1, ms.len() as int);
        let s = all_clashes(ms, ni);
        assert(s == p + r);
        lemma_order_concat(p, r);
        assert forall|k: int| 0 <= k < s.len() implies valid_clash(ms, #[trigger] s[k]) && s[k].0 < ni by {
            if k < p.len() {
                assert(s[k] == p[k]);
            } else {
                assert(s[k] == r[k - p.len()]);
            }
        }
        assert forall|i: int, j: int, a: int, b: int| 0 <= i < ni && i < j < ms.len() && 0 <= a < ms[i].resources@.len() && 0 <= b
            < ms[j].resources@.len() && #[trigger] claims_clash(ms[i].resources@[a], ms[j].resources@[b]) implies s.contains(
            (i, j, a, b),
        ) by {
            lemma_contains_concat(p, r, (i, j, a, b));
        }
    } else {
        assert(all_clashes(ms, ni) =~= Seq::<ClashAt>::empty());
    }
}

/// Law: the clashes that resource detection records (see
/// `ConflictManager::detect_conflicts`) are exactly the pairs of claims on
/// the same resource with clashing access, of manifests `i < j`, listed in
/// scan order (by `i`, then `j`, then the claim of `i`, then that of `j`).
pub proof fn lemma_detected_clashes(ms: Seq<PluginManifest>)
    ensures
        clashes_exact(ms, all_clashes(ms, ms.len() as int), ms.len() as int),
{
    lemma_clashes_exact(ms, ms.len() as int);
}

/// The description of a resource conflict found between two manifests.
pub open spec fn resource_conflict_text(
    kind: Seq<char>,
    id: Seq<char>,
    p1: Seq<char>,
    a1: ResourceAccessType,
    p2: Seq<char>,
    a2: ResourceAccessType,
) -> Seq<char> {
    "Resource conflict on type '"@ + kind + "', identifier '"@ + id + "'. Plugin '"@ + p1 + "' claims access "@
        + access_name(a1) + ", and Plugin '"@ + p2 + "' claims access "@ + access_name(a2) + "."@
}

/// Whether a recorded conflict is the one a clash calls for.
pub open spec fn describes_clash(c: PluginConflict, ms: Seq<PluginManifest>, at: ClashAt) -> bool {
    let (i, j, a, b) = at;
    let c1 = ms[i].resources@[a];
    let c2 = ms[j].resources@[b];
    &&& c.first_plugin@ == ms[i].id@
    &&& c.second_plugin@ == ms[j].id@
    &&& c.conflict_type == ConflictType::ResourceConflict {
        resource: ResourceIdentifier { kind: c1.resource_type, id: c1.identifier },
        first_plugin_access: access_of_manifest(c1.access),
        second_plugin_access: access_of_manifest(c2.access),
    }
    &&& c.description@ == resource_conflict_text(
        c1.resource_type@,
        c1.identifier@,
        ms[i].id@,
        access_of_manifest(c1.access),
        ms[j].id@,
        access_of_manifest(c2.access),
    )
    &&& !c.resolved
    &&& c.resolution is None
}

/// Whether `out` holds `before` followed by one described conflict per clash.
pub open spec fn extends_with(out: Seq<PluginConflict>, before: Seq<PluginConflict>, ms: Seq<PluginManifest>, clashes: Seq<ClashAt>) -> bool {
    &&& out.len() == before.len() + clashes.len()
    &&& forall|k: int| 0 <= k < before.len() ==> out[k] == before[k]
    &&& forall|k: int| 0 <= k < clashes.len() ==> describes_clash(#[trigger] out[before.len() + k], ms, clashes[k])
}

/// Lemma: extending in two steps is extending by the concatenation.
proof fn lemma_extends_concat(
    out: Seq<PluginConflict>,
    mid: Seq<PluginConflict>,
    before: Seq<PluginConflict>,
    ms: Seq<PluginManifest>,
    c1: Seq<ClashAt>,
    c2: Seq<ClashAt>,
)
    requires
        extends_with(mid, before, ms, c1),
        extends_with(out, mid, ms, c2),
    ensures
        extends_with(out, before, ms, c1 + c2),
{
    assert forall|k: int| 0 <= k < (c1 + c2).len() implies describes_clash(#[trigger] out[before.len() + k], ms, (c1 + c2)[k]) by {
        if k < c1.len() {
            assert(out[before.len() + k] == mid[before.len() + k]);
        } else {
            assert(out[before.len() + k] == out[mid.len() + (k - c1.len())]);
        }
    }
}

/// Builds the description of a resource conflict.
fn resource_conflict_description(
    kind: &String,
    id: &String,
    p1: &String,
    a1: ResourceAccessType,
    p2: &String,
    a2: ResourceAccessType,
) -> (r: String)
    ensures
        r@ == resource_conflict_text(kind@, id@, p1@, a1, p2@, a2),
{
    let mut s = String::from_str("Resource conflict on type '");
    s.append(kind.as_str());
    s.append("', identifier '");
    s.append(id.as_str());
    s.append("'. Plugin '");
    s.append(p1.as_str());
    s.append("' claims access ");
    s.append(access_type_name(a1));
    s.append(", and Plugin '");
    s.append(p2.as_str());
    s.append("' claims access ");
    s.append(access_type_name(a2));
    s.append(".");
    s
}

/// Records the clashes of claim `a` of manifest `i` with every claim of manifest `j`.
fn push_claim_clashes(out: &mut Vec<PluginConflict>, ms: &[PluginManifest], i: usize, j: usize, a: usize)
    requires
        i < j < ms@.len(),
        a < ms@[i as int].resources@.len(),
    ensures
        extends_with(final(out)@, old(out)@, ms@, clashes_with_claim(ms@, i as int, j as int, a as int, ms@[j as int].resources@.len() as int)),
{
    let m1 = &ms[i];
    let m2 = &ms[j];
    let c1 = &m1.resources[a];
    let ghost start = out@;
    let mut b: usize = 0;
    proof {
        assert(clashes_with_claim(ms@, i as int, j as int, a as int, 0) =~= Seq::<ClashAt>::empty());
    }
    while b < m2.resources.len()
        invariant
            i < j < ms@.len(),
            a < ms@[i as int].resources@.len(),
            *m1 == ms@[i as int],
            *m2 == ms@[j as int],
            *c1 == ms@[i as int].resources@[a as int],
            b <= m2.resources@.len(),
            extends_with(out@, start, ms@, clashes_with_claim(ms@, i as int, j as int, a as int, b as int)),
        decreases m2.resources.len() - b,
    {
        let c2 = &m2.resources[b];
        let ghost mid = out@;
        let ghost prev = clashes_with_claim(ms@, i as int, j as int, a as int, b as int);
        if c1.resource_type == c2.resource_type && c1.identifier == c2.identifier {
            let access1 = map_manifest_access(c1.access);
            let access2 = map_manifest_access(c2.access);
            if access_conflict(access1, access2) {
                let resource = ResourceIdentifier { kind: c1.resource_type.clone(), id: c1.identifier.clone() };
                let description = resource_conflict_description(
                    &resource.kind,
                    &resource.id,
                    &m1.id,
                    access1,
                    &m2.id,
                    access2,
                );
                let conflict = PluginConflict::new(
                    m1.id.as_str(),
                    m2.id.as_str(),
                    ConflictType::ResourceConflict {
                        resource,
                        first_plugin_access: access1,
                        second_plugin_access: access2,
                    },
                    description.as_str(),
                );
                out.push(conflict);
                proof {
                    assert(describes_clash(out@[out@.len() - 1], ms@, (i as int, j as int, a as int, b as int)));
                    assert forall|k: int| 0 <= k < prev.push((i as int, j as int, a as int, b as int)).len() implies
                        describes_clash(#[trigger] out@[start.len() + k], ms@, prev.push((i as int, j as int, a as int, b as int))[k]) by {
                        if k < prev.len() {
                            assert(out@[start.len() + k] == mid[start.len() + k]);
                        }
                    }
                }
            }
        }
        b = b + 1;
    }
}

impl Default for ConflictManager {
    fn default() -> (r: Self)
        ensures
            r@ == Seq::<PluginConflict>::empty(),
    {
        Self::new()
    }
}

} // verus!
