//! The plugin registry: which plugins are registered, enabled and initialized,
//! and the decisions taken over them (compatibility, dependency checks,
//! conflicts, initialization and shutdown order).
use vstd::prelude::*;
use vstd::string::StringExecFns;
use crate::priority::{PluginPriority, lemma_priority_order_total};
use crate::ordering::{index_tie_break, index_matrix, lemma_index_tie_break_total, greedy, greedy_order, ready, respects, unplaced, chosen, square, strict_total, count_set, lemma_count_set_update, lemma_count_set_bound};
use crate::semver_model::{VersionRange, SemVersionView, parse_sem_version, semver_version_parse, semver_req_matches};
use crate::dependency::{PluginDependency, DependencyError, DependencyErrorView, join, join_strings};
use crate::conflict::{ConflictManager, ResolutionStrategy, PluginConflict, PluginConflictView, conflict_views, conflicts_where, is_critical_unresolved, ResourceClaim, contains_text, text_lt, string_less, lemma_text_lt_total, lemma_text_lt_transitive, lemma_text_lt_irreflexive};
use crate::text::decimal;
use crate::version::{ApiVersion, VersionError, VersionErrorView, api_version_text};
use crate::error::{PluginSystemError, PluginSystemErrorSource};
use crate::pair_conflicts::{pair_conflicts, pair_computable, pair_bounds_fit, push_pair_conflicts, lemma_pair_conflicts_shape};

verus! {

/// What the registry knows of a plugin: the metadata the plugin declares.
#[derive(Debug)]
pub struct PluginDescriptor {
    /// The name of the plugin, which is also its identifier.
    pub name: String,
    /// The version of the plugin.
    pub version: String,
    /// Whether this is a core plugin.
    pub is_core: bool,
    /// The priority of the plugin.
    pub priority: PluginPriority,
    /// Compatible API versions.
    pub compatible_api_versions: Vec<VersionRange>,
    /// Plugin dependencies.
    pub dependencies: Vec<PluginDependency>,
    /// Plugins this plugin cannot run together with.
    pub conflicts_with: Vec<String>,
    /// Plugins (and versions) this plugin is incompatible with.
    pub incompatible_with: Vec<PluginDependency>,
    /// Resources the plugin claims.
    pub declared_resources: Vec<ResourceClaim>,
}

/// A registered plugin: its metadata, the plugin object, and its state.
pub struct RegisteredPlugin<P> {
    pub descriptor: PluginDescriptor,
    pub plugin: P,
    pub enabled: bool,
    pub initialized: bool,
}

/// The name of a registered plugin.
pub open spec fn name_of<P>(e: RegisteredPlugin<P>) -> Seq<char> {
    e.descriptor.name@
}

/// Whether the plugins are in strictly increasing name order (so no name
/// occurs twice).
pub open spec fn names_sorted<P>(s: Seq<RegisteredPlugin<P>>) -> bool {
    forall|i: int, j: int| 0 <= i < j < s.len() ==> text_lt(#[trigger] name_of(s[i]), #[trigger] name_of(s[j]))
}

/// Whether a plugin of this name is registered.
pub open spec fn has_name<P>(s: Seq<RegisteredPlugin<P>>, name: Seq<char>) -> bool {
    exists|i: int| 0 <= i < s.len() && #[trigger] name_of(s[i]) == name
}

/// The position of the plugin of this name (meaningful when there is one).
pub open spec fn position_of<P>(s: Seq<RegisteredPlugin<P>>, name: Seq<char>) -> int {
    choose|i: int| 0 <= i < s.len() && #[trigger] name_of(s[i]) == name
}

/// Whether a plugin of this name is registered and enabled.
pub open spec fn enabled_name<P>(s: Seq<RegisteredPlugin<P>>, name: Seq<char>) -> bool {
    exists|i: int| 0 <= i < s.len() && #[trigger] name_of(s[i]) == name && s[i].enabled
}

/// Whether a plugin of this name is registered and initialized.
pub open spec fn initialized_name<P>(s: Seq<RegisteredPlugin<P>>, name: Seq<char>) -> bool {
    exists|i: int| 0 <= i < s.len() && #[trigger] name_of(s[i]) == name && s[i].initialized
}

/// Whether a plugin accepts an API version: one of its ranges matches it.
pub open spec fn api_compatible(d: PluginDescriptor, v: SemVersionView) -> bool {
    exists|k: int| 0 <= k < d.compatible_api_versions@.len() && semver_req_matches(
        #[trigger] d.compatible_api_versions@[k]@,
        v,
    )
}

/// The plugins with a new one inserted at its place in name order.
pub open spec fn inserted_in_order<P>(old_s: Seq<RegisteredPlugin<P>>, new_s: Seq<RegisteredPlugin<P>>, e: RegisteredPlugin<P>) -> bool {
    exists|i: int| 0 <= i <= old_s.len() && new_s == old_s.insert(i, e)
        && (forall|k: int| 0 <= k < i ==> text_lt(#[trigger] name_of(old_s[k]), name_of(e)))
        && (forall|k: int| i <= k < old_s.len() ==> text_lt(name_of(e), #[trigger] name_of(old_s[k])))
}

/// The number of initialized plugins.
pub open spec fn count_initialized<P>(s: Seq<RegisteredPlugin<P>>) -> nat
    decreases s.len(),
{
    if s.len() == 0 {
        0
    } else {
        count_initialized(s.drop_last()) + if s.last().initialized { 1nat } else { 0nat }
    }
}

/// Abstract value of a [`PluginRegistry`].
pub struct RegistryView<P> {
    /// The registered plugins, in name order.
    pub plugins: Seq<RegisteredPlugin<P>>,
    /// The API version of the host.
    pub api_version: ApiVersion,
    /// The conflicts found by the last detection.
    pub conflicts: Seq<PluginConflict>,
}

/// Registry for managing plugins.
pub struct PluginRegistry<P> {
    plugins: Vec<RegisteredPlugin<P>>,
    api_version: ApiVersion,
    conflict_manager: ConflictManager,
}

impl<P> View for PluginRegistry<P> {
    type V = RegistryView<P>;

    closed spec fn view(&self) -> RegistryView<P> {
        RegistryView { plugins: self.plugins@, api_version: self.api_version, conflicts: self.conflict_manager@ }
    }
}

/// Replaces one plugin's flags.
pub open spec fn with_flags<P>(e: RegisteredPlugin<P>, enabled: bool, initialized: bool) -> RegisteredPlugin<P> {
    RegisteredPlugin { enabled, initialized, ..e }
}

/// Lemma: in name order, a name occurs at one position only.
pub proof fn lemma_sorted_unique<P>(s: Seq<RegisteredPlugin<P>>, i: int, j: int)
    requires
        names_sorted(s),
        0 <= i < s.len(),
        0 <= j < s.len(),
        name_of(s[i]) == name_of(s[j]),
    ensures
        i == j,
{
    if i < j {
        assert(text_lt(name_of(s[i]), name_of(s[j])));
        lemma_text_lt_irreflexive(name_of(s[i]));
    } else if j < i {
        assert(text_lt(name_of(s[j]), name_of(s[i])));
        lemma_text_lt_irreflexive(name_of(s[i]));
    }
}

impl<P> PluginRegistry<P> {
    /// The plugins are kept in strictly increasing name order.
    #[verifier::type_invariant]
    closed spec fn inv(&self) -> bool {
        names_sorted(self.plugins@)
    }

    /// Create a new plugin registry with the specified API version.
    pub fn new(api_version: ApiVersion) -> (r: Self)
        ensures
            r@.plugins == Seq::<RegisteredPlugin<P>>::empty(),
            r@.api_version == api_version,
            r@.conflicts == Seq::<PluginConflict>::empty(),
    {
        PluginRegistry { plugins: Vec::new(), api_version, conflict_manager: ConflictManager::new() }
    }

    /// Position of the plugin with this name, if registered.
    fn find(&self, id: &str) -> (r: Option<usize>)
        ensures
            names_sorted(self@.plugins),
            match r {
                Some(i) => i < self@.plugins.len() && name_of(self@.plugins[i as int]) == id@
                    && i == position_of(self@.plugins, id@) && has_name(self@.plugins, id@),
                None => !has_name(self@.plugins, id@),
            },
    {
        proof {
            use_type_invariant(self);
        }
        let key = id.to_owned();
        let mut i: usize = 0;
        while i < self.plugins.len()
            invariant
                i <= self.plugins@.len(),
                key@ == id@,
                names_sorted(self.plugins@),
                forall|k: int| 0 <= k < i ==> name_of(#[trigger] self.plugins@[k]) != id@,
            decreases self.plugins.len() - i,
        {
            if self.plugins[i].descriptor.name == key {
                proof {
                    assert(name_of(self.plugins@[i as int]) == id@);
                    let p = position_of(self.plugins@, id@);
                    lemma_sorted_unique(self.plugins@, i as int, p);
                }
                return Some(i);
            }
            i = i + 1;
        }
        None
    }

    /// Check if a plugin is registered by ID.
    pub fn has_plugin(&self, id: &str) -> (r: bool)
        ensures
            r == has_name(self@.plugins, id@),
    {
        self.find(id).is_some()
    }

    /// Checks if a plugin with the given name is already registered.
    pub fn is_registered(&self, name: &str) -> (r: bool)
        ensures
            r == has_name(self@.plugins, name@),
    {
        self.find(name).is_some()
    }

    /// Check if a plugin is enabled by ID.
    pub fn is_enabled(&self, id: &str) -> (r: bool)
        ensures
            r == enabled_name(self@.plugins, id@),
    {
        match self.find(id) {
            Some(i) => {
                let r = self.plugins[i].enabled;
                proof {
                    if enabled_name(self@.plugins, id@) {
                        let j = choose|j: int| 0 <= j < self@.plugins.len() && #[trigger] name_of(self@.plugins[j]) == id@ && self@.plugins[j].enabled;
                        lemma_sorted_unique(self@.plugins, i as int, j);
                    }
                }
                r
            },
            None => false,
        }
    }

    /// Check if a plugin is initialized by ID.
    pub fn is_initialized(&self, id: &str) -> (r: bool)
        ensures
            r == initialized_name(self@.plugins, id@),
    {
        match self.find(id) {
            Some(i) => {
                let r = self.plugins[i].initialized;
                proof {
                    if initialized_name(self@.plugins, id@) {
                        let j = choose|j: int| 0 <= j < self@.plugins.len() && #[trigger] name_of(self@.plugins[j]) == id@ && self@.plugins[j].initialized;
                        lemma_sorted_unique(self@.plugins, i as int, j);
                    }
                }
                r
            },
            None => false,
        }
    }

    /// Get a plugin object by ID.
    pub fn get_plugin(&self, id: &str) -> (r: Option<&P>)
        ensures
            match r {
                Some(p) => has_name(self@.plugins, id@) && *p == self@.plugins[position_of(self@.plugins, id@)].plugin,
                None => !has_name(self@.plugins, id@),
            },
    {
        match self.find(id) {
            Some(i) => Some(&self.plugins[i].plugin),
            None => None,
        }
    }

    /// Get the metadata of a plugin by ID.
    pub fn get_descriptor(&self, id: &str) -> (r: Option<&PluginDescriptor>)
        ensures
            match r {
                Some(d) => has_name(self@.plugins, id@) && *d == self@.plugins[position_of(self@.plugins, id@)].descriptor,
                None => !has_name(self@.plugins, id@),
            },
    {
        match self.find(id) {
            Some(i) => Some(&self.plugins[i].descriptor),
            None => None,
        }
    }

    /// The registered plugins, in name order.
    pub fn iter_plugins(&self) -> (r: &[RegisteredPlugin<P>])
        ensures
            r@ == self@.plugins,
            names_sorted(r@),
    {
        proof {
            use_type_invariant(self);
        }
        self.plugins.as_slice()
    }

    /// All registered plugin objects, in name order.
    pub fn get_plugins_arc(&self) -> (r: Vec<&P>)
        ensures
            r@.len() == self@.plugins.len(),
            forall|k: int| 0 <= k < r@.len() ==> *#[trigger] r@[k] == self@.plugins[k].plugin,
    {
        let mut out: Vec<&P> = Vec::new();
        let mut i: usize = 0;
        while i < self.plugins.len()
            invariant
                i <= self.plugins@.len(),
                out@.len() == i,
                forall|k: int| 0 <= k < i ==> *#[trigger] out@[k] == self.plugins@[k].plugin,
            decreases self.plugins.len() - i,
        {
            out.push(&self.plugins[i].plugin);
            i = i + 1;
        }
        out
    }

    /// The enabled plugin objects, in name order.
    pub fn get_enabled_plugins_arc(&self) -> (r: Vec<&P>)
        ensures
            r@.len() == enabled_positions(self@.plugins).len(),
            forall|k: int| 0 <= k < r@.len() ==> *#[trigger] r@[k] == self@.plugins[enabled_positions(self@.plugins)[k]].plugin,
    {
        let mut out: Vec<&P> = Vec::new();
        let mut i: usize = 0;
        while i < self.plugins.len()
            invariant
                i <= self.plugins@.len(),
                out@.len() == enabled_positions(self.plugins@.take(i as int)).len(),
                forall|k: int| 0 <= k < out@.len() ==> *#[trigger] out@[k] == self.plugins@[enabled_positions(self.plugins@.take(i as int))[k]].plugin,
            decreases self.plugins.len() - i,
        {
            proof {
                lemma_enabled_positions_step(self.plugins@, i as int);
            }
            if self.plugins[i].enabled {
                out.push(&self.plugins[i].plugin);
            }
            i = i + 1;
        }
        assert(self.plugins@.take(self.plugins@.len() as int) =~= self.plugins@);
        out
    }

    /// All registered plugin names, in name order.
    pub fn get_plugin_ids(&self) -> (r: Vec<String>)
        ensures
            r@.len() == self@.plugins.len(),
            forall|k: int| 0 <= k < r@.len() ==> #[trigger] r@[k]@ == name_of(self@.plugins[k]),
    {
        let mut out: Vec<String> = Vec::new();
        let mut i: usize = 0;
        while i < self.plugins.len()
            invariant
                i <= self.plugins@.len(),
                out@.len() == i,
                forall|k: int| 0 <= k < i ==> #[trigger] out@[k]@ == name_of(self.plugins@[k]),
            decreases self.plugins.len() - i,
        {
            out.push(self.plugins[i].descriptor.name.clone());
            i = i + 1;
        }
        out
    }

    /// Get the number of registered plugins.
    pub fn plugin_count(&self) -> (r: usize)
        ensures
            r == self@.plugins.len(),
    {
        self.plugins.len()
    }

    /// Get the number of initialized plugins.
    pub fn initialized_count(&self) -> (r: usize)
        ensures
            r == count_initialized(self@.plugins),
    {
        let mut n: usize = 0;
        let mut i: usize = 0;
        while i < self.plugins.len()
            invariant
                i <= self.plugins@.len(),
                n == count_initialized(self.plugins@.take(i as int)),
                n <= i,
            decreases self.plugins.len() - i,
        {
            proof {
                assert(self.plugins@.take(i + 1).drop_last() =~= self.plugins@.take(i as int));
            }
            if self.plugins[i].initialized {
                n = n + 1;
            }
            i = i + 1;
        }
        assert(self.plugins@.take(self.plugins@.len() as int) =~= self.plugins@);
        n
    }

    /// Get the current API version.
    pub fn api_version(&self) -> (r: &ApiVersion)
        ensures
            *r == self@.api_version,
    {
        &self.api_version
    }

    /// Sets the flags of the plugin at position `i`.
    fn update_flags(&mut self, i: usize, enabled: bool, initialized: bool)
        requires
            i < old(self)@.plugins.len(),
        ensures
            final(self)@.plugins == old(self)@.plugins.update(i as int, with_flags(old(self)@.plugins[i as int], enabled, initialized)),
            final(self)@.api_version == old(self)@.api_version,
            final(self)@.conflicts == old(self)@.conflicts,
    {
        proof {
            use_type_invariant(&*self);
        }
        let ghost before = self.plugins@;
        let mut v: Vec<RegisteredPlugin<P>> = Vec::new();
        std::mem::swap(&mut v, &mut self.plugins);
        let mut e = v.remove(i);
        e.enabled = enabled;
        e.initialized = initialized;
        v.insert(i, e);
        proof {
            assert(v@ =~= before.update(i as int, with_flags(before[i as int], enabled, initialized)));
            assert forall|a: int, b: int| 0 <= a < b < v@.len() implies text_lt(#[trigger] name_of(v@[a]), #[trigger] name_of(v@[b])) by {
                assert(name_of(v@[a]) == name_of(before[a]));
                assert(name_of(v@[b]) == name_of(before[b]));
            }
        }
        self.plugins = v;
    }

    /// Register a plugin: refused if its name is taken, if the host API
    /// version cannot be read as a semantic version, or if none of the
    /// plugin's API ranges accepts it; otherwise added, enabled and not yet
    /// initialized.
    pub fn register_plugin(&mut self, descriptor: PluginDescriptor, plugin: P) -> (r: Result<(), PluginSystemError>)
        ensures
            final(self)@.api_version == old(self)@.api_version,
            final(self)@.conflicts == old(self)@.conflicts,
            names_sorted(final(self)@.plugins),
            has_name(old(self)@.plugins, descriptor.name@) ==> final(self)@.plugins == old(self)@.plugins && (r matches Err(
                PluginSystemError::RegistrationError { plugin_id, message },
            ) && plugin_id@ == descriptor.name@ && message@ == "Plugin already registered"@),
            !has_name(old(self)@.plugins, descriptor.name@) ==> match semver_version_parse(api_version_text(old(self)@.api_version)) {
                Err(e) => final(self)@.plugins == old(self)@.plugins && (r matches Err(
                    PluginSystemError::VersionParsing(ve),
                ) && ve@ == VersionErrorView::ParseError("Internal API version parse error: "@ + e)),
                Ok(v) => if api_compatible(descriptor, v) {
                    r is Ok && inserted_in_order(
                        old(self)@.plugins,
                        final(self)@.plugins,
                        RegisteredPlugin { descriptor, plugin, enabled: true, initialized: false },
                    )
                } else {
                    final(self)@.plugins == old(self)@.plugins && (r matches Err(
                        PluginSystemError::LoadingError { plugin_id, path: None, source: PluginSystemErrorSource::Other(m) },
                    ) && plugin_id@ == descriptor.name@ && m@ == "Plugin not compatible with API version "@ + api_version_text(
                        old(self)@.api_version,
                    ))
                },
            },
    {
        proof {
            use_type_invariant(&*self);
        }
        if self.find(descriptor.name.as_str()).is_some() {
            return Err(PluginSystemError::RegistrationError {
                plugin_id: descriptor.name.clone(),
                message: String::from_str("Plugin already registered"),
            });
        }
        let api_text = self.api_version.to_string();
        let api_semver = match parse_sem_version(api_text.as_str()) {
            Ok(v) => v,
            Err(e) => {
                let msg = String::from_str("Internal API version parse error: ").concat(e.as_str());
                return Err(PluginSystemError::VersionParsing(VersionError::ParseError(msg)));
            },
        };
        let mut compatible = false;
        let mut k: usize = 0;
        while k < descriptor.compatible_api_versions.len() && !compatible
            invariant
                k <= descriptor.compatible_api_versions@.len(),
                compatible ==> 0 < k && semver_req_matches(descriptor.compatible_api_versions@[k - 1]@, api_semver@),
                !compatible ==> forall|j: int| 0 <= j < k ==> !semver_req_matches(#[trigger] descriptor.compatible_api_versions@[j]@, api_semver@),
            decreases descriptor.compatible_api_versions.len() - k,
        {
            if descriptor.compatible_api_versions[k].includes(&api_semver) {
                compatible = true;
            }
            k = k + 1;
        }
        if !compatible {
            let msg = String::from_str("Plugin not compatible with API version ").concat(api_text.as_str());
            return Err(PluginSystemError::LoadingError {
                plugin_id: descriptor.name.clone(),
                path: None,
                source: PluginSystemErrorSource::Other(msg),
            });
        }
        let ghost before = self.plugins@;
        let ghost name = descriptor.name@;
        let mut pos: usize = 0;
        while pos < self.plugins.len() && string_less(&self.plugins[pos].descriptor.name, &descriptor.name)
            invariant
                pos <= self.plugins@.len(),
                self.plugins@ == before,
                names_sorted(before),
                !has_name(before, name),
                descriptor.name@ == name,
                forall|k: int| 0 <= k < pos ==> text_lt(#[trigger] name_of(before[k]), name),
            decreases self.plugins.len() - pos,
        {
            pos = pos + 1;
        }
        proof {
            assert forall|k: int| pos <= k < before.len() implies text_lt(name, #[trigger] name_of(before[k])) by {
                assert(!text_lt(name_of(before[pos as int]), name));
                assert(name_of(before[pos as int]) != name);
                lemma_text_lt_total(name_of(before[pos as int]), name);
                if k > pos {
                    assert(text_lt(name_of(before[pos as int]), name_of(before[k])));
                    lemma_text_lt_transitive(name, name_of(before[pos as int]), name_of(before[k]));
                }
            }
        }
        let entry = RegisteredPlugin { descriptor, plugin, enabled: true, initialized: false };
        let ghost e = entry;
        let mut v: Vec<RegisteredPlugin<P>> = Vec::new();
        std::mem::swap(&mut v, &mut self.plugins);
        v.insert(pos, entry);
        proof {
            assert(v@ == before.insert(pos as int, e));
            assert forall|a: int, b: int| 0 <= a < b < v@.len() implies text_lt(#[trigger] name_of(v@[a]), #[trigger] name_of(v@[b])) by {
                if b < pos {
                } else if a < pos && b == pos {
                } else if a < pos && b > pos {
                    assert(v@[b] == before[b - 1]);
                    lemma_text_lt_transitive(name_of(v@[a]), name, name_of(v@[b]));
                } else if a == pos {
                    assert(v@[b] == before[b - 1]);
                } else {
                    assert(v@[a] == before[a - 1]);
                    assert(v@[b] == before[b - 1]);
                }
            }
        }
        self.plugins = v;
        Ok(())
    }

    /// Unregister a plugin by ID, handing back the plugin object.
    pub fn unregister_plugin(&mut self, id: &str) -> (r: Result<P, PluginSystemError>)
        ensures
            final(self)@.api_version == old(self)@.api_version,
            final(self)@.conflicts == old(self)@.conflicts,
            names_sorted(final(self)@.plugins),
            match r {
                Ok(p) => has_name(old(self)@.plugins, id@) && p == old(self)@.plugins[position_of(old(self)@.plugins, id@)].plugin
                    && final(self)@.plugins == old(self)@.plugins.remove(position_of(old(self)@.plugins, id@)),
                Err(e) => !has_name(old(self)@.plugins, id@) && final(self)@.plugins == old(self)@.plugins && (e matches
                    PluginSystemError::RegistrationError { plugin_id, message } && plugin_id@ == id@
                    && message@ == "Plugin not found for unregistration"@),
            },
    {
        match self.find(id) {
            Some(i) => {
                let ghost before = self.plugins@;
                let mut v: Vec<RegisteredPlugin<P>> = Vec::new();
                std::mem::swap(&mut v, &mut self.plugins);
                let e = v.remove(i);
                proof {
                    assert forall|a: int, b: int| 0 <= a < b < v@.len() implies text_lt(#[trigger] name_of(v@[a]), #[trigger] name_of(v@[b])) by {
                        if a < i && b >= i {
                            assert(v@[b] == before[b + 1]);
                        } else if a >= i {
                            assert(v@[a] == before[a + 1]);
                            assert(v@[b] == before[b + 1]);
                        }
                    }
                }
                self.plugins = v;
                Ok(e.plugin)
            },
            None => Err(PluginSystemError::RegistrationError {
                plugin_id: id.to_owned(),
                message: String::from_str("Plugin not found for unregistration"),
            }),
        }
    }

    /// Enable a plugin by ID; fails if it is not registered.
    pub fn enable_plugin(&mut self, id: &str) -> (r: Result<(), PluginSystemError>)
        ensures
            final(self)@.api_version == old(self)@.api_version,
            final(self)@.conflicts == old(self)@.conflicts,
            match r {
                Ok(_) => has_name(old(self)@.plugins, id@) && final(self)@.plugins == old(self)@.plugins.update(
                    position_of(old(self)@.plugins, id@),
                    with_flags(old(self)@.plugins[position_of(old(self)@.plugins, id@)], true, old(self)@.plugins[position_of(old(self)@.plugins, id@)].initialized),
                ),
                Err(e) => !has_name(old(self)@.plugins, id@) && final(self)@.plugins == old(self)@.plugins && (e matches
                    PluginSystemError::RegistrationError { plugin_id, message } && plugin_id@ == id@
                    && message@ == "Cannot enable non-existent plugin"@),
            },
    {
        match self.find(id) {
            Some(i) => {
                let init = self.plugins[i].initialized;
                self.update_flags(i, true, init);
                Ok(())
            },
            None => Err(PluginSystemError::RegistrationError {
                plugin_id: id.to_owned(),
                message: String::from_str("Cannot enable non-existent plugin"),
            }),
        }
    }

    /// Disable a plugin by ID for future loads; fails if it is not
    /// registered. Answers whether the plugin is initialized, in which case
    /// the caller shuts it down.
    pub fn disable_plugin(&mut self, id: &str) -> (r: Result<bool, PluginSystemError>)
        ensures
            final(self)@.api_version == old(self)@.api_version,
            final(self)@.conflicts == old(self)@.conflicts,
            match r {
                Ok(needs_shutdown) => has_name(old(self)@.plugins, id@)
                    && needs_shutdown == old(self)@.plugins[position_of(old(self)@.plugins, id@)].initialized
                    && final(self)@.plugins == old(self)@.plugins.update(
                    position_of(old(self)@.plugins, id@),
                    with_flags(old(self)@.plugins[position_of(old(self)@.plugins, id@)], false, needs_shutdown),
                ),
                Err(e) => !has_name(old(self)@.plugins, id@) && final(self)@.plugins == old(self)@.plugins && (e matches
                    PluginSystemError::RegistrationError { plugin_id, message } && plugin_id@ == id@
                    && message@ == "Plugin not found, cannot disable."@),
            },
    {
        match self.find(id) {
            Some(i) => {
                let init = self.plugins[i].initialized;
                self.update_flags(i, false, init);
                Ok(init)
            },
            None => Err(PluginSystemError::RegistrationError {
                plugin_id: id.to_owned(),
                message: String::from_str("Plugin not found, cannot disable."),
            }),
        }
    }

    /// Records the shutdown of the plugins named by a shutdown order: each
    /// is no longer initialized, whatever its shutdown reported. Answers the
    /// outcome from the errors the shutdowns reported, in order: none is
    /// success; one is that error; several are combined into one.
    pub fn finish_shutdown(&mut self, order: &Vec<String>, errors: Vec<PluginSystemError>) -> (r: Result<(), PluginSystemError>)
        ensures
            final(self)@.api_version == old(self)@.api_version,
            final(self)@.conflicts == old(self)@.conflicts,
            final(self)@.plugins == shut_down(old(self)@.plugins, order@),
            errors@.len() == 0 ==> r is Ok,
            errors@.len() == 1 ==> r == Err::<(), PluginSystemError>(errors@[0]),
            errors@.len() > 1 ==> (r matches Err(PluginSystemError::ShutdownError { plugin_id, message })
                && plugin_id@ == "multiple"@
                && message@ == "Encountered errors during plugin shutdown: "@ + join(error_texts(errors@), "; "@)),
    {
        proof {
            use_type_invariant(&*self);
            assert(old(self)@.plugins =~= shut_down(old(self)@.plugins, order@.take(0)));
        }
        let mut k: usize = 0;
        while k < order.len()
            invariant
                k <= order@.len(),
                names_sorted(old(self)@.plugins),
                self@.api_version == old(self)@.api_version,
                self@.conflicts == old(self)@.conflicts,
                self@.plugins == shut_down(old(self)@.plugins, order@.take(k as int)),
            decreases order.len() - k,
        {
            let ghost before = self@.plugins;
            self.set_initialized(order[k].as_str(), false);
            proof {
                lemma_shut_down_step(old(self)@.plugins, order@, k as int, before, self@.plugins);
            }
            k = k + 1;
        }
        proof {
            assert(order@.take(order@.len() as int) =~= order@);
        }
        combine_shutdown_errors(errors)
    }

    /// Records whether a plugin is initialized; answers whether it is registered.
    pub fn set_initialized(&mut self, id: &str, initialized: bool) -> (r: bool)
        ensures
            final(self)@.api_version == old(self)@.api_version,
            final(self)@.conflicts == old(self)@.conflicts,
            r == has_name(old(self)@.plugins, id@),
            r ==> final(self)@.plugins == old(self)@.plugins.update(
                position_of(old(self)@.plugins, id@),
                with_flags(old(self)@.plugins[position_of(old(self)@.plugins, id@)], old(self)@.plugins[position_of(old(self)@.plugins, id@)].enabled, initialized),
            ),
            !r ==> final(self)@.plugins == old(self)@.plugins,
    {
        match self.find(id) {
            Some(i) => {
                let en = self.plugins[i].enabled;
                self.update_flags(i, en, initialized);
                true
            },
            None => false,
        }
    }

    /// Checks one dependency of an enabled plugin against the registry.
    fn dependency_check(&self, d: &PluginDependency) -> (r: Result<(), PluginSystemError>)
        ensures
            match dependency_issue(self@.plugins, *d) {
                None => r is Ok,
                Some(x) => r matches Err(e) && issue_error(e, x),
            },
    {
        let found = self.find(d.plugin_name.as_str());
        let dep_exists = found.is_some();
        let dep_enabled = match found {
            Some(i) => self.plugins[i].enabled,
            None => false,
        };
        proof {
            if let Some(i) = found {
                if enabled_name(self@.plugins, d.plugin_name@) {
                    let j = choose|j: int| 0 <= j < self@.plugins.len() && #[trigger] name_of(self@.plugins[j]) == d.plugin_name@ && self@.plugins[j].enabled;
                    lemma_sorted_unique(self@.plugins, i as int, j);
                }
            }
        }
        if d.required && (!dep_exists || !dep_enabled) {
            return Err(PluginSystemError::DependencyResolution(DependencyError::MissingPlugin(d.plugin_name.clone())));
        }
        if let Some(i) = found {
            if let Some(range) = &d.version_range {
                let actual = &self.plugins[i].descriptor.version;
                match parse_sem_version(actual.as_str()) {
                    Ok(v) => {
                        if !range.includes(&v) {
                            return Err(PluginSystemError::DependencyResolution(DependencyError::IncompatibleVersion {
                                plugin_name: d.plugin_name.clone(),
                                required_range: range.clone(),
                                actual_version: actual.clone(),
                            }));
                        }
                    },
                    Err(e) => {
                        let mut msg = String::from_str("Failed to parse version string '");
                        msg.append(actual.as_str());
                        msg.append("' for dependency plugin '");
                        msg.append(d.plugin_name.as_str());
                        msg.append("': ");
                        msg.append(e.as_str());
                        return Err(PluginSystemError::VersionParsing(VersionError::ParseError(msg)));
                    },
                }
            }
        }
        Ok(())
    }

    /// Check the dependencies of every enabled plugin, in name order and in
    /// the order each declares them; fails with the first problem found.
    pub fn check_dependencies(&self) -> (r: Result<(), PluginSystemError>)
        ensures
            r is Ok <==> (forall|i: int, k: int| #![trigger issue_at(self@.plugins, i, k)]
                0 <= i < self@.plugins.len() && 0 <= k < self@.plugins[i].descriptor.dependencies@.len()
                ==> issue_at(self@.plugins, i, k) is None),
            r matches Err(e) ==> exists|i: int, k: int| 0 <= i < self@.plugins.len() && 0 <= k < self@.plugins[i].descriptor.dependencies@.len()
                && #[trigger] issue_at(self@.plugins, i, k) is Some && issue_error(e, issue_at(self@.plugins, i, k)->Some_0)
                && first_issue(self@.plugins, i, k),
    {
        let mut i: usize = 0;
        while i < self.plugins.len()
            invariant
                i <= self.plugins@.len(),
                forall|a: int, b: int| #![trigger issue_at(self@.plugins, a, b)]
                    0 <= a < i && 0 <= b < self@.plugins[a].descriptor.dependencies@.len() ==> issue_at(self@.plugins, a, b) is None,
            decreases self.plugins.len() - i,
        {
            if self.plugins[i].enabled {
                let deps = &self.plugins[i].descriptor.dependencies;
                let mut k: usize = 0;
                while k < deps.len()
                    invariant
                        i < self.plugins@.len(),
                        self.plugins@[i as int].enabled,
                        *deps == self.plugins@[i as int].descriptor.dependencies,
                        k <= deps@.len(),
                        forall|a: int, b: int| #![trigger issue_at(self@.plugins, a, b)]
                            0 <= a < i && 0 <= b < self@.plugins[a].descriptor.dependencies@.len() ==> issue_at(self@.plugins, a, b) is None,
                        forall|b: int| #![trigger issue_at(self@.plugins, i as int, b)] 0 <= b < k ==> issue_at(self@.plugins, i as int, b) is None,
                    decreases deps.len() - k,
                {
                    let res = self.dependency_check(&deps[k]);
                    if res.is_err() {
                        proof {
                            assert(issue_at(self@.plugins, i as int, k as int) == dependency_issue(self@.plugins, deps@[k as int]));
                        }
                        return res;
                    }
                    k = k + 1;
                }
            }
            i = i + 1;
        }
        Ok(())
    }

    /// The positions of the enabled plugins, in name order.
    fn enabled_position_list(&self) -> (r: Vec<usize>)
        ensures
            r@.len() == enabled_positions(self@.plugins).len(),
            forall|k: int| 0 <= k < r@.len() ==> #[trigger] r@[k] as int == enabled_positions(self@.plugins)[k]
                && r@[k] < self@.plugins.len(),
    {
        let mut out: Vec<usize> = Vec::new();
        let mut i: usize = 0;
        while i < self.plugins.len()
            invariant
                i <= self.plugins@.len(),
                out@.len() == enabled_positions(self.plugins@.take(i as int)).len(),
                forall|k: int| 0 <= k < out@.len() ==> #[trigger] out@[k] as int == enabled_positions(self.plugins@.take(i as int))[k]
                    && out@[k] < i,
            decreases self.plugins.len() - i,
        {
            proof {
                lemma_enabled_positions_step(self.plugins@, i as int);
            }
            if self.plugins[i].enabled {
                out.push(i);
            }
            i = i + 1;
        }
        assert(self.plugins@.take(self.plugins@.len() as int) =~= self.plugins@);
        out
    }

    /// Whether the bounds that conflict detection compares can be computed
    /// for every pair of enabled plugins.
    pub fn can_detect_conflicts(&self) -> (r: bool)
        ensures
            r == conflicts_computable(enabled_descriptors(self@.plugins)),
    {
        let ps = self.enabled_position_list();
        let ghost ds = enabled_descriptors(self@.plugins);
        let mut i: usize = 0;
        while i < ps.len()
            invariant
                i <= ps@.len(),
                ds == enabled_descriptors(self@.plugins),
                ds.len() == ps@.len(),
                forall|k: int| 0 <= k < ps@.len() ==> #[trigger] ps@[k] as int == enabled_positions(self@.plugins)[k]
                    && ps@[k] < self@.plugins.len(),
                forall|a: int, b: int| 0 <= a < i && a < b < ds.len() ==> #[trigger] pair_computable(ds[a], ds[b]),
            decreases ps.len() - i,
        {
            let mut j: usize = i + 1;
            while j < ps.len()
                invariant
                    i < ps@.len(),
                    i < j <= ps@.len(),
                    ds == enabled_descriptors(self@.plugins),
                    ds.len() == ps@.len(),
                    forall|k: int| 0 <= k < ps@.len() ==> #[trigger] ps@[k] as int == enabled_positions(self@.plugins)[k]
                        && ps@[k] < self@.plugins.len(),
                    forall|a: int, b: int| 0 <= a < i && a < b < ds.len() ==> #[trigger] pair_computable(ds[a], ds[b]),
                    forall|b: int| i < b < j ==> #[trigger] pair_computable(ds[i as int], ds[b]),
                decreases ps.len() - j,
            {
                let a = &self.plugins[ps[i]].descriptor;
                let b = &self.plugins[ps[j]].descriptor;
                if !pair_bounds_fit(a, b) {
                    assert(*a == ds[i as int]);
                    assert(*b == ds[j as int]);
                    assert(!pair_computable(ds[i as int], ds[j as int]));
                    return false;
                }
                j = j + 1;
            }
            i = i + 1;
        }
        true
    }

    /// Detect all conflicts between the enabled plugins, replacing those
    /// found before: for each pair of enabled plugins in name order, the
    /// conflicts of [`pair_conflicts`].
    pub fn detect_all_conflicts(&mut self) -> (r: Result<(), PluginSystemError>)
        requires
            conflicts_computable(enabled_descriptors(old(self)@.plugins)),
        ensures
            r is Ok,
            final(self)@.plugins == old(self)@.plugins,
            names_sorted(final(self)@.plugins),
            final(self)@.api_version == old(self)@.api_version,
            conflict_views(final(self)@.conflicts) == all_pair_conflicts(
                enabled_descriptors(old(self)@.plugins),
                enabled_descriptors(old(self)@.plugins).len() as int,
            ),
    {
        proof {
            use_type_invariant(&*self);
        }
        let ps = self.enabled_position_list();
        let ghost ds = enabled_descriptors(self@.plugins);
        let mut cm = ConflictManager::new();
        let mut i: usize = 0;
        assert(conflict_views(cm@) =~= all_pair_conflicts(ds, 0));
        while i < ps.len()
            invariant
                i <= ps@.len(),
                ds == enabled_descriptors(self@.plugins),
                ds.len() == ps@.len(),
                conflicts_computable(ds),
                forall|k: int| 0 <= k < ps@.len() ==> #[trigger] ps@[k] as int == enabled_positions(self@.plugins)[k]
                    && ps@[k] < self@.plugins.len(),
                conflict_views(cm@) == all_pair_conflicts(ds, i as int),
            decreases ps.len() - i,
        {
            let ghost row_start = conflict_views(cm@);
            let mut j: usize = i + 1;
            assert(pairs_row(ds, i as int, j as int) =~= Seq::<PluginConflictView>::empty());
            assert(row_start + pairs_row(ds, i as int, j as int) =~= row_start);
            while j < ps.len()
                invariant
                    i < ps@.len(),
                    i < j <= ps@.len(),
                    ds == enabled_descriptors(self@.plugins),
                    ds.len() == ps@.len(),
                    conflicts_computable(ds),
                    forall|k: int| 0 <= k < ps@.len() ==> #[trigger] ps@[k] as int == enabled_positions(self@.plugins)[k]
                        && ps@[k] < self@.plugins.len(),
                    conflict_views(cm@) == row_start + pairs_row(ds, i as int, j as int),
                decreases ps.len() - j,
            {
                let a = &self.plugins[ps[i]].descriptor;
                let b = &self.plugins[ps[j]].descriptor;
                proof {
                    assert(*a == ds[i as int]);
                    assert(*b == ds[j as int]);
                    assert(pair_computable(ds[i as int], ds[j as int]));
                }
                push_pair_conflicts(&mut cm, a, b);
                proof {
                    assert(row_start + pairs_row(ds, i as int, j + 1) =~= row_start + pairs_row(ds, i as int, j as int)
                        + pair_conflicts(ds[i as int], ds[j as int]));
                }
                j = j + 1;
            }
            i = i + 1;
        }
        self.conflict_manager = cm;
        Ok(())
    }

    /// The positions of the initialized plugins, in name order.
    fn initialized_position_list(&self) -> (r: Vec<usize>)
        ensures
            r@.len() == initialized_positions(self@.plugins).len(),
            forall|k: int| 0 <= k < r@.len() ==> #[trigger] r@[k] as int == initialized_positions(self@.plugins)[k]
                && r@[k] < self@.plugins.len(),
    {
        let mut out: Vec<usize> = Vec::new();
        let mut i: usize = 0;
        while i < self.plugins.len()
            invariant
                i <= self.plugins@.len(),
                out@.len() == initialized_positions(self.plugins@.take(i as int)).len(),
                forall|k: int| 0 <= k < out@.len() ==> #[trigger] out@[k] as int == initialized_positions(self.plugins@.take(i as int))[k]
                    && out@[k] < i,
            decreases self.plugins.len() - i,
        {
            proof {
                assert(self.plugins@.take(i + 1).drop_last() =~= self.plugins@.take(i as int));
            }
            if self.plugins[i].initialized {
                out.push(i);
            }
            i = i + 1;
        }
        assert(self.plugins@.take(self.plugins@.len() as int) =~= self.plugins@);
        out
    }

    /// The metadata at the given positions.
    fn descriptors_at(&self, ps: &Vec<usize>) -> (r: Vec<&PluginDescriptor>)
        requires
            forall|k: int| 0 <= k < ps@.len() ==> #[trigger] ps@[k] < self@.plugins.len(),
        ensures
            r@.map_values(|d: &PluginDescriptor| *d) == ps@.map_values(|p: usize| self@.plugins[p as int].descriptor),
    {
        let mut out: Vec<&PluginDescriptor> = Vec::new();
        let mut k: usize = 0;
        while k < ps.len()
            invariant
                k <= ps@.len(),
                forall|j: int| 0 <= j < ps@.len() ==> #[trigger] ps@[j] < self@.plugins.len(),
                out@.len() == k,
                forall|j: int| 0 <= j < k ==> *#[trigger] out@[j] == self@.plugins[ps@[j] as int].descriptor,
            decreases ps.len() - k,
        {
            out.push(&self.plugins[ps[k]].descriptor);
            k = k + 1;
        }
        assert(out@.map_values(|d: &PluginDescriptor| *d) =~= ps@.map_values(|p: usize| self@.plugins[p as int].descriptor));
        out
    }

    /// The order in which to initialize the enabled plugins: each after the
    /// enabled plugins it depends on, and among those ready the one of
    /// highest priority (then first by name). Fails with the plugins left
    /// over when the dependencies among enabled plugins form a cycle.
    pub fn topological_sort(&self) -> (r: Result<Vec<String>, DependencyError>)
        ensures
            ordered_outcome(
                enabled_descriptors(self@.plugins),
                init_constraints(enabled_descriptors(self@.plugins)),
                init_tie_break(enabled_descriptors(self@.plugins)),
                r,
            ),
    {
        proof {
            use_type_invariant(self);
            lemma_picked_names_distinct(self@.plugins);
        }
        let ps = self.enabled_position_list();
        let ds = self.descriptors_at(&ps);
        let ghost dv = ds@.map_values(|d: &PluginDescriptor| *d);
        proof {
            assert(dv =~= enabled_descriptors(self@.plugins));
            lemma_init_tie_break_total(dv);
        }
        let prec = constraint_matrix(&ds, false);
        let first = priority_matrix(&ds);
        order_plugins(&ds, &prec, &first)
    }

    /// The order in which to shut down the initialized plugins: each before
    /// the initialized plugins it depends on, and among those ready the first
    /// by name. Fails with the plugins left over when the dependencies among
    /// initialized plugins form a cycle.
    pub fn shutdown_order(&self) -> (r: Result<Vec<String>, DependencyError>)
        ensures
            ordered_outcome(
                initialized_descriptors(self@.plugins),
                shutdown_constraints(initialized_descriptors(self@.plugins)),
                index_tie_break(initialized_descriptors(self@.plugins).len() as int),
                r,
            ),
    {
        let ps = self.initialized_position_list();
        let ds = self.descriptors_at(&ps);
        let ghost dv = ds@.map_values(|d: &PluginDescriptor| *d);
        proof {
            assert(dv =~= initialized_descriptors(self@.plugins));
            lemma_index_tie_break_total(dv.len() as int);
        }
        let prec = constraint_matrix(&ds, true);
        let first = index_matrix(ds.len());
        order_plugins(&ds, &prec, &first)
    }

    /// Checks the versions of the enabled dependencies of a plugin, adding a
    /// message for each problem.
    fn collect_version_errors(&self, owner: &PluginDescriptor, errors: &mut Vec<String>)
        ensures
            texts(final(errors)@) == texts(old(errors)@) + owner_version_errors(self@.plugins, *owner, owner.dependencies@.len() as int),
    {
        let ghost start = texts(errors@);
        let mut k: usize = 0;
        while k < owner.dependencies.len()
            invariant
                k <= owner.dependencies@.len(),
                texts(errors@) == start + owner_version_errors(self@.plugins, *owner, k as int),
            decreases owner.dependencies.len() - k,
        {
            let d = &owner.dependencies[k];
            let ghost before = texts(errors@);
            if let Some(range) = &d.version_range {
                let found = self.find(d.plugin_name.as_str());
                if let Some(i) = found {
                    let en = self.plugins[i].enabled;
                    proof {
                        if enabled_name(self@.plugins, d.plugin_name@) {
                            let j = choose|j: int| 0 <= j < self@.plugins.len() && #[trigger] name_of(self@.plugins[j]) == d.plugin_name@ && self@.plugins[j].enabled;
                            lemma_sorted_unique(self@.plugins, i as int, j);
                        }
                    }
                    if en {
                        let actual = &self.plugins[i].descriptor.version;
                        match parse_sem_version(actual.as_str()) {
                            Ok(v) => {
                                if !range.includes(&v) {
                                    let mut m = String::from_str("Plugin '");
                                    m.append(owner.name.as_str());
                                    m.append("' (version ");
                                    m.append(owner.version.as_str());
                                    m.append(") requires dependency '");
                                    m.append(d.plugin_name.as_str());
                                    m.append("' version '");
                                    m.append(range.constraint_string());
                                    m.append("', but actual version of '");
                                    m.append(d.plugin_name.as_str());
                                    m.append("' is '");
                                    m.append(actual.as_str());
                                    m.append("'.");
                                    errors.push(m);
                                }
                            },
                            Err(e) => {
                                let mut m = String::from_str("Plugin '");
                                m.append(owner.name.as_str());
                                m.append("' depends on '");
                                m.append(d.plugin_name.as_str());
                                m.append("', but its version '");
                                m.append(actual.as_str());
                                m.append("' could not be parsed: ");
                                m.append(e.as_str());
                                m.append(".");
                                errors.push(m);
                            },
                        }
                    }
                }
            }
            proof {
                assert(texts(errors@) =~= before + version_errors(self@.plugins, *owner, owner.dependencies@[k as int]));
                assert(start + owner_version_errors(self@.plugins, *owner, k + 1) =~= start + owner_version_errors(
                    self@.plugins,
                    *owner,
                    k as int,
                ) + version_errors(self@.plugins, *owner, owner.dependencies@[k as int]));
            }
            k = k + 1;
        }
    }

    /// The decisions of initializing all enabled plugins, before any plugin
    /// is initialized: detect conflicts (replacing those recorded); refuse
    /// if critical ones are unresolved; order the enabled plugins by
    /// dependencies and priority; refuse if a dependency's version, among
    /// enabled plugins, is outside its required range or unreadable.
    /// Answers the order in which to initialize the plugins.
    pub fn plan_initialize_all(&mut self) -> (r: Result<Vec<String>, PluginSystemError>)
        requires
            conflicts_computable(enabled_descriptors(old(self)@.plugins)),
        ensures
            final(self)@.plugins == old(self)@.plugins,
            final(self)@.api_version == old(self)@.api_version,
            conflict_views(final(self)@.conflicts) == all_pair_conflicts(
                enabled_descriptors(old(self)@.plugins),
                enabled_descriptors(old(self)@.plugins).len() as int,
            ),
            ({
                let crit = conflicts_where(final(self)@.conflicts, |c: PluginConflict| is_critical_unresolved(c));
                let ds = enabled_descriptors(old(self)@.plugins);
                let prec = init_constraints(ds);
                let first = init_tie_break(ds);
                &&& crit.len() > 0 ==> (r matches Err(PluginSystemError::UnresolvedPluginConflicts { conflicts })
                    && conflicts@ == crit)
                &&& crit.len() == 0 ==> match r {
                    Ok(ids) => ordered_outcome(ds, prec, first, Ok(ids)) && order_version_errors(
                        old(self)@.plugins,
                        texts(ids@),
                        ids@.len() as int,
                    ).len() == 0,
                    Err(PluginSystemError::DependencyResolution(e)) => ordered_outcome(ds, prec, first, Err(e)),
                    Err(PluginSystemError::TransitiveDependencyErrors { errors }) => exists|ids: Vec<String>|
                        ordered_outcome(ds, prec, first, Ok(ids)) && texts(errors@) == order_version_errors(
                            old(self)@.plugins,
                            texts(ids@),
                            ids@.len() as int,
                        ) && errors@.len() > 0,
                    Err(_) => false,
                }
            }),
    {
        let _ = self.detect_all_conflicts();
        let critical = self.conflict_manager.get_critical_unresolved_conflicts();
        if critical.len() > 0 {
            let ghost crit = conflicts_where(self@.conflicts, |c: PluginConflict| is_critical_unresolved(c));
            let mut conflicts: Vec<PluginConflict> = Vec::new();
            let mut k: usize = 0;
            while k < critical.len()
                invariant
                    k <= critical@.len(),
                    critical@.len() == crit.len(),
                    forall|j: int| 0 <= j < critical@.len() ==> *#[trigger] critical@[j] == crit[j],
                    conflicts@.len() == k,
                    forall|j: int| 0 <= j < k ==> #[trigger] conflicts@[j] == crit[j],
                decreases critical.len() - k,
            {
                conflicts.push(critical[k].clone());
                k = k + 1;
            }
            assert(conflicts@ =~= crit);
            return Err(PluginSystemError::UnresolvedPluginConflicts { conflicts });
        }
        let order = match self.topological_sort() {
            Ok(ids) => ids,
            Err(e) => return Err(PluginSystemError::DependencyResolution(e)),
        };
        let mut errors: Vec<String> = Vec::new();
        let mut k: usize = 0;
        let ghost names = texts(order@);
        proof {
            use_type_invariant(&*self);
            let ds = enabled_descriptors(self@.plugins);
            let o = choose|o: Seq<int>| #[trigger] greedy(init_constraints(ds), init_tie_break(ds), o) && o.len() == ds.len()
                && (forall|x: int| 0 <= x < ds.len() ==> #[trigger] o.contains(x)) && names_at(ds, o, order@);
            lemma_order_names_registered(self@.plugins, o, order@);
        }
        assert(texts(errors@) =~= order_version_errors(self@.plugins, names, 0));
        while k < order.len()
            invariant
                k <= order@.len(),
                names == texts(order@),
                forall|j: int| 0 <= j < order@.len() ==> #[trigger] has_name(self@.plugins, order@[j]@),
                texts(errors@) == order_version_errors(self@.plugins, names, k as int),
            decreases order.len() - k,
        {
            assert(has_name(self@.plugins, order@[k as int]@));
            let i = match self.find(order[k].as_str()) {
                Some(i) => i,
                None => {
                    proof {
                        assert(false);
                    }
                    0
                },
            };
            let owner = &self.plugins[i].descriptor;
            let ghost before = texts(errors@);
            self.collect_version_errors(owner, &mut errors);
            proof {
                assert(names[k as int] == order@[k as int]@);
                assert(order_version_errors(self@.plugins, names, k + 1) =~= before + owner_version_errors(
                    self@.plugins,
                    *owner,
                    owner.dependencies@.len() as int,
                ));
            }
            k = k + 1;
        }
        if errors.len() > 0 {
            return Err(PluginSystemError::TransitiveDependencyErrors { errors });
        }
        Ok(order)
    }

    /// Plans plugin `id` (see [`plan_visit`]).
    fn visit(&self, id: &String, planned: &mut Vec<String>, visiting: &mut Vec<bool>) -> (stop: Option<PluginSystemError>)
        requires
            old(visiting)@.len() == self@.plugins.len(),
        ensures
            ({
                let (pl, x) = plan_visit(self@.plugins, id@, texts(old(planned)@), old(visiting)@);
                &&& texts(final(planned)@) == pl
                &&& match x {
                    None => stop is None && final(visiting)@ == old(visiting)@,
                    Some(x) => stop matches Some(e) && stop_error(e, x),
                }
            }),
        decreases self@.plugins.len() - count_set(old(visiting)@), 0int, 0int,
    {
        proof {
            lemma_count_set_bound(visiting@);
        }
        let found = self.find(id.as_str());
        let i = match found {
            Some(i) => i,
            None => {
                return Some(PluginSystemError::RegistrationError {
                    plugin_id: id.clone(),
                    message: String::from_str("Plugin not found"),
                });
            },
        };
        let en = self.plugins[i].enabled;
        let init = self.plugins[i].initialized;
        proof {
            if enabled_name(self@.plugins, id@) {
                let j = choose|j: int| 0 <= j < self@.plugins.len() && #[trigger] name_of(self@.plugins[j]) == id@ && self@.plugins[j].enabled;
                lemma_sorted_unique(self@.plugins, i as int, j);
            }
            if initialized_name(self@.plugins, id@) {
                let j = choose|j: int| 0 <= j < self@.plugins.len() && #[trigger] name_of(self@.plugins[j]) == id@ && self@.plugins[j].initialized;
                lemma_sorted_unique(self@.plugins, i as int, j);
            }
        }
        if !en || init || strings_contain(planned, id) {
            return None;
        }
        if visiting[i] {
            let mut ids: Vec<String> = Vec::new();
            ids.push(id.clone());
            proof {
                assert(ids@.map_values(|s: String| s@) =~= seq![id@]);
            }
            return Some(PluginSystemError::DependencyResolution(DependencyError::CyclicDependency(ids)));
        }
        proof {
            lemma_count_set_update(visiting@, i as int);
        }
        visiting.set(i, true);
        let owner = &self.plugins[i].descriptor;
        let stop = self.visit_deps(owner, 0, planned, visiting);
        if stop.is_some() {
            return stop;
        }
        visiting.set(i, false);
        let ghost before = texts(planned@);
        planned.push(id.clone());
        proof {
            assert(texts(planned@) =~= before.push(id@));
            assert(visiting@ =~= old(visiting)@);
        }
        None
    }

    /// Plans the dependencies of a plugin from the `k`-th on (see [`plan_deps`]).
    fn visit_deps(&self, owner: &PluginDescriptor, k: usize, planned: &mut Vec<String>, visiting: &mut Vec<bool>) -> (stop: Option<PluginSystemError>)
        requires
            old(visiting)@.len() == self@.plugins.len(),
        ensures
            ({
                let (pl, x) = plan_deps(self@.plugins, *owner, k as int, texts(old(planned)@), old(visiting)@);
                &&& texts(final(planned)@) == pl
                &&& match x {
                    None => stop is None && final(visiting)@ == old(visiting)@,
                    Some(x) => stop matches Some(e) && stop_error(e, x),
                }
            }),
        decreases self@.plugins.len() - count_set(old(visiting)@), 1int, owner.dependencies@.len() - k,
    {
        proof {
            lemma_count_set_bound(visiting@);
        }
        if k >= owner.dependencies.len() {
            return None;
        }
        let d = &owner.dependencies[k];
        match self.dependency_check(d) {
            Err(e) => {
                return Some(e);
            },
            Ok(_) => {},
        }
        let found = self.find(d.plugin_name.as_str());
        let mut bring_up = false;
        if let Some(i) = found {
            let en = self.plugins[i].enabled;
            let init = self.plugins[i].initialized;
            proof {
                if enabled_name(self@.plugins, d.plugin_name@) {
                    let j = choose|j: int| 0 <= j < self@.plugins.len() && #[trigger] name_of(self@.plugins[j]) == d.plugin_name@ && self@.plugins[j].enabled;
                    lemma_sorted_unique(self@.plugins, i as int, j);
                }
                if initialized_name(self@.plugins, d.plugin_name@) {
                    let j = choose|j: int| 0 <= j < self@.plugins.len() && #[trigger] name_of(self@.plugins[j]) == d.plugin_name@ && self@.plugins[j].initialized;
                    lemma_sorted_unique(self@.plugins, i as int, j);
                }
            }
            bring_up = d.required && en && !init && !strings_contain(planned, &d.plugin_name);
        }
        if bring_up {
            let stop = self.visit(&d.plugin_name, planned, visiting);
            if stop.is_some() {
                return stop;
            }
        }
        self.visit_deps(owner, k + 1, planned, visiting)
    }

    /// The decisions of initializing plugin `id` before any plugin is
    /// initialized: the plugins to initialize, in order (its required
    /// dependencies that are not initialized, depth first, then the plugin
    /// itself), and the error met after them, if any. The caller initializes
    /// the listed plugins in order and then reports the error.
    pub fn plan_plugin_initialization(&self, id: &str) -> (r: (Vec<String>, Option<PluginSystemError>))
        ensures
            ({
                let (pl, x) = plan_visit(self@.plugins, id@, Seq::<Seq<char>>::empty(), no_flags(self@.plugins.len()));
                &&& texts(r.0@) == pl
                &&& match x {
                    None => r.1 is None,
                    Some(x) => r.1 matches Some(e) && stop_error(e, x),
                }
            }),
    {
        let mut planned: Vec<String> = Vec::new();
        let mut visiting: Vec<bool> = Vec::new();
        let mut i: usize = 0;
        while i < self.plugins.len()
            invariant
                i <= self.plugins@.len(),
                visiting@ == no_flags(i as nat),
            decreases self.plugins.len() - i,
        {
            visiting.push(false);
            i = i + 1;
            assert(visiting@ =~= no_flags(i as nat));
        }
        let key = String::from_str(id);
        assert(texts(planned@) =~= Seq::<Seq<char>>::empty());
        let stop = self.visit(&key, &mut planned, &mut visiting);
        (planned, stop)
    }

    /// Resolve the recorded conflict at `index` (what mutable access to the
    /// conflict manager is for); fails if there is no conflict there.
    pub fn resolve_conflict(&mut self, index: usize, strategy: ResolutionStrategy) -> (r: Result<(), PluginSystemError>)
        ensures
            final(self)@.plugins == old(self)@.plugins,
            final(self)@.api_version == old(self)@.api_version,
            index < old(self)@.conflicts.len() ==> r is Ok && final(self)@.conflicts == old(self)@.conflicts.update(
                index as int,
                PluginConflict { resolved: true, resolution: Some(strategy), ..old(self)@.conflicts[index as int] },
            ),
            index >= old(self)@.conflicts.len() ==> final(self)@.conflicts == old(self)@.conflicts && (r matches Err(
                PluginSystemError::ConflictError { message },
            ) && message@ == "Conflict index out of bounds: "@ + decimal(index as nat)),
    {
        proof {
            use_type_invariant(&*self);
        }
        let mut cm = ConflictManager::new();
        std::mem::swap(&mut cm, &mut self.conflict_manager);
        let r = cm.resolve_conflict(index, strategy);
        self.conflict_manager = cm;
        r
    }

    /// Get a reference to the conflict manager.
    pub fn conflict_manager(&self) -> (r: &ConflictManager)
        ensures
            r@ == self@.conflicts,
    {
        &self.conflict_manager
    }
}

/// A problem with one dependency.
pub enum DepIssue {
    /// A required plugin is missing or disabled.
    Missing(Seq<char>),
    /// The dependency's version text cannot be read.
    Unreadable { version: Seq<char>, dependency: Seq<char>, error: Seq<char> },
    /// The dependency's version is outside the required range.
    Mismatch { dependency: Seq<char>, range: Seq<char>, actual: Seq<char> },
}

/// The problem, if any, with a dependency: a required one must be registered
/// and enabled; a registered one with a range must have a version that reads
/// as a semantic version and lies in the range.
pub open spec fn dependency_issue<P>(s: Seq<RegisteredPlugin<P>>, d: PluginDependency) -> Option<DepIssue> {
    let name = d.plugin_name@;
    if d.required && (!has_name(s, name) || !enabled_name(s, name)) {
        Some(DepIssue::Missing(name))
    } else if has_name(s, name) && d.version_range is Some {
        let actual = s[position_of(s, name)].descriptor.version@;
        let range = d.version_range->Some_0@;
        match semver_version_parse(actual) {
            Ok(v) => if semver_req_matches(range, v) {
                None
            } else {
                Some(DepIssue::Mismatch { dependency: name, range, actual })
            },
            Err(e) => Some(DepIssue::Unreadable { version: actual, dependency: name, error: e }),
        }
    } else {
        None
    }
}

/// Law: what a dependency's problem is, by the state of the plugin it
/// names. An optional dependency is never reported missing, and one that
/// names no registered plugin is no problem at all; a required one is
/// missing exactly when its plugin is not registered and enabled; a
/// dependency without a range on a registered, enabled plugin is fine.
pub proof fn lemma_dependency_issue_meaning<P>(s: Seq<RegisteredPlugin<P>>, d: PluginDependency)
    ensures
        !d.required ==> !(dependency_issue(s, d) matches Some(DepIssue::Missing(_))),
        !d.required && !has_name(s, d.plugin_name@) ==> dependency_issue(s, d) is None,
        d.required ==> ((dependency_issue(s, d) matches Some(DepIssue::Missing(n)) && n == d.plugin_name@) <==> !enabled_name(
            s,
            d.plugin_name@,
        )),
        enabled_name(s, d.plugin_name@) && d.version_range is None ==> dependency_issue(s, d) is None,
{
    if enabled_name(s, d.plugin_name@) {
        let i = choose|i: int| 0 <= i < s.len() && #[trigger] name_of(s[i]) == d.plugin_name@ && s[i].enabled;
        assert(has_name(s, d.plugin_name@));
    }
}

/// Law: when every dependency of every enabled plugin is optional and
/// names no registered plugin, no dependency has a problem, so the
/// dependency check (see `check_dependencies`) succeeds.
pub proof fn lemma_absent_optional_dependencies_pass<P>(s: Seq<RegisteredPlugin<P>>)
    requires
        forall|i: int, k: int| 0 <= i < s.len() && s[i].enabled && 0 <= k < s[i].descriptor.dependencies@.len() ==> !(
        #[trigger] s[i].descriptor.dependencies@[k]).required && !has_name(s, s[i].descriptor.dependencies@[k].plugin_name@),
    ensures
        forall|i: int, k: int| #![trigger issue_at(s, i, k)] 0 <= i < s.len() && 0 <= k < s[i].descriptor.dependencies@.len()
            ==> issue_at(s, i, k) is None,
{
    assert forall|i: int, k: int| #![trigger issue_at(s, i, k)] 0 <= i < s.len() && 0 <= k < s[i].descriptor.dependencies@.len()
        implies issue_at(s, i, k) is None by {
        if s[i].enabled {
            let d = s[i].descriptor.dependencies@[k];
            lemma_dependency_issue_meaning(s, d);
        }
    }
}

/// Whether an error reports a dependency problem.
pub open spec fn issue_error(e: PluginSystemError, x: DepIssue) -> bool {
    match x {
        DepIssue::Missing(n) => e matches PluginSystemError::DependencyResolution(d) && d@ == DependencyErrorView::MissingPlugin(n),
        DepIssue::Mismatch { dependency, range, actual } => e matches PluginSystemError::DependencyResolution(d)
            && d@ == (DependencyErrorView::IncompatibleVersion { plugin_name: dependency, required_range: range, actual_version: actual }),
        DepIssue::Unreadable { version, dependency, error } => e matches PluginSystemError::VersionParsing(v) && v@ == VersionErrorView::ParseError(
            "Failed to parse version string '"@ + version + "' for dependency plugin '"@ + dependency + "': "@ + error,
        ),
    }
}

/// The problem with dependency `k` of plugin `i`, counted only for enabled plugins.
pub open spec fn issue_at<P>(s: Seq<RegisteredPlugin<P>>, i: int, k: int) -> Option<DepIssue> {
    if s[i].enabled {
        dependency_issue(s, s[i].descriptor.dependencies@[k])
    } else {
        None
    }
}

/// Whether no problem comes before dependency `k` of plugin `i`.
pub open spec fn first_issue<P>(s: Seq<RegisteredPlugin<P>>, i: int, k: int) -> bool {
    (forall|a: int, b: int| #![trigger issue_at(s, a, b)]
        0 <= a < i && 0 <= b < s[a].descriptor.dependencies@.len() ==> issue_at(s, a, b) is None)
    && (forall|b: int| #![trigger issue_at(s, i, b)] 0 <= b < k ==> issue_at(s, i, b) is None)
}

/// The metadata of the enabled plugins, in name order.
pub open spec fn enabled_descriptors<P>(s: Seq<RegisteredPlugin<P>>) -> Seq<PluginDescriptor> {
    enabled_positions(s).map_values(|p: int| s[p].descriptor)
}

/// The conflicts of plugin `i` with plugins `i + 1 .. m`.
pub open spec fn pairs_row(ds: Seq<PluginDescriptor>, i: int, m: int) -> Seq<PluginConflictView>
    decreases m - i,
{
    if m <= i + 1 {
        Seq::<PluginConflictView>::empty()
    } else {
        pairs_row(ds, i, m - 1) + pair_conflicts(ds[i], ds[m - 1])
    }
}

/// The conflicts of the pairs whose first plugin is among the first `n`.
pub open spec fn all_pair_conflicts(ds: Seq<PluginDescriptor>, n: int) -> Seq<PluginConflictView>
    decreases n,
{
    if n <= 0 {
        Seq::<PluginConflictView>::empty()
    } else {
        all_pair_conflicts(ds, n - 1) + pairs_row(ds, n - 1, ds.len() as int)
    }
}

/// Whether the bounds compared for every pair can be computed.
pub open spec fn conflicts_computable(ds: Seq<PluginDescriptor>) -> bool {
    forall|a: int, b: int| 0 <= a < b < ds.len() ==> #[trigger] pair_computable(ds[a], ds[b])
}

/// Whether a plugin declares a dependency on the named plugin.
pub open spec fn depends_on(a: PluginDescriptor, name: Seq<char>) -> bool {
    exists|k: int| 0 <= k < a.dependencies@.len() && #[trigger] a.dependencies@[k].plugin_name@ == name
}

/// For initialization, plugin `x` must follow plugin `y` when it depends on it.
pub open spec fn init_constraints(ds: Seq<PluginDescriptor>) -> Seq<Seq<bool>> {
    Seq::new(ds.len(), |x: int| Seq::new(ds.len(), |y: int| depends_on(ds[x], ds[y].name@)))
}

/// Whether `a` is initialized before `b` when both are ready: higher
/// priority first, then by name.
pub open spec fn goes_first(a: PluginDescriptor, b: PluginDescriptor) -> bool {
    a.priority.order(b.priority) < 0 || (a.priority.order(b.priority) == 0 && text_lt(a.name@, b.name@))
}

/// The tie-break of initialization.
pub open spec fn init_tie_break(ds: Seq<PluginDescriptor>) -> Seq<Seq<bool>> {
    Seq::new(ds.len(), |x: int| Seq::new(ds.len(), |y: int| goes_first(ds[x], ds[y])))
}

/// For shutdown, plugin `x` must follow every plugin that depends on it.
pub open spec fn shutdown_constraints(ds: Seq<PluginDescriptor>) -> Seq<Seq<bool>> {
    Seq::new(ds.len(), |x: int| Seq::new(ds.len(), |y: int| depends_on(ds[y], ds[x].name@)))
}

/// Whether `ids` are the names of the plugins at positions `order`.
pub open spec fn names_at(ds: Seq<PluginDescriptor>, order: Seq<int>, ids: Seq<String>) -> bool {
    ids.len() == order.len() && forall|k: int| 0 <= k < ids.len() ==> #[trigger] ids[k]@ == ds[order[k]].name@
}

/// What an ordering produces: on success the names in an order that takes at
/// each step the ready plugin the tie-break puts first and holds every
/// plugin; on failure the names of the plugins left when none was ready
/// (then no order meets the constraints).
pub open spec fn ordered_outcome(ds: Seq<PluginDescriptor>, prec: Seq<Seq<bool>>, first: Seq<Seq<bool>>, r: Result<Vec<String>, DependencyError>) -> bool {
    match r {
        Ok(ids) => exists|order: Seq<int>| #[trigger] greedy(prec, first, order) && order.len() == ds.len()
            && (forall|x: int| 0 <= x < ds.len() ==> #[trigger] order.contains(x)) && names_at(ds, order, ids@),
        Err(e) => (forall|o: Seq<int>| !#[trigger] respects(prec, o)) && (e matches DependencyError::CyclicDependency(ids)
            && exists|placed: Seq<int>| #[trigger] greedy(prec, first, placed) && (forall|x: int| !#[trigger] ready(prec, placed, x))
            && names_at(ds, unplaced(placed, ds.len() as int), ids@) && unplaced(placed, ds.len() as int).len() > 0),
    }
}

/// The positions of the initialized plugins, in order.
pub open spec fn initialized_positions<P>(s: Seq<RegisteredPlugin<P>>) -> Seq<int>
    decreases s.len(),
{
    if s.len() == 0 {
        Seq::<int>::empty()
    } else {
        let init = initialized_positions(s.drop_last());
        if s.last().initialized {
            init.push(s.len() - 1)
        } else {
            init
        }
    }
}

/// The metadata of the initialized plugins, in name order.
pub open spec fn initialized_descriptors<P>(s: Seq<RegisteredPlugin<P>>) -> Seq<PluginDescriptor> {
    initialized_positions(s).map_values(|p: int| s[p].descriptor)
}

/// Lemma: the positions picked out are increasing and in range.
pub proof fn lemma_positions_increasing<P>(s: Seq<RegisteredPlugin<P>>)
    ensures
        forall|a: int, b: int| 0 <= a < b < enabled_positions(s).len() ==> #[trigger] enabled_positions(s)[a] < #[trigger] enabled_positions(s)[b],
        forall|a: int| 0 <= a < enabled_positions(s).len() ==> 0 <= #[trigger] enabled_positions(s)[a] < s.len(),
        forall|a: int, b: int| 0 <= a < b < initialized_positions(s).len() ==> #[trigger] initialized_positions(s)[a] < #[trigger] initialized_positions(s)[b],
        forall|a: int| 0 <= a < initialized_positions(s).len() ==> 0 <= #[trigger] initialized_positions(s)[a] < s.len(),
    decreases s.len(),
{
    if s.len() > 0 {
        let t = s.drop_last();
        lemma_positions_increasing(t);
        let e = enabled_positions(t);
        let g = initialized_positions(t);
        if s.last().enabled {
            let e2 = e.push(s.len() - 1);
            assert(enabled_positions(s) == e2);
            assert forall|a: int, b: int| 0 <= a < b < e2.len() implies #[trigger] e2[a] < #[trigger] e2[b] by {
                assert(e2[a] == e[a]);
                if b < e.len() {
                    assert(e2[b] == e[b]);
                }
            }
            assert forall|a: int| 0 <= a < e2.len() implies 0 <= #[trigger] e2[a] < s.len() by {
                if a < e.len() {
                    assert(e2[a] == e[a]);
                }
            }
        } else {
            assert(enabled_positions(s) == e);
        }
        if s.last().initialized {
            let g2 = g.push(s.len() - 1);
            assert(initialized_positions(s) == g2);
            assert forall|a: int, b: int| 0 <= a < b < g2.len() implies #[trigger] g2[a] < #[trigger] g2[b] by {
                assert(g2[a] == g[a]);
                if b < g.len() {
                    assert(g2[b] == g[b]);
                }
            }
            assert forall|a: int| 0 <= a < g2.len() implies 0 <= #[trigger] g2[a] < s.len() by {
                if a < g.len() {
                    assert(g2[a] == g[a]);
                }
            }
        } else {
            assert(initialized_positions(s) == g);
        }
    }
}

/// Lemma: the enabled (and the initialized) plugins of a name-ordered list
/// are in name order, so their names are distinct.
pub proof fn lemma_picked_names_distinct<P>(s: Seq<RegisteredPlugin<P>>)
    requires
        names_sorted(s),
    ensures
        forall|a: int, b: int| 0 <= a < b < enabled_descriptors(s).len() ==> text_lt(
            #[trigger] enabled_descriptors(s)[a].name@,
            #[trigger] enabled_descriptors(s)[b].name@,
        ),
        forall|a: int, b: int| 0 <= a < b < initialized_descriptors(s).len() ==> text_lt(
            #[trigger] initialized_descriptors(s)[a].name@,
            #[trigger] initialized_descriptors(s)[b].name@,
        ),
        distinct_names(enabled_descriptors(s)),
        distinct_names(initialized_descriptors(s)),
{
    lemma_positions_increasing(s);
    assert forall|a: int, b: int| 0 <= a < enabled_descriptors(s).len() && 0 <= b < enabled_descriptors(s).len() && a != b
        implies #[trigger] enabled_descriptors(s)[a].name@ != #[trigger] enabled_descriptors(s)[b].name@ by {
        let (lo, hi) = if a < b { (a, b) } else { (b, a) };
        let pl = enabled_positions(s)[lo];
        let ph = enabled_positions(s)[hi];
        assert(text_lt(name_of(s[pl]), name_of(s[ph])));
        lemma_text_lt_irreflexive(name_of(s[pl]));
    }
    assert forall|a: int, b: int| 0 <= a < initialized_descriptors(s).len() && 0 <= b < initialized_descriptors(s).len() && a != b
        implies #[trigger] initialized_descriptors(s)[a].name@ != #[trigger] initialized_descriptors(s)[b].name@ by {
        let (lo, hi) = if a < b { (a, b) } else { (b, a) };
        let pl = initialized_positions(s)[lo];
        let ph = initialized_positions(s)[hi];
        assert(text_lt(name_of(s[pl]), name_of(s[ph])));
        lemma_text_lt_irreflexive(name_of(s[pl]));
    }
    assert forall|a: int, b: int| 0 <= a < b < enabled_descriptors(s).len() implies text_lt(
        #[trigger] enabled_descriptors(s)[a].name@,
        #[trigger] enabled_descriptors(s)[b].name@,
    ) by {
        let pa = enabled_positions(s)[a];
        let pb = enabled_positions(s)[b];
        assert(text_lt(name_of(s[pa]), name_of(s[pb])));
    }
    assert forall|a: int, b: int| 0 <= a < b < initialized_descriptors(s).len() implies text_lt(
        #[trigger] initialized_descriptors(s)[a].name@,
        #[trigger] initialized_descriptors(s)[b].name@,
    ) by {
        let pa = initialized_positions(s)[a];
        let pb = initialized_positions(s)[b];
        assert(text_lt(name_of(s[pa]), name_of(s[pb])));
    }
}

/// Whether a list of strings holds a text.
fn strings_contain(v: &Vec<String>, x: &String) -> (r: bool)
    ensures
        r == texts(v@).contains(x@),
{
    let mut k: usize = 0;
    while k < v.len()
        invariant
            k <= v@.len(),
            forall|j: int| 0 <= j < k ==> #[trigger] v@[j]@ != x@,
        decreases v.len() - k,
    {
        if v[k] == *x {
            assert(texts(v@)[k as int] == x@);
            return true;
        }
        k = k + 1;
    }
    proof {
        if texts(v@).contains(x@) {
            let j = choose|j: int| 0 <= j < texts(v@).len() && texts(v@)[j] == x@;
            assert(v@[j]@ == x@);
        }
    }
    false
}

/// Whether a plugin declares a dependency on the named plugin.
fn declares_dependency(a: &PluginDescriptor, name: &String) -> (r: bool)
    ensures
        r == depends_on(*a, name@),
{
    let mut k: usize = 0;
    while k < a.dependencies.len()
        invariant
            k <= a.dependencies@.len(),
            forall|j: int| 0 <= j < k ==> #[trigger] a.dependencies@[j].plugin_name@ != name@,
        decreases a.dependencies.len() - k,
    {
        if a.dependencies[k].plugin_name == *name {
            return true;
        }
        k = k + 1;
    }
    false
}

/// The constraint matrix over a list of plugins: for initialization, `x`
/// follows `y` when `x` depends on `y`; for shutdown, when `y` depends on `x`.
fn constraint_matrix(ds: &Vec<&PluginDescriptor>, for_shutdown: bool) -> (m: Vec<Vec<bool>>)
    ensures
        m@.map_values(|row: Vec<bool>| row@) == if for_shutdown {
            shutdown_constraints(ds@.map_values(|d: &PluginDescriptor| *d))
        } else {
            init_constraints(ds@.map_values(|d: &PluginDescriptor| *d))
        },
{
    let ghost dv = ds@.map_values(|d: &PluginDescriptor| *d);
    let ghost target = if for_shutdown { shutdown_constraints(dv) } else { init_constraints(dv) };
    let n = ds.len();
    let mut m: Vec<Vec<bool>> = Vec::new();
    let mut x: usize = 0;
    while x < n
        invariant
            n == ds@.len(),
            dv == ds@.map_values(|d: &PluginDescriptor| *d),
            target == if for_shutdown { shutdown_constraints(dv) } else { init_constraints(dv) },
            x <= n,
            m@.len() == x,
            forall|a: int| 0 <= a < x ==> #[trigger] m@[a]@ == target[a],
        decreases n - x,
    {
        let mut row: Vec<bool> = Vec::new();
        let mut y: usize = 0;
        while y < n
            invariant
                n == ds@.len(),
                dv == ds@.map_values(|d: &PluginDescriptor| *d),
                target == if for_shutdown { shutdown_constraints(dv) } else { init_constraints(dv) },
                x < n,
                y <= n,
                row@.len() == y,
                forall|b: int| 0 <= b < y ==> #[trigger] row@[b] == target[x as int][b],
            decreases n - y,
        {
            let v = if for_shutdown {
                declares_dependency(ds[y], &ds[x].name)
            } else {
                declares_dependency(ds[x], &ds[y].name)
            };
            row.push(v);
            y = y + 1;
        }
        assert(row@ =~= target[x as int]);
        m.push(row);
        x = x + 1;
    }
    assert(m@.map_values(|row: Vec<bool>| row@) =~= target);
    m
}

/// The initialization tie-break over a list of plugins.
fn priority_matrix(ds: &Vec<&PluginDescriptor>) -> (m: Vec<Vec<bool>>)
    ensures
        m@.map_values(|row: Vec<bool>| row@) == init_tie_break(ds@.map_values(|d: &PluginDescriptor| *d)),
{
    let ghost dv = ds@.map_values(|d: &PluginDescriptor| *d);
    let n = ds.len();
    let mut m: Vec<Vec<bool>> = Vec::new();
    let mut x: usize = 0;
    while x < n
        invariant
            n == ds@.len(),
            dv == ds@.map_values(|d: &PluginDescriptor| *d),
            x <= n,
            m@.len() == x,
            forall|a: int| 0 <= a < x ==> #[trigger] m@[a]@ == init_tie_break(dv)[a],
        decreases n - x,
    {
        let mut row: Vec<bool> = Vec::new();
        let mut y: usize = 0;
        while y < n
            invariant
                n == ds@.len(),
                dv == ds@.map_values(|d: &PluginDescriptor| *d),
                x < n,
                y <= n,
                row@.len() == y,
                forall|b: int| 0 <= b < y ==> #[trigger] row@[b] == init_tie_break(dv)[x as int][b],
            decreases n - y,
        {
            let c = ds[x].priority.compare(&ds[y].priority);
            let v = c < 0 || (c == 0 && string_less(&ds[x].name, &ds[y].name));
            row.push(v);
            y = y + 1;
        }
        assert(row@ =~= init_tie_break(dv)[x as int]);
        m.push(row);
        x = x + 1;
    }
    assert(m@.map_values(|row: Vec<bool>| row@) =~= init_tie_break(dv));
    m
}

/// Lemma: with distinct names the initialization tie-break is a strict total order.
proof fn lemma_init_tie_break_total(ds: Seq<PluginDescriptor>)
    requires
        forall|a: int, b: int| 0 <= a < b < ds.len() ==> text_lt(#[trigger] ds[a].name@, #[trigger] ds[b].name@),
    ensures
        strict_total(init_tie_break(ds)),
        square(init_tie_break(ds), ds.len() as int),
{
    let f = init_tie_break(ds);
    assert forall|x: int, y: int| 0 <= x < f.len() && 0 <= y < f.len() && x != y implies #[trigger] f[x][y] != f[y][x] by {
        lemma_priority_order_total(ds[x].priority, ds[y].priority, ds[y].priority);
        lemma_text_lt_total(ds[x].name@, ds[y].name@);
        if x < y {
            assert(text_lt(ds[x].name@, ds[y].name@));
        } else {
            assert(text_lt(ds[y].name@, ds[x].name@));
        }
    }
    assert forall|x: int, y: int, z: int|
        0 <= x < f.len() && 0 <= y < f.len() && 0 <= z < f.len() && #[trigger] f[x][y] && #[trigger] f[y][z] implies f[x][z] by {
        lemma_priority_order_total(ds[x].priority, ds[y].priority, ds[z].priority);
        if text_lt(ds[x].name@, ds[y].name@) && text_lt(ds[y].name@, ds[z].name@) {
            lemma_text_lt_transitive(ds[x].name@, ds[y].name@, ds[z].name@);
        }
    }
}

/// The names of the plugins at the given positions of a list.
fn names_of_positions(ds: &Vec<&PluginDescriptor>, order: &Vec<usize>) -> (r: Vec<String>)
    requires
        forall|k: int| 0 <= k < order@.len() ==> #[trigger] order@[k] < ds@.len(),
    ensures
        names_at(ds@.map_values(|d: &PluginDescriptor| *d), order@.map_values(|x: usize| x as int), r@),
{
    let mut out: Vec<String> = Vec::new();
    let mut k: usize = 0;
    while k < order.len()
        invariant
            k <= order@.len(),
            forall|j: int| 0 <= j < order@.len() ==> #[trigger] order@[j] < ds@.len(),
            out@.len() == k,
            forall|j: int| 0 <= j < k ==> #[trigger] out@[j]@ == ds@[order@[j] as int].name@,
        decreases order.len() - k,
    {
        out.push(ds[order[k]].name.clone());
        k = k + 1;
    }
    out
}

/// Orders a list of plugins under a constraint matrix and tie-break.
fn order_plugins(ds: &Vec<&PluginDescriptor>, prec: &Vec<Vec<bool>>, first: &Vec<Vec<bool>>) -> (r: Result<Vec<String>, DependencyError>)
    requires
        square(prec@.map_values(|row: Vec<bool>| row@), ds@.len() as int),
        square(first@.map_values(|row: Vec<bool>| row@), ds@.len() as int),
        strict_total(first@.map_values(|row: Vec<bool>| row@)),
    ensures
        ordered_outcome(
            ds@.map_values(|d: &PluginDescriptor| *d),
            prec@.map_values(|row: Vec<bool>| row@),
            first@.map_values(|row: Vec<bool>| row@),
            r,
        ),
{
    let ghost dv = ds@.map_values(|d: &PluginDescriptor| *d);
    let ghost p = prec@.map_values(|row: Vec<bool>| row@);
    let ghost f = first@.map_values(|row: Vec<bool>| row@);
    match greedy_order(prec, first) {
        Ok(order) => {
            let ghost o = order@.map_values(|x: usize| x as int);
            proof {
                assert forall|k: int| 0 <= k < order@.len() implies #[trigger] order@[k] < ds@.len() by {
                    assert(chosen(p, f, o.take(k), o[k]));
                }
            }
            let ids = names_of_positions(ds, &order);
            proof {
                assert(greedy(p, f, o));
            }
            Ok(ids)
        },
        Err(left) => {
            let ghost l = left@.map_values(|x: usize| x as int);
            proof {
                let placed = choose|placed: Seq<int>| #[trigger] greedy(p, f, placed) && (forall|x: int| !#[trigger] ready(p, placed, x))
                    && l == unplaced(placed, p.len() as int) && l.len() > 0;
                lemma_unplaced_in_range(placed, p.len() as int);
                assert forall|k: int| 0 <= k < left@.len() implies #[trigger] left@[k] < ds@.len() by {
                    assert(l[k] == left@[k] as int);
                }
            }
            let ids = names_of_positions(ds, &left);
            Err(DependencyError::CyclicDependency(ids))
        },
    }
}

/// Lemma: the names of an order over the enabled plugins are registered.
proof fn lemma_order_names_registered<P>(s: Seq<RegisteredPlugin<P>>, o: Seq<int>, ids: Seq<String>)
    requires
        greedy(init_constraints(enabled_descriptors(s)), init_tie_break(enabled_descriptors(s)), o),
        names_at(enabled_descriptors(s), o, ids),
    ensures
        forall|j: int| 0 <= j < ids.len() ==> #[trigger] has_name(s, ids[j]@),
{
    lemma_positions_increasing(s);
    let ds = enabled_descriptors(s);
    assert forall|j: int| 0 <= j < ids.len() implies #[trigger] has_name(s, ids[j]@) by {
        assert(chosen(init_constraints(ds), init_tie_break(ds), o.take(j), o[j]));
        let p = enabled_positions(s)[o[j]];
        assert(name_of(s[p]) == ids[j]@);
    }
}

/// Lemma: the unplaced items lie in range.
proof fn lemma_unplaced_in_range(placed: Seq<int>, n: int)
    requires
        n >= 0,
    ensures
        forall|k: int| 0 <= k < unplaced(placed, n).len() ==> 0 <= #[trigger] unplaced(placed, n)[k] < n,
    decreases n,
{
    if n > 0 {
        lemma_unplaced_in_range(placed, n - 1);
        let u = unplaced(placed, n - 1);
        if !placed.contains(n - 1) {
            assert forall|k: int| 0 <= k < u.push(n - 1).len() implies 0 <= #[trigger] u.push(n - 1)[k] < n by {
                if k < u.len() {
                    assert(u.push(n - 1)[k] == u[k]);
                }
            }
        }
    }
}

/// How a dependency whose version lies outside the required range is reported.
pub open spec fn version_mismatch_text(owner: PluginDescriptor, dep: Seq<char>, range: Seq<char>, actual: Seq<char>) -> Seq<char> {
    "Plugin '"@ + owner.name@ + "' (version "@ + owner.version@ + ") requires dependency '"@ + dep + "' version '"@ + range
        + "', but actual version of '"@ + dep + "' is '"@ + actual + "'."@
}

/// How a dependency whose version cannot be read is reported.
pub open spec fn version_unreadable_text(owner: PluginDescriptor, dep: Seq<char>, actual: Seq<char>, error: Seq<char>) -> Seq<char> {
    "Plugin '"@ + owner.name@ + "' depends on '"@ + dep + "', but its version '"@ + actual + "' could not be parsed: "@
        + error + "."@
}

/// The version problem, if any, of one dependency with a range on an enabled plugin.
pub open spec fn version_errors<P>(s: Seq<RegisteredPlugin<P>>, owner: PluginDescriptor, d: PluginDependency) -> Seq<Seq<char>> {
    if d.version_range is Some && enabled_name(s, d.plugin_name@) {
        let actual = s[position_of(s, d.plugin_name@)].descriptor.version@;
        let range = d.version_range->Some_0@;
        match semver_version_parse(actual) {
            Ok(v) => if semver_req_matches(range, v) {
                Seq::<Seq<char>>::empty()
            } else {
                seq![version_mismatch_text(owner, d.plugin_name@, range, actual)]
            },
            Err(e) => seq![version_unreadable_text(owner, d.plugin_name@, actual, e)],
        }
    } else {
        Seq::<Seq<char>>::empty()
    }
}

/// The version problems of the first `n` dependencies of a plugin.
pub open spec fn owner_version_errors<P>(s: Seq<RegisteredPlugin<P>>, owner: PluginDescriptor, n: int) -> Seq<Seq<char>>
    decreases n,
{
    if n <= 0 {
        Seq::<Seq<char>>::empty()
    } else {
        owner_version_errors(s, owner, n - 1) + version_errors(s, owner, owner.dependencies@[n - 1])
    }
}

/// The version problems of the first `n` plugins of an order (given by name).
pub open spec fn order_version_errors<P>(s: Seq<RegisteredPlugin<P>>, names: Seq<Seq<char>>, n: int) -> Seq<Seq<char>>
    decreases n,
{
    if n <= 0 {
        Seq::<Seq<char>>::empty()
    } else {
        let owner = s[position_of(s, names[n - 1])].descriptor;
        order_version_errors(s, names, n - 1) + owner_version_errors(s, owner, owner.dependencies@.len() as int)
    }
}

/// The texts of a list of strings.
pub open spec fn texts(v: Seq<String>) -> Seq<Seq<char>> {
    v.map_values(|x: String| x@)
}

/// Why planning a plugin's initialization stops.
pub enum InitStop {
    /// The plugin is not registered.
    NotFound(Seq<char>),
    /// The plugin is reached again while its dependencies are being planned.
    Cycle(Seq<char>),
    /// A dependency has a problem.
    Dependency(DepIssue),
}

/// Whether an error reports why planning stopped.
pub open spec fn stop_error(e: PluginSystemError, x: InitStop) -> bool {
    match x {
        InitStop::NotFound(id) => e matches PluginSystemError::RegistrationError { plugin_id, message }
            && plugin_id@ == id && message@ == "Plugin not found"@,
        InitStop::Cycle(id) => e matches PluginSystemError::DependencyResolution(d)
            && d@ == DependencyErrorView::CyclicDependency(seq![id]),
        InitStop::Dependency(i) => issue_error(e, i),
    }
}

/// Whether a plugin counts as initialized while planning: it is, or it is
/// planned already.
pub open spec fn done_or_planned<P>(s: Seq<RegisteredPlugin<P>>, planned: Seq<Seq<char>>, name: Seq<char>) -> bool {
    initialized_name(s, name) || planned.contains(name)
}

/// Planning the initialization of plugin `id`: a registered, enabled plugin
/// not yet initialized or planned is planned after the required
/// dependencies it brings up (depth first, in declaration order); planning
/// stops at an unregistered plugin, at a plugin reached again while its
/// dependencies are planned, or at a dependency problem. `visiting` flags
/// the positions whose dependencies are being planned. Answers the plugins
/// planned (in initialization order) and why planning stopped, if it did.
pub open spec fn plan_visit<P>(s: Seq<RegisteredPlugin<P>>, id: Seq<char>, planned: Seq<Seq<char>>, visiting: Seq<bool>) -> (Seq<Seq<char>>, Option<InitStop>)
    decreases s.len() - count_set(visiting), 0int, 0int,
{
    if visiting.len() != s.len() {
        (planned, None)
    } else if !has_name(s, id) {
        (planned, Some(InitStop::NotFound(id)))
    } else if !enabled_name(s, id) || done_or_planned(s, planned, id) {
        (planned, None)
    } else {
        let p = position_of(s, id);
        if visiting[p] {
            (planned, Some(InitStop::Cycle(id)))
        } else {
            proof {
                lemma_count_set_update(visiting, p);
                lemma_count_set_bound(visiting.update(p, true));
            }
            let (pl, stop) = plan_deps(s, s[p].descriptor, 0, planned, visiting.update(p, true));
            match stop {
                Some(x) => (pl, Some(x)),
                None => (pl.push(id), None),
            }
        }
    }
}

/// Planning the dependencies of a plugin from the `k`-th on.
pub open spec fn plan_deps<P>(s: Seq<RegisteredPlugin<P>>, owner: PluginDescriptor, k: int, planned: Seq<Seq<char>>, visiting: Seq<bool>) -> (Seq<Seq<char>>, Option<InitStop>)
    decreases s.len() - count_set(visiting), 1int, owner.dependencies@.len() - k,
{
    if k < 0 || k >= owner.dependencies@.len() || visiting.len() != s.len() {
        (planned, None)
    } else {
        let d = owner.dependencies@[k];
        let dn = d.plugin_name@;
        match dependency_issue(s, d) {
            Some(x) => (planned, Some(InitStop::Dependency(x))),
            None => if d.required && has_name(s, dn) && enabled_name(s, dn) && !done_or_planned(s, planned, dn) {
                proof {
                    lemma_count_set_bound(visiting);
                }
                let (pl, stop) = plan_visit(s, dn, planned, visiting);
                match stop {
                    Some(x) => (pl, Some(x)),
                    None => plan_deps(s, owner, k + 1, pl, visiting),
                }
            } else {
                plan_deps(s, owner, k + 1, planned, visiting)
            },
        }
    }
}

/// No position flagged.
pub open spec fn no_flags(n: nat) -> Seq<bool> {
    Seq::new(n, |i: int| false)
}

/// The positions of the enabled plugins, in order.
pub open spec fn enabled_positions<P>(s: Seq<RegisteredPlugin<P>>) -> Seq<int>
    decreases s.len(),
{
    if s.len() == 0 {
        Seq::<int>::empty()
    } else {
        let init = enabled_positions(s.drop_last());
        if s.last().enabled {
            init.push(s.len() - 1)
        } else {
            init
        }
    }
}

/// Lemma: the enabled positions of a longer prefix extend those of a shorter one.
pub proof fn lemma_enabled_positions_step<P>(s: Seq<RegisteredPlugin<P>>, i: int)
    requires
        0 <= i < s.len(),
    ensures
        enabled_positions(s.take(i + 1)) == if s[i].enabled {
            enabled_positions(s.take(i)).push(i)
        } else {
            enabled_positions(s.take(i))
        },
{
    assert(s.take(i + 1).drop_last() =~= s.take(i));
}

} // verus!

verus! {

/// Whether the plugins of a list have pairwise distinct names.
pub open spec fn distinct_names(ds: Seq<PluginDescriptor>) -> bool {
    forall|x: int, y: int| 0 <= x < ds.len() && 0 <= y < ds.len() && x != y ==> #[trigger] ds[x].name@ != #[trigger] ds[y].name@
}

/// Lemma: the items of a greedy order are distinct and in range.
proof fn lemma_greedy_distinct(prec: Seq<Seq<bool>>, first: Seq<Seq<bool>>, o: Seq<int>)
    requires
        greedy(prec, first, o),
    ensures
        forall|a: int| 0 <= a < o.len() ==> 0 <= #[trigger] o[a] < prec.len(),
        forall|a: int, b: int| 0 <= a < o.len() && 0 <= b < o.len() && a != b ==> #[trigger] o[a] != #[trigger] o[b],
{
    assert forall|a: int| 0 <= a < o.len() implies 0 <= #[trigger] o[a] < prec.len() by {
        assert(chosen(prec, first, o.take(a), o[a]));
    }
    assert forall|a: int, b: int| 0 <= a < o.len() && 0 <= b < o.len() && a != b implies #[trigger] o[a] != #[trigger] o[b] by {
        if a < b {
            assert(chosen(prec, first, o.take(b), o[b]));
            assert(o.take(b)[a] == o[a]);
        } else {
            assert(chosen(prec, first, o.take(a), o[a]));
            assert(o.take(a)[b] == o[b]);
        }
    }
}

/// Law: in the initialization order, a plugin comes after every enabled
/// plugin it depends on.
pub proof fn lemma_init_order_after_dependencies(ds: Seq<PluginDescriptor>, ids: Seq<String>, a: int, b: int)
    requires
        distinct_names(ds),
        exists|order: Seq<int>| #[trigger] greedy(init_constraints(ds), init_tie_break(ds), order) && order.len() == ds.len()
            && names_at(ds, order, ids),
        0 <= a < ids.len(),
        0 <= b < ids.len(),
        exists|x: int| 0 <= x < ds.len() && #[trigger] ds[x].name@ == ids[a]@ && depends_on(ds[x], ids[b]@),
    ensures
        b < a,
{
    let prec = init_constraints(ds);
    let first = init_tie_break(ds);
    let o = choose|order: Seq<int>| #[trigger] greedy(prec, first, order) && order.len() == ds.len() && names_at(ds, order, ids);
    lemma_greedy_distinct(prec, first, o);
    let x = choose|x: int| 0 <= x < ds.len() && #[trigger] ds[x].name@ == ids[a]@ && depends_on(ds[x], ids[b]@);
    assert(ds[o[a]].name@ == ids[a]@);
    assert(x == o[a]);
    assert(ds[o[b]].name@ == ids[b]@);
    assert(prec[o[a]][o[b]]);
    assert(chosen(prec, first, o.take(a), o[a]));
    assert(o.take(a).contains(o[b]));
    let c = choose|c: int| 0 <= c < o.take(a).len() && o.take(a)[c] == o[b];
    assert(o[c] == o[b]);
}

/// Law: in the shutdown order, a plugin comes before every initialized
/// plugin it depends on.
pub proof fn lemma_shutdown_order_before_dependencies(ds: Seq<PluginDescriptor>, ids: Seq<String>, a: int, b: int)
    requires
        distinct_names(ds),
        exists|order: Seq<int>| #[trigger] greedy(shutdown_constraints(ds), index_tie_break(ds.len() as int), order)
            && order.len() == ds.len() && names_at(ds, order, ids),
        0 <= a < ids.len(),
        0 <= b < ids.len(),
        exists|x: int| 0 <= x < ds.len() && #[trigger] ds[x].name@ == ids[a]@ && depends_on(ds[x], ids[b]@),
    ensures
        a < b,
{
    let prec = shutdown_constraints(ds);
    let first = index_tie_break(ds.len() as int);
    let o = choose|order: Seq<int>| #[trigger] greedy(prec, first, order) && order.len() == ds.len() && names_at(ds, order, ids);
    lemma_greedy_distinct(prec, first, o);
    let x = choose|x: int| 0 <= x < ds.len() && #[trigger] ds[x].name@ == ids[a]@ && depends_on(ds[x], ids[b]@);
    assert(ds[o[a]].name@ == ids[a]@);
    assert(x == o[a]);
    assert(ds[o[b]].name@ == ids[b]@);
    assert(prec[o[b]][o[a]]);
    assert(chosen(prec, first, o.take(b), o[b]));
    assert(o.take(b).contains(o[a]));
    let c = choose|c: int| 0 <= c < o.take(b).len() && o.take(b)[c] == o[a];
    assert(o[c] == o[a]);
}

/// Whether one of the plugins has this name.
pub open spec fn names_plugin(ds: Seq<PluginDescriptor>, name: Seq<char>) -> bool {
    exists|x: int| 0 <= x < ds.len() && #[trigger] ds[x].name@ == name
}

/// Law: a successful order (of initialization or of shutdown) names every
/// plugin it orders exactly once, and no other.
pub proof fn lemma_order_names_each_once(
    ds: Seq<PluginDescriptor>,
    prec: Seq<Seq<bool>>,
    first: Seq<Seq<bool>>,
    ids: Vec<String>,
)
    requires
        distinct_names(ds),
        prec.len() == ds.len(),
        ordered_outcome(ds, prec, first, Ok(ids)),
    ensures
        ids@.len() == ds.len(),
        forall|x: int| 0 <= x < ds.len() ==> contains_text(ids@, #[trigger] ds[x].name@),
        forall|a: int| 0 <= a < ids@.len() ==> names_plugin(ds, (#[trigger] ids@[a])@),
        forall|a: int, b: int| 0 <= a < ids@.len() && 0 <= b < ids@.len() && a != b ==> (#[trigger] ids@[a])@ != (#[trigger] ids@[b])@,
{
    let o = choose|order: Seq<int>| #[trigger] greedy(prec, first, order) && order.len() == ds.len()
        && (forall|x: int| 0 <= x < ds.len() ==> #[trigger] order.contains(x)) && names_at(ds, order, ids@);
    lemma_greedy_distinct(prec, first, o);
    assert forall|x: int| 0 <= x < ds.len() implies contains_text(ids@, #[trigger] ds[x].name@) by {
        assert(o.contains(x));
        let a = choose|a: int| 0 <= a < o.len() && o[a] == x;
        assert(ids@[a]@ == ds[o[a]].name@);
        assert(ids@[a]@ == ds[x].name@);
    }
    assert forall|a: int| 0 <= a < ids@.len() implies names_plugin(ds, (#[trigger] ids@[a])@) by {
        assert(ids@[a]@ == ds[o[a]].name@);
        assert(0 <= o[a] < ds.len());
    }
    assert forall|a: int, b: int| 0 <= a < ids@.len() && 0 <= b < ids@.len() && a != b implies (#[trigger] ids@[a])@ != (#[trigger] ids@[b])@ by {
        assert(ids@[a]@ == ds[o[a]].name@);
        assert(ids@[b]@ == ds[o[b]].name@);
        assert(o[a] != o[b]);
    }
}

/// Law: ordering succeeds exactly when some order holds every plugin and
/// puts each after those it must follow.
pub proof fn lemma_order_succeeds_iff_possible(
    ds: Seq<PluginDescriptor>,
    prec: Seq<Seq<bool>>,
    first: Seq<Seq<bool>>,
    r: Result<Vec<String>, DependencyError>,
)
    requires
        ordered_outcome(ds, prec, first, r),
        prec.len() == ds.len(),
    ensures
        r is Ok <==> exists|o: Seq<int>| #[trigger] respects(prec, o),
{
    if let Ok(ids) = r {
        let o = choose|order: Seq<int>| #[trigger] greedy(prec, first, order) && order.len() == ds.len()
            && (forall|x: int| 0 <= x < ds.len() ==> #[trigger] order.contains(x)) && names_at(ds, order, ids@);
        crate::ordering::lemma_greedy_respects(prec, first, o);
    }
}

/// Law: unregistering a plugin right after registering it leaves the
/// registered plugins as they were.
pub proof fn lemma_register_then_unregister<P>(before: Seq<RegisteredPlugin<P>>, after: Seq<RegisteredPlugin<P>>, e: RegisteredPlugin<P>)
    requires
        names_sorted(after),
        inserted_in_order(before, after, e),
    ensures
        has_name(after, name_of(e)),
        after.remove(position_of(after, name_of(e))) == before,
        after[position_of(after, name_of(e))] == e,
{
    let i = choose|i: int| 0 <= i <= before.len() && after == before.insert(i, e)
        && (forall|k: int| 0 <= k < i ==> text_lt(#[trigger] name_of(before[k]), name_of(e)))
        && (forall|k: int| i <= k < before.len() ==> text_lt(name_of(e), #[trigger] name_of(before[k])));
    assert(name_of(after[i]) == name_of(e));
    let p = position_of(after, name_of(e));
    lemma_sorted_unique(after, i, p);
    assert(after.remove(i) =~= before);
}

/// Law: when the dependency check passes, every required dependency of an
/// enabled plugin is registered and enabled, and every ranged dependency
/// that is registered has a version in its range.
pub proof fn lemma_checked_dependencies<P>(s: Seq<RegisteredPlugin<P>>, i: int, k: int)
    requires
        forall|a: int, b: int| #![trigger issue_at(s, a, b)]
            0 <= a < s.len() && 0 <= b < s[a].descriptor.dependencies@.len() ==> issue_at(s, a, b) is None,
        0 <= i < s.len(),
        s[i].enabled,
        0 <= k < s[i].descriptor.dependencies@.len(),
    ensures
        s[i].descriptor.dependencies@[k].required ==> enabled_name(s, s[i].descriptor.dependencies@[k].plugin_name@),
        ({
            let d = s[i].descriptor.dependencies@[k];
            (has_name(s, d.plugin_name@) && d.version_range is Some) ==> (semver_version_parse(
                s[position_of(s, d.plugin_name@)].descriptor.version@,
            ) matches Ok(v) && semver_req_matches(d.version_range->Some_0@, v))
        }),
{
    assert(issue_at(s, i, k) is None);
}

} // verus!

verus! {

/// The error reported for a plugin whose initialization failed with `e`.
pub fn initialization_failure(plugin_id: &str, e: &PluginSystemError) -> (r: PluginSystemError)
    ensures
        r matches PluginSystemError::InitializationError { plugin_id: p, message, source: Some(PluginSystemErrorSource::Other(m)) }
            && p@ == plugin_id@ && message@ == e.spec_text() && m@ == e.spec_text(),
{
    let text = e.message();
    PluginSystemError::InitializationError {
        plugin_id: String::from_str(plugin_id),
        message: text.clone(),
        source: Some(PluginSystemErrorSource::Other(text)),
    }
}

/// The error reported when a plugin's stages could not be unregistered
/// while shutting it down (`cause` says why).
pub fn stage_unregistration_error(plugin_id: &str, cause: &str) -> (r: PluginSystemError)
    ensures
        r matches PluginSystemError::OperationError { plugin_id: Some(p), message }
            && p@ == plugin_id@ && message@ == "Failed to unregister stages for plugin "@ + plugin_id@ + ": "@ + cause@,
{
    let mut m = String::from_str("Failed to unregister stages for plugin ");
    m.append(plugin_id);
    m.append(": ");
    m.append(cause);
    PluginSystemError::OperationError { plugin_id: Some(String::from_str(plugin_id)), message: m }
}

/// The texts of a list of errors.
pub open spec fn error_texts(v: Seq<PluginSystemError>) -> Seq<Seq<char>> {
    v.map_values(|e: PluginSystemError| e.spec_text())
}

/// The outcome of shutting down plugins given the errors they reported, in
/// order: none is success; one is that error; several are combined into one
/// shutdown error that lists their texts.
pub fn combine_shutdown_errors(errors: Vec<PluginSystemError>) -> (r: Result<(), PluginSystemError>)
    ensures
        errors@.len() == 0 ==> r is Ok,
        errors@.len() == 1 ==> r == Err::<(), PluginSystemError>(errors@[0]),
        errors@.len() > 1 ==> (r matches Err(PluginSystemError::ShutdownError { plugin_id, message })
            && plugin_id@ == "multiple"@
            && message@ == "Encountered errors during plugin shutdown: "@ + join(error_texts(errors@), "; "@)),
{
    if errors.len() == 0 {
        return Ok(());
    }
    if errors.len() == 1 {
        let mut errors = errors;
        let e = errors.remove(0);
        return Err(e);
    }
    let mut texts_v: Vec<String> = Vec::new();
    let mut k: usize = 0;
    while k < errors.len()
        invariant
            k <= errors@.len(),
            texts_v@.len() == k,
            forall|j: int| 0 <= j < k ==> #[trigger] texts_v@[j]@ == errors@[j].spec_text(),
        decreases errors.len() - k,
    {
        texts_v.push(errors[k].message());
        k = k + 1;
    }
    let joined = join_strings(&texts_v, "; ");
    assert(texts_v@.map_values(|s: String| s@) =~= error_texts(errors@));
    let message = String::from_str("Encountered errors during plugin shutdown: ").concat(joined.as_str());
    Err(PluginSystemError::ShutdownError { plugin_id: String::from_str("multiple"), message })
}

/// Whether the names of the descriptors are in strictly increasing order.
pub open spec fn names_increasing(ds: Seq<PluginDescriptor>) -> bool {
    forall|a: int, b: int| 0 <= a < b < ds.len() ==> text_lt(#[trigger] ds[a].name@, #[trigger] ds[b].name@)
}

/// The conflicts of one row: all open, all with the row's plugin first and
/// a later plugin second; a mutual exclusion shares its pair with no other.
proof fn lemma_pairs_row_shape(ds: Seq<PluginDescriptor>, i: int, m: int)
    requires
        names_increasing(ds),
        0 <= i,
        m <= ds.len(),
    ensures
        forall|k: int| 0 <= k < pairs_row(ds, i, m).len() ==> (#[trigger] pairs_row(ds, i, m)[k]).first_plugin == ds[i].name@
            && !pairs_row(ds, i, m)[k].resolved && pairs_row(ds, i, m)[k].resolution is None
            && exists|b: int| #![trigger ds[b]] i < b < m && ds[b].name@ == pairs_row(ds, i, m)[k].second_plugin,
        forall|j: int, k: int| 0 <= j < pairs_row(ds, i, m).len() && 0 <= k < pairs_row(ds, i, m).len() && j != k
            && (#[trigger] pairs_row(ds, i, m)[k]).conflict_type is MutuallyExclusive ==> (#[trigger] pairs_row(
            ds,
            i,
            m,
        )[j]).second_plugin != pairs_row(ds, i, m)[k].second_plugin,
    decreases m - i,
{
    if m > i + 1 {
        lemma_pairs_row_shape(ds, i, m - 1);
        let p = pairs_row(ds, i, m - 1);
        let c = pair_conflicts(ds[i], ds[m - 1]);
        let l = pairs_row(ds, i, m);
        lemma_pair_conflicts_shape(ds[i], ds[m - 1]);
        assert(l == p + c);
        assert forall|k: int| 0 <= k < l.len() implies (#[trigger] l[k]).first_plugin == ds[i].name@ && !l[k].resolved
            && l[k].resolution is None && exists|b: int| #![trigger ds[b]] i < b < m && ds[b].name@ == l[k].second_plugin by {
            if k < p.len() {
                assert(l[k] == p[k]);
                let b = choose|b: int| #![trigger ds[b]] i < b < m - 1 && ds[b].name@ == p[k].second_plugin;
                assert(ds[b].name@ == l[k].second_plugin);
            } else {
                assert(l[k] == c[k - p.len()]);
                assert(ds[m - 1].name@ == l[k].second_plugin);
            }
        }
        assert forall|j: int, k: int| 0 <= j < l.len() && 0 <= k < l.len() && j != k && (#[trigger] l[k]).conflict_type is MutuallyExclusive
            implies (#[trigger] l[j]).second_plugin != l[k].second_plugin by {
            if j < p.len() && k < p.len() {
                assert(l[j] == p[j] && l[k] == p[k]);
            } else if j >= p.len() && k >= p.len() {
                assert(l[j] == c[j - p.len()] && l[k] == c[k - p.len()]);
            } else if j < p.len() {
                assert(l[j] == p[j] && l[k] == c[k - p.len()]);
                let b = choose|b: int| #![trigger ds[b]] i < b < m - 1 && ds[b].name@ == p[j].second_plugin;
                assert(text_lt(ds[b].name@, ds[m - 1].name@));
                lemma_text_lt_irreflexive(ds[b].name@);
            } else {
                assert(l[k] == p[k] && l[j] == c[j - p.len()]);
                let b = choose|b: int| #![trigger ds[b]] i < b < m - 1 && ds[b].name@ == p[k].second_plugin;
                assert(text_lt(ds[b].name@, ds[m - 1].name@));
                lemma_text_lt_irreflexive(ds[b].name@);
            }
        }
    }
}

/// The conflicts of the pairs whose first plugin is among the first `n`:
/// all open, between two of the plugins with the first one earlier in name
/// order; a mutual exclusion shares its pair with no other conflict.
proof fn lemma_all_pairs_shape(ds: Seq<PluginDescriptor>, n: int)
    requires
        names_increasing(ds),
        0 <= n <= ds.len(),
    ensures
        forall|k: int| 0 <= k < all_pair_conflicts(ds, n).len() ==> !(#[trigger] all_pair_conflicts(ds, n)[k]).resolved
            && all_pair_conflicts(ds, n)[k].resolution is None
            && text_lt(all_pair_conflicts(ds, n)[k].first_plugin, all_pair_conflicts(ds, n)[k].second_plugin)
            && (exists|a: int| #![trigger ds[a]] 0 <= a < n && ds[a].name@ == all_pair_conflicts(ds, n)[k].first_plugin)
            && (exists|b: int| #![trigger ds[b]] 0 <= b < ds.len() && ds[b].name@ == all_pair_conflicts(ds, n)[k].second_plugin),
        forall|j: int, k: int| 0 <= j < all_pair_conflicts(ds, n).len() && 0 <= k < all_pair_conflicts(ds, n).len() && j != k
            && (#[trigger] all_pair_conflicts(ds, n)[k]).conflict_type is MutuallyExclusive
            && (#[trigger] all_pair_conflicts(ds, n)[j]).first_plugin == all_pair_conflicts(ds, n)[k].first_plugin
            ==> all_pair_conflicts(ds, n)[j].second_plugin != all_pair_conflicts(ds, n)[k].second_plugin,
    decreases n,
{
    if n > 0 {
        lemma_all_pairs_shape(ds, n - 1);
        let p = all_pair_conflicts(ds, n - 1);
        let r = pairs_row(ds, n - 1, ds.len() as int);
        let l = all_pair_conflicts(ds, n);
        lemma_pairs_row_shape(ds, n - 1, ds.len() as int);
        assert(l == p + r);
        assert forall|k: int| 0 <= k < l.len() implies !(#[trigger] l[k]).resolved && l[k].resolution is None
            && text_lt(l[k].first_plugin, l[k].second_plugin)
            && (exists|a: int| #![trigger ds[a]] 0 <= a < n && ds[a].name@ == l[k].first_plugin)
            && (exists|b: int| #![trigger ds[b]] 0 <= b < ds.len() && ds[b].name@ == l[k].second_plugin) by {
            if k < p.len() {
                assert(l[k] == p[k]);
                let a = choose|a: int| #![trigger ds[a]] 0 <= a < n - 1 && ds[a].name@ == p[k].first_plugin;
                assert(ds[a].name@ == l[k].first_plugin);
            } else {
                assert(l[k] == r[k - p.len()]);
                let b = choose|b: int| #![trigger ds[b]] n - 1 < b < ds.len() && ds[b].name@ == r[k - p.len()].second_plugin;
                assert(ds[n - 1].name@ == l[k].first_plugin);
                assert(ds[b].name@ == l[k].second_plugin);
                assert(text_lt(ds[n - 1].name@, ds[b].name@));
            }
        }
        assert forall|j: int, k: int| 0 <= j < l.len() && 0 <= k < l.len() && j != k && (#[trigger] l[k]).conflict_type is MutuallyExclusive
            && (#[trigger] l[j]).first_plugin == l[k].first_plugin implies l[j].second_plugin != l[k].second_plugin by {
            if j < p.len() && k < p.len() {
                assert(l[j] == p[j] && l[k] == p[k]);
            } else if j >= p.len() && k >= p.len() {
                assert(l[j] == r[j - p.len()] && l[k] == r[k - p.len()]);
            } else if j < p.len() {
                assert(l[j] == p[j] && l[k] == r[k - p.len()]);
                let a = choose|a: int| #![trigger ds[a]] 0 <= a < n - 1 && ds[a].name@ == p[j].first_plugin;
                assert(text_lt(ds[a].name@, ds[n - 1].name@));
                lemma_text_lt_irreflexive(ds[a].name@);
            } else {
                assert(l[k] == p[k] && l[j] == r[j - p.len()]);
                let a = choose|a: int| #![trigger ds[a]] 0 <= a < n - 1 && ds[a].name@ == p[k].first_plugin;
                assert(text_lt(ds[a].name@, ds[n - 1].name@));
                lemma_text_lt_irreflexive(ds[a].name@);
            }
        }
    }
}

/// Lemma: the positions of the enabled plugins are those of enabled plugins.
proof fn lemma_enabled_positions_enabled<P>(s: Seq<RegisteredPlugin<P>>)
    ensures
        forall|a: int| 0 <= a < enabled_positions(s).len() ==> s[#[trigger] enabled_positions(s)[a]].enabled,
    decreases s.len(),
{
    if s.len() > 0 {
        let t = s.drop_last();
        lemma_enabled_positions_enabled(t);
        lemma_positions_increasing(t);
        let e = enabled_positions(t);
        if s.last().enabled {
            assert forall|a: int| 0 <= a < enabled_positions(s).len() implies s[#[trigger] enabled_positions(s)[a]].enabled by {
                if a < e.len() {
                    assert(enabled_positions(s)[a] == e[a]);
                    assert(s[e[a]] == t[e[a]]);
                }
            }
        } else {
            assert forall|a: int| 0 <= a < enabled_positions(s).len() implies s[#[trigger] enabled_positions(s)[a]].enabled by {
                assert(enabled_positions(s)[a] == e[a]);
                assert(s[e[a]] == t[e[a]]);
            }
        }
    }
}

/// Law: the conflicts that detection records (see `detect_all_conflicts`)
/// are open conflicts between two enabled plugins, the one first in name
/// order given first; a pair with a mutual exclusion has no other
/// conflict; with fewer than two enabled plugins there is none.
pub proof fn lemma_detected_conflicts<P>(s: Seq<RegisteredPlugin<P>>)
    requires
        names_sorted(s),
    ensures
        forall|k: int| 0 <= k < all_pair_conflicts(enabled_descriptors(s), enabled_descriptors(s).len() as int).len()
            ==> enabled_name(s, (#[trigger] all_pair_conflicts(enabled_descriptors(s), enabled_descriptors(s).len() as int)[k]).first_plugin)
            && enabled_name(s, all_pair_conflicts(enabled_descriptors(s), enabled_descriptors(s).len() as int)[k].second_plugin)
            && text_lt(
            all_pair_conflicts(enabled_descriptors(s), enabled_descriptors(s).len() as int)[k].first_plugin,
            all_pair_conflicts(enabled_descriptors(s), enabled_descriptors(s).len() as int)[k].second_plugin,
        ) && !all_pair_conflicts(enabled_descriptors(s), enabled_descriptors(s).len() as int)[k].resolved
            && all_pair_conflicts(enabled_descriptors(s), enabled_descriptors(s).len() as int)[k].resolution is None,
        forall|j: int, k: int| 0 <= j < all_pair_conflicts(enabled_descriptors(s), enabled_descriptors(s).len() as int).len()
            && 0 <= k < all_pair_conflicts(enabled_descriptors(s), enabled_descriptors(s).len() as int).len() && j != k
            && (#[trigger] all_pair_conflicts(enabled_descriptors(s), enabled_descriptors(s).len() as int)[k]).conflict_type is MutuallyExclusive
            && (#[trigger] all_pair_conflicts(enabled_descriptors(s), enabled_descriptors(s).len() as int)[j]).first_plugin
            == all_pair_conflicts(enabled_descriptors(s), enabled_descriptors(s).len() as int)[k].first_plugin
            ==> all_pair_conflicts(enabled_descriptors(s), enabled_descriptors(s).len() as int)[j].second_plugin
            != all_pair_conflicts(enabled_descriptors(s), enabled_descriptors(s).len() as int)[k].second_plugin,
        enabled_descriptors(s).len() < 2 ==> all_pair_conflicts(enabled_descriptors(s), enabled_descriptors(s).len() as int).len() == 0,
{
    let ds = enabled_descriptors(s);
    let n = ds.len() as int;
    lemma_picked_names_distinct(s);
    lemma_positions_increasing(s);
    lemma_enabled_positions_enabled(s);
    lemma_all_pairs_shape(ds, n);
    let cs = all_pair_conflicts(ds, n);
    assert forall|a: int| 0 <= a < n implies enabled_name(s, #[trigger] ds[a].name@) by {
        let p = enabled_positions(s)[a];
        assert(s[p].enabled);
        assert(name_of(s[p]) == ds[a].name@);
    }
    assert forall|k: int| 0 <= k < cs.len() implies enabled_name(s, (#[trigger] cs[k]).first_plugin) && enabled_name(
        s,
        cs[k].second_plugin,
    ) by {
        let a = choose|a: int| #![trigger ds[a]] 0 <= a < n && ds[a].name@ == cs[k].first_plugin;
        let b = choose|b: int| #![trigger ds[b]] 0 <= b < n && ds[b].name@ == cs[k].second_plugin;
        assert(enabled_name(s, ds[a].name@));
        assert(enabled_name(s, ds[b].name@));
    }
    if n < 2 {
        if n == 1 {
            assert(all_pair_conflicts(ds, 0).len() == 0);
            assert(pairs_row(ds, 0, 1).len() == 0);
        }
    }
}

/// The plugins after those named in `order` are shut down: each of them is
/// no longer initialized; nothing else changes.
pub open spec fn shut_down<P>(s: Seq<RegisteredPlugin<P>>, order: Seq<String>) -> Seq<RegisteredPlugin<P>> {
    Seq::new(s.len(), |p: int| with_flags(s[p], s[p].enabled, s[p].initialized && !contains_text(order, name_of(s[p]))))
}

/// One more plugin of a shutdown order marked as shut down.
proof fn lemma_shut_down_step<P>(
    s: Seq<RegisteredPlugin<P>>,
    order: Seq<String>,
    k: int,
    before: Seq<RegisteredPlugin<P>>,
    after: Seq<RegisteredPlugin<P>>,
)
    requires
        names_sorted(s),
        0 <= k < order.len(),
        before == shut_down(s, order.take(k)),
        has_name(before, order[k]@) ==> after == before.update(
            position_of(before, order[k]@),
            with_flags(before[position_of(before, order[k]@)], before[position_of(before, order[k]@)].enabled, false),
        ),
        !has_name(before, order[k]@) ==> after == before,
    ensures
        after == shut_down(s, order.take(k + 1)),
{
    let id = order[k]@;
    let t0 = order.take(k);
    let t1 = order.take(k + 1);
    assert(t1 =~= t0.push(order[k]));
    assert forall|n: Seq<char>| #[trigger] contains_text(t1, n) == (contains_text(t0, n) || n == id) by {
        if contains_text(t1, n) {
            let j = choose|j: int| 0 <= j < t1.len() && #[trigger] t1[j]@ == n;
            if j < t0.len() {
                assert(t0[j]@ == n);
            }
        }
        if contains_text(t0, n) {
            let j = choose|j: int| 0 <= j < t0.len() && #[trigger] t0[j]@ == n;
            assert(t1[j]@ == n);
        }
        if n == id {
            assert(t1[k]@ == n);
        }
    }
    assert forall|p: int| 0 <= p < s.len() implies name_of(#[trigger] before[p]) == name_of(s[p]) by {}
    let want = shut_down(s, t1);
    if has_name(before, id) {
        let q = position_of(before, id);
        assert(name_of(s[q]) == id);
        assert forall|p: int| 0 <= p < s.len() implies #[trigger] after[p] == want[p] by {
            if p != q {
                if name_of(s[p]) == id {
                    lemma_sorted_unique(s, p, q);
                }
            }
        }
    } else {
        assert forall|p: int| 0 <= p < s.len() implies #[trigger] after[p] == want[p] by {
            if name_of(s[p]) == id {
                assert(name_of(before[p]) == id);
            }
        }
    }
    assert(after =~= want);
}

/// Lemma: every initialized plugin's position is among the initialized positions.
proof fn lemma_initialized_positions_complete<P>(s: Seq<RegisteredPlugin<P>>)
    ensures
        forall|p: int| 0 <= p < s.len() && (#[trigger] s[p]).initialized ==> initialized_positions(s).contains(p),
    decreases s.len(),
{
    if s.len() > 0 {
        let t = s.drop_last();
        lemma_initialized_positions_complete(t);
        let g = initialized_positions(t);
        assert forall|p: int| 0 <= p < s.len() && (#[trigger] s[p]).initialized implies initialized_positions(s).contains(p) by {
            if p < t.len() {
                assert(t[p] == s[p]);
                let j = choose|j: int| 0 <= j < g.len() && g[j] == p;
                assert(initialized_positions(s)[j] == p);
            } else {
                assert(initialized_positions(s) == g.push(p));
                assert(initialized_positions(s)[g.len() as int] == p);
            }
        }
    }
}

/// Law: shutting down the plugins of a successful shutdown order (see
/// `shutdown_order` and `finish_shutdown`) leaves no plugin initialized,
/// whatever their shutdowns reported, and keeps every plugin registered
/// and enabled as it was.
pub proof fn lemma_shutdown_clears_initialized<P>(s: Seq<RegisteredPlugin<P>>, ids: Vec<String>)
    requires
        names_sorted(s),
        ordered_outcome(
            initialized_descriptors(s),
            shutdown_constraints(initialized_descriptors(s)),
            index_tie_break(initialized_descriptors(s).len() as int),
            Ok(ids),
        ),
    ensures
        shut_down(s, ids@).len() == s.len(),
        forall|p: int| 0 <= p < s.len() ==> !(#[trigger] shut_down(s, ids@)[p]).initialized
            && shut_down(s, ids@)[p].enabled == s[p].enabled && shut_down(s, ids@)[p].descriptor == s[p].descriptor,
{
    let ds = initialized_descriptors(s);
    lemma_picked_names_distinct(s);
    lemma_positions_increasing(s);
    lemma_initialized_positions_complete(s);
    lemma_order_names_each_once(ds, shutdown_constraints(ds), index_tie_break(ds.len() as int), ids);
    assert forall|p: int| 0 <= p < s.len() implies !(#[trigger] shut_down(s, ids@)[p]).initialized by {
        if s[p].initialized {
            let x = choose|x: int| 0 <= x < initialized_positions(s).len() && initialized_positions(s)[x] == p;
            assert(ds[x].name@ == name_of(s[p]));
            assert(contains_text(ids@, ds[x].name@));
        }
    }
}

/// The plugins after those named in `order` are initialized: each of them
/// is initialized; nothing else changes.
pub open spec fn started_up<P>(s: Seq<RegisteredPlugin<P>>, order: Seq<String>) -> Seq<RegisteredPlugin<P>> {
    Seq::new(s.len(), |p: int| with_flags(s[p], s[p].enabled, s[p].initialized || contains_text(order, name_of(s[p]))))
}

/// Law: marking the next plugin of an order as initialized (as
/// `set_initialized` does) extends the plugins initialized so far by it.
pub proof fn lemma_start_up_step<P>(
    s: Seq<RegisteredPlugin<P>>,
    order: Seq<String>,
    k: int,
    before: Seq<RegisteredPlugin<P>>,
    after: Seq<RegisteredPlugin<P>>,
)
    requires
        names_sorted(s),
        0 <= k < order.len(),
        before == started_up(s, order.take(k)),
        has_name(before, order[k]@) ==> after == before.update(
            position_of(before, order[k]@),
            with_flags(before[position_of(before, order[k]@)], before[position_of(before, order[k]@)].enabled, true),
        ),
        !has_name(before, order[k]@) ==> after == before,
    ensures
        after == started_up(s, order.take(k + 1)),
{
    let id = order[k]@;
    let t0 = order.take(k);
    let t1 = order.take(k + 1);
    assert(t1 =~= t0.push(order[k]));
    assert forall|n: Seq<char>| #[trigger] contains_text(t1, n) == (contains_text(t0, n) || n == id) by {
        if contains_text(t1, n) {
            let j = choose|j: int| 0 <= j < t1.len() && #[trigger] t1[j]@ == n;
            if j < t0.len() {
                assert(t0[j]@ == n);
            }
        }
        if contains_text(t0, n) {
            let j = choose|j: int| 0 <= j < t0.len() && #[trigger] t0[j]@ == n;
            assert(t1[j]@ == n);
        }
        if n == id {
            assert(t1[k]@ == n);
        }
    }
    assert forall|p: int| 0 <= p < s.len() implies name_of(#[trigger] before[p]) == name_of(s[p]) by {}
    let want = started_up(s, t1);
    if has_name(before, id) {
        let q = position_of(before, id);
        assert(name_of(s[q]) == id);
        assert forall|p: int| 0 <= p < s.len() implies #[trigger] after[p] == want[p] by {
            if p != q {
                if name_of(s[p]) == id {
                    lemma_sorted_unique(s, p, q);
                }
            }
        }
    } else {
        assert forall|p: int| 0 <= p < s.len() implies #[trigger] after[p] == want[p] by {
            if name_of(s[p]) == id {
                assert(name_of(before[p]) == id);
            }
        }
    }
    assert(after =~= want);
}

/// Law: initializing the plugins of a successful initialization order (see
/// `plan_initialize_all`) leaves every enabled plugin initialized, keeps
/// those initialized before, initializes no plugin that is not enabled,
/// and keeps every plugin registered and enabled as it was.
pub proof fn lemma_initialization_covers_enabled<P>(s: Seq<RegisteredPlugin<P>>, ids: Vec<String>)
    requires
        names_sorted(s),
        ordered_outcome(
            enabled_descriptors(s),
            init_constraints(enabled_descriptors(s)),
            init_tie_break(enabled_descriptors(s)),
            Ok(ids),
        ),
    ensures
        started_up(s, ids@).len() == s.len(),
        forall|p: int| 0 <= p < s.len() ==> (s[p].enabled || s[p].initialized ==> (#[trigger] started_up(s, ids@)[p]).initialized)
            && (started_up(s, ids@)[p].initialized ==> s[p].enabled || s[p].initialized)
            && started_up(s, ids@)[p].enabled == s[p].enabled && started_up(s, ids@)[p].descriptor == s[p].descriptor,
{
    let ds = enabled_descriptors(s);
    lemma_picked_names_distinct(s);
    lemma_positions_increasing(s);
    lemma_enabled_positions_enabled(s);
    lemma_enabled_positions_complete(s);
    lemma_order_names_each_once(ds, init_constraints(ds), init_tie_break(ds), ids);
    assert forall|p: int| 0 <= p < s.len() implies (s[p].enabled || s[p].initialized ==> (#[trigger] started_up(s, ids@)[p]).initialized)
        && (started_up(s, ids@)[p].initialized ==> s[p].enabled || s[p].initialized) by {
        if s[p].enabled {
            let x = choose|x: int| 0 <= x < enabled_positions(s).len() && enabled_positions(s)[x] == p;
            assert(ds[x].name@ == name_of(s[p]));
            assert(contains_text(ids@, ds[x].name@));
        }
        if contains_text(ids@, name_of(s[p])) {
            let a = choose|a: int| 0 <= a < ids@.len() && #[trigger] ids@[a]@ == name_of(s[p]);
            assert(names_plugin(ds, ids@[a]@));
            let x = choose|x: int| 0 <= x < ds.len() && #[trigger] ds[x].name@ == ids@[a]@;
            let q = enabled_positions(s)[x];
            assert(s[q].enabled);
            assert(name_of(s[q]) == name_of(s[p]));
            lemma_sorted_unique(s, p, q);
        }
    }
}

/// Lemma: every enabled plugin's position is among the enabled positions.
proof fn lemma_enabled_positions_complete<P>(s: Seq<RegisteredPlugin<P>>)
    ensures
        forall|p: int| 0 <= p < s.len() && (#[trigger] s[p]).enabled ==> enabled_positions(s).contains(p),
    decreases s.len(),
{
    if s.len() > 0 {
        let t = s.drop_last();
        lemma_enabled_positions_complete(t);
        let g = enabled_positions(t);
        assert forall|p: int| 0 <= p < s.len() && (#[trigger] s[p]).enabled implies enabled_positions(s).contains(p) by {
            if p < t.len() {
                assert(t[p] == s[p]);
                let j = choose|j: int| 0 <= j < g.len() && g[j] == p;
                assert(enabled_positions(s)[j] == p);
            } else {
                assert(enabled_positions(s) == g.push(p));
                assert(enabled_positions(s)[g.len() as int] == p);
            }
        }
    }
}

} // verus!
