//! Plugin manifests: the metadata that describes a plugin, and a builder for them.
use vstd::prelude::*;
use vstd::string::StringExecFns;
use crate::semver_model::VersionRange;
use crate::dependency::PluginDependency;
use crate::priority::{PluginPriority, priority_from_text};

verus! {

/// How a manifest declares that a plugin uses a resource.
#[derive(Debug, Clone, Copy, PartialEq, Eq, Structural)]
pub enum ResourceAccessType {
    /// Exclusive write access.
    ExclusiveWrite,
    /// Shared read access.
    SharedRead,
    /// The plugin provides this resource uniquely.
    ProvidesUniqueId,
}

/// A resource claim as a manifest declares it.
#[derive(Debug, PartialEq, Eq)]
pub struct ResourceClaim {
    /// The kind of resource (e.g. "file_path").
    pub resource_type: String,
    /// The resource's identifier within its kind.
    pub identifier: String,
    /// How the plugin uses it.
    pub access: ResourceAccessType,
}

impl Clone for ResourceClaim {
    fn clone(&self) -> (r: Self)
        ensures
            r == *self,
    {
        ResourceClaim { resource_type: self.resource_type.clone(), identifier: self.identifier.clone(), access: self.access }
    }
}

/// Represents a plugin manifest that describes a plugin.
#[derive(Debug)]
pub struct PluginManifest {
    /// Unique identifier for the plugin
    pub id: String,
    /// Human-readable name
    pub name: String,
    /// Plugin version
    pub version: String,
    /// Plugin description
    pub description: String,
    /// Plugin author
    pub author: String,
    /// Plugin website URL (optional)
    pub website: Option<String>,
    /// License information
    pub license: Option<String>,
    /// Compatible API versions
    pub api_versions: Vec<VersionRange>,
    /// Plugin dependencies
    pub dependencies: Vec<PluginDependency>,
    /// Whether this is a core plugin
    pub is_core: bool,
    /// Plugin priority (text form)
    pub priority: Option<String>,
    /// Entry point (library name or script path)
    pub entry_point: String,
    /// Additional plugin files
    pub files: Vec<String>,
    /// Plugin configuration schema (optional)
    pub config_schema: Option<String>,
    /// Tags for categorization
    pub tags: Vec<String>,
    /// IDs of plugins this plugin conflicts with (cannot run together)
    pub conflicts_with: Vec<String>,
    /// Plugins/versions this plugin is incompatible with
    pub incompatible_with: Vec<PluginDependency>,
    /// Resources the plugin claims
    pub resources: Vec<ResourceClaim>,
    /// Directory the manifest was read from (empty when not read from disk)
    pub plugin_base_dir: String,
}

/// The default entry point of a plugin: `lib<id>.so`.
pub open spec fn default_entry_point(id: Seq<char>) -> Seq<char> {
    "lib"@ + id + ".so"@
}

impl PluginManifest {
    /// Create a new plugin manifest with the given identity and empty lists.
    pub fn new(id: &str, name: &str, version: &str, description: &str, author: &str) -> (r: Self)
        ensures
            r.id@ == id@,
            r.name@ == name@,
            r.version@ == version@,
            r.description@ == description@,
            r.author@ == author@,
            r.website is None,
            r.license is None,
            r.api_versions@.len() == 0,
            r.dependencies@.len() == 0,
            !r.is_core,
            r.priority is None,
            r.entry_point@ == default_entry_point(id@),
            r.files@.len() == 0,
            r.config_schema is None,
            r.tags@.len() == 0,
            r.conflicts_with@.len() == 0,
            r.incompatible_with@.len() == 0,
            r.resources@.len() == 0,
            r.plugin_base_dir@ == Seq::<char>::empty(),
    {
        let mut entry_point = String::from_str("lib");
        entry_point.append(id);
        entry_point.append(".so");
        PluginManifest {
            id: id.to_owned(),
            name: name.to_owned(),
            version: version.to_owned(),
            description: description.to_owned(),
            author: author.to_owned(),
            website: None,
            license: None,
            api_versions: Vec::new(),
            dependencies: Vec::new(),
            is_core: false,
            priority: None,
            entry_point,
            files: Vec::new(),
            config_schema: None,
            tags: Vec::new(),
            conflicts_with: Vec::new(),
            incompatible_with: Vec::new(),
            resources: Vec::new(),
            plugin_base_dir: String::new(),
        }
    }

    /// Add an API version range.
    pub fn add_api_version(&mut self, version_range: VersionRange)
        ensures
            *final(self) == (PluginManifest { api_versions: final(self).api_versions, ..*old(self) }),
            final(self).api_versions@ == old(self).api_versions@.push(version_range),
    {
        self.api_versions.push(version_range);
    }

    /// Add a dependency.
    pub fn add_dependency(&mut self, id: &str, version_range: Option<VersionRange>, required: bool)
        ensures
            *final(self) == (PluginManifest { dependencies: final(self).dependencies, ..*old(self) }),
            final(self).dependencies@.len() == old(self).dependencies@.len() + 1,
            forall|k: int| 0 <= k < old(self).dependencies@.len() ==> final(self).dependencies@[k] == old(self).dependencies@[k],
            final(self).dependencies@.last().plugin_name@ == id@,
            final(self).dependencies@.last().version_range == version_range,
            final(self).dependencies@.last().required == required,
    {
        self.dependencies.push(PluginDependency { plugin_name: id.to_owned(), version_range, required });
    }

    /// Set the plugin priority (stored in its text form).
    pub fn set_priority(&mut self, priority: PluginPriority)
        ensures
            *final(self) == (PluginManifest { priority: final(self).priority, ..*old(self) }),
            final(self).priority matches Some(p) && p@ == priority.spec_text(),
    {
        self.priority = Some(priority.to_string());
    }

    /// Mark this as a core plugin (or not).
    pub fn set_core(&mut self, is_core: bool)
        ensures
            *final(self) == (PluginManifest { is_core, ..*old(self) }),
    {
        self.is_core = is_core;
    }

    /// Add a tag to the plugin.
    pub fn add_tag(&mut self, tag: &str)
        ensures
            *final(self) == (PluginManifest { tags: final(self).tags, ..*old(self) }),
            final(self).tags@.len() == old(self).tags@.len() + 1,
            forall|k: int| 0 <= k < old(self).tags@.len() ==> final(self).tags@[k] == old(self).tags@[k],
            final(self).tags@.last()@ == tag@,
    {
        self.tags.push(tag.to_owned());
    }

    /// Add a plugin ID that this plugin conflicts with.
    pub fn add_conflict(&mut self, id: &str)
        ensures
            *final(self) == (PluginManifest { conflicts_with: final(self).conflicts_with, ..*old(self) }),
            final(self).conflicts_with@.len() == old(self).conflicts_with@.len() + 1,
            forall|k: int| 0 <= k < old(self).conflicts_with@.len() ==> final(self).conflicts_with@[k] == old(self).conflicts_with@[k],
            final(self).conflicts_with@.last()@ == id@,
    {
        self.conflicts_with.push(id.to_owned());
    }

    /// Add an incompatibility rule (recorded as a required dependency entry).
    pub fn add_incompatibility(&mut self, id: &str, version_range: Option<VersionRange>)
        ensures
            *final(self) == (PluginManifest { incompatible_with: final(self).incompatible_with, ..*old(self) }),
            final(self).incompatible_with@.len() == old(self).incompatible_with@.len() + 1,
            forall|k: int| 0 <= k < old(self).incompatible_with@.len() ==> final(self).incompatible_with@[k] == old(self).incompatible_with@[k],
            final(self).incompatible_with@.last().plugin_name@ == id@,
            final(self).incompatible_with@.last().version_range == version_range,
            final(self).incompatible_with@.last().required,
    {
        self.incompatible_with.push(PluginDependency { plugin_name: id.to_owned(), version_range, required: true });
    }

    /// Add a resource claim.
    pub fn add_resource(&mut self, resource_type: &str, identifier: &str, access: ResourceAccessType)
        ensures
            *final(self) == (PluginManifest { resources: final(self).resources, ..*old(self) }),
            final(self).resources@.len() == old(self).resources@.len() + 1,
            forall|k: int| 0 <= k < old(self).resources@.len() ==> final(self).resources@[k] == old(self).resources@[k],
            final(self).resources@.last().resource_type@ == resource_type@,
            final(self).resources@.last().identifier@ == identifier@,
            final(self).resources@.last().access == access,
    {
        self.resources.push(ResourceClaim { resource_type: resource_type.to_owned(), identifier: identifier.to_owned(), access });
    }

    /// Get the plugin priority: the stored text read as a priority, if any.
    pub fn get_priority(&self) -> (r: Option<PluginPriority>)
        ensures
            r == (match self.priority {
                Some(p) => priority_from_text(p@),
                None => None,
            }),
    {
        match &self.priority {
            Some(p) => PluginPriority::from_str(p.as_str()),
            None => None,
        }
    }
}

/// Builder for creating a plugin manifest.
pub struct ManifestBuilder {
    manifest: PluginManifest,
}

impl View for ManifestBuilder {
    type V = PluginManifest;

    closed spec fn view(&self) -> PluginManifest {
        self.manifest
    }
}

impl ManifestBuilder {
    /// Create a new manifest builder, with a default description and author.
    pub fn new(id: &str, name: &str, version: &str) -> (r: Self)
        ensures
            r@.id@ == id@,
            r@.name@ == name@,
            r@.version@ == version@,
            r@.description@ == "A plugin for OSX-Forge"@,
            r@.author@ == "Unknown"@,
            r@.website is None,
            r@.license is None,
            r@.api_versions@.len() == 0,
            r@.dependencies@.len() == 0,
            !r@.is_core,
            r@.priority is None,
            r@.entry_point@ == default_entry_point(id@),
            r@.files@.len() == 0,
            r@.config_schema is None,
            r@.tags@.len() == 0,
            r@.conflicts_with@.len() == 0,
            r@.incompatible_with@.len() == 0,
            r@.resources@.len() == 0,
            r@.plugin_base_dir@ == Seq::<char>::empty(),
    {
        ManifestBuilder { manifest: PluginManifest::new(id, name, version, "A plugin for OSX-Forge", "Unknown") }
    }

    /// Set the plugin description.
    pub fn description(self, description: &str) -> (r: Self)
        ensures
            r@ == (PluginManifest { description: r@.description, ..self@ }),
            r@.description@ == description@,
    {
        let mut b = self;
        b.manifest.description = description.to_owned();
        b
    }

    /// Set the plugin author.
    pub fn author(self, author: &str) -> (r: Self)
        ensures
            r@ == (PluginManifest { author: r@.author, ..self@ }),
            r@.author@ == author@,
    {
        let mut b = self;
        b.manifest.author = author.to_owned();
        b
    }

    /// Set the plugin website.
    pub fn website(self, website: &str) -> (r: Self)
        ensures
            r@ == (PluginManifest { website: r@.website, ..self@ }),
            r@.website matches Some(w) && w@ == website@,
    {
        let mut b = self;
        b.manifest.website = Some(website.to_owned());
        b
    }

    /// Set the plugin license.
    pub fn license(self, license: &str) -> (r: Self)
        ensures
            r@ == (PluginManifest { license: r@.license, ..self@ }),
            r@.license matches Some(l) && l@ == license@,
    {
        let mut b = self;
        b.manifest.license = Some(license.to_owned());
        b
    }

    /// Add an API version compatibility range.
    pub fn api_version(self, version_range: VersionRange) -> (r: Self)
        ensures
            r@ == (PluginManifest { api_versions: r@.api_versions, ..self@ }),
            r@.api_versions@ == self@.api_versions@.push(version_range),
    {
        let mut b = self;
        b.manifest.add_api_version(version_range);
        b
    }

    /// Add a dependency.
    pub fn dependency(self, id: &str, version_range: Option<VersionRange>, required: bool) -> (r: Self)
        ensures
            r@ == (PluginManifest { dependencies: r@.dependencies, ..self@ }),
            r@.dependencies@.len() == self@.dependencies@.len() + 1,
            forall|k: int| 0 <= k < self@.dependencies@.len() ==> r@.dependencies@[k] == self@.dependencies@[k],
            r@.dependencies@.last().plugin_name@ == id@,
            r@.dependencies@.last().version_range == version_range,
            r@.dependencies@.last().required == required,
    {
        let mut b = self;
        b.manifest.add_dependency(id, version_range, required);
        b
    }

    /// Add a conflict rule (plugin ID this one conflicts with).
    pub fn conflict(self, id: &str) -> (r: Self)
        ensures
            r@ == (PluginManifest { conflicts_with: r@.conflicts_with, ..self@ }),
            r@.conflicts_with@.len() == self@.conflicts_with@.len() + 1,
            forall|k: int| 0 <= k < self@.conflicts_with@.len() ==> r@.conflicts_with@[k] == self@.conflicts_with@[k],
            r@.conflicts_with@.last()@ == id@,
    {
        let mut b = self;
        b.manifest.add_conflict(id);
        b
    }

    /// Add an incompatibility rule (plugin ID and optional version range).
    pub fn incompatibility(self, id: &str, version_range: Option<VersionRange>) -> (r: Self)
        ensures
            r@ == (PluginManifest { incompatible_with: r@.incompatible_with, ..self@ }),
            r@.incompatible_with@.len() == self@.incompatible_with@.len() + 1,
            forall|k: int| 0 <= k < self@.incompatible_with@.len() ==> r@.incompatible_with@[k] == self@.incompatible_with@[k],
            r@.incompatible_with@.last().plugin_name@ == id@,
            r@.incompatible_with@.last().version_range == version_range,
            r@.incompatible_with@.last().required,
    {
        let mut b = self;
        b.manifest.add_incompatibility(id, version_range);
        b
    }

    /// Add a resource claim.
    pub fn resource(self, resource_type: &str, identifier: &str, access: ResourceAccessType) -> (r: Self)
        ensures
            r@ == (PluginManifest { resources: r@.resources, ..self@ }),
            r@.resources@.len() == self@.resources@.len() + 1,
            forall|k: int| 0 <= k < self@.resources@.len() ==> r@.resources@[k] == self@.resources@[k],
            r@.resources@.last().resource_type@ == resource_type@,
            r@.resources@.last().identifier@ == identifier@,
            r@.resources@.last().access == access,
    {
        let mut b = self;
        b.manifest.add_resource(resource_type, identifier, access);
        b
    }

    /// Set whether this is a core plugin.
    pub fn set_core(self, is_core: bool) -> (r: Self)
        ensures
            r@ == (PluginManifest { is_core, ..self@ }),
    {
        let mut b = self;
        b.manifest.is_core = is_core;
        b
    }

    /// Set the plugin priority.
    pub fn priority(self, priority: PluginPriority) -> (r: Self)
        ensures
            r@ == (PluginManifest { priority: r@.priority, ..self@ }),
            r@.priority matches Some(p) && p@ == priority.spec_text(),
    {
        let mut b = self;
        b.manifest.set_priority(priority);
        b
    }

    /// Set the entry point.
    pub fn entry_point(self, entry_point: &str) -> (r: Self)
        ensures
            r@ == (PluginManifest { entry_point: r@.entry_point, ..self@ }),
            r@.entry_point@ == entry_point@,
    {
        let mut b = self;
        b.manifest.entry_point = entry_point.to_owned();
        b
    }

    /// Add a file to the plugin.
    pub fn file(self, file: &str) -> (r: Self)
        ensures
            r@ == (PluginManifest { files: r@.files, ..self@ }),
            r@.files@.len() == self@.files@.len() + 1,
            forall|k: int| 0 <= k < self@.files@.len() ==> r@.files@[k] == self@.files@[k],
            r@.files@.last()@ == file@,
    {
        let mut b = self;
        b.manifest.files.push(file.to_owned());
        b
    }

    /// Add multiple files to the plugin, in order.
    pub fn files(self, files: &[&str]) -> (r: Self)
        ensures
            r@ == (PluginManifest { files: r@.files, ..self@ }),
            r@.files@.len() == self@.files@.len() + files@.len(),
            forall|k: int| 0 <= k < self@.files@.len() ==> r@.files@[k] == self@.files@[k],
            forall|k: int| 0 <= k < files@.len() ==> #[trigger] r@.files@[self@.files@.len() + k]@ == files@[k]@,
    {
        let mut b = self;
        let ghost start = b.manifest;
        let mut i: usize = 0;
        while i < files.len()
            invariant
                i <= files@.len(),
                b.manifest == (PluginManifest { files: b.manifest.files, ..start }),
                b.manifest.files@.len() == start.files@.len() + i,
                forall|k: int| 0 <= k < start.files@.len() ==> b.manifest.files@[k] == start.files@[k],
                forall|k: int| 0 <= k < i ==> #[trigger] b.manifest.files@[start.files@.len() + k]@ == files@[k]@,
            decreases files.len() - i,
        {
            b.manifest.files.push(files[i].to_owned());
            i = i + 1;
        }
        b
    }

    /// Add a tag to the plugin.
    pub fn tag(self, tag: &str) -> (r: Self)
        ensures
            r@ == (PluginManifest { tags: r@.tags, ..self@ }),
            r@.tags@.len() == self@.tags@.len() + 1,
            forall|k: int| 0 <= k < self@.tags@.len() ==> r@.tags@[k] == self@.tags@[k],
            r@.tags@.last()@ == tag@,
    {
        let mut b = self;
        b.manifest.add_tag(tag);
        b
    }

    /// Add multiple tags to the plugin, in order.
    pub fn tags(self, tags: &[&str]) -> (r: Self)
        ensures
            r@ == (PluginManifest { tags: r@.tags, ..self@ }),
            r@.tags@.len() == self@.tags@.len() + tags@.len(),
            forall|k: int| 0 <= k < self@.tags@.len() ==> r@.tags@[k] == self@.tags@[k],
            forall|k: int| 0 <= k < tags@.len() ==> #[trigger] r@.tags@[self@.tags@.len() + k]@ == tags@[k]@,
    {
        let mut b = self;
        let ghost start = b.manifest;
        let mut i: usize = 0;
        while i < tags.len()
            invariant
                i <= tags@.len(),
                b.manifest == (PluginManifest { tags: b.manifest.tags, ..start }),
                b.manifest.tags@.len() == start.tags@.len() + i,
                forall|k: int| 0 <= k < start.tags@.len() ==> b.manifest.tags@[k] == start.tags@[k],
                forall|k: int| 0 <= k < i ==> #[trigger] b.manifest.tags@[start.tags@.len() + k]@ == tags@[k]@,
            decreases tags.len() - i,
        {
            b.manifest.add_tag(tags[i]);
            i = i + 1;
        }
        b
    }

    /// Build the manifest.
    pub fn build(self) -> (r: PluginManifest)
        ensures
            r == self@,
    {
        self.manifest
    }
}

} // verus!
