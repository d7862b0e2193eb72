//! The decisions of the plugin manager: which manifests to load, which
//! plugins may be disabled, how the persisted list of disabled plugins
//! changes, and what it reports about registered plugins.
use vstd::prelude::*;
use vstd::string::StringExecFns;
use crate::dependency::{join, join_strings, PluginDependency, clone_range};
use crate::error::{PluginSystemError, PluginSystemErrorSource};
use crate::manifest::{PluginManifest, default_entry_point};
use crate::registry::{PluginRegistry, PluginDescriptor, RegisteredPlugin, has_name, enabled_name, position_of, name_of};
use crate::conflict::contains_text;

verus! {

/// A text with a leading `lib` removed, if it has one.
pub open spec fn strip_lib(s: Seq<char>) -> Seq<char> {
    if s.len() >= 3 && s[0] == 'l' && s[1] == 'i' && s[2] == 'b' {
        s.skip(3)
    } else {
        s
    }
}

/// A text with every `_` replaced by `-`.
pub open spec fn dashes_for_underscores(s: Seq<char>) -> Seq<char> {
    s.map_values(|c: char| if c == '_' { '-' } else { c })
}

/// The plugin name a library file stem stands for: without a leading `lib`,
/// with `-` for `_` (`libmy_plugin` names `my-plugin`).
pub fn derive_plugin_name(file_stem: &str) -> (r: String)
    ensures
        r@ == dashes_for_underscores(strip_lib(file_stem@)),
{
    let cs = crate::text::str_chars(file_stem);
    let start: usize = if cs.len() >= 3 && cs[0] == 'l' && cs[1] == 'i' && cs[2] == 'b' { 3 } else { 0 };
    let ghost base = strip_lib(file_stem@);
    assert(base =~= cs@.skip(start as int));
    let mut out = String::new();
    let mut k: usize = start;
    while k < cs.len()
        invariant
            start <= k <= cs@.len(),
            cs@ == file_stem@,
            base =~= cs@.skip(start as int),
            out@ == dashes_for_underscores(base.take(k - start)),
        decreases cs.len() - k,
    {
        let c = if cs[k] == '_' { '-' } else { cs[k] };
        let ghost before = out@;
        crate::text::push_char(&mut out, c);
        proof {
            assert(base.take(k + 1 - start) =~= base.take(k - start).push(cs@[k as int]));
            assert(dashes_for_underscores(base.take(k + 1 - start)) =~= dashes_for_underscores(base.take(k - start)).push(c));
        }
        k = k + 1;
    }
    assert(base.take(cs@.len() - start) =~= base);
    out
}

/// What to do with a manifest found while scanning.
pub enum ManifestAdmission {
    /// Load its library.
    Load,
    /// Skip it: it declares a conflict with this registered, enabled plugin.
    ConflictsWithEnabled(String),
    /// Skip it: a plugin of its identifier is registered already.
    AlreadyRegistered,
}

/// Whether `name` is the first name of a list that is a registered and enabled plugin.
pub open spec fn first_enabled_conflict<P>(s: Seq<RegisteredPlugin<P>>, names: Seq<String>, k: int) -> bool {
    0 <= k < names.len() && enabled_name(s, names[k]@) && forall|j: int| 0 <= j < k ==> !enabled_name(s, #[trigger] names[j]@)
}

/// Decides what to do with a scanned manifest: skip it if it declares a
/// conflict with a registered, enabled plugin (the first such name is
/// reported); else skip it if its identifier is registered; else load it.
pub fn manifest_admission<P>(registry: &PluginRegistry<P>, manifest: &PluginManifest) -> (r: ManifestAdmission)
    ensures
        match r {
            ManifestAdmission::ConflictsWithEnabled(n) => exists|k: int| #[trigger] first_enabled_conflict(
                registry@.plugins,
                manifest.conflicts_with@,
                k,
            ) && manifest.conflicts_with@[k]@ == n@,
            ManifestAdmission::AlreadyRegistered => (forall|j: int| 0 <= j < manifest.conflicts_with@.len()
                ==> !enabled_name(registry@.plugins, #[trigger] manifest.conflicts_with@[j]@))
                && has_name(registry@.plugins, manifest.id@),
            ManifestAdmission::Load => (forall|j: int| 0 <= j < manifest.conflicts_with@.len()
                ==> !enabled_name(registry@.plugins, #[trigger] manifest.conflicts_with@[j]@))
                && !has_name(registry@.plugins, manifest.id@),
        },
{
    let mut k: usize = 0;
    while k < manifest.conflicts_with.len()
        invariant
            k <= manifest.conflicts_with@.len(),
            forall|j: int| 0 <= j < k ==> !enabled_name(registry@.plugins, #[trigger] manifest.conflicts_with@[j]@),
        decreases manifest.conflicts_with.len() - k,
    {
        let n = &manifest.conflicts_with[k];
        if registry.is_registered(n.as_str()) && registry.is_enabled(n.as_str()) {
            assert(first_enabled_conflict(registry@.plugins, manifest.conflicts_with@, k as int));
            return ManifestAdmission::ConflictsWithEnabled(n.clone());
        }
        k = k + 1;
    }
    if registry.is_registered(manifest.id.as_str()) {
        return ManifestAdmission::AlreadyRegistered;
    }
    ManifestAdmission::Load
}

/// The names of the dependencies of a registered plugin; fails if it is not registered.
pub fn get_plugin_dependencies<P>(registry: &PluginRegistry<P>, id: &str) -> (r: Result<Vec<String>, PluginSystemError>)
    ensures
        match r {
            Ok(names) => has_name(registry@.plugins, id@) && {
                let d = registry@.plugins[position_of(registry@.plugins, id@)].descriptor;
                names@.len() == d.dependencies@.len() && forall|k: int| 0 <= k < names@.len()
                    ==> #[trigger] names@[k]@ == d.dependencies@[k].plugin_name@
            },
            Err(e) => !has_name(registry@.plugins, id@) && (e matches PluginSystemError::RegistrationError { plugin_id, message }
                && plugin_id@ == id@ && message@ == "Plugin not found"@),
        },
{
    match registry.get_descriptor(id) {
        Some(d) => {
            let mut out: Vec<String> = Vec::new();
            let mut k: usize = 0;
            while k < d.dependencies.len()
                invariant
                    k <= d.dependencies@.len(),
                    out@.len() == k,
                    forall|j: int| 0 <= j < k ==> #[trigger] out@[j]@ == d.dependencies@[j].plugin_name@,
                decreases d.dependencies.len() - k,
            {
                out.push(d.dependencies[k].plugin_name.clone());
                k = k + 1;
            }
            Ok(out)
        },
        None => Err(PluginSystemError::RegistrationError {
            plugin_id: String::from_str(id),
            message: String::from_str("Plugin not found"),
        }),
    }
}

/// Whether a plugin declares a dependency on the named plugin.
pub open spec fn declares_dependency_on(d: PluginDescriptor, name: Seq<char>) -> bool {
    exists|k: int| 0 <= k < d.dependencies@.len() && #[trigger] d.dependencies@[k].plugin_name@ == name
}

/// The registered plugins, among the first `n`, that declare a dependency on a name, in order.
pub open spec fn dependents<P>(s: Seq<RegisteredPlugin<P>>, name: Seq<char>, n: int) -> Seq<Seq<char>>
    decreases n,
{
    if n <= 0 {
        Seq::<Seq<char>>::empty()
    } else if declares_dependency_on(s[n - 1].descriptor, name) {
        dependents(s, name, n - 1).push(name_of(s[n - 1]))
    } else {
        dependents(s, name, n - 1)
    }
}

/// The names of the registered plugins that declare a dependency on `id`, in name order.
pub fn get_dependent_plugins<P>(registry: &PluginRegistry<P>, id: &str) -> (r: Vec<String>)
    ensures
        r@.map_values(|s: String| s@) == dependents(registry@.plugins, id@, registry@.plugins.len() as int),
{
    let entries = registry.iter_plugins();
    let key = String::from_str(id);
    let mut out: Vec<String> = Vec::new();
    let mut i: usize = 0;
    while i < entries.len()
        invariant
            i <= entries@.len(),
            entries@ == registry@.plugins,
            key@ == id@,
            out@.map_values(|s: String| s@) == dependents(registry@.plugins, id@, i as int),
        decreases entries.len() - i,
    {
        let d = &entries[i].descriptor;
        let mut found = false;
        let mut k: usize = 0;
        while k < d.dependencies.len()
            invariant
                k <= d.dependencies@.len(),
                key@ == id@,
                !found ==> forall|j: int| 0 <= j < k ==> #[trigger] d.dependencies@[j].plugin_name@ != id@,
                found ==> declares_dependency_on(*d, id@),
            decreases d.dependencies.len() - k,
        {
            if d.dependencies[k].plugin_name == key {
                found = true;
            }
            k = k + 1;
        }
        let ghost before = out@;
        if found {
            out.push(d.name.clone());
            assert(out@.map_values(|s: String| s@) =~= before.map_values(|s: String| s@).push(d.name@));
        }
        i = i + 1;
    }
    out
}

/// Checks that a plugin may be disabled: it must be registered and not a core plugin.
pub fn check_can_disable<P>(registry: &PluginRegistry<P>, name: &str) -> (r: Result<(), PluginSystemError>)
    ensures
        !has_name(registry@.plugins, name@) ==> (r matches Err(PluginSystemError::RegistrationError { plugin_id, message })
            && plugin_id@ == name@ && message@ == "Plugin not found"@),
        has_name(registry@.plugins, name@) ==> if registry@.plugins[position_of(registry@.plugins, name@)].descriptor.is_core {
            r matches Err(PluginSystemError::OperationError { plugin_id: Some(p), message }) && p@ == name@
                && message@ == "Core plugin cannot be disabled"@
        } else {
            r is Ok
        },
{
    match registry.get_descriptor(name) {
        None => Err(PluginSystemError::RegistrationError {
            plugin_id: String::from_str(name),
            message: String::from_str("Plugin not found"),
        }),
        Some(d) => {
            if d.is_core {
                Err(PluginSystemError::OperationError {
                    plugin_id: Some(String::from_str(name)),
                    message: String::from_str("Core plugin cannot be disabled"),
                })
            } else {
                Ok(())
            }
        },
    }
}

/// The names of a list other than `name`, in order.
pub open spec fn without_name(s: Seq<Seq<char>>, name: Seq<char>) -> Seq<Seq<char>>
    decreases s.len(),
{
    if s.len() == 0 {
        s
    } else if s.last() == name {
        without_name(s.drop_last(), name)
    } else {
        without_name(s.drop_last(), name).push(s.last())
    }
}

/// Law: once a plugin is enabled, its name is no longer in the list of
/// disabled plugins, and every other name stays listed exactly when it was.
pub proof fn lemma_enabled_name_unlisted(s: Seq<Seq<char>>, name: Seq<char>)
    ensures
        !without_name(s, name).contains(name),
        forall|x: Seq<char>| x != name ==> (#[trigger] without_name(s, name).contains(x) <==> s.contains(x)),
    decreases s.len(),
{
    if s.len() > 0 {
        let init = s.drop_last();
        lemma_enabled_name_unlisted(init, name);
        assert(s =~= init.push(s.last()));
        assert forall|x: Seq<char>| #[trigger] s.contains(x) <==> (init.contains(x) || s.last() == x) by {
            if s.contains(x) {
                let k = choose|k: int| 0 <= k < s.len() && s[k] == x;
                if k < init.len() {
                    assert(init[k] == x);
                }
            }
            if init.contains(x) {
                let k = choose|k: int| 0 <= k < init.len() && init[k] == x;
                assert(s[k] == x);
            }
            if s.last() == x {
                assert(s[s.len() - 1] == x);
            }
        }
        if s.last() != name {
            let w = without_name(init, name);
            assert forall|x: Seq<char>| #[trigger] w.push(s.last()).contains(x) <==> (w.contains(x) || s.last() == x) by {
                if w.push(s.last()).contains(x) {
                    let k = choose|k: int| 0 <= k < w.len() + 1 && w.push(s.last())[k] == x;
                    if k < w.len() {
                        assert(w[k] == x);
                    }
                }
                if w.contains(x) {
                    let k = choose|k: int| 0 <= k < w.len() && w[k] == x;
                    assert(w.push(s.last())[k] == x);
                }
                if s.last() == x {
                    assert(w.push(s.last())[w.len() as int] == x);
                }
            }
        }
    }
}

/// The persisted list of disabled plugins after enabling `name`: every entry
/// of that name removed.
pub fn disabled_after_enable(list: &Vec<String>, name: &str) -> (r: Vec<String>)
    ensures
        r@.map_values(|s: String| s@) == without_name(list@.map_values(|s: String| s@), name@),
{
    let ghost all = list@.map_values(|s: String| s@);
    let key = String::from_str(name);
    let mut out: Vec<String> = Vec::new();
    let mut i: usize = 0;
    while i < list.len()
        invariant
            i <= list@.len(),
            all == list@.map_values(|s: String| s@),
            key@ == name@,
            out@.map_values(|s: String| s@) == without_name(all.take(i as int), name@),
        decreases list.len() - i,
    {
        proof {
            assert(all.take(i + 1).drop_last() =~= all.take(i as int));
            assert(all.take(i + 1).last() == list@[i as int]@);
        }
        let ghost before = out@;
        if list[i] != key {
            out.push(list[i].clone());
            assert(out@.map_values(|s: String| s@) =~= before.map_values(|s: String| s@).push(list@[i as int]@));
        }
        i = i + 1;
    }
    assert(all.take(list@.len() as int) =~= all);
    out
}

/// The persisted list of disabled plugins after disabling `name`: the name
/// added at the end unless it is listed already.
pub fn disabled_after_disable(list: &Vec<String>, name: &str) -> (r: Vec<String>)
    ensures
        r@.map_values(|s: String| s@) == if contains_text(list@, name@) {
            list@.map_values(|s: String| s@)
        } else {
            list@.map_values(|s: String| s@).push(name@)
        },
{
    let key = String::from_str(name);
    let mut out: Vec<String> = Vec::new();
    let mut present = false;
    let mut i: usize = 0;
    while i < list.len()
        invariant
            i <= list@.len(),
            key@ == name@,
            out@.len() == i,
            forall|j: int| 0 <= j < i ==> #[trigger] out@[j]@ == list@[j]@,
            present == exists|j: int| 0 <= j < i && #[trigger] list@[j]@ == name@,
        decreases list.len() - i,
    {
        if list[i] == key {
            present = true;
        }
        out.push(list[i].clone());
        i = i + 1;
    }
    let ghost before = out@;
    if !present {
        out.push(key);
        assert(out@.map_values(|s: String| s@) =~= before.map_values(|s: String| s@).push(name@));
        assert(before.map_values(|s: String| s@) =~= list@.map_values(|s: String| s@));
    } else {
        assert(out@.map_values(|s: String| s@) =~= list@.map_values(|s: String| s@));
    }
    out
}

/// The error reported when loading plugins from a directory met errors
/// (their texts, in order).
pub fn directory_load_error(dir: &str, messages: &Vec<String>) -> (r: PluginSystemError)
    ensures
        r matches PluginSystemError::LoadingError { plugin_id, path: Some(p), source: PluginSystemErrorSource::Other(m) }
            && plugin_id@ == dir@ && p@ == dir@
            && m@ == "Multiple errors loading plugins from directory: "@ + join(messages@.map_values(|s: String| s@), "; "@),
{
    let joined = join_strings(messages, "; ");
    let m = String::from_str("Multiple errors loading plugins from directory: ").concat(joined.as_str());
    PluginSystemError::LoadingError {
        plugin_id: String::from_str(dir),
        path: Some(String::from_str(dir)),
        source: PluginSystemErrorSource::Other(m),
    }
}

/// Copies a list of dependencies.
fn copy_dependencies(v: &Vec<PluginDependency>) -> (r: Vec<PluginDependency>)
    ensures
        r@.len() == v@.len(),
        forall|k: int| 0 <= k < r@.len() ==> (#[trigger] r@[k])@ == v@[k]@,
{
    let mut out: Vec<PluginDependency> = Vec::new();
    let mut k: usize = 0;
    while k < v.len()
        invariant
            k <= v@.len(),
            out@.len() == k,
            forall|j: int| 0 <= j < k ==> (#[trigger] out@[j])@ == v@[j]@,
        decreases v.len() - k,
    {
        out.push(v[k].clone());
        k = k + 1;
    }
    out
}

/// The manifest that describes a registered plugin, built from what it
/// declares: its name as identifier and name, a generated description,
/// author `Unknown`, entry point `lib<name>.so`, and no files, tags,
/// resources or base directory.
pub fn manifest_of_plugin(d: &PluginDescriptor) -> (m: PluginManifest)
    ensures
        m.id@ == d.name@,
        m.name@ == d.name@,
        m.version@ == d.version@,
        m.description@ == "Manifest generated from plugin '"@ + d.name@ + "'"@,
        m.author@ == "Unknown"@,
        m.website is None,
        m.license is None,
        m.api_versions@.map_values(|r: crate::semver_model::VersionRange| r@) == d.compatible_api_versions@.map_values(
            |r: crate::semver_model::VersionRange| r@,
        ),
        m.dependencies@.len() == d.dependencies@.len(),
        forall|k: int| 0 <= k < m.dependencies@.len() ==> (#[trigger] m.dependencies@[k])@ == d.dependencies@[k]@,
        m.is_core == d.is_core,
        m.priority matches Some(p) && p@ == d.priority.spec_text(),
        m.entry_point@ == default_entry_point(d.name@),
        m.files@.len() == 0,
        m.config_schema is None,
        m.tags@.len() == 0,
        m.conflicts_with@.map_values(|s: String| s@) == d.conflicts_with@.map_values(|s: String| s@),
        m.incompatible_with@.len() == d.incompatible_with@.len(),
        forall|k: int| 0 <= k < m.incompatible_with@.len() ==> (#[trigger] m.incompatible_with@[k])@ == d.incompatible_with@[k]@,
        m.resources@.len() == 0,
        m.plugin_base_dir@ == Seq::<char>::empty(),
{
    let mut description = String::from_str("Manifest generated from plugin '");
    description.append(d.name.as_str());
    description.append("'");
    let mut entry_point = String::from_str("lib");
    entry_point.append(d.name.as_str());
    entry_point.append(".so");
    let mut api_versions: Vec<crate::semver_model::VersionRange> = Vec::new();
    let mut k: usize = 0;
    while k < d.compatible_api_versions.len()
        invariant
            k <= d.compatible_api_versions@.len(),
            api_versions@.len() == k,
            forall|j: int| 0 <= j < k ==> (#[trigger] api_versions@[j])@ == d.compatible_api_versions@[j]@,
        decreases d.compatible_api_versions.len() - k,
    {
        api_versions.push(d.compatible_api_versions[k].clone());
        k = k + 1;
    }
    assert(api_versions@.map_values(|r: crate::semver_model::VersionRange| r@) =~= d.compatible_api_versions@.map_values(
        |r: crate::semver_model::VersionRange| r@,
    ));
    let mut conflicts: Vec<String> = Vec::new();
    let mut c: usize = 0;
    while c < d.conflicts_with.len()
        invariant
            c <= d.conflicts_with@.len(),
            conflicts@.len() == c,
            forall|j: int| 0 <= j < c ==> #[trigger] conflicts@[j]@ == d.conflicts_with@[j]@,
        decreases d.conflicts_with.len() - c,
    {
        conflicts.push(d.conflicts_with[c].clone());
        c = c + 1;
    }
    assert(conflicts@.map_values(|s: String| s@) =~= d.conflicts_with@.map_values(|s: String| s@));
    PluginManifest {
        id: d.name.clone(),
        name: d.name.clone(),
        version: d.version.clone(),
        description,
        author: String::from_str("Unknown"),
        website: None,
        license: None,
        api_versions,
        dependencies: copy_dependencies(&d.dependencies),
        is_core: d.is_core,
        priority: Some(d.priority.to_string()),
        entry_point,
        files: Vec::new(),
        config_schema: None,
        tags: Vec::new(),
        conflicts_with: conflicts,
        incompatible_with: copy_dependencies(&d.incompatible_with),
        resources: Vec::new(),
        plugin_base_dir: String::new(),
    }
}

} // verus!
