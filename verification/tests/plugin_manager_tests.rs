use gini_core::dependency::PluginDependency;
use gini_core::error::{PluginSystemError, PluginSystemErrorSource};
use gini_core::loader::{manifest_from_raw, RawPluginManifest};
use gini_core::manifest::ManifestBuilder;
use gini_core::plugin_manager::{
    check_can_disable, derive_plugin_name, directory_load_error, disabled_after_disable, disabled_after_enable,
    get_dependent_plugins, get_plugin_dependencies, manifest_admission, manifest_of_plugin, ManifestAdmission,
};
use gini_core::priority::PluginPriority;
use gini_core::registry::{PluginDescriptor, PluginRegistry};
use gini_core::semver_model::VersionRange;
use gini_core::version::ApiVersion;

fn descriptor(id: &str, deps: &[&str], is_core: bool) -> PluginDescriptor {
    PluginDescriptor {
        name: id.to_string(),
        version: "1.0.0".to_string(),
        is_core,
        priority: PluginPriority::ThirdParty(151),
        compatible_api_versions: vec![VersionRange::from_str(">=0.1.0").unwrap()],
        dependencies: deps.iter().map(|d| PluginDependency::required_any(d)).collect(),
        conflicts_with: vec![],
        incompatible_with: vec![],
        declared_resources: vec![],
    }
}

fn registry_with(ds: Vec<PluginDescriptor>) -> PluginRegistry<()> {
    let mut r = PluginRegistry::new(ApiVersion::new(0, 1, 0));
    for d in ds {
        r.register_plugin(d, ()).unwrap();
    }
    r
}

fn strings(v: &[&str]) -> Vec<String> {
    v.iter().map(|s| s.to_string()).collect()
}

#[test]
fn plugin_names_from_library_stems() {
    assert_eq!(derive_plugin_name("libmy_plugin"), "my-plugin");
    assert_eq!(derive_plugin_name("other_plugin"), "other-plugin");
    assert_eq!(derive_plugin_name("lib"), "");
    assert_eq!(derive_plugin_name("plain"), "plain");
}

#[test]
fn get_plugin_dependencies_and_not_found() {
    let registry = registry_with(vec![descriptor("app", &["db", "log"], false), descriptor("db", &[], false)]);
    assert_eq!(get_plugin_dependencies(&registry, "app").unwrap(), strings(&["db", "log"]));
    assert!(get_plugin_dependencies(&registry, "db").unwrap().is_empty());
    let err = get_plugin_dependencies(&registry, "missing").unwrap_err();
    assert!(matches!(err, PluginSystemError::RegistrationError { .. }));
}

#[test]
fn get_dependent_plugins_in_name_order() {
    let registry = registry_with(vec![
        descriptor("zeta", &["db"], false),
        descriptor("alpha", &["db"], false),
        descriptor("db", &[], false),
    ]);
    assert_eq!(get_dependent_plugins(&registry, "db"), strings(&["alpha", "zeta"]));
    assert!(get_dependent_plugins(&registry, "nobody").is_empty());
}

#[test]
fn core_plugins_cannot_be_disabled() {
    let registry = registry_with(vec![descriptor("core", &[], true), descriptor("extra", &[], false)]);
    assert!(check_can_disable(&registry, "extra").is_ok());
    let err = check_can_disable(&registry, "core").unwrap_err();
    assert_eq!(err.message(), "Operation error in plugin 'core': Core plugin cannot be disabled");
    let err = check_can_disable(&registry, "ghost").unwrap_err();
    assert_eq!(err.message(), "Plugin registration error for 'ghost': Plugin not found");
}

#[test]
fn disabled_list_updates() {
    let list = strings(&["a", "b", "a"]);
    assert_eq!(disabled_after_enable(&list, "a"), strings(&["b"]));
    assert_eq!(disabled_after_disable(&list, "a"), list);
    assert_eq!(disabled_after_disable(&list, "c"), strings(&["a", "b", "a", "c"]));
}

#[test]
fn directory_errors_are_joined() {
    match directory_load_error("/plugins", &strings(&["one", "two"])) {
        PluginSystemError::LoadingError { plugin_id, path, source: PluginSystemErrorSource::Other(m) } => {
            assert_eq!(plugin_id, "/plugins");
            assert_eq!(path, Some("/plugins".to_string()));
            assert_eq!(m, "Multiple errors loading plugins from directory: one; two");
        },
        other => panic!("unexpected {:?}", other),
    }
}

#[test]
fn manifest_admission_cases() {
    let mut registry = registry_with(vec![descriptor("present", &[], false), descriptor("rival", &[], false)]);
    let fresh = ManifestBuilder::new("fresh", "Fresh", "1.0.0").build();
    assert!(matches!(manifest_admission(&registry, &fresh), ManifestAdmission::Load));
    let again = ManifestBuilder::new("present", "Present", "1.0.0").build();
    assert!(matches!(manifest_admission(&registry, &again), ManifestAdmission::AlreadyRegistered));
    let hostile = ManifestBuilder::new("hostile", "Hostile", "1.0.0").conflict("absent").conflict("rival").build();
    match manifest_admission(&registry, &hostile) {
        ManifestAdmission::ConflictsWithEnabled(n) => assert_eq!(n, "rival"),
        _ => panic!("expected a conflict"),
    }
    registry.disable_plugin("rival").unwrap();
    assert!(matches!(manifest_admission(&registry, &hostile), ManifestAdmission::Load));
}

#[test]
fn manifest_generated_from_plugin() {
    let mut d = descriptor("gen", &["dep"], true);
    d.conflicts_with = strings(&["x"]);
    let m = manifest_of_plugin(&d);
    assert_eq!(m.id, "gen");
    assert_eq!(m.name, "gen");
    assert_eq!(m.description, "Manifest generated from plugin 'gen'");
    assert_eq!(m.author, "Unknown");
    assert_eq!(m.entry_point, "libgen.so");
    assert_eq!(m.priority, Some("third_party:151".to_string()));
    assert_eq!(m.dependencies[0].plugin_name, "dep");
    assert_eq!(m.conflicts_with, strings(&["x"]));
    assert!(m.is_core);
    assert_eq!(m.api_versions[0].to_string(), ">=0.1.0");
}

#[test]
fn declared_conflict_in_manifest_keeps_plugin_out() {
    let registry = registry_with(vec![descriptor("CompatCheckExample", &[], false)]);
    let raw = RawPluginManifest {
        id: "PluginBConflictsWithA".to_string(),
        name: "Plugin B".to_string(),
        version: "1.0.0".to_string(),
        description: "Conflicts with A".to_string(),
        author: "Test".to_string(),
        website: None,
        license: None,
        api_versions: vec![],
        dependencies: vec![],
        is_core: false,
        priority: None,
        entry_point: Some("libpluginbconflictswitha.so".to_string()),
        files: vec![],
        config_schema: None,
        tags: vec![],
        resources: None,
        conflicts_with: strings(&["CompatCheckExample"]),
        incompatible_with: vec![],
    };
    let m = manifest_from_raw(raw, "/plugins/b/plugin.json", "/plugins/b").unwrap();
    assert_eq!(m.conflicts_with, strings(&["CompatCheckExample"]));
    match manifest_admission(&registry, &m) {
        ManifestAdmission::ConflictsWithEnabled(n) => assert_eq!(n, "CompatCheckExample"),
        _ => panic!("expected the declared conflict to keep the plugin out"),
    }
}
