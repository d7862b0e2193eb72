use gini_core::dependency::DependencyError;
use gini_core::error::{PluginSystemError, PluginSystemErrorSource};
use gini_core::loader::{check_entry_point, manifest_from_raw, PluginLoader, RawDependencyInfo, RawPluginManifest};
use gini_core::manifest::{ManifestBuilder, PluginManifest};
use gini_core::priority::PluginPriority;
use gini_core::semver_model::VersionRange;
use gini_core::version::ApiVersion;

fn raw(id: &str) -> RawPluginManifest {
    RawPluginManifest {
        id: id.to_string(),
        name: format!("{} name", id),
        version: "1.0.0".to_string(),
        description: "d".to_string(),
        author: "a".to_string(),
        website: None,
        license: Some("MIT".to_string()),
        api_versions: vec![">=0.1.0".to_string()],
        dependencies: vec![],
        is_core: false,
        priority: None,
        entry_point: None,
        files: vec![],
        config_schema: None,
        tags: vec!["t".to_string()],
        resources: None,
        conflicts_with: vec![],
        incompatible_with: vec![],
    }
}

fn manifest(id: &str, deps: &[(&str, Option<&str>, bool)]) -> PluginManifest {
    let mut b = ManifestBuilder::new(id, id, "1.0.0").api_version(VersionRange::from_str(">=0.1.0").unwrap());
    for (dep, r, required) in deps {
        b = b.dependency(dep, r.map(|s| VersionRange::from_str(s).unwrap()), *required);
    }
    b.build()
}

#[test]
fn manifest_from_raw_converts_fields() {
    let mut r = raw("alpha");
    r.dependencies = vec![RawDependencyInfo { id: "beta".to_string(), version_range: Some("^1".to_string()), required: true }];
    let m = manifest_from_raw(r, "/plugins/alpha/plugin.json", "/plugins/alpha").unwrap();
    assert_eq!(m.id, "alpha");
    assert_eq!(m.name, "alpha name");
    assert_eq!(m.entry_point, "libalpha.so");
    assert_eq!(m.license, Some("MIT".to_string()));
    assert_eq!(m.api_versions[0].to_string(), ">=0.1.0");
    assert_eq!(m.dependencies[0].plugin_name, "beta");
    assert_eq!(m.dependencies[0].version_range.as_ref().unwrap().to_string(), "^1");
    assert!(m.dependencies[0].required);
    assert_eq!(m.tags, vec!["t".to_string()]);
    assert!(m.resources.is_empty());
    assert_eq!(m.plugin_base_dir, "/plugins/alpha");
}

#[test]
fn manifest_from_raw_keeps_entry_point() {
    let mut r = raw("alpha");
    r.entry_point = Some("custom.so".to_string());
    let m = manifest_from_raw(r, "p", "b").unwrap();
    assert_eq!(m.entry_point, "custom.so");
}

#[test]
fn manifest_from_raw_bad_api_range() {
    let mut r = raw("alpha");
    r.api_versions = vec![">=0.1.0".to_string(), "not-a-range".to_string()];
    match manifest_from_raw(r, "/p/plugin.json", "/p") {
        Err(PluginSystemError::ManifestError { path, message, source }) => {
            assert_eq!(path, "/p/plugin.json");
            assert!(message.starts_with(
                "Failed to parse API version range 'not-a-range': Version parse error: Invalid version constraint 'not-a-range': "
            ));
            assert!(source.is_none());
        },
        other => panic!("unexpected {:?}", other.err()),
    }
}

#[test]
fn manifest_from_raw_bad_dependency_range() {
    let mut r = raw("alpha");
    r.dependencies = vec![RawDependencyInfo { id: "beta".to_string(), version_range: Some("??".to_string()), required: true }];
    match manifest_from_raw(r, "/p/plugin.json", "/p") {
        Err(PluginSystemError::ManifestError { message, .. }) => {
            assert!(message.starts_with("Failed to parse dependency version range '??' for dep 'beta': Version parse error: "));
        },
        other => panic!("unexpected {:?}", other.err()),
    }
}

#[test]
fn manifest_from_raw_keeps_conflicts_and_incompatibilities() {
    let mut r = raw("PluginBConflictsWithA");
    r.conflicts_with = vec!["CompatCheckExample".to_string()];
    r.incompatible_with = vec![
        RawDependencyInfo { id: "old".to_string(), version_range: Some("<2.0.0".to_string()), required: true },
        RawDependencyInfo { id: "any".to_string(), version_range: None, required: false },
    ];
    let m = manifest_from_raw(r, "/p/plugin.json", "/p").unwrap();
    assert_eq!(m.conflicts_with, vec!["CompatCheckExample".to_string()]);
    assert_eq!(m.incompatible_with.len(), 2);
    assert_eq!(m.incompatible_with[0].plugin_name, "old");
    assert_eq!(m.incompatible_with[0].version_range.as_ref().unwrap().to_string(), "<2.0.0");
    assert!(m.incompatible_with[0].required);
    assert_eq!(m.incompatible_with[1].plugin_name, "any");
    assert!(m.incompatible_with[1].version_range.is_none());
    assert!(!m.incompatible_with[1].required);
}

#[test]
fn manifest_from_raw_without_conflicts_has_none() {
    let m = manifest_from_raw(raw("alpha"), "p", "b").unwrap();
    assert!(m.conflicts_with.is_empty());
    assert!(m.incompatible_with.is_empty());
}

#[test]
fn manifest_from_raw_bad_incompatibility_range() {
    let mut r = raw("alpha");
    r.incompatible_with = vec![RawDependencyInfo { id: "x".to_string(), version_range: Some("??".to_string()), required: true }];
    match manifest_from_raw(r, "/p/plugin.json", "/p") {
        Err(PluginSystemError::ManifestError { path, message, source }) => {
            assert_eq!(path, "/p/plugin.json");
            assert!(message.starts_with("Failed to parse incompatibility version range '??' for dep 'x': Version parse error: "));
            assert!(source.is_none());
        },
        other => panic!("unexpected {:?}", other.err()),
    }
}

#[test]
fn entry_point_must_stay_inside() {
    assert!(check_entry_point("p", "libp.so", "/x/libp.so").is_ok());
    assert!(check_entry_point("p", "sub/libp.so", "/x/sub/libp.so").is_ok());
    for bad in ["../evil.so", "/abs/evil.so", "a/../../b.so"] {
        match check_entry_point("p", bad, "/x/lib") {
            Err(PluginSystemError::LoadingError { plugin_id, path, source: PluginSystemErrorSource::Other(m) }) => {
                assert_eq!(plugin_id, "p");
                assert_eq!(path, Some("/x/lib".to_string()));
                assert_eq!(m, format!("Invalid entry_point path '{}': must be relative and not traverse upwards.", bad));
            },
            other => panic!("unexpected {:?}", other),
        }
    }
}

#[test]
fn loader_directories_and_cache() {
    let mut loader = PluginLoader::new();
    assert!(loader.plugin_dirs().is_empty());
    loader.add_plugin_dir("/a");
    loader.add_plugin_dir("/b");
    assert_eq!(loader.plugin_dirs(), &vec!["/a".to_string(), "/b".to_string()]);

    loader.cache_manifest(manifest("one", &[]));
    loader.cache_manifest(manifest("two", &[]));
    let mut replaced = manifest("one", &[]);
    replaced.version = "2.0.0".to_string();
    loader.cache_manifest(replaced);
    assert_eq!(loader.get_all_manifests().len(), 2);
    assert_eq!(loader.get_manifest("one").unwrap().version, "2.0.0");
    assert!(loader.get_manifest("three").is_none());
}

#[test]
fn resolve_dependencies_ok_and_missing() {
    let mut loader = PluginLoader::new();
    loader.cache_manifest(manifest("app", &[("lib", Some("^1.0"), true), ("opt", None, false)]));
    loader.cache_manifest(manifest("lib", &[]));
    assert!(loader.resolve_dependencies().is_ok());

    loader.cache_manifest(manifest("needy", &[("absent", None, true)]));
    match loader.resolve_dependencies() {
        Err(DependencyError::MissingPlugin(id)) => assert_eq!(id, "absent"),
        Err(e) => panic!("unexpected {}", e.message()),
        Ok(()) => panic!("expected an error"),
    }
}

#[test]
fn resolve_dependencies_version_mismatch() {
    let mut loader = PluginLoader::new();
    loader.cache_manifest(manifest("app", &[("lib", Some("^2.0"), true)]));
    loader.cache_manifest(manifest("lib", &[]));
    match loader.resolve_dependencies() {
        Err(e @ DependencyError::IncompatibleVersion { .. }) => {
            assert_eq!(e.message(), "Plugin version mismatch: 'lib' requires version '^2.0' but found '1.0.0'");
        },
        Err(e) => panic!("unexpected {}", e.message()),
        Ok(()) => panic!("expected an error"),
    }
}

#[test]
fn resolve_dependencies_cycle() {
    let mut loader = PluginLoader::new();
    loader.cache_manifest(manifest("x", &[("y", None, true)]));
    loader.cache_manifest(manifest("y", &[("x", None, true)]));
    match loader.resolve_dependencies() {
        Err(DependencyError::CyclicDependency(cycle)) => {
            assert!(cycle.contains(&"x".to_string()));
            assert!(cycle.contains(&"y".to_string()));
        },
        Err(e) => panic!("unexpected {}", e.message()),
        Ok(()) => panic!("expected an error"),
    }
}

#[test]
fn plan_registration_orders_by_dependencies_then_priority() {
    let mut loader = PluginLoader::new();
    loader.cache_manifest(manifest("app", &[("base", None, true)]));
    let mut base = manifest("base", &[]);
    base.priority = Some("core:60".to_string());
    loader.cache_manifest(base);
    let mut early = manifest("early", &[]);
    early.priority = Some(PluginPriority::Kernel(1).to_string());
    loader.cache_manifest(early);
    let mut other_api = manifest("other_api", &[]);
    other_api.api_versions = vec![VersionRange::from_str(">=5.0.0").unwrap()];
    loader.cache_manifest(other_api);

    let plan = loader.plan_registration(&ApiVersion::new(0, 1, 0)).unwrap();
    let ids: Vec<&str> = plan.iter().map(|m| m.id.as_str()).collect();
    assert_eq!(ids, vec!["early", "base", "app"]);
}

#[test]
fn plan_registration_reports_resolution_errors() {
    let mut loader = PluginLoader::new();
    loader.cache_manifest(manifest("app", &[("absent", None, true)]));
    assert!(matches!(
        loader.plan_registration(&ApiVersion::new(0, 1, 0)),
        Err(PluginSystemError::DependencyResolution(DependencyError::MissingPlugin(_)))
    ));
}

#[test]
fn cycle_is_reported_before_other_problems() {
    let mut loader = PluginLoader::new();
    loader.cache_manifest(manifest("x", &[("y", None, true), ("absent", None, true)]));
    loader.cache_manifest(manifest("y", &[("x", Some("^9.0"), true)]));
    match loader.resolve_dependencies() {
        Err(DependencyError::CyclicDependency(cycle)) => {
            assert!(cycle.contains(&"x".to_string()) && cycle.contains(&"y".to_string()));
        },
        Err(e) => panic!("unexpected {}", e.message()),
        Ok(()) => panic!("expected an error"),
    }
}

#[test]
fn optional_dependencies_never_fail_or_cycle() {
    let mut loader = PluginLoader::new();
    loader.cache_manifest(manifest("x", &[("y", Some("^9.0"), false), ("absent", None, false)]));
    loader.cache_manifest(manifest("y", &[("x", None, false)]));
    assert!(loader.resolve_dependencies().is_ok());
}
