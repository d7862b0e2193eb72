use gini_core::manifest::{ManifestBuilder, PluginManifest, ResourceAccessType};
use gini_core::priority::PluginPriority;
use gini_core::semver_model::VersionRange;

#[test]
fn test_manifest_new_defaults() {
    let manifest = PluginManifest::new("test_plugin", "Test Plugin", "0.1.0", "Default Description", "Default Author");
    assert_eq!(manifest.id, "test_plugin");
    assert_eq!(manifest.name, "Test Plugin");
    assert_eq!(manifest.version, "0.1.0");
    assert_eq!(manifest.entry_point, "libtest_plugin.so");
    assert_eq!(manifest.description, "Default Description");
    assert_eq!(manifest.author, "Default Author");
    assert!(manifest.dependencies.is_empty());
    assert!(manifest.api_versions.is_empty());
    assert!(manifest.tags.is_empty());
    assert!(manifest.priority.is_none());
    assert!(!manifest.is_core);
}

#[test]
fn test_manifest_builder_methods() {
    let version_range = VersionRange::from_str("^1.0").unwrap();
    let api_version_range = VersionRange::from_str("~1").unwrap();
    let priority = PluginPriority::Core(50);

    let manifest = ManifestBuilder::new("builder_test", "Builder Test Plugin", "1.2.3")
        .entry_point("my_plugin.dll")
        .description("A test plugin built with the builder.")
        .author("Test Author")
        .dependency("core", Some(version_range.clone()), true)
        .api_version(api_version_range.clone())
        .tag("test")
        .priority(priority.clone())
        .set_core(true)
        .build();

    assert_eq!(manifest.id, "builder_test");
    assert_eq!(manifest.name, "Builder Test Plugin");
    assert_eq!(manifest.version, "1.2.3");
    assert_eq!(manifest.entry_point, "my_plugin.dll");
    assert_eq!(manifest.description, "A test plugin built with the builder.");
    assert_eq!(manifest.author, "Test Author");
    assert_eq!(manifest.dependencies.len(), 1);
    assert_eq!(manifest.dependencies[0].plugin_name, "core");
    assert_eq!(
        manifest.dependencies[0].version_range.as_ref().map(|vr| vr.to_string()),
        Some(version_range.to_string())
    );
    assert!(manifest.dependencies[0].required);
    assert_eq!(manifest.api_versions.len(), 1);
    let api_version_present = manifest.api_versions.iter().any(|vr| vr.to_string() == api_version_range.to_string());
    assert!(api_version_present);
    assert_eq!(manifest.tags, vec!["test".to_string()]);
    assert_eq!(manifest.priority, Some(priority.to_string()));
    assert!(manifest.is_core);
}

#[test]
fn test_manifest_get_priority() {
    let mut manifest = PluginManifest::new("priority_test", "P Test", "1.0", "Desc", "Auth");

    assert!(manifest.get_priority().is_none());

    manifest.priority = Some("core_critical:30".to_string());
    assert_eq!(manifest.get_priority(), Some(PluginPriority::CoreCritical(30)));

    manifest.priority = Some("invalid-priority".to_string());
    assert!(manifest.get_priority().is_none());

    manifest.priority = Some("unknown:50".to_string());
    assert!(manifest.get_priority().is_none());

    manifest.priority = Some("core:260".to_string());
    assert!(manifest.get_priority().is_none());
}

#[test]
fn test_manifest_builder_chaining() {
    let manifest = ManifestBuilder::new("chain_test", "Chain Test", "0.5.0")
        .description("Chained description.")
        .author("Chained Author")
        .tag("chained")
        .priority(PluginPriority::ThirdPartyHigh(150))
        .build();

    assert_eq!(manifest.id, "chain_test");
    assert_eq!(manifest.name, "Chain Test");
    assert_eq!(manifest.version, "0.5.0");
    assert_eq!(manifest.description, "Chained description.");
    assert_eq!(manifest.author, "Chained Author");
    assert_eq!(manifest.tags, vec!["chained".to_string()]);
    assert_eq!(manifest.priority, Some("third_party_high:150".to_string()));
    assert_eq!(manifest.get_priority(), Some(PluginPriority::ThirdPartyHigh(150)));
}

#[test]
fn test_manifest_builder_defaults() {
    let manifest = ManifestBuilder::new("default_builder_test", "Default Builder", "1.0.0").build();

    assert_eq!(manifest.id, "default_builder_test");
    assert_eq!(manifest.name, "Default Builder");
    assert_eq!(manifest.version, "1.0.0");
    assert_eq!(manifest.description, "A plugin for OSX-Forge");
    assert_eq!(manifest.author, "Unknown");
}

#[test]
fn test_manifest_add_multiple_items() {
    let vr1 = VersionRange::from_str("*").unwrap();
    let vr_api1 = VersionRange::from_str("1.0").unwrap();
    let vr_api2 = VersionRange::from_str("~1.1").unwrap();

    let manifest = ManifestBuilder::new("multi_item_test", "Multi Test", "1.0")
        .dependency("dep1", None, true)
        .dependency("dep2", Some(vr1.clone()), false)
        .api_version(vr_api1.clone())
        .api_version(vr_api2.clone())
        .tag("tag1")
        .tag("tag2")
        .tag("tag1")
        .build();

    assert_eq!(manifest.dependencies.len(), 2);
    let dep1 = manifest.dependencies.iter().find(|d| d.plugin_name == "dep1").unwrap();
    assert!(dep1.required);
    assert!(dep1.version_range.is_none());

    let dep2 = manifest.dependencies.iter().find(|d| d.plugin_name == "dep2").unwrap();
    assert!(!dep2.required);
    assert_eq!(dep2.version_range.as_ref().map(|v| v.to_string()), Some(vr1.to_string()));

    assert_eq!(manifest.api_versions.len(), 2);
    let api1_present = manifest.api_versions.iter().any(|vr| vr.to_string() == vr_api1.to_string());
    let api2_present = manifest.api_versions.iter().any(|vr| vr.to_string() == vr_api2.to_string());
    assert!(api1_present);
    assert!(api2_present);

    assert_eq!(manifest.tags.len(), 3);
    assert_eq!(manifest.tags.iter().filter(|&t| t == "tag1").count(), 2);
    assert!(manifest.tags.contains(&"tag2".to_string()));
}

#[test]
fn test_manifest_priority_parsing_edge() {
    let mut manifest = PluginManifest::new("priority_edge_test", "Edge Test", "1.0", "Desc", "Auth");

    manifest.priority = Some("kernel:0".to_string());
    assert_eq!(manifest.get_priority(), Some(PluginPriority::Kernel(0)));

    manifest.priority = Some("kernel:49".to_string());
    assert!(manifest.get_priority().is_none());

    manifest.priority = Some("core_critical:50".to_string());
    assert_eq!(manifest.get_priority(), Some(PluginPriority::CoreCritical(50)));

    manifest.priority = Some("core:99".to_string());
    assert_eq!(manifest.get_priority(), Some(PluginPriority::Core(99)));

    manifest.priority = Some("third_party_high:101".to_string());
    assert_eq!(manifest.get_priority(), Some(PluginPriority::ThirdPartyHigh(101)));

    manifest.priority = Some("third_party_low:255".to_string());
    assert_eq!(manifest.get_priority(), Some(PluginPriority::ThirdPartyLow(255)));

    manifest.priority = Some("kernel:50".to_string());
    assert!(manifest.get_priority().is_none());

    manifest.priority = Some("third_party_low:256".to_string());
    assert!(manifest.get_priority().is_none());

    manifest.priority = Some("kernel:49".to_string());
    assert!(manifest.get_priority().is_none());

    manifest.priority = Some("core: 70".to_string());
    assert!(manifest.get_priority().is_none());
    manifest.priority = Some(":70".to_string());
    assert!(manifest.get_priority().is_none());
    manifest.priority = Some("core:".to_string());
    assert!(manifest.get_priority().is_none());
    manifest.priority = Some("core".to_string());
    assert!(manifest.get_priority().is_none());
}

#[test]
fn manifest_builder_collects_lists() {
    let m = ManifestBuilder::new("lists", "Lists", "1.0.0")
        .website("https://example.org")
        .license("MIT")
        .file("a.txt")
        .files(&["b.txt", "c.txt"])
        .tags(&["x", "y"])
        .conflict("other")
        .incompatibility("bad", None)
        .resource("port", "80", ResourceAccessType::ProvidesUniqueId)
        .build();
    assert_eq!(m.website, Some("https://example.org".to_string()));
    assert_eq!(m.license, Some("MIT".to_string()));
    assert_eq!(m.files, vec!["a.txt".to_string(), "b.txt".to_string(), "c.txt".to_string()]);
    assert_eq!(m.tags, vec!["x".to_string(), "y".to_string()]);
    assert_eq!(m.conflicts_with, vec!["other".to_string()]);
    assert_eq!(m.incompatible_with.len(), 1);
    assert_eq!(m.incompatible_with[0].plugin_name, "bad");
    assert!(m.incompatible_with[0].required);
    assert_eq!(m.resources.len(), 1);
    assert_eq!(m.resources[0].identifier, "80");
}

#[test]
fn manifest_mutators() {
    let mut m = PluginManifest::new("m", "M", "1.0.0", "d", "a");
    m.add_api_version(VersionRange::from_str(">=0.1").unwrap());
    m.add_dependency("x", None, false);
    m.set_priority(PluginPriority::Core(60));
    m.set_core(true);
    m.add_tag("t");
    m.add_conflict("c");
    m.add_incompatibility("i", Some(VersionRange::from_str("<1.0").unwrap()));
    m.add_resource("file", "/f", ResourceAccessType::SharedRead);
    assert_eq!(m.api_versions.len(), 1);
    assert_eq!(m.dependencies[0].plugin_name, "x");
    assert_eq!(m.priority, Some("core:60".to_string()));
    assert_eq!(m.get_priority(), Some(PluginPriority::Core(60)));
    assert!(m.is_core);
    assert_eq!(m.tags, vec!["t".to_string()]);
    assert_eq!(m.conflicts_with, vec!["c".to_string()]);
    assert_eq!(m.incompatible_with[0].version_range.as_ref().unwrap().to_string(), "<1.0");
    assert_eq!(m.resources[0].access, ResourceAccessType::SharedRead);
}
