use gini_core::conflict::{
    ConflictManager, ConflictType, PluginConflict, ResolutionStrategy, ResourceAccessType as GiniResourceAccessType,
    ResourceIdentifier,
};
use gini_core::dependency::PluginDependency;
use gini_core::manifest::{ManifestBuilder, ResourceAccessType};
use gini_core::priority::PluginPriority;
use gini_core::registry::{PluginDescriptor, PluginRegistry};
use gini_core::semver_model::VersionRange;
use gini_core::version::ApiVersion;

#[test]
fn test_conflict_type_is_critical() {
    assert!(ConflictType::MutuallyExclusive.is_critical());
    assert!(ConflictType::DependencyVersion {
        dependency_name: "dep_x".to_string(),
        required_by_first: "1.0.0".to_string(),
        required_by_second: "2.0.0".to_string(),
    }
    .is_critical());
    let dummy_resource_id = ResourceIdentifier { kind: "test".to_string(), id: "res1".to_string() };
    assert!(ConflictType::ResourceConflict {
        resource: dummy_resource_id.clone(),
        first_plugin_access: GiniResourceAccessType::ExclusiveWrite,
        second_plugin_access: GiniResourceAccessType::SharedRead,
    }
    .is_critical());
    assert!(ConflictType::ExplicitlyIncompatible.is_critical());
    assert!(!ConflictType::PartialOverlap.is_critical());
    assert!(!ConflictType::Custom("test".to_string()).is_critical());
}

#[test]
fn test_conflict_type_description() {
    assert_eq!(ConflictType::MutuallyExclusive.description(), "Mutually exclusive plugins");
    assert_eq!(
        ConflictType::DependencyVersion {
            dependency_name: "dep_x".to_string(),
            required_by_first: "1.0.0".to_string(),
            required_by_second: "2.0.0".to_string(),
        }
        .description(),
        "Conflicting dependency versions"
    );
    let dummy_resource_id_desc = ResourceIdentifier { kind: "test_desc".to_string(), id: "res_desc".to_string() };
    assert_eq!(
        ConflictType::ResourceConflict {
            resource: dummy_resource_id_desc,
            first_plugin_access: GiniResourceAccessType::SharedRead,
            second_plugin_access: GiniResourceAccessType::SharedRead,
        }
        .description(),
        "Resource conflict"
    );
    assert_eq!(ConflictType::PartialOverlap.description(), "Partial functionality overlap");
    assert_eq!(ConflictType::ExplicitlyIncompatible.description(), "Explicitly marked as incompatible");
    assert_eq!(ConflictType::Custom("custom".to_string()).description(), "Custom conflict");
}

#[test]
fn test_plugin_conflict_new() {
    let conflict = PluginConflict::new(
        "plugin_a",
        "plugin_b",
        ConflictType::DependencyVersion {
            dependency_name: "common_dep".to_string(),
            required_by_first: "^1.0".to_string(),
            required_by_second: "^2.0".to_string(),
        },
        "Requires dep v1 vs v2",
    );

    assert_eq!(conflict.first_plugin, "plugin_a");
    assert_eq!(conflict.second_plugin, "plugin_b");
    assert_eq!(
        conflict.conflict_type,
        ConflictType::DependencyVersion {
            dependency_name: "common_dep".to_string(),
            required_by_first: "^1.0".to_string(),
            required_by_second: "^2.0".to_string(),
        }
    );
    assert_eq!(conflict.description, "Requires dep v1 vs v2");
    assert!(!conflict.resolved);
    assert!(conflict.resolution.is_none());
}

#[test]
fn test_plugin_conflict_resolve() {
    let mut conflict = PluginConflict::new("plugin_a", "plugin_b", ConflictType::PartialOverlap, "Overlap");

    assert!(!conflict.resolved);
    assert!(conflict.resolution.is_none());

    conflict.resolve(ResolutionStrategy::AllowWithWarning);

    assert!(conflict.resolved);
    assert_eq!(conflict.resolution, Some(ResolutionStrategy::AllowWithWarning));
}

#[test]
fn test_plugin_conflict_is_critical() {
    let critical_conflict = PluginConflict::new("plugin_a", "plugin_b", ConflictType::MutuallyExclusive, "Critical");
    let non_critical_conflict = PluginConflict::new("plugin_c", "plugin_d", ConflictType::PartialOverlap, "Non-critical");

    assert!(critical_conflict.is_critical());
    assert!(!non_critical_conflict.is_critical());
}

#[test]
fn test_conflict_manager_new_default() {
    let manager_new = ConflictManager::new();
    let manager_default = ConflictManager::default();

    assert!(manager_new.get_conflicts().is_empty());
    assert!(manager_default.get_conflicts().is_empty());
}

#[test]
fn test_conflict_manager_add_conflict() {
    let mut manager = ConflictManager::new();
    let conflict1 = PluginConflict::new("plugin_a", "plugin_b", ConflictType::MutuallyExclusive, "Desc1");
    let conflict2 = PluginConflict::new("plugin_b", "plugin_c", ConflictType::PartialOverlap, "Desc2");

    manager.add_conflict(conflict1.clone());
    manager.add_conflict(conflict2.clone());

    let conflicts = manager.get_conflicts();
    assert_eq!(conflicts.len(), 2);
    assert!(conflicts.iter().any(|c| c.first_plugin == "plugin_a" && c.second_plugin == "plugin_b"));
    assert!(conflicts.iter().any(|c| c.first_plugin == "plugin_b" && c.second_plugin == "plugin_c"));
}

#[test]
fn test_conflict_manager_get_unresolved() {
    let mut manager = ConflictManager::new();
    let mut conflict1 = PluginConflict::new("plugin_a", "plugin_b", ConflictType::MutuallyExclusive, "Desc1");
    let conflict2 = PluginConflict::new("plugin_b", "plugin_c", ConflictType::PartialOverlap, "Desc2");

    conflict1.resolve(ResolutionStrategy::DisableFirst);
    manager.add_conflict(conflict1.clone());
    manager.add_conflict(conflict2.clone());

    let unresolved = manager.get_unresolved_conflicts();
    assert_eq!(unresolved.len(), 1);
    assert_eq!(unresolved[0].first_plugin, conflict2.first_plugin);
    assert_eq!(unresolved[0].second_plugin, conflict2.second_plugin);
    assert_eq!(unresolved[0].conflict_type, conflict2.conflict_type);
}

#[test]
fn test_conflict_manager_get_critical_unresolved() {
    let mut manager = ConflictManager::new();
    let mut critical_resolved = PluginConflict::new(
        "plugin_a",
        "plugin_b",
        ConflictType::DependencyVersion {
            dependency_name: "dep_res".to_string(),
            required_by_first: "1.0".to_string(),
            required_by_second: "2.0".to_string(),
        },
        "Desc1",
    );
    let critical_unresolved = PluginConflict::new("plugin_a", "plugin_c", ConflictType::MutuallyExclusive, "Desc2");
    let mut non_critical_resolved = PluginConflict::new("plugin_b", "plugin_c", ConflictType::PartialOverlap, "Desc3");
    let non_critical_unresolved =
        PluginConflict::new("plugin_c", "plugin_d", ConflictType::Custom("custom".into()), "Desc4");

    critical_resolved.resolve(ResolutionStrategy::DisableSecond);
    non_critical_resolved.resolve(ResolutionStrategy::AllowWithWarning);

    manager.add_conflict(critical_resolved);
    manager.add_conflict(critical_unresolved.clone());
    manager.add_conflict(non_critical_resolved);
    manager.add_conflict(non_critical_unresolved);

    let critical_unresolved_list = manager.get_critical_unresolved_conflicts();
    assert_eq!(critical_unresolved_list.len(), 1);
    assert_eq!(critical_unresolved_list[0].first_plugin, critical_unresolved.first_plugin);
    assert_eq!(critical_unresolved_list[0].second_plugin, critical_unresolved.second_plugin);
    assert_eq!(critical_unresolved_list[0].conflict_type, critical_unresolved.conflict_type);
}

#[test]
fn test_conflict_manager_resolve_conflict() {
    let mut manager = ConflictManager::new();
    let conflict = PluginConflict::new("plugin_a", "plugin_b", ConflictType::PartialOverlap, "Desc");
    manager.add_conflict(conflict);

    assert!(!manager.get_conflicts()[0].resolved);

    let result = manager.resolve_conflict(0, ResolutionStrategy::ManualConfiguration);
    assert!(result.is_ok());
    assert!(manager.get_conflicts()[0].resolved);
    assert_eq!(manager.get_conflicts()[0].resolution, Some(ResolutionStrategy::ManualConfiguration));

    let result_invalid = manager.resolve_conflict(1, ResolutionStrategy::Merge);
    assert!(result_invalid.is_err());
    assert!(result_invalid.unwrap_err().message().contains("Conflict index out of bounds"));
}

#[test]
fn test_conflict_manager_all_critical_resolved() {
    let mut manager = ConflictManager::new();

    manager.add_conflict(PluginConflict::new("p1", "p2", ConflictType::PartialOverlap, "Desc1"));
    assert!(manager.all_critical_conflicts_resolved());

    manager.add_conflict(PluginConflict::new("p1", "p3", ConflictType::MutuallyExclusive, "Desc2"));
    assert!(!manager.all_critical_conflicts_resolved());

    manager.resolve_conflict(1, ResolutionStrategy::DisableFirst).unwrap();
    assert!(manager.all_critical_conflicts_resolved());

    let mut manager_resolved = ConflictManager::new();
    let mut critical_resolved = PluginConflict::new(
        "p_a",
        "p_b",
        ConflictType::DependencyVersion {
            dependency_name: "dep_crit_res".to_string(),
            required_by_first: "~1.1".to_string(),
            required_by_second: ">2.0".to_string(),
        },
        "Desc3",
    );
    critical_resolved.resolve(ResolutionStrategy::DisableSecond);
    manager_resolved.add_conflict(critical_resolved);
    assert!(manager_resolved.all_critical_conflicts_resolved());
}

#[test]
fn test_conflict_manager_get_plugins_to_disable() {
    let mut manager = ConflictManager::new();

    let mut c1 = PluginConflict::new("plugin_a", "plugin_b", ConflictType::MutuallyExclusive, "Desc1");
    let mut c2 = PluginConflict::new(
        "plugin_a",
        "plugin_c",
        ConflictType::DependencyVersion {
            dependency_name: "dep_disable".to_string(),
            required_by_first: "1.x".to_string(),
            required_by_second: "2.x".to_string(),
        },
        "Desc2",
    );
    let dummy_resource_id_disable =
        ResourceIdentifier { kind: "disable_test".to_string(), id: "disable_res".to_string() };
    let mut c3 = PluginConflict::new(
        "plugin_b",
        "plugin_d",
        ConflictType::ResourceConflict {
            resource: dummy_resource_id_disable,
            first_plugin_access: GiniResourceAccessType::ExclusiveWrite,
            second_plugin_access: GiniResourceAccessType::ExclusiveWrite,
        },
        "Desc3",
    );
    let mut c4 = PluginConflict::new("plugin_c", "plugin_d", ConflictType::PartialOverlap, "Desc4");

    c1.resolve(ResolutionStrategy::DisableFirst);
    c2.resolve(ResolutionStrategy::DisableSecond);
    c3.resolve(ResolutionStrategy::DisableFirst);
    c4.resolve(ResolutionStrategy::AllowWithWarning);

    manager.add_conflict(c1);
    manager.add_conflict(c2);
    manager.add_conflict(c3);
    manager.add_conflict(c4);

    let mut c5 = PluginConflict::new("plugin_a", "plugin_d", ConflictType::Custom("".into()), "Desc5");
    c5.resolve(ResolutionStrategy::DisableFirst);
    manager.add_conflict(c5);

    let mut expected: Vec<String> = vec!["plugin_a".to_string(), "plugin_b".to_string(), "plugin_c".to_string()];
    expected.sort();

    let to_disable = manager.get_plugins_to_disable();
    assert_eq!(to_disable, expected);
}

#[test]
fn test_conflict_manager_detect_conflicts_no_claims() {
    let mut manager = ConflictManager::new();
    let manifest1 = ManifestBuilder::new("p1", "P1", "1.0.0").build();
    let manifest2 = ManifestBuilder::new("p2", "P2", "1.0.0").build();
    let manifests = vec![manifest1, manifest2];
    let result = manager.detect_conflicts(&manifests);
    assert!(result.is_ok());
    assert!(manager.get_conflicts().is_empty());
}

#[test]
fn test_no_conflicts_no_overlap() {
    let mut manager = ConflictManager::new();
    let manifest1 = ManifestBuilder::new("plugin_A", "Plugin A", "1.0.0")
        .resource("file_path", "/logs/a.log", ResourceAccessType::ExclusiveWrite)
        .build();
    let manifest2 = ManifestBuilder::new("plugin_B", "Plugin B", "1.0.0")
        .resource("file_path", "/logs/b.log", ResourceAccessType::ExclusiveWrite)
        .build();
    let manifests = vec![manifest1, manifest2];
    manager.detect_conflicts(&manifests).unwrap();
    assert!(manager.get_conflicts().is_empty());
}

#[test]
fn test_no_conflicts_shared_read() {
    let mut manager = ConflictManager::new();
    let manifest1 = ManifestBuilder::new("plugin_A", "Plugin A", "1.0.0")
        .resource("file_path", "/config/settings.toml", ResourceAccessType::SharedRead)
        .build();
    let manifest2 = ManifestBuilder::new("plugin_B", "Plugin B", "1.0.0")
        .resource("file_path", "/config/settings.toml", ResourceAccessType::SharedRead)
        .build();
    let manifests = vec![manifest1, manifest2];
    manager.detect_conflicts(&manifests).unwrap();
    assert!(manager.get_conflicts().is_empty());
}

#[test]
fn test_exclusive_write_conflict_on_file_path() {
    let mut manager = ConflictManager::new();
    let manifest1 = ManifestBuilder::new("plugin_A", "Plugin A", "1.0.0")
        .resource("file_path", "/var/log/app.log", ResourceAccessType::ExclusiveWrite)
        .build();
    let manifest2 = ManifestBuilder::new("plugin_B", "Plugin B", "1.0.0")
        .resource("file_path", "/var/log/app.log", ResourceAccessType::ExclusiveWrite)
        .build();
    let manifests = vec![manifest1, manifest2];
    manager.detect_conflicts(&manifests).unwrap();
    let conflicts = manager.get_conflicts();
    assert_eq!(conflicts.len(), 1);
    match &conflicts[0].conflict_type {
        ConflictType::ResourceConflict { resource, first_plugin_access, second_plugin_access } => {
            assert_eq!(resource.kind, "file_path");
            assert_eq!(resource.id, "/var/log/app.log");
            assert_eq!(*first_plugin_access, GiniResourceAccessType::ExclusiveWrite);
            assert_eq!(*second_plugin_access, GiniResourceAccessType::ExclusiveWrite);
        },
        _ => panic!("Expected ResourceConflict type"),
    }
    assert!(conflicts[0].description.contains("Resource conflict on type 'file_path', identifier '/var/log/app.log'"));
    assert!(conflicts[0].description.contains("Plugin 'plugin_A' claims access ExclusiveWrite"));
    assert!(conflicts[0].description.contains("Plugin 'plugin_B' claims access ExclusiveWrite"));
}

#[test]
fn test_provides_unique_id_conflict_on_stage() {
    let mut manager = ConflictManager::new();
    let manifest1 = ManifestBuilder::new("plugin_C", "Plugin C", "1.0.0")
        .resource("stage_id", "my_custom_stage", ResourceAccessType::ProvidesUniqueId)
        .build();
    let manifest2 = ManifestBuilder::new("plugin_D", "Plugin D", "1.0.0")
        .resource("stage_id", "my_custom_stage", ResourceAccessType::ProvidesUniqueId)
        .build();
    let manifests = vec![manifest1, manifest2];
    manager.detect_conflicts(&manifests).unwrap();
    let conflicts = manager.get_conflicts();
    assert_eq!(conflicts.len(), 1);
    match &conflicts[0].conflict_type {
        ConflictType::ResourceConflict { resource, first_plugin_access, second_plugin_access } => {
            assert_eq!(resource.kind, "stage_id");
            assert_eq!(resource.id, "my_custom_stage");
            assert_eq!(*first_plugin_access, GiniResourceAccessType::ProvidesUniqueId);
            assert_eq!(*second_plugin_access, GiniResourceAccessType::ProvidesUniqueId);
        },
        _ => panic!("Expected ResourceConflict type"),
    }
    assert!(conflicts[0].description.contains("Resource conflict on type 'stage_id', identifier 'my_custom_stage'"));
    assert!(conflicts[0].description.contains("Plugin 'plugin_C' claims access ProvidesUniqueId"));
    assert!(conflicts[0].description.contains("Plugin 'plugin_D' claims access ProvidesUniqueId"));
}

#[test]
fn test_mixed_access_conflict_exclusive_vs_provides() {
    let mut manager = ConflictManager::new();
    let manifest1 = ManifestBuilder::new("plugin_E", "Plugin E", "1.0.0")
        .resource("unique_resource", "id_123", ResourceAccessType::ExclusiveWrite)
        .build();
    let manifest2 = ManifestBuilder::new("plugin_F", "Plugin F", "1.0.0")
        .resource("unique_resource", "id_123", ResourceAccessType::ProvidesUniqueId)
        .build();
    let manifests = vec![manifest1, manifest2];
    manager.detect_conflicts(&manifests).unwrap();
    let conflicts = manager.get_conflicts();
    assert_eq!(conflicts.len(), 1);
    match &conflicts[0].conflict_type {
        ConflictType::ResourceConflict { resource, first_plugin_access, second_plugin_access } => {
            assert_eq!(resource.kind, "unique_resource");
            assert_eq!(resource.id, "id_123");
            assert_eq!(*first_plugin_access, GiniResourceAccessType::ExclusiveWrite);
            assert_eq!(*second_plugin_access, GiniResourceAccessType::ProvidesUniqueId);
        },
        _ => panic!("Expected ResourceConflict type"),
    }
    assert!(conflicts[0].description.contains("Plugin 'plugin_E' claims access ExclusiveWrite"));
    assert!(conflicts[0].description.contains("Plugin 'plugin_F' claims access ProvidesUniqueId"));
}

#[test]
fn test_mixed_access_conflict_exclusive_vs_shared_read() {
    let mut manager = ConflictManager::new();
    let manifest1 = ManifestBuilder::new("plugin_G", "Plugin G", "1.0.0")
        .resource("shared_file", "/data/critical.dat", ResourceAccessType::ExclusiveWrite)
        .build();
    let manifest2 = ManifestBuilder::new("plugin_H", "Plugin H", "1.0.0")
        .resource("shared_file", "/data/critical.dat", ResourceAccessType::SharedRead)
        .build();
    let manifests = vec![manifest1, manifest2];
    manager.detect_conflicts(&manifests).unwrap();
    let conflicts = manager.get_conflicts();
    assert_eq!(conflicts.len(), 1, "Expected conflict between ExclusiveWrite and SharedRead");
    match &conflicts[0].conflict_type {
        ConflictType::ResourceConflict { resource, first_plugin_access, second_plugin_access } => {
            assert_eq!(resource.kind, "shared_file");
            assert_eq!(resource.id, "/data/critical.dat");
            assert_eq!(*first_plugin_access, GiniResourceAccessType::ExclusiveWrite);
            assert_eq!(*second_plugin_access, GiniResourceAccessType::SharedRead);
        },
        _ => panic!("Expected ResourceConflict type"),
    }
    assert!(conflicts[0].description.contains("Plugin 'plugin_G' claims access ExclusiveWrite"));
    assert!(conflicts[0].description.contains("Plugin 'plugin_H' claims access SharedRead"));
}

#[test]
fn test_no_conflict_different_identifiers() {
    let mut manager = ConflictManager::new();
    let manifest1 = ManifestBuilder::new("plugin_I", "Plugin I", "1.0.0")
        .resource("file_path", "/var/log/app_i.log", ResourceAccessType::ExclusiveWrite)
        .build();
    let manifest2 = ManifestBuilder::new("plugin_J", "Plugin J", "1.0.0")
        .resource("file_path", "/var/log/app_j.log", ResourceAccessType::ExclusiveWrite)
        .build();
    let manifests = vec![manifest1, manifest2];
    manager.detect_conflicts(&manifests).unwrap();
    assert!(manager.get_conflicts().is_empty());
}

#[test]
fn test_no_conflict_different_resource_types() {
    let mut manager = ConflictManager::new();
    let manifest1 = ManifestBuilder::new("plugin_K", "Plugin K", "1.0.0")
        .resource("file_path", "my_resource", ResourceAccessType::ExclusiveWrite)
        .build();
    let manifest2 = ManifestBuilder::new("plugin_L", "Plugin L", "1.0.0")
        .resource("network_port", "my_resource", ResourceAccessType::ExclusiveWrite)
        .build();
    let manifests = vec![manifest1, manifest2];
    manager.detect_conflicts(&manifests).unwrap();
    assert!(manager.get_conflicts().is_empty());
}

#[test]
fn test_multiple_resources_multiple_conflicts() {
    let mut manager = ConflictManager::new();
    let manifest1 = ManifestBuilder::new("plugin_M", "Plugin M", "1.0.0")
        .resource("file", "/data/file1.txt", ResourceAccessType::ExclusiveWrite)
        .resource("port", "8080", ResourceAccessType::ProvidesUniqueId)
        .resource("id", "common_id", ResourceAccessType::SharedRead)
        .build();
    let manifest2 = ManifestBuilder::new("plugin_N", "Plugin N", "1.0.0")
        .resource("file", "/data/file1.txt", ResourceAccessType::ExclusiveWrite)
        .resource("port", "9090", ResourceAccessType::ProvidesUniqueId)
        .build();
    let manifest3 = ManifestBuilder::new("plugin_O", "Plugin O", "1.0.0")
        .resource("port", "8080", ResourceAccessType::ProvidesUniqueId)
        .resource("id", "common_id", ResourceAccessType::SharedRead)
        .build();

    let manifests = vec![manifest1, manifest2, manifest3];
    manager.detect_conflicts(&manifests).unwrap();
    let conflicts = manager.get_conflicts();
    assert_eq!(conflicts.len(), 2);

    let has_conflict = |p1_id: &str, p2_id: &str, res_type: &str, res_id: &str| {
        conflicts.iter().any(|c| {
            ((c.first_plugin == p1_id && c.second_plugin == p2_id) || (c.first_plugin == p2_id && c.second_plugin == p1_id))
                && c.description.contains(&format!("type '{}', identifier '{}'", res_type, res_id))
        })
    };

    assert!(has_conflict("plugin_M", "plugin_N", "file", "/data/file1.txt"));
    assert!(has_conflict("plugin_M", "plugin_O", "port", "8080"));
}

// --- Conflict detection over the registry ---

fn range(s: &str) -> VersionRange {
    VersionRange::from_str(s).unwrap()
}

fn descriptor(id: &str, version: &str) -> PluginDescriptor {
    PluginDescriptor {
        name: id.to_string(),
        version: version.to_string(),
        is_core: false,
        priority: PluginPriority::ThirdPartyLow(100),
        compatible_api_versions: vec![range(">=0.1.0")],
        dependencies: vec![],
        conflicts_with: vec![],
        incompatible_with: vec![],
        declared_resources: vec![],
    }
}

fn conflicting(mut d: PluginDescriptor, ids: &[&str]) -> PluginDescriptor {
    d.conflicts_with = ids.iter().map(|s| s.to_string()).collect();
    d
}

fn incompatible(mut d: PluginDescriptor, deps: Vec<PluginDependency>) -> PluginDescriptor {
    d.incompatible_with = deps;
    d
}

fn depending(mut d: PluginDescriptor, deps: Vec<PluginDependency>) -> PluginDescriptor {
    d.dependencies = deps;
    d
}

fn create_registry_with_plugins(plugins: Vec<PluginDescriptor>) -> PluginRegistry<()> {
    let api_version = ApiVersion::from_str("0.1.0").unwrap();
    let mut registry = PluginRegistry::new(api_version);
    for plugin in plugins {
        let plugin_id = plugin.name.clone();
        registry.register_plugin(plugin, ()).unwrap();
        registry.enable_plugin(&plugin_id).unwrap();
    }
    registry
}

fn detect(registry: &mut PluginRegistry<()>) {
    assert!(registry.can_detect_conflicts());
    registry.detect_all_conflicts().unwrap();
}

#[test]
fn test_registry_detect_declared_mutual_exclusion() {
    let plugin_a = conflicting(descriptor("plugin-a", "1.0.0"), &["plugin-b"]);
    let plugin_b = descriptor("plugin-b", "1.0.0");
    let plugin_c = descriptor("plugin-c", "1.0.0");

    let mut registry = create_registry_with_plugins(vec![plugin_a, plugin_b, plugin_c]);
    detect(&mut registry);
    let conflicts = registry.conflict_manager().get_conflicts();

    assert_eq!(conflicts.len(), 1, "Expected exactly one conflict");
    assert_eq!(conflicts[0].first_plugin, "plugin-a");
    assert_eq!(conflicts[0].second_plugin, "plugin-b");
    assert_eq!(conflicts[0].conflict_type, ConflictType::MutuallyExclusive);
    assert_eq!(conflicts[0].description, "Plugins are explicitly declared as conflicting.");
}

#[test]
fn test_registry_detect_declared_incompatibility_any_version() {
    let plugin_a = incompatible(descriptor("plugin-a", "1.0.0"), vec![PluginDependency::required_any("plugin-b")]);
    let plugin_b = descriptor("plugin-b", "2.5.0");
    let plugin_c = descriptor("plugin-c", "1.0.0");

    let mut registry = create_registry_with_plugins(vec![plugin_a, plugin_b, plugin_c]);
    detect(&mut registry);
    let conflicts = registry.conflict_manager().get_conflicts();

    assert_eq!(conflicts.len(), 1, "Expected exactly one conflict");
    assert_eq!(conflicts[0].first_plugin, "plugin-a");
    assert_eq!(conflicts[0].second_plugin, "plugin-b");
    assert_eq!(conflicts[0].conflict_type, ConflictType::ExplicitlyIncompatible);
    assert!(conflicts[0].description.contains("any version"));
}

#[test]
fn test_registry_detect_declared_incompatibility_version_range_match() {
    let r = range("<1.0.0");
    let plugin_a =
        incompatible(descriptor("plugin-a", "1.0.0"), vec![PluginDependency::required("plugin-b", r.clone())]);
    let plugin_b = descriptor("plugin-b", "0.9.0");
    let plugin_c = descriptor("plugin-c", "1.0.0");

    let mut registry = create_registry_with_plugins(vec![plugin_a, plugin_b, plugin_c]);
    detect(&mut registry);
    let conflicts = registry.conflict_manager().get_conflicts();

    assert_eq!(conflicts.len(), 1, "Expected exactly one conflict");
    assert_eq!(conflicts[0].first_plugin, "plugin-a");
    assert_eq!(conflicts[0].second_plugin, "plugin-b");
    assert_eq!(conflicts[0].conflict_type, ConflictType::ExplicitlyIncompatible);
    assert!(conflicts[0].description.contains(&format!("version '{}'", r.constraint_string())));
    assert!(conflicts[0].description.contains(&format!("found version '{}'", "0.9.0")));
}

#[test]
fn test_registry_detect_declared_incompatibility_version_range_no_match() {
    let plugin_a =
        incompatible(descriptor("plugin-a", "1.0.0"), vec![PluginDependency::required("plugin-b", range("<1.0.0"))]);
    let plugin_b = descriptor("plugin-b", "1.1.0");
    let plugin_c = descriptor("plugin-c", "1.0.0");

    let mut registry = create_registry_with_plugins(vec![plugin_a, plugin_b, plugin_c]);
    detect(&mut registry);
    let conflicts = registry.conflict_manager().get_conflicts();

    assert!(conflicts.is_empty(), "Expected no conflicts");
}

#[test]
fn test_registry_detect_declared_incompatibility_bidirectional() {
    let plugin_a =
        incompatible(descriptor("plugin-a", "2.1.0"), vec![PluginDependency::required("plugin-b", range("<1.0.0"))]);
    let plugin_b =
        incompatible(descriptor("plugin-b", "0.8.0"), vec![PluginDependency::required("plugin-a", range(">=2.0.0"))]);
    let plugin_c = descriptor("plugin-c", "1.0.0");

    let mut registry = create_registry_with_plugins(vec![plugin_a, plugin_b, plugin_c]);
    detect(&mut registry);
    let conflicts = registry.conflict_manager().get_conflicts();

    assert_eq!(conflicts.len(), 1, "Expected exactly one conflict entry");
    assert_eq!(conflicts[0].first_plugin, "plugin-a");
    assert_eq!(conflicts[0].second_plugin, "plugin-b");
    assert_eq!(conflicts[0].conflict_type, ConflictType::ExplicitlyIncompatible);
    assert!(conflicts[0].description.contains("explicitly incompatible"));
}

#[test]
fn test_registry_detect_mutual_exclusion_and_incompatibility() {
    let plugin_a = conflicting(descriptor("plugin-a", "1.0.0"), &["plugin-b"]);
    let plugin_b = descriptor("plugin-b", "1.0.0");
    let plugin_c =
        incompatible(descriptor("plugin-c", "1.0.0"), vec![PluginDependency::required("plugin-d", range(">=1.0.0"))]);
    let plugin_d = descriptor("plugin-d", "1.1.0");

    let mut registry = create_registry_with_plugins(vec![plugin_a, plugin_b, plugin_c, plugin_d]);
    detect(&mut registry);
    let conflicts = registry.conflict_manager().get_conflicts();

    assert_eq!(conflicts.len(), 2, "Expected two conflicts");

    let conflict_exists = |p1: &str, p2: &str, ctype: ConflictType| {
        conflicts.iter().any(|c| {
            ((c.first_plugin == p1 && c.second_plugin == p2) || (c.first_plugin == p2 && c.second_plugin == p1))
                && c.conflict_type == ctype
        })
    };

    assert!(conflict_exists("plugin-a", "plugin-b", ConflictType::MutuallyExclusive));
    assert!(conflict_exists("plugin-c", "plugin-d", ConflictType::ExplicitlyIncompatible));
}

#[test]
fn test_registry_detect_resource_conflict_placeholder() {
    let plugin_a = descriptor("main-database-connector", "1.0.0");
    let plugin_b = descriptor("alt-database-logger", "1.0.0");
    let plugin_c = descriptor("utility-plugin", "1.0.0");

    let mut registry = create_registry_with_plugins(vec![plugin_a, plugin_b, plugin_c]);
    detect(&mut registry);
    let conflicts = registry.conflict_manager().get_conflicts();

    assert_eq!(conflicts.len(), 0);
}

#[test]
fn test_registry_detect_no_conflicts_declared() {
    let plugin_a = descriptor("plugin-a", "1.0.0");
    let plugin_b = descriptor("plugin-b", "1.0.0");
    let plugin_c = descriptor("plugin-c", "1.0.0");

    let mut registry = create_registry_with_plugins(vec![plugin_a, plugin_b, plugin_c]);
    detect(&mut registry);
    let conflicts = registry.conflict_manager().get_conflicts();

    assert!(conflicts.is_empty());
}

fn dep_version_conflict(c: &PluginConflict) -> (String, String, String) {
    match &c.conflict_type {
        ConflictType::DependencyVersion { dependency_name, required_by_first, required_by_second } => {
            (dependency_name.clone(), required_by_first.clone(), required_by_second.clone())
        },
        _ => panic!("Incorrect conflict type found"),
    }
}

#[test]
fn test_registry_detect_dependency_version_conflict_disjoint() {
    let plugin_a =
        depending(descriptor("plugin-a", "1.0.0"), vec![PluginDependency::required("common-dep", range("^1.0"))]);
    let plugin_b =
        depending(descriptor("plugin-b", "1.0.0"), vec![PluginDependency::required("common-dep", range("^2.0"))]);
    let plugin_c = descriptor("plugin-c", "1.0.0");

    let mut registry = create_registry_with_plugins(vec![plugin_a, plugin_b, plugin_c]);
    detect(&mut registry);
    let conflicts = registry.conflict_manager().get_conflicts();

    assert_eq!(conflicts.len(), 1, "Expected one dependency version conflict");
    let conflict = &conflicts[0];
    assert_eq!(conflict.first_plugin, "plugin-a");
    assert_eq!(conflict.second_plugin, "plugin-b");
    let (dependency_name, required_by_first, required_by_second) = dep_version_conflict(conflict);
    assert_eq!(dependency_name, "common-dep");
    assert_eq!(required_by_first, "^1.0");
    assert_eq!(required_by_second, "^2.0");
}

#[test]
fn test_registry_detect_dependency_version_conflict_complex_disjoint() {
    let plugin_a =
        depending(descriptor("plugin-a", "1.0.0"), vec![PluginDependency::required("complex-dep", range("<1.5.0"))]);
    let plugin_b = depending(
        descriptor("plugin-b", "1.0.0"),
        vec![PluginDependency::required("complex-dep", range(">=2.0.0, <3.0.0"))],
    );

    let mut registry = create_registry_with_plugins(vec![plugin_a, plugin_b]);
    detect(&mut registry);
    let conflicts = registry.conflict_manager().get_conflicts();

    assert_eq!(conflicts.len(), 1);
    let (dependency_name, required_by_first, required_by_second) = dep_version_conflict(&conflicts[0]);
    assert_eq!(dependency_name, "complex-dep");
    assert_eq!(required_by_first, "<1.5.0");
    assert_eq!(required_by_second, ">=2.0.0, <3.0.0");
}

#[test]
fn test_registry_no_dependency_version_conflict_overlapping() {
    let plugin_a =
        depending(descriptor("plugin-a", "1.0.0"), vec![PluginDependency::required("common-dep", range(">=1.0, <2.0"))]);
    let plugin_b =
        depending(descriptor("plugin-b", "1.0.0"), vec![PluginDependency::required("common-dep", range(">=1.5, <2.5"))]);

    let mut registry = create_registry_with_plugins(vec![plugin_a, plugin_b]);
    detect(&mut registry);
    let conflicts = registry.conflict_manager().get_conflicts();

    assert!(conflicts.is_empty());
}

#[test]
fn test_registry_no_dependency_version_conflict_exact_match_ok() {
    let plugin_a =
        depending(descriptor("plugin-a", "1.0.0"), vec![PluginDependency::required("common-dep", range("=1.5.0"))]);
    let plugin_b =
        depending(descriptor("plugin-b", "1.0.0"), vec![PluginDependency::required("common-dep", range("=1.5.0"))]);

    let mut registry = create_registry_with_plugins(vec![plugin_a, plugin_b]);
    detect(&mut registry);
    let conflicts = registry.conflict_manager().get_conflicts();

    assert!(conflicts.is_empty());
}

#[test]
fn test_registry_dependency_version_conflict_one_exact_one_range_disjoint() {
    let plugin_a =
        depending(descriptor("plugin-a", "1.0.0"), vec![PluginDependency::required("common-dep", range("=1.5.0"))]);
    let plugin_b =
        depending(descriptor("plugin-b", "1.0.0"), vec![PluginDependency::required("common-dep", range(">=2.0.0"))]);

    let mut registry = create_registry_with_plugins(vec![plugin_a, plugin_b]);
    detect(&mut registry);
    let conflicts = registry.conflict_manager().get_conflicts();

    assert_eq!(conflicts.len(), 1);
    let (dependency_name, required_by_first, required_by_second) = dep_version_conflict(&conflicts[0]);
    assert_eq!(dependency_name, "common-dep");
    assert_eq!(required_by_first, "=1.5.0");
    assert_eq!(required_by_second, ">=2.0.0");
}

#[test]
fn test_registry_no_conflict_different_dependencies() {
    let plugin_a =
        depending(descriptor("plugin-a", "1.0.0"), vec![PluginDependency::required("dep-x", range("^1.0"))]);
    let plugin_b =
        depending(descriptor("plugin-b", "1.0.0"), vec![PluginDependency::required("dep-y", range("^1.0"))]);

    let mut registry = create_registry_with_plugins(vec![plugin_a, plugin_b]);
    detect(&mut registry);
    assert!(registry.conflict_manager().get_conflicts().is_empty());
}

#[test]
fn test_registry_no_conflict_one_plugin_no_deps() {
    let plugin_a =
        depending(descriptor("plugin-a", "1.0.0"), vec![PluginDependency::required("dep-x", range("^1.0"))]);
    let plugin_b = descriptor("plugin-b", "1.0.0");

    let mut registry = create_registry_with_plugins(vec![plugin_a, plugin_b]);
    detect(&mut registry);
    assert!(registry.conflict_manager().get_conflicts().is_empty());
}

#[test]
fn test_registry_multiple_plugins_mixed_dependency_conflicts() {
    let plugin_a = depending(descriptor("P_A", "1.0.0"), vec![PluginDependency::required("DepX", range("^1.0"))]);
    let plugin_b = depending(descriptor("P_B", "1.0.0"), vec![PluginDependency::required("DepX", range("^2.0"))]);
    let plugin_c = depending(descriptor("P_C", "1.0.0"), vec![PluginDependency::required("DepY", range("^1.0"))]);
    let plugin_d = depending(descriptor("P_D", "1.0.0"), vec![PluginDependency::required("DepY", range("^1.0"))]);
    let plugin_e = depending(descriptor("P_E", "1.0.0"), vec![PluginDependency::required("DepZ", range("<1.0"))]);
    let plugin_f = depending(descriptor("P_F", "1.0.0"), vec![PluginDependency::required("DepZ", range(">=2.0"))]);

    let mut registry =
        create_registry_with_plugins(vec![plugin_a, plugin_b, plugin_c, plugin_d, plugin_e, plugin_f]);
    detect(&mut registry);
    let conflicts = registry.conflict_manager().get_conflicts();

    assert_eq!(conflicts.len(), 2);

    let has_dep_conflict = |p1_id: &str, p2_id: &str, dep_name: &str, range1: &str, range2: &str| {
        conflicts.iter().any(|c| {
            let (actual_p1, actual_p2) = (&c.first_plugin, &c.second_plugin);
            let type_match = match &c.conflict_type {
                ConflictType::DependencyVersion { dependency_name: dn, required_by_first: r1, required_by_second: r2 } => {
                    dn == dep_name
                        && ((actual_p1 == p1_id && r1 == range1 && actual_p2 == p2_id && r2 == range2)
                            || (actual_p1 == p2_id && r1 == range2 && actual_p2 == p1_id && r2 == range1))
                },
                _ => false,
            };
            let plugin_id_match =
                (actual_p1 == p1_id && actual_p2 == p2_id) || (actual_p1 == p2_id && actual_p2 == p1_id);
            plugin_id_match && type_match
        })
    };

    assert!(has_dep_conflict("P_A", "P_B", "DepX", "^1.0", "^2.0"));
    assert!(has_dep_conflict("P_E", "P_F", "DepZ", "<1.0", ">=2.0"));
}

#[test]
fn disabled_plugins_take_no_part_in_detection() {
    let plugin_a = conflicting(descriptor("plugin-a", "1.0.0"), &["plugin-b"]);
    let plugin_b = descriptor("plugin-b", "1.0.0");
    let mut registry = create_registry_with_plugins(vec![plugin_a, plugin_b]);
    registry.disable_plugin("plugin-b").unwrap();
    detect(&mut registry);
    assert!(registry.conflict_manager().get_conflicts().is_empty());
}

#[test]
fn conflict_index_error_text() {
    let mut manager = ConflictManager::new();
    let err = manager.resolve_conflict(3, ResolutionStrategy::Merge).unwrap_err();
    assert_eq!(err.message(), "Plugin conflict: Conflict index out of bounds: 3");
}

#[test]
fn has_conflict_between_either_order() {
    let mut manager = ConflictManager::new();
    manager.add_conflict(PluginConflict::new("x", "y", ConflictType::PartialOverlap, "d"));
    assert!(manager.has_conflict_between("x", "y"));
    assert!(manager.has_conflict_between("y", "x"));
    assert!(!manager.has_conflict_between("x", "z"));
}

#[test]
fn detected_conflicts_are_open_and_ordered_by_name() {
    let zeta = conflicting(descriptor("zeta", "1.0.0"), &["alpha"]);
    let alpha = incompatible(descriptor("alpha", "1.0.0"), vec![PluginDependency::required_any("mid")]);
    let mid = descriptor("mid", "1.0.0");
    let mut registry = create_registry_with_plugins(vec![zeta, alpha, mid]);
    detect(&mut registry);
    let conflicts = registry.conflict_manager().get_conflicts();
    assert_eq!(conflicts.len(), 2);
    for c in conflicts.iter() {
        assert!(c.first_plugin < c.second_plugin);
        assert!(registry.is_enabled(&c.first_plugin) && registry.is_enabled(&c.second_plugin));
        assert!(!c.resolved);
    }
    let exclusive: Vec<_> =
        conflicts.iter().filter(|c| c.first_plugin == "alpha" && c.second_plugin == "zeta").collect();
    assert_eq!(exclusive.len(), 1);
    assert!(matches!(exclusive[0].conflict_type, ConflictType::MutuallyExclusive));
}

#[test]
fn fewer_than_two_enabled_plugins_have_no_conflicts() {
    let mut registry = create_registry_with_plugins(vec![conflicting(descriptor("solo", "1.0.0"), &["other"])]);
    detect(&mut registry);
    assert!(registry.conflict_manager().get_conflicts().is_empty());
}

#[test]
fn resource_clashes_listed_in_scan_order() {
    let mut manager = ConflictManager::new();
    let a = ManifestBuilder::new("a", "A", "1.0.0")
        .resource("port", "80", ResourceAccessType::ExclusiveWrite)
        .resource("file", "/x", ResourceAccessType::SharedRead)
        .build();
    let b = ManifestBuilder::new("b", "B", "1.0.0")
        .resource("file", "/x", ResourceAccessType::ExclusiveWrite)
        .resource("port", "80", ResourceAccessType::SharedRead)
        .build();
    let c = ManifestBuilder::new("c", "C", "1.0.0").resource("port", "80", ResourceAccessType::ProvidesUniqueId).build();
    manager.detect_conflicts(&vec![a, b, c]).unwrap();
    let found: Vec<(String, String, String)> = manager
        .get_conflicts()
        .iter()
        .map(|k| match &k.conflict_type {
            ConflictType::ResourceConflict { resource, .. } => {
                (k.first_plugin.clone(), k.second_plugin.clone(), resource.kind.clone())
            },
            _ => panic!("expected a resource conflict"),
        })
        .collect();
    assert_eq!(
        found,
        vec![
            ("a".to_string(), "b".to_string(), "port".to_string()),
            ("a".to_string(), "b".to_string(), "file".to_string()),
            ("a".to_string(), "c".to_string(), "port".to_string()),
        ]
    );
    assert!(manager.get_conflicts().iter().all(|k| !k.resolved));
}
