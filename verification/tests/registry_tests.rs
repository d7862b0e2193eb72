use gini_core::dependency::{DependencyError, PluginDependency};
use gini_core::error::{PluginSystemError, PluginSystemErrorSource};
use gini_core::priority::PluginPriority;
use gini_core::registry::{
    combine_shutdown_errors, initialization_failure, stage_unregistration_error, PluginDescriptor, PluginRegistry,
};
use gini_core::semver_model::VersionRange;
use gini_core::version::ApiVersion;

fn range(s: &str) -> VersionRange {
    VersionRange::from_str(s).unwrap()
}

fn descriptor(id: &str, priority: PluginPriority, deps: Vec<PluginDependency>) -> PluginDescriptor {
    PluginDescriptor {
        name: id.to_string(),
        version: "1.0.0".to_string(),
        is_core: false,
        priority,
        compatible_api_versions: vec![range(">=0.1.0")],
        dependencies: deps,
        conflicts_with: vec![],
        incompatible_with: vec![],
        declared_resources: vec![],
    }
}

fn plain(id: &str) -> PluginDescriptor {
    descriptor(id, PluginPriority::ThirdParty(151), vec![])
}

fn needing(id: &str, deps: &[&str]) -> PluginDescriptor {
    descriptor(id, PluginPriority::ThirdParty(151), deps.iter().map(|d| PluginDependency::required_any(d)).collect())
}

fn create_test_registry() -> PluginRegistry<u32> {
    PluginRegistry::new(ApiVersion::new(0, 1, 0))
}

#[test]
fn registry_new_is_empty() {
    let registry = create_test_registry();
    assert_eq!(registry.plugin_count(), 0);
    assert_eq!(registry.initialized_count(), 0);
    assert_eq!(*registry.api_version(), ApiVersion::new(0, 1, 0));
    assert!(registry.get_plugin_ids().is_empty());
}

#[test]
fn register_plugin_success_enables_it() {
    let mut registry = create_test_registry();
    registry.register_plugin(plain("test_plugin"), 7).unwrap();
    assert!(registry.has_plugin("test_plugin"));
    assert!(registry.is_registered("test_plugin"));
    assert!(registry.is_enabled("test_plugin"));
    assert!(!registry.is_initialized("test_plugin"));
    assert_eq!(registry.get_plugin("test_plugin"), Some(&7));
    assert_eq!(registry.get_descriptor("test_plugin").unwrap().version, "1.0.0");
    assert_eq!(registry.plugin_count(), 1);
}

#[test]
fn register_duplicate_plugin_is_refused() {
    let mut registry = create_test_registry();
    registry.register_plugin(plain("dup"), 1).unwrap();
    let err = registry.register_plugin(plain("dup"), 2).unwrap_err();
    assert_eq!(err.message(), "Plugin registration error for 'dup': Plugin already registered");
    assert_eq!(registry.get_plugin("dup"), Some(&1));
    assert_eq!(registry.plugin_count(), 1);
}

#[test]
fn register_incompatible_api_is_refused() {
    let mut registry = create_test_registry();
    let mut d = plain("incompatible");
    d.compatible_api_versions = vec![range(">=1.0.0")];
    let err = registry.register_plugin(d, 1).unwrap_err();
    match &err {
        PluginSystemError::LoadingError { plugin_id, path, source: PluginSystemErrorSource::Other(m) } => {
            assert_eq!(plugin_id, "incompatible");
            assert!(path.is_none());
            assert_eq!(m, "Plugin not compatible with API version 0.1.0");
        },
        _ => panic!("unexpected error {:?}", err),
    }
    assert_eq!(registry.plugin_count(), 0);
}

#[test]
fn register_then_unregister_restores_registry() {
    let mut registry = create_test_registry();
    registry.register_plugin(plain("keep"), 1).unwrap();
    registry.register_plugin(plain("gone"), 2).unwrap();
    assert_eq!(registry.unregister_plugin("gone").unwrap(), 2);
    assert!(!registry.has_plugin("gone"));
    assert_eq!(registry.get_plugin_ids(), vec!["keep".to_string()]);
    let err = registry.unregister_plugin("gone").unwrap_err();
    assert_eq!(err.message(), "Plugin registration error for 'gone': Plugin not found for unregistration");
}

#[test]
fn plugin_ids_are_in_name_order() {
    let mut registry = create_test_registry();
    for id in ["c", "a", "b"] {
        registry.register_plugin(plain(id), 0).unwrap();
    }
    assert_eq!(registry.get_plugin_ids(), vec!["a".to_string(), "b".to_string(), "c".to_string()]);
    assert_eq!(registry.get_plugins_arc().len(), 3);
}

#[test]
fn enable_disable_is_enabled() {
    let mut registry = create_test_registry();
    registry.register_plugin(plain("p"), 5).unwrap();
    assert_eq!(registry.disable_plugin("p").unwrap(), false);
    assert!(!registry.is_enabled("p"));
    assert!(registry.get_enabled_plugins_arc().is_empty());
    registry.enable_plugin("p").unwrap();
    assert!(registry.is_enabled("p"));
    assert_eq!(registry.get_enabled_plugins_arc(), vec![&5]);
    let err = registry.enable_plugin("missing").unwrap_err();
    assert_eq!(err.message(), "Plugin registration error for 'missing': Cannot enable non-existent plugin");
    let err = registry.disable_plugin("missing").unwrap_err();
    assert_eq!(err.message(), "Plugin registration error for 'missing': Plugin not found, cannot disable.");
    assert!(matches!(err, PluginSystemError::RegistrationError { .. }));
    assert_eq!(registry.disable_plugin("p").unwrap(), false);
    registry.disable_plugin("p").unwrap();
    assert!(!registry.is_enabled("p"));
}

#[test]
fn disabling_initialized_plugin_asks_for_shutdown() {
    let mut registry = create_test_registry();
    registry.register_plugin(plain("live"), 1).unwrap();
    assert!(registry.set_initialized("live", true));
    assert_eq!(registry.initialized_count(), 1);
    assert_eq!(registry.disable_plugin("live").unwrap(), true);
    assert!(!registry.is_enabled("live"));
    assert!(!registry.set_initialized("nobody", true));
}

#[test]
fn check_dependencies_enabled_only() {
    let mut registry = create_test_registry();
    registry.register_plugin(needing("main_plugin", &["dependency_plugin"]), 0).unwrap();
    registry.register_plugin(plain("dependency_plugin"), 0).unwrap();

    assert!(registry.check_dependencies().is_ok());

    registry.disable_plugin("dependency_plugin").unwrap();
    match registry.check_dependencies() {
        Err(PluginSystemError::DependencyResolution(DependencyError::MissingPlugin(id))) => {
            assert_eq!(id, "dependency_plugin")
        },
        other => panic!("unexpected {:?}", other),
    }

    registry.disable_plugin("main_plugin").unwrap();
    assert!(registry.check_dependencies().is_ok());
}

#[test]
fn check_dependencies_version_mismatch() {
    let mut registry = create_test_registry();
    let d = descriptor(
        "main",
        PluginPriority::ThirdParty(151),
        vec![PluginDependency::required("dep", range(">=2.0.0"))],
    );
    registry.register_plugin(d, 0).unwrap();
    registry.register_plugin(plain("dep"), 0).unwrap();
    match registry.check_dependencies() {
        Err(PluginSystemError::DependencyResolution(e)) => {
            assert_eq!(
                e.message(),
                "Plugin version mismatch: 'dep' requires version '>=2.0.0' but found '1.0.0'"
            );
        },
        other => panic!("unexpected {:?}", other),
    }
}

fn index_of(order: &[String], id: &str) -> usize {
    order.iter().position(|s| s == id).unwrap()
}

#[test]
fn topological_sort_linear_dependency() {
    let mut registry = create_test_registry();
    registry.register_plugin(needing("A", &["B"]), 0).unwrap();
    registry.register_plugin(needing("B", &["C"]), 0).unwrap();
    registry.register_plugin(plain("C"), 0).unwrap();
    let order = registry.topological_sort().unwrap();
    assert_eq!(order, vec!["C".to_string(), "B".to_string(), "A".to_string()]);
}

#[test]
fn topological_sort_diamond_dependency() {
    let mut registry = create_test_registry();
    registry.register_plugin(needing("A", &["B", "C"]), 0).unwrap();
    registry.register_plugin(needing("B", &["D"]), 0).unwrap();
    registry.register_plugin(needing("C", &["D"]), 0).unwrap();
    registry.register_plugin(plain("D"), 0).unwrap();
    let order = registry.topological_sort().unwrap();
    assert_eq!(order.len(), 4);
    assert!(index_of(&order, "D") < index_of(&order, "B"));
    assert!(index_of(&order, "D") < index_of(&order, "C"));
    assert!(index_of(&order, "B") < index_of(&order, "A"));
    assert!(index_of(&order, "C") < index_of(&order, "A"));
}

#[test]
fn topological_sort_simple_cycle() {
    let mut registry = create_test_registry();
    registry.register_plugin(needing("A", &["B"]), 0).unwrap();
    registry.register_plugin(needing("B", &["A"]), 0).unwrap();
    assert!(matches!(registry.topological_sort(), Err(DependencyError::CyclicDependency(_))));
}

#[test]
fn topological_sort_complex_cycle() {
    let mut registry = create_test_registry();
    registry.register_plugin(needing("A", &["B"]), 0).unwrap();
    registry.register_plugin(needing("B", &["C"]), 0).unwrap();
    registry.register_plugin(needing("C", &["A"]), 0).unwrap();
    assert!(matches!(registry.topological_sort(), Err(DependencyError::CyclicDependency(_))));
}

#[test]
fn priority_order_without_dependencies() {
    let mut registry = create_test_registry();
    registry.register_plugin(descriptor("P_Mid", PluginPriority::ThirdParty(151), vec![]), 0).unwrap();
    registry.register_plugin(descriptor("P_Low", PluginPriority::ThirdPartyLow(201), vec![]), 0).unwrap();
    registry.register_plugin(descriptor("P_High", PluginPriority::Core(51), vec![]), 0).unwrap();
    registry.register_plugin(descriptor("P_Mid_Alt", PluginPriority::ThirdParty(151), vec![]), 0).unwrap();
    let order = registry.plan_initialize_all().unwrap();
    assert_eq!(
        order,
        vec!["P_High".to_string(), "P_Mid".to_string(), "P_Mid_Alt".to_string(), "P_Low".to_string()]
    );
}

#[test]
fn priority_order_with_dependencies() {
    let mut registry = create_test_registry();
    let common = || vec![PluginDependency::required_any("P_Dep1"), PluginDependency::required_any("P_Dep2")];
    registry.register_plugin(descriptor("P_Dep1", PluginPriority::Core(60), vec![]), 0).unwrap();
    registry.register_plugin(descriptor("P_Main_A", PluginPriority::ThirdParty(160), common()), 0).unwrap();
    registry.register_plugin(descriptor("P_Dep2", PluginPriority::Core(70), vec![]), 0).unwrap();
    registry.register_plugin(descriptor("P_Main_C", PluginPriority::ThirdParty(160), common()), 0).unwrap();
    registry.register_plugin(descriptor("P_Main_B", PluginPriority::ThirdParty(155), common()), 0).unwrap();
    assert!(registry.can_detect_conflicts());
    let order = registry.plan_initialize_all().unwrap();
    assert_eq!(
        order,
        vec![
            "P_Dep1".to_string(),
            "P_Dep2".to_string(),
            "P_Main_B".to_string(),
            "P_Main_A".to_string(),
            "P_Main_C".to_string()
        ]
    );
}

#[test]
fn plan_initialize_all_halts_on_critical_conflicts() {
    let mut registry = create_test_registry();
    let mut a = plain("plugin-a-init-halt");
    a.conflicts_with = vec!["plugin-b-init-halt".to_string()];
    registry.register_plugin(a, 0).unwrap();
    registry.register_plugin(plain("plugin-b-init-halt"), 0).unwrap();
    match registry.plan_initialize_all() {
        Err(PluginSystemError::UnresolvedPluginConflicts { conflicts }) => {
            assert_eq!(conflicts.len(), 1);
            assert_eq!(conflicts[0].first_plugin, "plugin-a-init-halt");
        },
        other => panic!("unexpected {:?}", other),
    }
    assert_eq!(registry.initialized_count(), 0);
    registry.resolve_conflict(0, gini_core::conflict::ResolutionStrategy::DisableSecond).unwrap();
    assert!(registry.conflict_manager().all_critical_conflicts_resolved());
}

#[test]
fn plan_initialize_all_reports_cycles() {
    let mut registry = create_test_registry();
    registry.register_plugin(needing("A", &["B"]), 0).unwrap();
    registry.register_plugin(needing("B", &["A"]), 0).unwrap();
    assert!(matches!(
        registry.plan_initialize_all(),
        Err(PluginSystemError::DependencyResolution(DependencyError::CyclicDependency(_)))
    ));
}

#[test]
fn plan_initialize_all_reports_version_errors() {
    let mut registry = create_test_registry();
    let d = descriptor("main", PluginPriority::ThirdParty(151), vec![PluginDependency::required("dep", range("^2"))]);
    registry.register_plugin(d, 0).unwrap();
    registry.register_plugin(plain("dep"), 0).unwrap();
    match registry.plan_initialize_all() {
        Err(PluginSystemError::TransitiveDependencyErrors { errors }) => {
            assert_eq!(
                errors,
                vec!["Plugin 'main' (version 1.0.0) requires dependency 'dep' version '^2', but actual version of 'dep' is '1.0.0'.".to_string()]
            );
        },
        other => panic!("unexpected {:?}", other),
    }
}

#[test]
fn plan_plugin_initialization_missing_dependency() {
    let mut registry = create_test_registry();
    registry.register_plugin(needing("A", &["B"]), 0).unwrap();
    let (planned, err) = registry.plan_plugin_initialization("A");
    assert!(planned.is_empty());
    match err {
        Some(PluginSystemError::DependencyResolution(DependencyError::MissingPlugin(id))) => assert_eq!(id, "B"),
        other => panic!("unexpected {:?}", other),
    }
}

#[test]
fn plan_plugin_initialization_disabled_dependency() {
    let mut registry = create_test_registry();
    registry.register_plugin(needing("A", &["B"]), 0).unwrap();
    registry.register_plugin(plain("B"), 0).unwrap();
    registry.disable_plugin("B").unwrap();
    let (planned, err) = registry.plan_plugin_initialization("A");
    assert!(planned.is_empty());
    assert!(matches!(
        err,
        Some(PluginSystemError::DependencyResolution(DependencyError::MissingPlugin(ref id))) if id == "B"
    ));
}

#[test]
fn plan_plugin_initialization_brings_up_dependencies_first() {
    let mut registry = create_test_registry();
    registry.register_plugin(needing("A", &["B"]), 0).unwrap();
    registry.register_plugin(needing("B", &["C"]), 0).unwrap();
    registry.register_plugin(plain("C"), 0).unwrap();
    let (planned, err) = registry.plan_plugin_initialization("A");
    assert!(err.is_none());
    assert_eq!(planned, vec!["C".to_string(), "B".to_string(), "A".to_string()]);
    registry.set_initialized("C", true);
    let (planned, err) = registry.plan_plugin_initialization("A");
    assert!(err.is_none());
    assert_eq!(planned, vec!["B".to_string(), "A".to_string()]);
}

#[test]
fn shutdown_order_dependents_first() {
    let mut registry = create_test_registry();
    registry.register_plugin(needing("app", &["db"]), 0).unwrap();
    registry.register_plugin(needing("db", &["log"]), 0).unwrap();
    registry.register_plugin(plain("log"), 0).unwrap();
    for id in ["app", "db", "log"] {
        registry.set_initialized(id, true);
    }
    assert_eq!(
        registry.shutdown_order().unwrap(),
        vec!["app".to_string(), "db".to_string(), "log".to_string()]
    );
}

#[test]
fn finish_shutdown_clears_initialized_even_on_errors() {
    let mut registry = create_test_registry();
    registry.register_plugin(needing("app", &["db"]), 0).unwrap();
    registry.register_plugin(plain("db"), 0).unwrap();
    registry.register_plugin(plain("idle"), 0).unwrap();
    registry.set_initialized("app", true);
    registry.set_initialized("db", true);
    let order = registry.shutdown_order().unwrap();
    assert_eq!(order, vec!["app".to_string(), "db".to_string()]);
    let failure = PluginSystemError::ShutdownError { plugin_id: "failing_shutdown".to_string(), message: "boom".to_string() };
    let r = registry.finish_shutdown(&order, vec![failure]);
    match r {
        Err(PluginSystemError::ShutdownError { plugin_id, .. }) => assert_eq!(plugin_id, "failing_shutdown"),
        other => panic!("unexpected {:?}", other),
    }
    assert_eq!(registry.initialized_count(), 0);
    assert!(registry.is_enabled("app") && registry.is_enabled("db") && registry.is_enabled("idle"));
    assert_eq!(registry.plugin_count(), 3);
}

#[test]
fn finish_shutdown_without_errors_is_ok() {
    let mut registry = create_test_registry();
    registry.register_plugin(plain("solo"), 0).unwrap();
    registry.set_initialized("solo", true);
    let order = registry.shutdown_order().unwrap();
    assert!(registry.finish_shutdown(&order, vec![]).is_ok());
    assert!(!registry.is_initialized("solo"));
}

#[test]
fn combine_shutdown_errors_cases() {
    assert!(combine_shutdown_errors(vec![]).is_ok());
    let one = combine_shutdown_errors(vec![PluginSystemError::ShutdownError {
        plugin_id: "p".to_string(),
        message: "boom".to_string(),
    }])
    .unwrap_err();
    assert_eq!(one.message(), "Plugin shutdown error for 'p': boom");
    let many = combine_shutdown_errors(vec![
        PluginSystemError::ShutdownError { plugin_id: "p".to_string(), message: "a".to_string() },
        PluginSystemError::InternalError("b".to_string()),
    ])
    .unwrap_err();
    assert_eq!(
        many.message(),
        "Plugin shutdown error for 'multiple': Encountered errors during plugin shutdown: Plugin shutdown error for 'p': a; Internal plugin system error: b"
    );
}

#[test]
fn failure_error_builders() {
    let e = initialization_failure("p", &PluginSystemError::InternalError("x".to_string()));
    assert_eq!(e.message(), "Plugin initialization error for 'p': Internal plugin system error: x");
    let s = stage_unregistration_error("p", "busy");
    assert_eq!(s.message(), "Operation error in plugin 'p': Failed to unregister stages for plugin p: busy");
}

#[test]
fn plan_plugin_initialization_edge_cases() {
    let mut registry = create_test_registry();
    registry.register_plugin(plain("solo"), 0).unwrap();
    let (planned, err) = registry.plan_plugin_initialization("ghost");
    assert!(planned.is_empty());
    assert_eq!(err.unwrap().message(), "Plugin registration error for 'ghost': Plugin not found");
    registry.set_initialized("solo", true);
    let (planned, err) = registry.plan_plugin_initialization("solo");
    assert!(planned.is_empty() && err.is_none());
    registry.set_initialized("solo", false);
    registry.disable_plugin("solo").unwrap();
    let (planned, err) = registry.plan_plugin_initialization("solo");
    assert!(planned.is_empty() && err.is_none());
}

#[test]
fn plan_plugin_initialization_cycle() {
    let mut registry = create_test_registry();
    registry.register_plugin(needing("A", &["B"]), 0).unwrap();
    registry.register_plugin(needing("B", &["A"]), 0).unwrap();
    let (planned, err) = registry.plan_plugin_initialization("A");
    assert!(planned.is_empty());
    match err {
        Some(PluginSystemError::DependencyResolution(DependencyError::CyclicDependency(ids))) => {
            assert_eq!(ids, vec!["A".to_string()])
        },
        other => panic!("unexpected {:?}", other),
    }
}

#[test]
fn marking_the_initialization_plan_initializes_every_enabled_plugin() {
    let mut registry = create_test_registry();
    registry.register_plugin(needing("app", &["db"]), 0).unwrap();
    registry.register_plugin(plain("db"), 0).unwrap();
    registry.register_plugin(plain("off"), 0).unwrap();
    registry.disable_plugin("off").unwrap();
    registry.set_initialized("db", true);
    assert!(registry.can_detect_conflicts());
    let order = registry.plan_initialize_all().unwrap();
    assert_eq!(order, vec!["db".to_string(), "app".to_string()]);
    for id in &order {
        registry.set_initialized(id, true);
    }
    assert!(registry.is_initialized("app") && registry.is_initialized("db"));
    assert!(!registry.is_initialized("off"));
    assert_eq!(registry.initialized_count(), 2);
}
