use gini_core::dependency::{DependencyError, PluginDependency};
use gini_core::semver_model::VersionRange;

#[test]
fn test_dependency_constructors() {
    let vr = VersionRange::from_str("^1.0").unwrap();

    let dep_req = PluginDependency::required("core", vr.clone());
    assert_eq!(dep_req.plugin_name, "core");
    assert_eq!(dep_req.version_range.as_ref().map(|v| v.to_string()), Some(vr.to_string()));
    assert!(dep_req.required);

    let dep_req_any = PluginDependency::required_any("utils");
    assert_eq!(dep_req_any.plugin_name, "utils");
    assert!(dep_req_any.version_range.is_none());
    assert!(dep_req_any.required);

    let dep_opt = PluginDependency::optional("logger", vr.clone());
    assert_eq!(dep_opt.plugin_name, "logger");
    assert_eq!(dep_opt.version_range.as_ref().map(|v| v.to_string()), Some(vr.to_string()));
    assert!(!dep_opt.required);

    let dep_opt_any = PluginDependency::optional_any("ui");
    assert_eq!(dep_opt_any.plugin_name, "ui");
    assert!(dep_opt_any.version_range.is_none());
    assert!(!dep_opt_any.required);
}

#[test]
fn test_dependency_is_compatible_no_range() {
    let dep = PluginDependency::required_any("any_version_plugin");
    assert!(dep.is_compatible_with("1.0.0"));
    assert!(dep.is_compatible_with("0.1.0-alpha"));
    assert!(dep.is_compatible_with("invalid-version"));
}

#[test]
fn test_dependency_is_compatible_with_range() {
    let vr = VersionRange::from_str(">=1.0.0, <2.0.0").unwrap();
    let dep = PluginDependency::required("ranged_plugin", vr);

    assert!(dep.is_compatible_with("1.0.0"));
    assert!(dep.is_compatible_with("1.5.0"));
    assert!(dep.is_compatible_with("1.9.9"));

    assert!(!dep.is_compatible_with("0.9.9"));
    assert!(!dep.is_compatible_with("2.0.0"));
    assert!(!dep.is_compatible_with("2.1.0"));
}

#[test]
fn test_dependency_is_compatible_invalid_version() {
    let vr = VersionRange::from_str("^1.0").unwrap();
    let dep = PluginDependency::required("invalid_version_test", vr);

    assert!(!dep.is_compatible_with("abc"));
    assert!(!dep.is_compatible_with("1.0-beta+extra"));
    assert!(!dep.is_compatible_with(""));

    assert!(dep.is_compatible_with("1.2.3"));
}

#[test]
fn test_dependency_display_format() {
    let vr = VersionRange::from_str("~1.2").unwrap();

    let dep_req = PluginDependency::required("display_req", vr.clone());
    assert_eq!(dep_req.to_string(), "Requires plugin: display_req (version: ~1.2)");

    let dep_req_any = PluginDependency::required_any("display_req_any");
    assert_eq!(dep_req_any.to_string(), "Requires plugin: display_req_any (any version)");

    let dep_opt = PluginDependency::optional("display_opt", vr);
    assert_eq!(dep_opt.to_string(), "Optional plugin: display_opt (version: ~1.2)");

    let dep_opt_any = PluginDependency::optional_any("display_opt_any");
    assert_eq!(dep_opt_any.to_string(), "Optional plugin: display_opt_any (any version)");
}

#[test]
fn test_dependency_error_display_format() {
    let missing_err = DependencyError::MissingPlugin("missing_core".to_string());
    assert_eq!(missing_err.message(), "Required plugin not found: missing_core");

    let vr = VersionRange::from_str("^2.0").unwrap();
    let incompatible_err = DependencyError::IncompatibleVersion {
        plugin_name: "my_plugin".to_string(),
        required_range: vr,
        actual_version: "1.5.0".to_string(),
    };
    assert_eq!(
        incompatible_err.message(),
        "Plugin version mismatch: 'my_plugin' requires version '^2.0' but found '1.5.0'"
    );

    let cycle_err = DependencyError::CyclicDependency(vec!["A".to_string(), "B".to_string(), "A".to_string()]);
    assert_eq!(cycle_err.message(), "Circular dependency detected: A -> B -> A");

    let other_err = DependencyError::Other("Something else went wrong".to_string());
    assert_eq!(other_err.message(), "Dependency error: Something else went wrong");
}

#[test]
fn range_includes_prerelease_only_when_named() {
    let vr = VersionRange::from_str(">=1.0.0").unwrap();
    let dep = PluginDependency::required("p", vr);
    assert!(!dep.is_compatible_with("2.0.0-beta"));
    assert!(dep.is_compatible_with("2.0.0"));
}

#[test]
fn range_parse_errors() {
    assert!(VersionRange::from_str("not a range").is_err());
    assert!(VersionRange::from_constraint("1.2.3.4").is_err());
    let err = VersionRange::from_str(">=x").unwrap_err();
    assert!(err.message().starts_with("Version parse error: Invalid version constraint '>=x': "));
}
