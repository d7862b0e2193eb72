use gini_core::error::PluginError;
use gini_core::priority::{FfiPluginPriority, PluginPriority};

#[test]
fn test_priority_value() {
    assert_eq!(PluginPriority::Kernel(5).value(), 5);
    assert_eq!(PluginPriority::CoreCritical(30).value(), 30);
    assert_eq!(PluginPriority::Core(70).value(), 70);
    assert_eq!(PluginPriority::ThirdPartyHigh(120).value(), 120);
    assert_eq!(PluginPriority::ThirdParty(180).value(), 180);
    assert_eq!(PluginPriority::ThirdPartyLow(220).value(), 220);
}

#[test]
fn test_priority_from_str_valid() {
    assert_eq!(PluginPriority::from_str("kernel:5"), Some(PluginPriority::Kernel(5)));
    assert_eq!(PluginPriority::from_str("core_critical:30"), Some(PluginPriority::CoreCritical(30)));
    assert_eq!(PluginPriority::from_str("corecritical:45"), Some(PluginPriority::CoreCritical(45)));
    assert_eq!(PluginPriority::from_str("core:70"), Some(PluginPriority::Core(70)));
    assert_eq!(PluginPriority::from_str("third_party_high:120"), Some(PluginPriority::ThirdPartyHigh(120)));
    assert_eq!(PluginPriority::from_str("thirdpartyhigh:145"), Some(PluginPriority::ThirdPartyHigh(145)));
    assert_eq!(PluginPriority::from_str("third_party:180"), Some(PluginPriority::ThirdParty(180)));
    assert_eq!(PluginPriority::from_str("thirdparty:199"), Some(PluginPriority::ThirdParty(199)));
    assert_eq!(PluginPriority::from_str("third_party_low:220"), Some(PluginPriority::ThirdPartyLow(220)));
    assert_eq!(PluginPriority::from_str("thirdpartylow:255"), Some(PluginPriority::ThirdPartyLow(255)));
}

#[test]
fn test_priority_from_str_invalid() {
    assert_eq!(PluginPriority::from_str("kernel"), None);
    assert_eq!(PluginPriority::from_str("core:"), None);
    assert_eq!(PluginPriority::from_str(":50"), None);
    assert_eq!(PluginPriority::from_str("core: 70"), None);
    assert_eq!(PluginPriority::from_str("core :70"), None);

    assert_eq!(PluginPriority::from_str("unknown:50"), None);

    assert_eq!(PluginPriority::from_str("kernel:11"), None);
    assert_eq!(PluginPriority::from_str("core_critical:10"), None);
    assert_eq!(PluginPriority::from_str("core_critical:51"), None);
    assert_eq!(PluginPriority::from_str("core:50"), None);
    assert_eq!(PluginPriority::from_str("core:101"), None);
    assert_eq!(PluginPriority::from_str("third_party_high:100"), None);
    assert_eq!(PluginPriority::from_str("third_party_high:151"), None);
    assert_eq!(PluginPriority::from_str("third_party:150"), None);
    assert_eq!(PluginPriority::from_str("third_party:201"), None);
    assert_eq!(PluginPriority::from_str("third_party_low:200"), None);
    assert_eq!(PluginPriority::from_str("third_party_low:256"), None);
}

#[test]
fn test_priority_display_format() {
    assert_eq!(PluginPriority::Kernel(5).to_string(), "kernel:5");
    assert_eq!(PluginPriority::CoreCritical(30).to_string(), "core_critical:30");
    assert_eq!(PluginPriority::Core(70).to_string(), "core:70");
    assert_eq!(PluginPriority::ThirdPartyHigh(120).to_string(), "third_party_high:120");
    assert_eq!(PluginPriority::ThirdParty(180).to_string(), "third_party:180");
    assert_eq!(PluginPriority::ThirdPartyLow(220).to_string(), "third_party_low:220");
}

#[test]
fn test_priority_ordering() {
    assert!(PluginPriority::Kernel(5) < PluginPriority::CoreCritical(30));
    assert!(PluginPriority::CoreCritical(30) < PluginPriority::Core(70));
    assert!(PluginPriority::Core(70) < PluginPriority::ThirdPartyHigh(120));
    assert!(PluginPriority::ThirdPartyHigh(120) < PluginPriority::ThirdParty(180));
    assert!(PluginPriority::ThirdParty(180) < PluginPriority::ThirdPartyLow(220));

    assert!(PluginPriority::Kernel(5) < PluginPriority::Kernel(10));
    assert!(PluginPriority::Core(60) < PluginPriority::Core(70));
    assert!(PluginPriority::ThirdPartyLow(210) < PluginPriority::ThirdPartyLow(220));

    assert_eq!(PluginPriority::Core(70), PluginPriority::Core(70));
    assert_ne!(PluginPriority::Core(70), PluginPriority::Core(71));
    assert_ne!(PluginPriority::Core(70), PluginPriority::ThirdParty(70));
}

#[test]
fn priority_compare_matches_order() {
    assert_eq!(PluginPriority::Kernel(5).compare(&PluginPriority::CoreCritical(30)), -1);
    assert_eq!(PluginPriority::Core(70).compare(&PluginPriority::Core(60)), 1);
    assert_eq!(PluginPriority::Core(70).compare(&PluginPriority::Core(70)), 0);
    assert_eq!(PluginPriority::ThirdParty(151).category_rank(), 4);
}

#[test]
fn priority_text_roundtrip_on_examples() {
    for p in [
        PluginPriority::Kernel(0),
        PluginPriority::CoreCritical(11),
        PluginPriority::Core(100),
        PluginPriority::ThirdPartyHigh(101),
        PluginPriority::ThirdParty(200),
        PluginPriority::ThirdPartyLow(201),
    ] {
        assert_eq!(PluginPriority::from_str(&p.to_string()), Some(p));
    }
}

#[test]
fn priority_from_str_ignores_case() {
    assert_eq!(PluginPriority::from_str("KERNEL:3"), Some(PluginPriority::Kernel(3)));
    assert_eq!(PluginPriority::from_str("Third_Party:170"), Some(PluginPriority::ThirdParty(170)));
}

#[test]
fn ffi_priority_clamps_into_category() {
    assert_eq!(
        FfiPluginPriority { category: 0, value: 50 }.to_plugin_priority(),
        Some(PluginPriority::Kernel(10))
    );
    assert_eq!(
        FfiPluginPriority { category: 1, value: 3 }.to_plugin_priority(),
        Some(PluginPriority::CoreCritical(11))
    );
    assert_eq!(
        FfiPluginPriority { category: 2, value: 75 }.to_plugin_priority(),
        Some(PluginPriority::Core(75))
    );
    assert_eq!(
        FfiPluginPriority { category: 5, value: 0 }.to_plugin_priority(),
        Some(PluginPriority::ThirdPartyLow(201))
    );
    assert_eq!(FfiPluginPriority { category: 6, value: 0 }.to_plugin_priority(), None);
}

#[test]
fn test_plugin_error_display_format() {
    assert_eq!(PluginError::InitError("Failed init".to_string()).to_string(), "Plugin initialization error: Failed init");
    assert_eq!(PluginError::LoadError("Failed load".to_string()).to_string(), "Plugin loading error: Failed load");
    assert_eq!(PluginError::ExecutionError("Failed exec".to_string()).to_string(), "Plugin execution error: Failed exec");
    assert_eq!(PluginError::DependencyError("Missing dep".to_string()).to_string(), "Plugin dependency error: Missing dep");
    assert_eq!(PluginError::VersionError("Bad version".to_string()).to_string(), "Plugin version error: Bad version");
    assert_eq!(
        PluginError::PreflightCheckError("Failed preflight".to_string()).to_string(),
        "Plugin pre-flight check error: Failed preflight"
    );
}
