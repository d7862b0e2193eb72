use gini_core::event::{
    Event, EventPriority, EventResult, EventSystemError, IssueSeverity, PluginEvent, StageEventKind, SystemEvent,
    TestEvent,
};
use std::any::{Any, TypeId};

#[test]
fn test_event_system_error_display() {
    let err_reg_name = EventSystemError::HandlerRegistrationFailedByName {
        event_name: "test.event".to_string(),
        reason: "Already exists".to_string(),
    };
    assert_eq!(err_reg_name.to_string(), "Failed to register event handler for event name 'test.event'");

    let err_reg_type = EventSystemError::HandlerRegistrationFailedByType {
        type_id: TypeId::of::<String>(),
        reason: "Type conflict".to_string(),
    };
    assert!(err_reg_type.to_string().starts_with("Failed to register event handler for event type ID"));

    let err_unreg = EventSystemError::HandlerUnregistrationFailed { id: 123, reason: "Not found".to_string() };
    assert_eq!(err_unreg.to_string(), "Failed to unregister event handler with ID 123: Not found");

    let err_dispatch = EventSystemError::DispatchError {
        event_name: "critical.event".to_string(),
        reason: "Handler panicked".to_string(),
    };
    assert_eq!(err_dispatch.to_string(), "Event dispatch failed for event 'critical.event': Handler panicked");

    let err_queue = EventSystemError::QueueOperationFailed {
        operation: "enqueue".to_string(),
        reason: "Queue full".to_string(),
    };
    assert_eq!(err_queue.to_string(), "Event queue operation 'enqueue' failed: Queue full");

    let err_data = EventSystemError::InvalidEventData {
        event_name: "user.action".to_string(),
        details: "Missing required field".to_string(),
    };
    assert_eq!(err_data.to_string(), "Invalid event data for event 'user.action': Missing required field");

    let err_poisoned = EventSystemError::DispatcherPoisoned { component: "handlers_map".to_string() };
    assert_eq!(
        err_poisoned.to_string(),
        "Attempted to operate on a poisoned event dispatcher component: handlers_map"
    );

    let err_internal = EventSystemError::InternalError("Something went wrong".to_string());
    assert_eq!(err_internal.to_string(), "Internal event system error: Something went wrong");
}

#[test]
fn test_event_system_error_debug_format() {
    let err = EventSystemError::HandlerRegistrationFailedByName {
        event_name: "debug.event".to_string(),
        reason: "Debug reason".to_string(),
    };
    let debug_str = format!("{:?}", err);
    assert!(debug_str.contains("HandlerRegistrationFailedByName"));
    assert!(debug_str.contains("event_name: \"debug.event\""));
    assert!(debug_str.contains("reason: \"Debug reason\""));
}

#[test]
fn test_event_priority_default() {
    assert_eq!(EventPriority::default(), EventPriority::Normal);
}

#[test]
fn test_event_priority_values() {
    assert_eq!(EventPriority::Low as u32, 0);
    assert_eq!(EventPriority::Normal as u32, 1);
    assert_eq!(EventPriority::High as u32, 2);
    assert_eq!(EventPriority::Critical as u32, 3);
}

#[test]
fn test_system_event_properties() {
    let event = SystemEvent::ApplicationStart;

    assert_eq!(event.name(), "application.start");
    assert_eq!(event.priority(), EventPriority::Critical);
    assert!(!event.is_cancelable());

    let cloned = event.clone();
    assert_eq!(cloned.name(), event.name());

    let any: &dyn Any = &event;
    assert!(any.downcast_ref::<SystemEvent>().is_some());
}

#[test]
fn test_system_event_variants() {
    let events = vec![
        (SystemEvent::ApplicationStart, "application.start"),
        (SystemEvent::ApplicationShutdown, "application.shutdown"),
        (SystemEvent::PluginLoad { plugin_id: "test".to_string() }, "plugin.load"),
        (SystemEvent::PluginLoaded { plugin_id: "test".to_string() }, "plugin.loaded"),
        (SystemEvent::PluginUnload { plugin_id: "test".to_string() }, "plugin.unload"),
        (SystemEvent::StageBegin { stage_id: "test".to_string() }, "stage.begin"),
        (SystemEvent::StageComplete { stage_id: "test".to_string(), success: true }, "stage.complete"),
        (SystemEvent::PipelineBegin { pipeline_id: "test".to_string() }, "pipeline.begin"),
        (SystemEvent::PipelineComplete { pipeline_id: "test".to_string(), success: true }, "pipeline.complete"),
        (SystemEvent::ConfigChange { key: "test_key".to_string(), value: "test_value".to_string() }, "config.change"),
    ];

    for (event, name) in events {
        assert_eq!(event.name(), name);
    }
}

#[test]
fn test_plugin_event_properties() {
    let event = PluginEvent {
        name: "custom.plugin.event".to_string(),
        source: "test-plugin".to_string(),
        data: "some data".to_string(),
        priority: EventPriority::High,
        cancelable: true,
    };

    assert_eq!(event.name(), "plugin.custom");
    assert_eq!(event.priority(), EventPriority::High);
    assert!(event.is_cancelable());

    let cloned = event.clone();
    assert_eq!(cloned.name(), event.name());
    assert_eq!(cloned.priority(), event.priority());

    let any: &dyn Any = &event;
    let downcasted = any.downcast_ref::<PluginEvent>();
    assert!(downcasted.is_some());
    if let Some(e) = downcasted {
        assert_eq!(e.name, "custom.plugin.event");
        assert_eq!(e.source, "test-plugin");
        assert_eq!(e.data, "some data");
    }
}

#[test]
fn system_event_priorities_and_cancelation() {
    assert_eq!(SystemEvent::ApplicationShutdown.priority(), EventPriority::Critical);
    assert!(SystemEvent::ApplicationShutdown.is_cancelable());
    let unload = SystemEvent::PluginUnload { plugin_id: "p".to_string() };
    assert_eq!(unload.priority(), EventPriority::Normal);
    assert!(unload.is_cancelable());
    let load = SystemEvent::PluginLoad { plugin_id: "p".to_string() };
    assert_eq!(load.priority(), EventPriority::Normal);
    assert!(!load.is_cancelable());
}

#[test]
fn test_event_keeps_its_name() {
    let e = TestEvent::new("my.custom.event");
    assert_eq!(e.name(), "my.custom.event");
    assert_eq!(e.priority(), EventPriority::Normal);
    assert!(!e.is_cancelable());
}

#[test]
fn event_priority_order_and_other_enums() {
    assert!(EventPriority::Low < EventPriority::Normal);
    assert!(EventPriority::High < EventPriority::Critical);
    assert_ne!(EventResult::Continue, EventResult::Stop);
    assert_ne!(IssueSeverity::Warning, IssueSeverity::Error);
}

#[test]
fn type_error_text_names_the_type() {
    let err = EventSystemError::HandlerRegistrationFailedByType {
        type_id: TypeId::of::<u32>(),
        reason: "r".to_string(),
    };
    let text = err.to_string();
    let debug = format!("{:?}", TypeId::of::<u32>());
    assert_eq!(text, format!("Failed to register event handler for event type ID '{}'", debug));
}

#[test]
fn stage_event_kinds() {
    assert_eq!(StageEventKind::Progress.name(), "stage.progress");
    assert_eq!(StageEventKind::Progress.priority(), EventPriority::Low);
    assert!(!StageEventKind::Progress.is_cancelable());
    assert_eq!(StageEventKind::UserInput.name(), "stage.input");
    assert_eq!(StageEventKind::UserInput.priority(), EventPriority::High);
    assert!(StageEventKind::UserInput.is_cancelable());
    assert_eq!(StageEventKind::Error.name(), "stage.error");
    assert_eq!(StageEventKind::Error.priority(), EventPriority::High);
    assert_eq!(StageEventKind::Warning.name(), "stage.warning");
    assert_eq!(StageEventKind::Warning.priority(), EventPriority::Normal);
    let critical = StageEventKind::CompatibilityIssue(IssueSeverity::Critical);
    let warning = StageEventKind::CompatibilityIssue(IssueSeverity::Warning);
    assert_eq!(critical.name(), "stage.compatibility");
    assert_eq!(critical.priority(), EventPriority::High);
    assert_eq!(StageEventKind::CompatibilityIssue(IssueSeverity::Error).priority(), EventPriority::High);
    assert_eq!(warning.priority(), EventPriority::Normal);
    assert!(!warning.is_cancelable());
}
