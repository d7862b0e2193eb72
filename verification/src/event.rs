//! Events: their priorities and results, the events of the core system,
//! and the errors of the event system.
use vstd::prelude::*;
use vstd::string::StringExecFns;
use crate::text::{decimal, u64_to_decimal};

verus! {

#[verifier::external_type_specification]
#[verifier::external_body]
pub struct ExTypeId(std::any::TypeId);

/// Identifier of a registered event handler.
pub type EventId = u64;

/// Event priority level, from lowest to highest.
#[derive(Debug, Clone, Copy, PartialEq, Eq, PartialOrd, Ord, Hash, Structural)]
pub enum EventPriority {
    /// Lowest priority, processed last
    Low,
    /// Normal priority, processed in the middle
    Normal,
    /// High priority, processed first
    High,
    /// Critical priority, processed immediately
    Critical,
}

impl Default for EventPriority {
    /// Events have normal priority unless they say otherwise.
    fn default() -> (r: Self)
        ensures
            r == EventPriority::Normal,
    {
        EventPriority::Normal
    }
}

/// Result of event processing.
#[derive(Debug, Clone, Copy, PartialEq, Eq, Structural)]
pub enum EventResult {
    /// Event was processed successfully and propagation should continue
    Continue,
    /// Event was processed and propagation should stop
    Stop,
}

/// Core event trait.
pub trait Event {
    /// Get the name of this event.
    fn name(&self) -> &'static str;

    /// Get event priority.
    fn priority(&self) -> EventPriority;

    /// Check if this event can be cancelled.
    fn is_cancelable(&self) -> bool;
}

/// System events triggered by the core application.
#[derive(Debug, Clone)]
pub enum SystemEvent {
    /// Application is starting
    ApplicationStart,
    /// Application is shutting down
    ApplicationShutdown,
    /// Plugin is being loaded
    PluginLoad { plugin_id: String },
    /// Plugin has been loaded
    PluginLoaded { plugin_id: String },
    /// Plugin is being unloaded
    PluginUnload { plugin_id: String },
    /// Stage is beginning execution
    StageBegin { stage_id: String },
    /// Stage has completed execution
    StageComplete { stage_id: String, success: bool },
    /// Pipeline execution is beginning
    PipelineBegin { pipeline_id: String },
    /// Pipeline execution has completed
    PipelineComplete { pipeline_id: String, success: bool },
    /// Configuration has changed
    ConfigChange { key: String, value: String },
}

impl SystemEvent {
    /// The name of a system event.
    pub open spec fn spec_name(&self) -> Seq<char> {
        match self {
            SystemEvent::ApplicationStart => "application.start"@,
            SystemEvent::ApplicationShutdown => "application.shutdown"@,
            SystemEvent::PluginLoad { .. } => "plugin.load"@,
            SystemEvent::PluginLoaded { .. } => "plugin.loaded"@,
            SystemEvent::PluginUnload { .. } => "plugin.unload"@,
            SystemEvent::StageBegin { .. } => "stage.begin"@,
            SystemEvent::StageComplete { .. } => "stage.complete"@,
            SystemEvent::PipelineBegin { .. } => "pipeline.begin"@,
            SystemEvent::PipelineComplete { .. } => "pipeline.complete"@,
            SystemEvent::ConfigChange { .. } => "config.change"@,
        }
    }

    /// Starting and shutting down the application are critical; the rest is normal.
    pub open spec fn spec_priority(&self) -> EventPriority {
        match self {
            SystemEvent::ApplicationStart | SystemEvent::ApplicationShutdown => EventPriority::Critical,
            _ => EventPriority::Normal,
        }
    }

    /// Only shutting down the application and unloading a plugin can be cancelled.
    pub open spec fn spec_cancelable(&self) -> bool {
        match self {
            SystemEvent::ApplicationShutdown | SystemEvent::PluginUnload { .. } => true,
            _ => false,
        }
    }
}

impl Event for SystemEvent {
    fn name(&self) -> (r: &'static str)
        ensures
            r@ == self.spec_name(),
    {
        match self {
            SystemEvent::ApplicationStart => "application.start",
            SystemEvent::ApplicationShutdown => "application.shutdown",
            SystemEvent::PluginLoad { .. } => "plugin.load",
            SystemEvent::PluginLoaded { .. } => "plugin.loaded",
            SystemEvent::PluginUnload { .. } => "plugin.unload",
            SystemEvent::StageBegin { .. } => "stage.begin",
            SystemEvent::StageComplete { .. } => "stage.complete",
            SystemEvent::PipelineBegin { .. } => "pipeline.begin",
            SystemEvent::PipelineComplete { .. } => "pipeline.complete",
            SystemEvent::ConfigChange { .. } => "config.change",
        }
    }

    fn priority(&self) -> (r: EventPriority)
        ensures
            r == self.spec_priority(),
    {
        match self {
            SystemEvent::ApplicationStart | SystemEvent::ApplicationShutdown => EventPriority::Critical,
            _ => EventPriority::Normal,
        }
    }

    fn is_cancelable(&self) -> (r: bool)
        ensures
            r == self.spec_cancelable(),
    {
        match self {
            SystemEvent::ApplicationShutdown | SystemEvent::PluginUnload { .. } => true,
            _ => false,
        }
    }
}

/// Plugin-specific events.
#[derive(Debug, Clone)]
pub struct PluginEvent {
    /// Name of the event
    pub name: String,
    /// Source plugin identifier
    pub source: String,
    /// Event payload (any serializable data)
    pub data: String,
    /// Event priority
    pub priority: EventPriority,
    /// Whether this event can be cancelled
    pub cancelable: bool,
}

impl Event for PluginEvent {
    /// Every plugin event goes by the same name.
    fn name(&self) -> (r: &'static str)
        ensures
            r@ == "plugin.custom"@,
    {
        proof {
            reveal_strlit("plugin.custom");
        }
        "plugin.custom"
    }

    fn priority(&self) -> (r: EventPriority)
        ensures
            r == self.priority,
    {
        self.priority
    }

    fn is_cancelable(&self) -> (r: bool)
        ensures
            r == self.cancelable,
    {
        self.cancelable
    }
}

/// Severity of an issue.
#[derive(Debug, Clone, Copy, PartialEq, Eq, Structural)]
pub enum IssueSeverity {
    /// Informational issue
    Info,
    /// Warning issue
    Warning,
    /// Error issue
    Error,
    /// Critical issue
    Critical,
}

/// What a stage event's name, priority and cancelability depend on: its
/// kind, and for a compatibility issue its severity.
#[derive(Debug, Clone, Copy, PartialEq, Eq, Structural)]
pub enum StageEventKind {
    /// Stage has a progress update
    Progress,
    /// Stage requires user input
    UserInput,
    /// Stage has encountered an error
    Error,
    /// Stage is emitting a warning
    Warning,
    /// Stage has found a compatibility issue of this severity
    CompatibilityIssue(IssueSeverity),
}

impl StageEventKind {
    /// The name of a stage event of this kind.
    pub open spec fn spec_name(self) -> Seq<char> {
        match self {
            StageEventKind::Progress => "stage.progress"@,
            StageEventKind::UserInput => "stage.input"@,
            StageEventKind::Error => "stage.error"@,
            StageEventKind::Warning => "stage.warning"@,
            StageEventKind::CompatibilityIssue(_) => "stage.compatibility"@,
        }
    }

    /// Errors, requests for input and serious compatibility issues are high;
    /// progress is low; the rest is normal.
    pub open spec fn spec_priority(self) -> EventPriority {
        match self {
            StageEventKind::Error | StageEventKind::UserInput => EventPriority::High,
            StageEventKind::CompatibilityIssue(s) => match s {
                IssueSeverity::Critical | IssueSeverity::Error => EventPriority::High,
                _ => EventPriority::Normal,
            },
            StageEventKind::Warning => EventPriority::Normal,
            StageEventKind::Progress => EventPriority::Low,
        }
    }

    /// The name of a stage event of this kind.
    pub fn name(&self) -> (r: &'static str)
        ensures
            r@ == self.spec_name(),
    {
        match self {
            StageEventKind::Progress => "stage.progress",
            StageEventKind::UserInput => "stage.input",
            StageEventKind::Error => "stage.error",
            StageEventKind::Warning => "stage.warning",
            StageEventKind::CompatibilityIssue(_) => "stage.compatibility",
        }
    }

    /// The priority of a stage event of this kind.
    pub fn priority(&self) -> (r: EventPriority)
        ensures
            r == self.spec_priority(),
    {
        match self {
            StageEventKind::Error | StageEventKind::UserInput => EventPriority::High,
            StageEventKind::CompatibilityIssue(s) => match s {
                IssueSeverity::Critical | IssueSeverity::Error => EventPriority::High,
                _ => EventPriority::Normal,
            },
            StageEventKind::Warning => EventPriority::Normal,
            StageEventKind::Progress => EventPriority::Low,
        }
    }

    /// Only a request for user input can be cancelled.
    pub fn is_cancelable(&self) -> (r: bool)
        ensures
            r == (*self == StageEventKind::UserInput),
    {
        match self {
            StageEventKind::UserInput => true,
            _ => false,
        }
    }
}

/// `Box::leak`: a string kept for the rest of the program, as a `'static` slice.
#[verifier::external_body]
fn leak_string(s: String) -> (r: &'static str)
    ensures
        r@ == s@,
{
    Box::leak(s.into_boxed_str())
}

/// An event with a name of its own, for exercising handlers.
#[derive(Debug, Clone)]
pub struct TestEvent {
    name: String,
}

impl TestEvent {
    /// Create an event with the given name.
    pub fn new(name: &str) -> (r: Self)
        ensures
            r.spec_name() == name@,
    {
        TestEvent { name: String::from_str(name) }
    }

    /// The name of the event.
    pub closed spec fn spec_name(&self) -> Seq<char> {
        self.name@
    }
}

impl Event for TestEvent {
    fn name(&self) -> (r: &'static str)
        ensures
            r@ == self.spec_name(),
    {
        leak_string(self.name.clone())
    }

    fn priority(&self) -> (r: EventPriority)
        ensures
            r == EventPriority::Normal,
    {
        EventPriority::Normal
    }

    fn is_cancelable(&self) -> (r: bool)
        ensures
            !r,
    {
        false
    }
}

/// Errors of the event system.
#[derive(Debug)]
pub enum EventSystemError {
    HandlerRegistrationFailedByName { event_name: String, reason: String },
    HandlerRegistrationFailedByType { type_id: std::any::TypeId, reason: String },
    HandlerUnregistrationFailed { id: EventId, reason: String },
    DispatchError { event_name: String, reason: String },
    QueueOperationFailed { operation: String, reason: String },
    InvalidEventData { event_name: String, details: String },
    DispatcherPoisoned { component: String },
    InternalError(String),
}

impl EventSystemError {
    /// The text that describes the error, for every variant but the one
    /// naming a type (whose text ends with the type's debug form).
    pub open spec fn spec_text(&self) -> Seq<char> {
        match self {
            EventSystemError::HandlerRegistrationFailedByName { event_name, .. } => "Failed to register event handler for event name '"@
                + event_name@ + "'"@,
            EventSystemError::HandlerRegistrationFailedByType { .. } => "Failed to register event handler for event type ID '"@,
            EventSystemError::HandlerUnregistrationFailed { id, reason } => "Failed to unregister event handler with ID "@
                + decimal(*id as nat) + ": "@ + reason@,
            EventSystemError::DispatchError { event_name, reason } => "Event dispatch failed for event '"@ + event_name@
                + "': "@ + reason@,
            EventSystemError::QueueOperationFailed { operation, reason } => "Event queue operation '"@ + operation@
                + "' failed: "@ + reason@,
            EventSystemError::InvalidEventData { event_name, details } => "Invalid event data for event '"@ + event_name@
                + "': "@ + details@,
            EventSystemError::DispatcherPoisoned { component } => "Attempted to operate on a poisoned event dispatcher component: "@
                + component@,
            EventSystemError::InternalError(m) => "Internal event system error: "@ + m@,
        }
    }

    /// The text that describes the error (what `Display` writes). For the
    /// variant naming a type, the text continues with the type's debug form
    /// and a closing quote.
    pub fn to_string(&self) -> (r: String)
        ensures
            match self {
                EventSystemError::HandlerRegistrationFailedByType { .. } => self.spec_text().is_prefix_of(r@),
                _ => r@ == self.spec_text(),
            },
    {
        match self {
            EventSystemError::HandlerRegistrationFailedByName { event_name, .. } => {
                let mut s = String::from_str("Failed to register event handler for event name '");
                s.append(event_name.as_str());
                s.append("'");
                s
            },
            EventSystemError::HandlerRegistrationFailedByType { type_id, .. } => {
                let s = String::from_str("Failed to register event handler for event type ID '");
                let d = type_id_debug(type_id);
                let r = s.concat(d.as_str()).concat("'");
                proof {
                    assert(self.spec_text() =~= r@.subrange(0, self.spec_text().len() as int));
                }
                r
            },
            EventSystemError::HandlerUnregistrationFailed { id, reason } => {
                let mut s = String::from_str("Failed to unregister event handler with ID ");
                s.append(u64_to_decimal(*id).as_str());
                s.append(": ");
                s.append(reason.as_str());
                s
            },
            EventSystemError::DispatchError { event_name, reason } => {
                let mut s = String::from_str("Event dispatch failed for event '");
                s.append(event_name.as_str());
                s.append("': ");
                s.append(reason.as_str());
                s
            },
            EventSystemError::QueueOperationFailed { operation, reason } => {
                let mut s = String::from_str("Event queue operation '");
                s.append(operation.as_str());
                s.append("' failed: ");
                s.append(reason.as_str());
                s
            },
            EventSystemError::InvalidEventData { event_name, details } => {
                let mut s = String::from_str("Invalid event data for event '");
                s.append(event_name.as_str());
                s.append("': ");
                s.append(details.as_str());
                s
            },
            EventSystemError::DispatcherPoisoned { component } => String::from_str(
                "Attempted to operate on a poisoned event dispatcher component: ",
            ).concat(component.as_str()),
            EventSystemError::InternalError(m) => String::from_str("Internal event system error: ").concat(m.as_str()),
        }
    }
}

/// The debug form of a type identifier (what `{:?}` writes).
#[verifier::external_body]
pub(crate) fn type_id_debug(t: &std::any::TypeId) -> String {
    format!("{:?}", t)
}

} // verus!
