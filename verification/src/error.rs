//! Errors of the plugin system.
use vstd::prelude::*;
use vstd::string::StringExecFns;
use crate::conflict::PluginConflict;
use crate::dependency::{DependencyError, join, join_strings};
use crate::text::{decimal, u64_to_decimal};
use crate::version::VersionError;

verus! {

/// Errors a plugin reports about its own work.
#[derive(Debug)]
pub enum PluginError {
    InitError(String),
    LoadError(String),
    ExecutionError(String),
    DependencyError(String),
    VersionError(String),
    PreflightCheckError(String),
}

impl PluginError {
    /// The text that describes the error.
    pub open spec fn spec_text(&self) -> Seq<char> {
        match self {
            PluginError::InitError(m) => "Plugin initialization error: "@ + m@,
            PluginError::LoadError(m) => "Plugin loading error: "@ + m@,
            PluginError::ExecutionError(m) => "Plugin execution error: "@ + m@,
            PluginError::DependencyError(m) => "Plugin dependency error: "@ + m@,
            PluginError::VersionError(m) => "Plugin version error: "@ + m@,
            PluginError::PreflightCheckError(m) => "Plugin pre-flight check error: "@ + m@,
        }
    }

    /// The text that describes the error.
    pub fn to_string(&self) -> (r: String)
        ensures
            r@ == self.spec_text(),
    {
        match self {
            PluginError::InitError(m) => String::from_str("Plugin initialization error: ").concat(m.as_str()),
            PluginError::LoadError(m) => String::from_str("Plugin loading error: ").concat(m.as_str()),
            PluginError::ExecutionError(m) => String::from_str("Plugin execution error: ").concat(m.as_str()),
            PluginError::DependencyError(m) => String::from_str("Plugin dependency error: ").concat(m.as_str()),
            PluginError::VersionError(m) => String::from_str("Plugin version error: ").concat(m.as_str()),
            PluginError::PreflightCheckError(m) => String::from_str("Plugin pre-flight check error: ").concat(m.as_str()),
        }
    }
}

/// The underlying cause of a loading or initialization failure.
#[derive(Debug)]
pub enum PluginSystemErrorSource {
    /// An I/O failure, with its message.
    Io(String),
    /// A JSON failure, with its message.
    Json(String),
    /// A resolution failure.
    Resolution(String),
    /// Anything else.
    Other(String),
}

/// Errors of the plugin system.
#[allow(inconsistent_fields)]
#[derive(Debug)]
pub enum PluginSystemError {
    LoadingError { plugin_id: String, path: Option<String>, source: PluginSystemErrorSource },
    FfiError { plugin_id: String, operation: String, message: String },
    ManifestError { path: String, message: String, source: Option<String> },
    RegistrationError { plugin_id: String, message: String },
    InitializationError { plugin_id: String, message: String, source: Option<PluginSystemErrorSource> },
    PreflightCheckFailed { plugin_id: String, message: String },
    ShutdownError { plugin_id: String, message: String },
    DependencyResolution(DependencyError),
    VersionParsing(VersionError),
    ConflictError { message: String },
    AdapterError { message: String },
    OperationError { plugin_id: Option<String>, message: String },
    InternalError(String),
    UnresolvedPluginConflicts { conflicts: Vec<PluginConflict> },
    TransitiveDependencyErrors { errors: Vec<String> },
}

impl PluginSystemErrorSource {
    /// The text that describes the cause (what `Display` writes).
    pub open spec fn spec_text(self) -> Seq<char> {
        match self {
            PluginSystemErrorSource::Io(m) => m@,
            PluginSystemErrorSource::Json(m) => m@,
            PluginSystemErrorSource::Resolution(m) => "Resolution failed: "@ + m@,
            PluginSystemErrorSource::Other(m) => "Other: "@ + m@,
        }
    }

    /// The text that describes the cause.
    pub fn message(&self) -> (r: String)
        ensures
            r@ == self.spec_text(),
    {
        match self {
            PluginSystemErrorSource::Io(m) => m.clone(),
            PluginSystemErrorSource::Json(m) => m.clone(),
            PluginSystemErrorSource::Resolution(m) => String::from_str("Resolution failed: ").concat(m.as_str()),
            PluginSystemErrorSource::Other(m) => String::from_str("Other: ").concat(m.as_str()),
        }
    }
}

impl PluginSystemError {
    /// The text that describes the error (what `Display` writes).
    pub open spec fn spec_text(self) -> Seq<char> {
        match self {
            PluginSystemError::LoadingError { plugin_id, source, .. } => "Plugin loading failed for '"@ + plugin_id@
                + "': "@ + source.spec_text(),
            PluginSystemError::FfiError { plugin_id, operation, message } => "FFI error in plugin '"@ + plugin_id@
                + "' during operation '"@ + operation@ + "': "@ + message@,
            PluginSystemError::ManifestError { path, message, .. } => "Plugin manifest error for '"@ + path@ + "': "@
                + message@,
            PluginSystemError::RegistrationError { plugin_id, message } => "Plugin registration error for '"@
                + plugin_id@ + "': "@ + message@,
            PluginSystemError::InitializationError { plugin_id, message, .. } => "Plugin initialization error for '"@
                + plugin_id@ + "': "@ + message@,
            PluginSystemError::PreflightCheckFailed { plugin_id, message } => "Plugin preflight check failed for '"@
                + plugin_id@ + "': "@ + message@,
            PluginSystemError::ShutdownError { plugin_id, message } => "Plugin shutdown error for '"@ + plugin_id@
                + "': "@ + message@,
            PluginSystemError::DependencyResolution(e) => "Dependency resolution failed: "@ + e.spec_text(),
            PluginSystemError::VersionParsing(e) => "Version parsing error: "@ + e.spec_text(),
            PluginSystemError::ConflictError { message } => "Plugin conflict: "@ + message@,
            PluginSystemError::AdapterError { message } => "Adapter error: "@ + message@,
            PluginSystemError::OperationError { plugin_id, message } => "Operation error in plugin '"@ + match plugin_id {
                Some(id) => id@,
                None => "<unknown>"@,
            } + "': "@ + message@,
            PluginSystemError::InternalError(m) => "Internal plugin system error: "@ + m@,
            PluginSystemError::UnresolvedPluginConflicts { conflicts } => "Unresolved critical plugin conflicts: "@
                + decimal(conflicts@.len()),
            PluginSystemError::TransitiveDependencyErrors { errors } => "Transitive dependency errors: "@ + join(
                errors@.map_values(|e: String| e@),
                "; "@,
            ),
        }
    }

    /// The text that describes the error.
    pub fn message(&self) -> (r: String)
        ensures
            r@ == self.spec_text(),
    {
        match self {
            PluginSystemError::LoadingError { plugin_id, source, .. } => {
                let mut s = String::from_str("Plugin loading failed for '");
                s.append(plugin_id.as_str());
                s.append("': ");
                s.append(source.message().as_str());
                s
            },
            PluginSystemError::FfiError { plugin_id, operation, message } => {
                let mut s = String::from_str("FFI error in plugin '");
                s.append(plugin_id.as_str());
                s.append("' during operation '");
                s.append(operation.as_str());
                s.append("': ");
                s.append(message.as_str());
                s
            },
            PluginSystemError::ManifestError { path, message, .. } => {
                let mut s = String::from_str("Plugin manifest error for '");
                s.append(path.as_str());
                s.append("': ");
                s.append(message.as_str());
                s
            },
            PluginSystemError::RegistrationError { plugin_id, message } => {
                let mut s = String::from_str("Plugin registration error for '");
                s.append(plugin_id.as_str());
                s.append("': ");
                s.append(message.as_str());
                s
            },
            PluginSystemError::InitializationError { plugin_id, message, .. } => {
                let mut s = String::from_str("Plugin initialization error for '");
                s.append(plugin_id.as_str());
                s.append("': ");
                s.append(message.as_str());
                s
            },
            PluginSystemError::PreflightCheckFailed { plugin_id, message } => {
                let mut s = String::from_str("Plugin preflight check failed for '");
                s.append(plugin_id.as_str());
                s.append("': ");
                s.append(message.as_str());
                s
            },
            PluginSystemError::ShutdownError { plugin_id, message } => {
                let mut s = String::from_str("Plugin shutdown error for '");
                s.append(plugin_id.as_str());
                s.append("': ");
                s.append(message.as_str());
                s
            },
            PluginSystemError::DependencyResolution(e) => String::from_str("Dependency resolution failed: ").concat(
                e.message().as_str(),
            ),
            PluginSystemError::VersionParsing(e) => String::from_str("Version parsing error: ").concat(e.message().as_str()),
            PluginSystemError::ConflictError { message } => String::from_str("Plugin conflict: ").concat(message.as_str()),
            PluginSystemError::AdapterError { message } => String::from_str("Adapter error: ").concat(message.as_str()),
            PluginSystemError::OperationError { plugin_id, message } => {
                let mut s = String::from_str("Operation error in plugin '");
                match plugin_id {
                    Some(id) => s.append(id.as_str()),
                    None => s.append("<unknown>"),
                }
                s.append("': ");
                s.append(message.as_str());
                s
            },
            PluginSystemError::InternalError(m) => String::from_str("Internal plugin system error: ").concat(m.as_str()),
            PluginSystemError::UnresolvedPluginConflicts { conflicts } => String::from_str(
                "Unresolved critical plugin conflicts: ",
            ).concat(u64_to_decimal(conflicts.len() as u64).as_str()),
            PluginSystemError::TransitiveDependencyErrors { errors } => String::from_str("Transitive dependency errors: ").concat(
                join_strings(errors, "; ").as_str(),
            ),
        }
    }
}

} // verus!
