//! Core library of the Gini application framework: plugin metadata, versions,
//! priorities, conflict detection and resolution, dependency ordering and the
//! event bookkeeping that the runtime drives.
pub mod text;
pub mod version;
pub mod priority;
pub mod semver_model;
pub mod dependency;
pub mod error;
pub mod conflict;
pub mod manifest;
pub mod bounds;
pub mod registry;
pub mod pair_conflicts;
pub mod ordering;
pub mod event;
pub mod dispatcher;
pub mod kernel;
pub mod loader;
pub mod plugin_manager;
pub mod adapter;
