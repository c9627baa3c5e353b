//! A versioned, file-backed configuration store for COSMIC components:
//! address resolution, write-if-changed decisions, operation documents,
//! backup grouping and exclusion patterns for reset.
pub mod apply;
pub mod backup;
pub mod commands;
pub mod config;
pub mod exclude;
pub mod format;
pub mod reset;
pub mod schema;
pub mod store;
pub mod text;
