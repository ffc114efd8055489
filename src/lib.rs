//! Health inspection for versioned, file-based tables: a rule engine that
//! turns table statistics into a ranked report, and the state machine of an
//! interactive dashboard that presents it.

pub mod analyzer;
pub mod config;
pub mod dashboard;
pub mod insights;
pub mod location;
pub mod rules;
pub mod stats;
pub mod text;
pub mod timeline;
