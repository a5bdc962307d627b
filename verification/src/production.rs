//! Production runtime logic: README splicing, drift-monitor bookkeeping,
//! artifact validation and feature-pipeline helpers.

pub mod clock;
pub mod config;
pub mod text;
pub mod report;
pub mod readme_laws;
pub mod heading_laws;
pub mod drift_monitor;
pub mod artifacts;
pub mod pipeline;
pub mod predict;
