//! Validation and analysis of application event models and their telemetry.
pub mod analyzer;
pub mod fsm;
pub mod graph;
pub mod handle;
pub mod schema;
pub mod collector;
pub mod constraints;
pub mod convention;
pub mod events;
pub mod exporter;
