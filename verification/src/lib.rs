//! Verified core of the `sem` semantic code tool.
pub mod text;
pub mod path;
pub mod entity;
pub mod import_resolution;
pub mod graph;
pub mod graph_order;
pub mod telemetry;
pub mod orient;
pub mod progress;
pub mod plugin;
