//! Per-port VLAN and link-aggregation report for a network switch.
//!
//! The library turns raw management-table snapshots into per-port
//! configuration records, overlays trunk settings, applies operator
//! overrides and compresses the result into contiguous port ranges.
pub mod bitmask;
pub mod builder;
pub mod config;
pub mod ids;
pub mod numbers;
pub mod ranges;
pub mod render;
pub mod table;
pub mod text;
pub mod trunks;
pub mod walk;
