//! Package state reconciliation engine.
//!
//! The library reconciles declared package manifests (plain-text lists, one
//! per package manager) against the installed state reported by each
//! manager's listing command. It parses manifests and probe output, caches
//! installed sets for a short time window, resolves command paths by a
//! three-tier priority, and computes per-manager status and install/remove
//! diffs. All file and process I/O is left to the surrounding application,
//! which hands the engine plain values.

pub mod cache;
pub mod config;
pub mod constants;
pub mod laws;
pub mod manifest;
pub mod models;
pub mod operations;
pub mod paths;
pub mod probes;
pub mod resolver;
pub mod services;
pub mod text;

