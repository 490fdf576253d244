//! Local package-index cache and reconciliation engine for a registry-backed
//! binary-package front end.
//!
//! The library holds the verified core: normalizing raw registry records,
//! the on-disk index format and its parser, the denylist, case-insensitive
//! substring search, staleness and rebuild decisions, and the diff between
//! installed and indexed packages.

pub mod cli;
pub mod database;
pub mod installed;
pub mod progress;
pub mod reconcile;
pub mod registry;
pub mod store;
pub mod text;
