//! Core of an infrastructure-reconciliation platform: a coordinator stores
//! versioned desired-state snapshots per deployment environment, detects
//! drift between a device's last-reported state and the latest desired
//! state, and computes the minimal set of changes a device must apply.
//!
//! The library holds the verified logic: the urn-keyed diff engine, the
//! append-only state store, drift classification, the wire codecs and the
//! session decision functions.  Network and file plumbing lives outside.

pub mod admin;
pub mod codec;
pub mod diff;
pub mod drift;
pub mod errors;
pub mod json;
pub mod ops;
pub mod project;
pub mod provider;
pub mod rest;
pub mod session;
pub mod statefile;
pub mod store;
pub mod urn;
pub mod wire;
