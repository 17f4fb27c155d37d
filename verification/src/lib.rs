//! Core state model of an on-chain agent tracking platform.
//!
//! An `Agent` record carries an owner identity, a configuration and a set of
//! aggregated performance counters.  Tracker operations create sub-records
//! (contract analyses, transaction optimizations, security reports) tied to an
//! agent and bump the matching counter in the same atomic step.  The record
//! store, the operations, their authorization rules and the fixed binary
//! record encoding are all specified and verified here; the hosting
//! environment contributes only a clock value and the caller's identity.

pub mod codec;
pub mod kv;
pub mod laws;
pub mod records;
pub mod store;
pub mod types;
