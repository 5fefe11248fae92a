//! Topology-aware per-process CPU governor core.
//!
//! The crate classifies logical cores of a heterogeneous processor by
//! micro-architecture role, plans load-weighted thread-to-core mappings,
//! and reconciles live process state against configured policies
//! (default rules, per-application profiles, ProBalance throttling and
//! smart memory trim).  Everything here is plain decision logic over
//! plain values; the operating-system calls that carry the decisions out
//! live outside the library.

pub mod types;
pub mod seq_util;
pub mod strutil;
pub mod topology;
pub mod cascade;
pub mod watchdog;
pub mod security;
pub mod registry;
