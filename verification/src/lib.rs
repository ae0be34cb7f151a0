//! Core of a distributed fuzzing control plane.
//!
//! A central server accepts fuzzing job submissions and splits each one
//! across a fleet of agent hosts by free CPU and RAM.  This crate holds the
//! verified heart of that system: the durable state machine over agents,
//! job collections, sub-jobs and crashes; the bin-packing scheduler; the
//! dispatcher and broker decision logic; and the agent-side job table and
//! crash-synchronisation planning.  Network, container and file transports
//! live outside the crate and hand plain values in and out.

pub mod agent_jobs;
pub mod broker;
pub mod config;
pub mod crash;
pub mod dispatch;
pub mod intake;
pub mod laws;
pub mod lifecycle;
pub mod model;
pub mod queries;
pub mod reconcile;
pub mod runner;
pub mod sched;
pub mod seq_util;
pub mod status;
pub mod store;
pub mod util;
pub mod wrappers;
