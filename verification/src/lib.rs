//! A user-service supervision core: unit activation in dependency order,
//! service process lifecycle, pid bookkeeping, and multiplexed routing of
//! per-service notification and stdio streams.
//!
//! The crate holds the decision and parsing logic of the supervisor. The
//! blocking edges (readiness multiplexing, fork/exec, helper spawning,
//! sleeping) live in the surrounding binary, which feeds their outcomes into
//! these functions as plain values.

pub mod activate_unit;
pub mod bytes;
pub mod config;
pub mod fd_store;
pub mod notification_handler;
pub mod pid_table;
pub mod services;
pub mod units;
