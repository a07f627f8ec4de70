//! Release Monitor: watches GitHub repositories for new releases and runs a
//! configured command when the latest release tag changes.
//!
//! This crate holds the decisions of the monitor: the data model of the
//! configuration and of the stored release state, the synchronisation of the
//! stored rows with the configuration, the polling state machine, the edits
//! that the `add` and `remove` commands make to the configuration, and the
//! parser of the service status reported by systemd.
pub mod commands;
pub mod common;
pub mod database;
pub mod executor;
pub mod monitor;
pub mod status;
