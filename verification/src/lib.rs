//! The core of `bcachefs-top`, a top-like monitor for the event counters of
//! a bcachefs filesystem.
//!
//! The library holds what the monitor decides and computes, and leaves to
//! its caller what touches the machine: opening files, asking the kernel,
//! reading the clock and the keyboard, drawing.
//!
//! - [`units`] reads magnitudes such as `12.5 MiB`.
//! - [`names`] orders counter names; [`snapshot`] holds the counters of
//!   one moment.
//! - [`catalog`] and [`text`] turn what the two backends gave into
//!   snapshots; [`source`] puts the two under one roof.
//! - [`diff`] computes the deltas between two snapshots.
//! - [`sort`] lays the rows of the table out in one of three orders.
//! - [`engine`] is the refresh loop as a state machine.
//! - [`batch`] writes one document of counters as JSON.
//! - [`errors`] names what can go wrong.

pub mod batch;
pub mod catalog;
pub mod diff;
pub mod engine;
pub mod errors;
pub mod names;
pub mod snapshot;
pub mod sort;
pub mod source;
pub mod text;
pub mod units;
