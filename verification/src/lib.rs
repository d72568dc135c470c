//! A TCP port-discovery engine whose scheduling, classification and
//! reporting rules are machine-checked.
//!
//! The crate holds the decisions of a scan and none of its I/O: a caller
//! opens the sockets, and feeds what happened to the types defined here.

pub mod error;
pub mod range;
pub mod ports;
pub mod listing;
pub mod render;
pub mod outcome;
pub mod aggregate;
pub mod schedule;
pub mod scanner;
