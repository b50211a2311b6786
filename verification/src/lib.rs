//! Per-host traffic tracking for a small gateway: bounded round-robin
//! histories of cumulative counters, the table of local and remote hosts that
//! is filled from connection-tracking records, the histories of the outside
//! interface and the address leases, and the readers of the text formats all
//! of these come in. A simulator writes the same formats for trying it out.
//!
//! Everything here works on values: the content of a file goes in as bytes,
//! a point in time as a count of milliseconds. Reading files, serving
//! requests and waiting for the next tick are left to the program around it.

pub mod common;
pub mod config;
pub mod conntrack;
pub mod device;
pub mod leases;
pub mod minirrd;
pub mod minivec;
pub mod simulator;
pub mod time;
