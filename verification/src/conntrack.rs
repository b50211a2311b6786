//! The table of connections between local and remote hosts, and its
//! filling from connection-tracking records.

pub mod collector;
pub mod model;
pub mod parse;
