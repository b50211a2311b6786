//! The counters of the network interfaces, and the history of the one that
//! faces the outside.

pub mod collector;
pub mod parse;
