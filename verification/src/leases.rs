//! The address leases that the DHCP server has handed out.

pub mod collector;
pub mod model;
pub mod parse;
