//! A source of synthetic traffic: connections to random peers whose
//! counters grow, written in the text forms that the collectors read.

pub mod conntrack;
pub mod device;
pub mod helpers;
pub mod leases;
pub mod traffic;
