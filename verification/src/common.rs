//! What the collectors share: counters and the rates derived from them,
//! addresses and subnets, and the readers of their text forms.

pub mod addr;
pub mod addrmap;
pub mod counter;
pub mod parse;
pub mod rate;
pub mod subnet;
pub mod text;
pub mod timeseries;
