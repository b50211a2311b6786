//! The settings: which subnets are local, which interface faces the
//! outside, where the files to read lie, and how much history to keep.

use crate::common::parse::subnet_of;
use crate::common::subnet::Subnet;
use vstd::prelude::*;

verus! {

broadcast use vstd::string::group_string_axioms;

#[derive(Debug, Clone)]
pub struct Config {
    pub local_subnets: Vec<Subnet>,
    pub wan_interface: String,
    pub conntrack_file: String,
    pub device_file: String,
    pub leases_file: String,
    /// How much history to keep, in milliseconds.
    pub retain_data: u64,
}

pub fn default_device_file() -> (path: String)
    ensures
        path@ == "/proc/net/dev"@,
{
    "/proc/net/dev".to_string()
}

pub fn default_conntrack_file() -> (path: String)
    ensures
        path@ == "/proc/net/nf_conntrack"@,
{
    "/proc/net/nf_conntrack".to_string()
}

pub fn default_lease_file() -> (path: String)
    ensures
        path@ == "/var/lib/misc/dnsmasq.leases"@,
{
    "/var/lib/misc/dnsmasq.leases".to_string()
}

/// Five minutes, in milliseconds.
pub fn default_retain_data() -> (retain: u64)
    ensures
        retain == 300_000,
{
    300_000
}

/// A setting that cannot be taken.
#[derive(Debug, Clone, Copy, PartialEq, Eq, Structural)]
pub enum ConfigError {
    /// The subnet at this position of the list is not one.
    Subnet(usize),
}

/// The given value, or the default where none is given.
pub open spec fn or_default(given: Option<String>, default: Seq<char>) -> Seq<char> {
    match given {
        Some(path) => path@,
        None => default,
    }
}

impl Config {
    /// Puts the settings together: each subnet is read from its text, and
    /// a setting that is not given takes its default. The first text that
    /// is no subnet is the error.
    pub fn assemble(
        local_subnets: &Vec<Vec<u8>>,
        wan_interface: String,
        conntrack_file: Option<String>,
        device_file: Option<String>,
        leases_file: Option<String>,
        retain_data: Option<u64>,
    ) -> (config: Result<Config, ConfigError>)
        ensures
            config matches Ok(made) ==> {
                &&& made.local_subnets@.len() == local_subnets@.len()
                &&& forall|i: int|
                    0 <= i < local_subnets@.len() ==> subnet_of(#[trigger] local_subnets@[i]@)
                        == Some(made.local_subnets@[i]@) && made.local_subnets@[i].wf()
                &&& made.wan_interface@ == wan_interface@
                &&& made.conntrack_file@ == or_default(conntrack_file, "/proc/net/nf_conntrack"@)
                &&& made.device_file@ == or_default(device_file, "/proc/net/dev"@)
                &&& made.leases_file@ == or_default(leases_file, "/var/lib/misc/dnsmasq.leases"@)
                &&& made.retain_data == match retain_data {
                    Some(retain) => retain,
                    None => 300_000,
                }
            },
            config matches Err(ConfigError::Subnet(at)) ==> at < local_subnets@.len() && subnet_of(
                local_subnets@[at as int]@,
            ).is_none() && forall|k: int|
                0 <= k < at ==> subnet_of(#[trigger] local_subnets@[k]@).is_some(),
            config.is_ok() <==> forall|i: int|
                0 <= i < local_subnets@.len() ==> subnet_of(#[trigger] local_subnets@[i]@).is_some(),
    {
        let mut subnets: Vec<Subnet> = Vec::new();
        let mut i: usize = 0;
        while i < local_subnets.len()
            invariant
                i <= local_subnets@.len(),
                subnets@.len() == i,
                forall|k: int|
                    0 <= k < i ==> subnet_of(#[trigger] local_subnets@[k]@) == Some(subnets@[k]@)
                        && subnets@[k].wf(),
            decreases local_subnets@.len() - i,
        {
            match Subnet::from_text(local_subnets[i].as_slice()) {
                Some(subnet) => {
                    subnets.push(subnet);
                },
                None => {
                    return Err(ConfigError::Subnet(i));
                },
            }
            i += 1;
        }
        Ok(
            Config {
                local_subnets: subnets,
                wan_interface,
                conntrack_file: match conntrack_file {
                    Some(path) => path,
                    None => default_conntrack_file(),
                },
                device_file: match device_file {
                    Some(path) => path,
                    None => default_device_file(),
                },
                leases_file: match leases_file {
                    Some(path) => path,
                    None => default_lease_file(),
                },
                retain_data: match retain_data {
                    Some(retain) => retain,
                    None => default_retain_data(),
                },
            },
        )
    }
}

} // verus!
