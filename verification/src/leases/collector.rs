//! The leases as of the last reading of the lease file, and their snapshot
//! by address.

use crate::common::addr::IpAddress;
use crate::common::addrmap::AddrMap;
use crate::common::text::next_line;
use crate::config::Config;
use crate::leases::model::{Lease, LeaseInfo};
use crate::leases::parse::{parse_line, spec_leases};
use crate::time::TICK_MILLIS;
use vstd::prelude::*;
use vstd::slice::slice_subrange;

verus! {

/// The lease of `addr` that stands last in `leases`, if there is one.
pub open spec fn latest(leases: Seq<LeaseInfo>, addr: IpAddress) -> Option<LeaseInfo>
    decreases leases.len(),
{
    if leases.len() == 0 {
        None
    } else if leases.last().addr == addr {
        Some(leases.last())
    } else {
        latest(leases.drop_last(), addr)
    }
}

/// The content of `map` at `addr`.
pub open spec fn lease_at(map: Map<IpAddress, Lease>, addr: IpAddress) -> Option<LeaseInfo> {
    if map.contains_key(addr) {
        Some(map[addr]@)
    } else {
        None
    }
}

/// Reads all leases of the lease file `input`, in order; lines that
/// cannot be read are passed over.
pub fn process_leases(input: &[u8]) -> (leases: Vec<Lease>)
    ensures
        leases@.map_values(|lease: Lease| lease@) == spec_leases(input@, 0),
{
    let ghost all = spec_leases(input@, 0);
    let mut leases: Vec<Lease> = Vec::new();
    let mut pos: usize = 0;
    while pos < input.len()
        invariant
            pos <= input@.len(),
            all == leases@.map_values(|lease: Lease| lease@) + spec_leases(input@, pos as int),
        decreases input@.len() - pos,
    {
        let (end, next) = next_line(input, pos);
        let text = slice_subrange(input, pos, end);
        match parse_line(text) {
            Some((lease, _)) => {
                leases.push(lease);
            },
            None => {},
        }
        pos = next;
    }
    leases
}

/// The leases by address: for each address the lease that stands last
/// among those of `leases` for it.
pub fn snapshot(leases: &Vec<Lease>) -> (by_addr: AddrMap<Lease>)
    ensures
        forall|addr: IpAddress| #[trigger]
            lease_at(by_addr@, addr) == latest(leases@.map_values(|lease: Lease| lease@), addr),
{
    let ghost infos = leases@.map_values(|lease: Lease| lease@);
    let mut by_addr: AddrMap<Lease> = AddrMap::new();
    let mut i: usize = 0;
    while i < leases.len()
        invariant
            i <= leases@.len(),
            infos == leases@.map_values(|lease: Lease| lease@),
            forall|addr: IpAddress| #[trigger]
                lease_at(by_addr@, addr) == latest(infos.take(i as int), addr),
        decreases leases@.len() - i,
    {
        proof {
            assert(infos.take(i + 1).drop_last() =~= infos.take(i as int));
        }
        let ghost before = by_addr@;
        let copy = leases[i].clone();
        by_addr.insert(leases[i].addr, copy);
        proof {
            assert forall|addr: IpAddress| #[trigger]
                lease_at(by_addr@, addr) == latest(infos.take(i + 1), addr) by {
                assert(lease_at(before, addr) == latest(infos.take(i as int), addr));
            }
        }
        i += 1;
    }
    proof {
        assert(infos.take(i as int) =~= infos);
    }
    by_addr
}

/// Keeps the leases up to date from the lease file that the settings name.
#[derive(Debug)]
pub struct LeasesCollector {
    config: Config,
    leases: Vec<Lease>,
}

impl LeasesCollector {
    /// The settings of the collector.
    pub closed spec fn spec_config(&self) -> Config {
        self.config
    }

    /// The leases as of the last reading.
    pub closed spec fn spec_leases(&self) -> Seq<LeaseInfo> {
        self.leases@.map_values(|lease: Lease| lease@)
    }

    /// A collector without leases.
    pub fn new(config: Config) -> (collector: LeasesCollector)
        ensures
            collector.spec_config() == config,
            collector.spec_leases() == Seq::<LeaseInfo>::empty(),
    {
        let collector = LeasesCollector { config, leases: Vec::new() };
        collector
    }

    pub fn config(&self) -> (config: &Config)
        ensures
            *config == self.spec_config(),
    {
        &self.config
    }

    /// The leases as of the last reading, in the order of the file.
    pub fn leases(&self) -> (leases: &Vec<Lease>)
        ensures
            leases@.map_values(|lease: Lease| lease@) == self.spec_leases(),
    {
        &self.leases
    }

    /// Takes the leases of the content `input` of the lease file in place
    /// of those held.
    pub fn process_leases_file(&mut self, input: &[u8])
        ensures
            final(self).spec_config() == old(self).spec_config(),
            final(self).spec_leases() == spec_leases(input@, 0),
    {
        self.leases = process_leases(input);
    }

    /// Handles a tick of the timer, for which the file was read: `input`
    /// is its content, or nothing where it could not be read. The leases
    /// of a file that was read take the place of those held; without one
    /// they stay. Returns after how many milliseconds the next tick is
    /// due.
    pub fn handle(&mut self, input: Option<&[u8]>) -> (delay: u64)
        ensures
            final(self).spec_config() == old(self).spec_config(),
            delay == TICK_MILLIS,
            final(self).spec_leases() == match input {
                Some(text) => spec_leases(text@, 0),
                None => old(self).spec_leases(),
            },
    {
        match input {
            Some(text) => self.process_leases_file(text),
            None => {},
        }
        TICK_MILLIS
    }

    /// The leases held, by address: see [`snapshot`].
    pub fn snapshot(&self) -> (by_addr: AddrMap<Lease>)
        ensures
            forall|addr: IpAddress| #[trigger]
                lease_at(by_addr@, addr) == latest(self.spec_leases(), addr),
    {
        snapshot(&self.leases)
    }
}

} // verus!
