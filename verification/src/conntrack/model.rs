//! The traffic of each local host with each of its remote peers.

use crate::common::addr::IpAddress;
use crate::common::addrmap::AddrMap;
use crate::common::counter::{Flow, TrafficCounter, Trafic, BUCKET_MILLIS};
use crate::time::Timestamp;
use vstd::prelude::*;

verus! {

/// A host of a local subnet.
pub type Local = IpAddress;

/// The peer of a local host.
pub type Remote = IpAddress;

/// The content of a table: for each local host, the flow with each of its
/// peers.
pub type Flows = Map<Local, Map<Remote, Flow>>;

#[derive(Debug)]
pub struct Table {
    retain: u64,
    connections: AddrMap<AddrMap<Trafic>>,
}

/// The flows after a counter of the flow between `local` and `remote` was
/// recorded at time `t`, inbound or outbound. A host or a peer that the
/// table did not hold is entered, with a history that starts at `t` and
/// keeps `retain` milliseconds.
pub open spec fn pushed(
    flows: Flows,
    retain: u64,
    t: Timestamp,
    local: Local,
    remote: Remote,
    counter: TrafficCounter,
    inbound: bool,
) -> Flows {
    let remotes = if flows.contains_key(local) {
        flows[local]
    } else {
        Map::empty()
    };
    let flow = if remotes.contains_key(remote) {
        remotes[remote]
    } else {
        Flow::starting_at(t, retain)
    };
    let recorded = if inbound {
        flow.put_in(t, counter)
    } else {
        flow.put_out(t, counter)
    };
    flows.insert(local, remotes.insert(remote, recorded))
}

impl View for Table {
    type V = Flows;

    closed spec fn view(&self) -> Flows {
        Map::new(
            |local: Local| self.connections@.contains_key(local),
            |local: Local|
                Map::new(
                    |remote: Remote| self.connections@[local]@.contains_key(remote),
                    |remote: Remote| self.connections@[local]@[remote]@,
                ),
        )
    }
}

impl Table {
    /// The retention is at least one bucket, and every history is well
    /// formed.
    pub closed spec fn wf(&self) -> bool {
        &&& self.retain >= BUCKET_MILLIS
        &&& self.retain / BUCKET_MILLIS <= usize::MAX
        &&& forall|local: Local, remote: Remote|
            self.connections@.contains_key(local) && #[trigger] self.connections@[local]@.contains_key(
                remote,
            ) ==> self.connections@[local]@[remote].wf()
    }

    /// How many milliseconds of history each flow keeps.
    pub closed spec fn retain(&self) -> u64 {
        self.retain
    }

    /// An empty table whose flows will keep `retain` milliseconds each.
    pub fn new(retain: u64) -> (table: Table)
        requires
            retain >= BUCKET_MILLIS,
            retain / BUCKET_MILLIS <= usize::MAX,
        ensures
            table.wf(),
            table.retain() == retain,
            table@ == Map::<Local, Map<Remote, Flow>>::empty(),
    {
        let table = Table { retain, connections: AddrMap::new() };
        table
    }

    /// Records the counter `bytes`, `packets` that `local` received from
    /// `remote`, as of `timestamp`.
    pub fn push_in(
        &mut self,
        timestamp: Timestamp,
        local: IpAddress,
        remote: IpAddress,
        bytes: u64,
        packets: u64,
    )
        requires
            old(self).wf(),
            timestamp.millis >= i64::MIN + BUCKET_MILLIS,
        ensures
            final(self).wf(),
            final(self).retain() == old(self).retain(),
            final(self)@ == pushed(
                old(self)@,
                old(self).retain(),
                timestamp,
                local,
                remote,
                TrafficCounter { bytes, packets },
                true,
            ),
    {
        self.upsert(timestamp, local, remote, bytes, packets, true);
    }

    /// Records the counter `bytes`, `packets` that `local` sent to
    /// `remote`, as of `timestamp`.
    pub fn push_out(
        &mut self,
        timestamp: Timestamp,
        local: IpAddress,
        remote: IpAddress,
        bytes: u64,
        packets: u64,
    )
        requires
            old(self).wf(),
            timestamp.millis >= i64::MIN + BUCKET_MILLIS,
        ensures
            final(self).wf(),
            final(self).retain() == old(self).retain(),
            final(self)@ == pushed(
                old(self)@,
                old(self).retain(),
                timestamp,
                local,
                remote,
                TrafficCounter { bytes, packets },
                false,
            ),
    {
        self.upsert(timestamp, local, remote, bytes, packets, false);
    }

    /// Whether the table holds the local host `local`.
    pub fn contains(&self, local: &Local) -> (held: bool)
        ensures
            held == self@.contains_key(*local),
    {
        self.connections.contains_key(local)
    }

    /// The traffic between `local` and `remote`, if the table holds it.
    pub fn get(&self, local: &Local, remote: &Remote) -> (found: Option<&Trafic>)
        requires
            self.wf(),
        ensures
            found matches Some(trafic) ==> self@.contains_key(*local) && self@[*local].contains_key(
                *remote,
            ) && trafic@ == self@[*local][*remote] && trafic.wf(),
            found.is_none() ==> !(self@.contains_key(*local) && self@[*local].contains_key(*remote)),
    {
        match self.connections.get(local) {
            Some(remotes) => remotes.get(remote),
            None => None,
        }
    }

    /// The local hosts that the table holds, each once, in no particular
    /// order.
    pub fn locals(&self) -> (locals: Vec<Local>)
        ensures
            locals@.to_set() == self@.dom(),
            locals@.no_duplicates(),
    {
        let locals = self.connections.keys();
        locals
    }

    /// The peers of the local host `local`, each once, in no particular
    /// order; none for a host that the table does not hold.
    pub fn remotes(&self, local: &Local) -> (remotes: Vec<Remote>)
        ensures
            self@.contains_key(*local) ==> remotes@.to_set() == self@[*local].dom(),
            !self@.contains_key(*local) ==> remotes@.len() == 0,
            remotes@.no_duplicates(),
    {
        match self.connections.get(local) {
            Some(peers) => {
                let remotes = peers.keys();
                remotes
            },
            None => Vec::new(),
        }
    }

    /// Removes every local host that is not among `observed`, with all its
    /// flows.
    pub fn prune(&mut self, observed: &Vec<Local>)
        requires
            old(self).wf(),
        ensures
            final(self).wf(),
            final(self).retain() == old(self).retain(),
            final(self)@ == old(self)@.restrict(observed@.to_set()),
    {
        let ghost before = *self;
        let mut kept: AddrMap<AddrMap<Trafic>> = AddrMap::new();
        let mut i: usize = 0;
        while i < observed.len()
            invariant
                i <= observed@.len(),
                self.retain == before.retain,
                kept@ =~= before.connections@.restrict(observed@.take(i as int).to_set()),
                self.connections@ =~= before.connections@.remove_keys(
                    observed@.take(i as int).to_set(),
                ),
            decreases observed@.len() - i,
        {
            proof {
                assert(observed@.take(i + 1) =~= observed@.take(i as int).push(observed@[i as int]));
                observed@.take(i as int).lemma_push_to_set_commute(observed@[i as int]);
            }
            match self.connections.remove(&observed[i]) {
                Some(remotes) => {
                    kept.insert(observed[i], remotes);
                },
                None => {},
            }
            i += 1;
        }
        self.connections = kept;
        proof {
            assert(observed@.take(i as int) =~= observed@);
        }
    }

    /// Finds the traffic between `local` and `remote`, entering what is
    /// missing, and records the counter in it.
    fn upsert(
        &mut self,
        timestamp: Timestamp,
        local: IpAddress,
        remote: IpAddress,
        bytes: u64,
        packets: u64,
        inbound: bool,
    )
        requires
            old(self).wf(),
            timestamp.millis >= i64::MIN + BUCKET_MILLIS,
        ensures
            final(self).wf(),
            final(self).retain() == old(self).retain(),
            final(self)@ == pushed(
                old(self)@,
                old(self).retain(),
                timestamp,
                local,
                remote,
                TrafficCounter { bytes, packets },
                inbound,
            ),
    {
        let ghost before = *self;
        let mut remotes = match self.connections.remove(&local) {
            Some(remotes) => remotes,
            None => AddrMap::new(),
        };
        let mut trafic = match remotes.remove(&remote) {
            Some(trafic) => trafic,
            None => Trafic::starting_at(timestamp, self.retain),
        };
        if inbound {
            trafic.put_in(timestamp, bytes, packets);
        } else {
            trafic.put_out(timestamp, bytes, packets);
        }
        remotes.insert(remote, trafic);
        self.connections.insert(local, remotes);
        proof {
            let after = pushed(
                before@,
                before.retain,
                timestamp,
                local,
                remote,
                TrafficCounter { bytes, packets },
                inbound,
            );
            assert forall|l: Local| #[trigger] self@.contains_key(l) implies self@[l] =~= after[l] by {
                if l == local {
                    assert forall|r: Remote| #[trigger]
                        self@[l].contains_key(r) implies self@[l][r] == after[l][r] by {}
                }
            }
            assert forall|l: Local, r: Remote|
                self.connections@.contains_key(l) && #[trigger] self.connections@[l]@.contains_key(
                    r,
                ) implies self.connections@[l]@[r].wf() by {}
        }
    }
}

} // verus!
