//! A map keyed by host addresses: one hash map for each address family,
//! keyed by the address's bits.

use crate::common::addr::IpAddress;
use std::collections::HashMap;
use vstd::prelude::*;
use vstd::std_specs::hash::spec_keys_iter;
use vstd::std_specs::iter::IteratorSpec;

verus! {

broadcast use vstd::std_specs::hash::group_hash_axioms;

#[derive(Debug)]
pub struct AddrMap<V> {
    v4: HashMap<u32, V>,
    v6: HashMap<u128, V>,
}

impl<V> View for AddrMap<V> {
    type V = Map<IpAddress, V>;

    closed spec fn view(&self) -> Map<IpAddress, V> {
        Map::new(
            |addr: IpAddress|
                match addr {
                    IpAddress::V4(bits) => self.v4@.contains_key(bits),
                    IpAddress::V6(bits) => self.v6@.contains_key(bits),
                },
            |addr: IpAddress|
                match addr {
                    IpAddress::V4(bits) => self.v4@[bits],
                    IpAddress::V6(bits) => self.v6@[bits],
                },
        )
    }
}

impl<V> AddrMap<V> {
    pub fn new() -> (map: Self)
        ensures
            map@ == Map::<IpAddress, V>::empty(),
    {
        let map = AddrMap { v4: HashMap::new(), v6: HashMap::new() };
        map
    }

    pub fn contains_key(&self, addr: &IpAddress) -> (held: bool)
        ensures
            held == self@.contains_key(*addr),
    {
        match addr {
            IpAddress::V4(bits) => self.v4.contains_key(bits),
            IpAddress::V6(bits) => self.v6.contains_key(bits),
        }
    }

    pub fn get(&self, addr: &IpAddress) -> (found: Option<&V>)
        ensures
            found matches Some(value) ==> self@.contains_key(*addr) && *value == self@[*addr],
            found.is_none() ==> !self@.contains_key(*addr),
    {
        match addr {
            IpAddress::V4(bits) => self.v4.get(bits),
            IpAddress::V6(bits) => self.v6.get(bits),
        }
    }

    /// Puts `value` under `addr`, in place of what was there.
    pub fn insert(&mut self, addr: IpAddress, value: V)
        ensures
            final(self)@ == old(self)@.insert(addr, value),
    {
        match addr {
            IpAddress::V4(bits) => {
                self.v4.insert(bits, value);
            },
            IpAddress::V6(bits) => {
                self.v6.insert(bits, value);
            },
        }
    }

    /// Takes out what is held under `addr`, if anything.
    pub fn remove(&mut self, addr: &IpAddress) -> (taken: Option<V>)
        ensures
            final(self)@ == old(self)@.remove(*addr),
            taken matches Some(value) ==> old(self)@.contains_key(*addr) && value == old(self)@[*addr],
            taken.is_none() ==> !old(self)@.contains_key(*addr),
    {
        let taken = match addr {
            IpAddress::V4(bits) => self.v4.remove(bits),
            IpAddress::V6(bits) => self.v6.remove(bits),
        };
        taken
    }

    /// The addresses held, each once, in no particular order.
    pub fn keys(&self) -> (keys: Vec<IpAddress>)
        ensures
            keys@.to_set() == self@.dom(),
            keys@.no_duplicates(),
    {
        let mut keys: Vec<IpAddress> = Vec::new();
        for bits in iter: self.v4.keys()
            invariant
                keys@.len() == iter.index(),
                forall|i: int|
                    0 <= i < keys@.len() ==> keys@[i] == IpAddress::V4(*(#[trigger] iter.seq()[i])),
        {
            keys.push(IpAddress::V4(*bits));
        }
        let ghost v4_count = keys@.len();
        let ghost v4_keys = spec_keys_iter(&self.v4).remaining().unref();
        for bits in iter: self.v6.keys()
            invariant
                keys@.len() == v4_count + iter.index(),
                v4_count == v4_keys.len(),
                forall|i: int| 0 <= i < v4_count ==> #[trigger] keys@[i] == IpAddress::V4(v4_keys[i]),
                forall|i: int|
                    0 <= i < iter.index() ==> keys@[v4_count + i] == IpAddress::V6(
                        *(#[trigger] iter.seq()[i]),
                    ),
        {
            keys.push(IpAddress::V6(*bits));
        }
        let ghost v6_keys = spec_keys_iter(&self.v6).remaining().unref();
        proof {
            assert forall|addr: IpAddress| keys@.to_set().contains(addr) <==> self@.dom().contains(
                addr,
            ) by {
                match addr {
                    IpAddress::V4(b) => {
                        if self.v4@.dom().contains(b) {
                            let i = choose|i: int| 0 <= i < v4_keys.len() && v4_keys[i] == b;
                            assert(keys@[i] == addr);
                        }
                        if keys@.contains(addr) {
                            let i = choose|i: int| 0 <= i < keys@.len() && keys@[i] == addr;
                            if i >= v4_count {
                                assert(keys@[v4_count + (i - v4_count)] == IpAddress::V6(
                                    v6_keys[i - v4_count],
                                ));
                            }
                        }
                    },
                    IpAddress::V6(b) => {
                        if self.v6@.dom().contains(b) {
                            let i = choose|i: int| 0 <= i < v6_keys.len() && v6_keys[i] == b;
                        }
                        if keys@.contains(addr) {
                            let i = choose|i: int| 0 <= i < keys@.len() && keys@[i] == addr;
                            if i >= v4_count {
                                assert(v6_keys.contains(v6_keys[i - v4_count]));
                            }
                        }
                    },
                }
            }
            assert forall|i: int, j: int|
                0 <= i < keys@.len() && 0 <= j < keys@.len() && i != j implies keys@[i] != keys@[j] by {
                if i >= v4_count {
                    assert(keys@[v4_count + (i - v4_count)] == IpAddress::V6(v6_keys[i - v4_count]));
                }
                if j >= v4_count {
                    assert(keys@[v4_count + (j - v4_count)] == IpAddress::V6(v6_keys[j - v4_count]));
                }
            }
        }
        keys
    }
}

} // verus!
