//! Subnets of local hosts, given by the leading octets or segments of their
//! addresses.

use crate::common::addr::{octet, octet_at, segment, segment_at, IpAddress};
use crate::common::text::{spell, spelled, Radix, COLON, DOT};
use vstd::prelude::*;

verus! {

/// A prefix of whole octets of IPv4 addresses, or of whole segments of IPv6
/// addresses.
#[derive(Clone, Debug, PartialEq, Eq)]
pub enum Subnet {
    V4(Vec<u8>),
    V6(Vec<u16>),
}

/// Whether the IPv4 address `bits` starts with the octets of `prefix`.
pub open spec fn has_octets(bits: u32, prefix: Seq<u8>) -> bool {
    prefix.len() <= 4 && forall|i: int| 0 <= i < prefix.len() ==> octet(bits, i) == #[trigger] prefix[i]
}

/// Whether the IPv6 address `bits` starts with the segments of `prefix`.
pub open spec fn has_segments(bits: u128, prefix: Seq<u16>) -> bool {
    prefix.len() <= 8 && forall|i: int|
        0 <= i < prefix.len() ==> segment(bits, i) == #[trigger] prefix[i]
}

fn starts_with_octets(bits: u32, prefix: &Vec<u8>) -> (starts: bool)
    ensures
        starts == has_octets(bits, prefix@),
{
    if prefix.len() > 4 {
        return false;
    }
    let mut i: usize = 0;
    while i < prefix.len()
        invariant
            i <= prefix@.len() <= 4,
            forall|k: int| 0 <= k < i ==> octet(bits, k) == #[trigger] prefix@[k],
        decreases prefix@.len() - i,
    {
        if octet_at(bits, i) != prefix[i] {
            return false;
        }
        i += 1;
    }
    true
}

fn starts_with_segments(bits: u128, prefix: &Vec<u16>) -> (starts: bool)
    ensures
        starts == has_segments(bits, prefix@),
{
    if prefix.len() > 8 {
        return false;
    }
    let mut i: usize = 0;
    while i < prefix.len()
        invariant
            i <= prefix@.len() <= 8,
            forall|k: int| 0 <= k < i ==> segment(bits, k) == #[trigger] prefix@[k],
        decreases prefix@.len() - i,
    {
        if segment_at(bits, i) != prefix[i] {
            return false;
        }
        i += 1;
    }
    true
}

/// The content of a subnet: its leading octets or segments.
pub enum Prefix {
    V4(Seq<u8>),
    V6(Seq<u16>),
}

impl Prefix {
    /// Whether the address starts with the prefix: it is of the prefix's
    /// family, and its leading octets or segments are those of the prefix.
    pub open spec fn contains(self, addr: IpAddress) -> bool {
        match (self, addr) {
            (Prefix::V4(prefix), IpAddress::V4(bits)) => has_octets(bits, prefix),
            (Prefix::V6(prefix), IpAddress::V6(bits)) => has_segments(bits, prefix),
            _ => false,
        }
    }
}

/// The text of the numbers `values` in base `base`, the separator `mark`
/// behind each.
pub open spec fn marked(values: Seq<nat>, base: nat, mark: u8) -> Seq<u8>
    decreases values.len(),
{
    if values.len() == 0 {
        Seq::empty()
    } else {
        marked(values.drop_last(), base, mark) + spelled(values.last(), base).push(mark)
    }
}

impl Prefix {
    /// The text form of the prefix: its octets in decimal with a `.` behind
    /// each, or its segments in hexadecimal with a `:` behind each.
    pub open spec fn text(self) -> Seq<u8> {
        match self {
            Prefix::V4(prefix) => marked(prefix.map_values(|v: u8| v as nat), 10, DOT),
            Prefix::V6(prefix) => marked(prefix.map_values(|v: u16| v as nat), 16, COLON),
        }
    }
}

impl View for Subnet {
    type V = Prefix;

    open spec fn view(&self) -> Prefix {
        match *self {
            Subnet::V4(prefix) => Prefix::V4(prefix@),
            Subnet::V6(prefix) => Prefix::V6(prefix@),
        }
    }
}

impl Subnet {
    /// A prefix of one to three octets, or of one to seven segments.
    pub open spec fn wf(&self) -> bool {
        match *self {
            Subnet::V4(prefix) => 1 <= prefix@.len() <= 3,
            Subnet::V6(prefix) => 1 <= prefix@.len() <= 7,
        }
    }

    /// Writes the subnet in its text form.
    pub fn to_text(&self) -> (text: Vec<u8>)
        ensures
            text@ == self@.text(),
    {
        let mut text: Vec<u8> = Vec::new();
        match self {
            Subnet::V4(prefix) => {
                let ghost values = prefix@.map_values(|v: u8| v as nat);
                let mut i: usize = 0;
                while i < prefix.len()
                    invariant
                        i <= prefix@.len(),
                        values == prefix@.map_values(|v: u8| v as nat),
                        text@ == marked(values.take(i as int), 10, DOT),
                    decreases prefix@.len() - i,
                {
                    let ghost before = text@;
                    spell(&mut text, prefix[i] as u64, Radix::Decimal);
                    text.push(DOT);
                    proof {
                        assert(values.take(i + 1).drop_last() =~= values.take(i as int));
                    }
                    i += 1;
                }
                proof {
                    assert(values.take(i as int) =~= values);
                }
            },
            Subnet::V6(prefix) => {
                let ghost values = prefix@.map_values(|v: u16| v as nat);
                let mut i: usize = 0;
                while i < prefix.len()
                    invariant
                        i <= prefix@.len(),
                        values == prefix@.map_values(|v: u16| v as nat),
                        text@ == marked(values.take(i as int), 16, COLON),
                    decreases prefix@.len() - i,
                {
                    let ghost before = text@;
                    spell(&mut text, prefix[i] as u64, Radix::Hex);
                    text.push(COLON);
                    proof {
                        assert(values.take(i + 1).drop_last() =~= values.take(i as int));
                    }
                    i += 1;
                }
                proof {
                    assert(values.take(i as int) =~= values);
                }
            },
        }
        text
    }

    /// Whether `addr` lies in the subnet.
    pub fn contains(&self, addr: &IpAddress) -> (inside: bool)
        ensures
            inside == self@.contains(*addr),
    {
        match (self, addr) {
            (Subnet::V4(prefix), IpAddress::V4(bits)) => starts_with_octets(*bits, prefix),
            (Subnet::V6(prefix), IpAddress::V6(bits)) => starts_with_segments(*bits, prefix),
            _ => false,
        }
    }
}

} // verus!
