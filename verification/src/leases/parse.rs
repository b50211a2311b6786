//! Reader of the lease file: one lease on each line, with its expiry, the
//! host's hardware address, its address, its name and its client id.

use crate::common::parse::{ip_addr, spec_ip_addr};
use crate::common::text::{
    at, byte_is, next_line, spec_line, spec_token, token, ByteClass, COLON, STAR,
};
use crate::leases::model::{Lease, LeaseInfo};
use vstd::prelude::*;
use vstd::slice::{slice_subrange, slice_to_vec};

verus! {

/// End of a host name at `pos`: a `*`, or a run of letters, digits, `-`
/// and `_`.
pub open spec fn spec_hostname(s: Seq<u8>, pos: int) -> Option<int> {
    if byte_is(s, pos, STAR) {
        Some(pos + 1)
    } else {
        spec_token(s, pos, ByteClass::Host)
    }
}

/// End of the groups of hexadecimal digits, a `:` before each, that follow
/// from `pos` on.
pub open spec fn spec_mac_rest(s: Seq<u8>, pos: int) -> int
    decreases s.len() - pos,
{
    if byte_is(s, pos, COLON) {
        match spec_token(s, pos + 1, ByteClass::HexDigit) {
            Some(end) => if pos < end <= s.len() {
                spec_mac_rest(s, end)
            } else {
                pos
            },
            None => pos,
        }
    } else {
        pos
    }
}

/// End of a hardware address or client id at `pos`: groups of hexadecimal
/// digits with a `:` between them.
pub open spec fn spec_mac_like(s: Seq<u8>, pos: int) -> Option<int> {
    match spec_token(s, pos, ByteClass::HexDigit) {
        Some(end) => Some(spec_mac_rest(s, end)),
        None => None,
    }
}

/// What stands at `pos` behind at least one space or tab, read by `read`.
pub open spec fn spec_after_space(s: Seq<u8>, pos: int, read: spec_fn(Seq<u8>, int) -> Option<int>)
    -> Option<(int, int)> {
    match spec_token(s, pos, ByteClass::Space) {
        Some(from) => match read(s, from) {
            Some(end) => Some((from, end)),
            None => None,
        },
        None => None,
    }
}

/// The lease that one line holds, and where the reading ended: the expiry
/// in digits, a hardware address, the address, the host's name and the
/// client id, with spaces or tabs between them.
pub open spec fn spec_parse_line(s: Seq<u8>) -> Option<(LeaseInfo, int)> {
    match spec_token(s, 0, ByteClass::Digit) {
        Some(p1) => match spec_after_space(s, p1, |s: Seq<u8>, pos: int| spec_mac_like(s, pos)) {
            Some((_, p2)) => match spec_token(s, p2, ByteClass::Space) {
                Some(p3) => match spec_ip_addr(s, p3) {
                    Some((addr, p4)) => match spec_after_space(
                        s,
                        p4,
                        |s: Seq<u8>, pos: int| spec_hostname(s, pos),
                    ) {
                        Some((name_start, name_end)) => match spec_after_space(
                            s,
                            name_end,
                            |s: Seq<u8>, pos: int| spec_mac_like(s, pos),
                        ) {
                            Some((id_start, id_end)) => Some(
                                (
                                    LeaseInfo {
                                        name: s.subrange(name_start, name_end),
                                        addr,
                                        client_id: s.subrange(id_start, id_end),
                                    },
                                    id_end,
                                ),
                            ),
                            None => None,
                        },
                        None => None,
                    },
                    None => None,
                },
                None => None,
            },
            None => None,
        },
        None => None,
    }
}

/// Reads a host name: see [`spec_hostname`].
fn hostname(input: &[u8], pos: usize) -> (found: Option<usize>)
    ensures
        found matches Some(end) ==> spec_hostname(input@, pos as int) == Some(end as int) && pos
            < end <= input@.len(),
        found.is_none() ==> spec_hostname(input@, pos as int).is_none(),
{
    if at(input, pos, STAR) {
        Some(pos + 1)
    } else {
        token(input, pos, ByteClass::Host)
    }
}

/// Reads a hardware address or client id: see [`spec_mac_like`].
fn mac_like(input: &[u8], pos: usize) -> (found: Option<usize>)
    ensures
        found matches Some(end) ==> spec_mac_like(input@, pos as int) == Some(end as int) && pos
            < end <= input@.len(),
        found.is_none() ==> spec_mac_like(input@, pos as int).is_none(),
{
    let first = match token(input, pos, ByteClass::HexDigit) {
        Some(end) => end,
        None => {
            return None;
        },
    };
    let mut end = first;
    loop
        invariant
            pos < first <= end <= input@.len(),
            spec_mac_rest(input@, first as int) == spec_mac_rest(input@, end as int),
        ensures
            pos < end <= input@.len(),
            spec_mac_rest(input@, first as int) == end,
        decreases input@.len() - end,
    {
        if !at(input, end, COLON) {
            break ;
        }
        match token(input, end + 1, ByteClass::HexDigit) {
            Some(next) => {
                end = next;
            },
            None => {
                break ;
            },
        }
    }
    Some(end)
}

/// Reads one line of the lease file.
pub fn parse_line(input: &[u8]) -> (found: Option<(Lease, usize)>)
    ensures
        found matches Some((lease, end)) ==> spec_parse_line(input@) == Some((lease@, end as int))
            && end <= input@.len(),
        found.is_none() ==> spec_parse_line(input@).is_none(),
{
    let p1 = match token(input, 0, ByteClass::Digit) {
        Some(end) => end,
        None => {
            return None;
        },
    };
    let p2 = match token(input, p1, ByteClass::Space) {
        Some(from) => match mac_like(input, from) {
            Some(end) => end,
            None => {
                return None;
            },
        },
        None => {
            return None;
        },
    };
    let p3 = match token(input, p2, ByteClass::Space) {
        Some(end) => end,
        None => {
            return None;
        },
    };
    let (addr, p4) = match ip_addr(input, p3) {
        Some(read) => read,
        None => {
            return None;
        },
    };
    let (name_start, name_end) = match token(input, p4, ByteClass::Space) {
        Some(from) => match hostname(input, from) {
            Some(end) => (from, end),
            None => {
                return None;
            },
        },
        None => {
            return None;
        },
    };
    let (id_start, id_end) = match token(input, name_end, ByteClass::Space) {
        Some(from) => match mac_like(input, from) {
            Some(end) => (from, end),
            None => {
                return None;
            },
        },
        None => {
            return None;
        },
    };
    Some(
        (
            Lease {
                name: slice_to_vec(slice_subrange(input, name_start, name_end)),
                addr,
                client_id: slice_to_vec(slice_subrange(input, id_start, id_end)),
            },
            id_end,
        ),
    )
}

/// The leases of all lines of `s` from `pos` on; a line that cannot be
/// read gives none.
pub open spec fn spec_leases(s: Seq<u8>, pos: int) -> Seq<LeaseInfo>
    decreases s.len() - pos,
{
    if 0 <= pos < s.len() {
        let (end, next) = spec_line(s, pos);
        let leases = match spec_parse_line(s.subrange(pos, end)) {
            Some((lease, _)) => seq![lease],
            None => Seq::empty(),
        };
        if pos < next <= s.len() {
            leases + spec_leases(s, next)
        } else {
            leases
        }
    } else {
        Seq::empty()
    }
}

/// Reads the lease file line by line and folds the lease of every line
/// that can be read into `initial`, in order, by calling `visitor`.
pub fn parse<V, C>(input: &[u8], initial: C, visitor: V) -> (out: C) where V: Fn(C, Lease) -> C
    requires
        forall|c: C, lease: Lease| call_requires(visitor, (c, lease)),
    ensures
        exists|leases: Seq<Lease>, trace: Seq<C>|
            #![trigger leases.len(), trace.len()]
            leases.map_values(|lease: Lease| lease@) == spec_leases(input@, 0) && trace.len()
                == leases.len() + 1 && trace[0] == initial && trace.last() == out && forall|i: int|
                0 <= i < leases.len() ==> call_ensures(visitor, (trace[i], leases[i]), #[trigger] trace[i
                    + 1]),
{
    let ghost all = spec_leases(input@, 0);
    let ghost mut visited: Seq<Lease> = Seq::empty();
    let ghost mut trace: Seq<C> = seq![initial];
    let mut acc = initial;
    let mut pos: usize = 0;
    while pos < input.len()
        invariant
            pos <= input@.len(),
            forall|c: C, lease: Lease| call_requires(visitor, (c, lease)),
            all == visited.map_values(|lease: Lease| lease@) + spec_leases(input@, pos as int),
            trace.len() == visited.len() + 1,
            trace[0] == initial,
            trace.last() == acc,
            forall|i: int|
                0 <= i < visited.len() ==> call_ensures(
                    visitor,
                    (trace[i], visited[i]),
                    #[trigger] trace[i + 1],
                ),
        decreases input@.len() - pos,
    {
        let (end, next) = next_line(input, pos);
        let text = slice_subrange(input, pos, end);
        match parse_line(text) {
            Some((lease, _)) => {
                proof {
                    visited = visited.push(lease);
                }
                acc = visitor(acc, lease);
                proof {
                    trace = trace.push(acc);
                }
            },
            None => {},
        }
        pos = next;
    }
    acc
}

} // verus!
