//! Reader of the per-interface counters: two lines of headings, then one
//! line for each interface with its name, eight receive counters and eight
//! transmit counters.

use crate::common::text::{
    at, byte_is, next_line, read_number_at, run_end, scan, spaced, spec_line, spec_number,
    spec_spaced, spec_token, token, ByteClass, Radix, COLON,
};
use crate::minivec::{is_visit_trace, visits};
use vstd::prelude::*;
use vstd::slice::slice_subrange;

verus! {

/// The counters of one interface that are of use: bytes and packets, in
/// and out.
#[derive(Debug, Clone, Copy)]
pub struct InterfaceStats<'a> {
    pub interface: &'a [u8],
    pub receive_bytes: u64,
    pub receive_packets: u64,
    pub transmit_bytes: u64,
    pub transmit_packets: u64,
}

/// The content of the counters of one interface.
pub struct Stats {
    pub interface: Seq<u8>,
    pub receive_bytes: u64,
    pub receive_packets: u64,
    pub transmit_bytes: u64,
    pub transmit_packets: u64,
}

impl<'a> View for InterfaceStats<'a> {
    type V = Stats;

    open spec fn view(&self) -> Stats {
        Stats {
            interface: self.interface@,
            receive_bytes: self.receive_bytes,
            receive_packets: self.receive_packets,
            transmit_bytes: self.transmit_bytes,
            transmit_packets: self.transmit_packets,
        }
    }
}

/// A decimal number that fits 64 bits, behind at least one space or tab.
pub open spec fn spec_counter(s: Seq<u8>, pos: int) -> Option<(u64, int)> {
    match spec_token(s, pos, ByteClass::Space) {
        Some(from) => match spec_number(s, from, 10, u64::MAX as nat) {
            Some((n, end)) => Some((n as u64, end)),
            None => None,
        },
        None => None,
    }
}

/// The position behind `count` runs of digits, each behind at least one
/// space or tab.
pub open spec fn spec_skipped(s: Seq<u8>, pos: int, count: nat) -> Option<int>
    decreases count,
{
    if count == 0 {
        Some(pos)
    } else {
        match spec_spaced(s, pos, ByteClass::Digit) {
            Some((_, end)) => spec_skipped(s, end, (count - 1) as nat),
            None => None,
        }
    }
}

/// The counters that one line holds, and where the reading ended: the
/// interface's name, which may stand behind spaces, and a `:`; the bytes
/// and packets received; six numbers that are passed over; the bytes and
/// packets sent; and six more numbers that are passed over.
pub open spec fn spec_parse_line(s: Seq<u8>) -> Option<(Stats, int)> {
    let start = run_end(s, 0, ByteClass::Space);
    match spec_token(s, start, ByteClass::Alphanumeric) {
        Some(name_end) => if byte_is(s, name_end, COLON) {
            match spec_counter(s, name_end + 1) {
                Some((receive_bytes, p1)) => match spec_counter(s, p1) {
                    Some((receive_packets, p2)) => match spec_skipped(s, p2, 6) {
                        Some(p3) => match spec_counter(s, p3) {
                            Some((transmit_bytes, p4)) => match spec_counter(s, p4) {
                                Some((transmit_packets, p5)) => match spec_skipped(s, p5, 6) {
                                    Some(end) => Some(
                                        (
                                            Stats {
                                                interface: s.subrange(start, name_end),
                                                receive_bytes,
                                                receive_packets,
                                                transmit_bytes,
                                                transmit_packets,
                                            },
                                            end,
                                        ),
                                    ),
                                    None => None,
                                },
                                None => None,
                            },
                            None => None,
                        },
                        None => None,
                    },
                    None => None,
                },
                None => None,
            }
        } else {
            None
        },
        None => None,
    }
}

fn counter(input: &[u8], pos: usize) -> (found: Option<(u64, usize)>)
    ensures
        found matches Some((n, end)) ==> spec_counter(input@, pos as int) == Some((n, end as int))
            && pos < end <= input@.len(),
        found.is_none() ==> spec_counter(input@, pos as int).is_none(),
{
    match token(input, pos, ByteClass::Space) {
        Some(from) => read_number_at(input, from, Radix::Decimal, u64::MAX),
        None => None,
    }
}

fn skipped(input: &[u8], pos: usize, count: usize) -> (found: Option<usize>)
    requires
        pos <= input@.len(),
    ensures
        found matches Some(end) ==> spec_skipped(input@, pos as int, count as nat) == Some(
            end as int,
        ) && pos <= end <= input@.len(),
        found.is_none() ==> spec_skipped(input@, pos as int, count as nat).is_none(),
    decreases count,
{
    if count == 0 {
        return Some(pos);
    }
    match spaced(input, pos, ByteClass::Digit) {
        Some((_, end)) => skipped(input, end, count - 1),
        None => None,
    }
}

/// Reads the counters of one interface from its line.
pub fn parse_line<'a>(input: &'a [u8]) -> (found: Option<(InterfaceStats<'a>, usize)>)
    ensures
        found matches Some((stats, end)) ==> spec_parse_line(input@) == Some((stats@, end as int))
            && end <= input@.len(),
        found.is_none() ==> spec_parse_line(input@).is_none(),
{
    let start = scan(input, 0, ByteClass::Space);
    let name_end = match token(input, start, ByteClass::Alphanumeric) {
        Some(end) => end,
        None => {
            return None;
        },
    };
    if !at(input, name_end, COLON) {
        return None;
    }
    let (receive_bytes, p1) = match counter(input, name_end + 1) {
        Some(read) => read,
        None => {
            return None;
        },
    };
    let (receive_packets, p2) = match counter(input, p1) {
        Some(read) => read,
        None => {
            return None;
        },
    };
    let p3 = match skipped(input, p2, 6) {
        Some(end) => end,
        None => {
            return None;
        },
    };
    let (transmit_bytes, p4) = match counter(input, p3) {
        Some(read) => read,
        None => {
            return None;
        },
    };
    let (transmit_packets, p5) = match counter(input, p4) {
        Some(read) => read,
        None => {
            return None;
        },
    };
    let end = match skipped(input, p5, 6) {
        Some(end) => end,
        None => {
            return None;
        },
    };
    Some(
        (
            InterfaceStats {
                interface: slice_subrange(input, start, name_end),
                receive_bytes,
                receive_packets,
                transmit_bytes,
                transmit_packets,
            },
            end,
        ),
    )
}

/// The counters of all lines of `s` from `pos` on, `skip` lines of heading
/// left out; a line that cannot be read gives none.
pub open spec fn spec_stats(s: Seq<u8>, pos: int, skip: nat) -> Seq<Stats>
    decreases s.len() - pos,
{
    if 0 <= pos < s.len() {
        let (end, next) = spec_line(s, pos);
        let stats = match spec_parse_line(s.subrange(pos, end)) {
            Some((stats, _)) => if skip == 0 {
                seq![stats]
            } else {
                Seq::empty()
            },
            None => Seq::empty(),
        };
        let left = if skip == 0 {
            0
        } else {
            (skip - 1) as nat
        };
        if pos < next <= s.len() {
            stats + spec_stats(s, next, left)
        } else {
            stats
        }
    } else {
        Seq::empty()
    }
}

/// The number of lines of heading.
pub const HEADINGS: usize = 2;

/// Reads the per-interface counters line by line, the headings left out,
/// and folds the counters of every line that can be read into `initial`,
/// in order, by calling `visitor`.
pub fn parse<'a, V, C>(input: &'a [u8], initial: C, visitor: V) -> (out: C) where
    V: Fn(C, &InterfaceStats<'a>) -> C,

    requires
        forall|c: C, stats: &InterfaceStats<'a>| call_requires(visitor, (c, stats)),
    ensures
        exists|all: Seq<InterfaceStats<'a>>|
            #![trigger visits(visitor, all, initial, out)]
            all.map_values(|e: InterfaceStats<'a>| e@) == spec_stats(input@, 0, HEADINGS as nat)
                && visits(visitor, all, initial, out),
{
    let ghost all = spec_stats(input@, 0, HEADINGS as nat);
    let ghost mut visited: Seq<InterfaceStats<'a>> = Seq::empty();
    let ghost mut trace: Seq<C> = seq![initial];
    let mut acc = initial;
    let mut pos: usize = 0;
    let mut skip: usize = HEADINGS;
    while pos < input.len()
        invariant
            pos <= input@.len(),
            forall|c: C, stats: &InterfaceStats<'a>| call_requires(visitor, (c, stats)),
            all == visited.map_values(|e: InterfaceStats<'a>| e@) + spec_stats(
                input@,
                pos as int,
                skip as nat,
            ),
            is_visit_trace(visitor, visited, initial, trace),
            trace.last() == acc,
        decreases input@.len() - pos,
    {
        let (end, next) = next_line(input, pos);
        let text = slice_subrange(input, pos, end);
        let left = if skip == 0 {
            0
        } else {
            skip - 1
        };
        let found = if skip == 0 {
            parse_line(text)
        } else {
            None
        };
        match found {
            Some((stats, _)) => {
                acc = visitor(acc, &stats);
                proof {
                    visited = visited.push(stats);
                    trace = trace.push(acc);
                }
            },
            None => {},
        }
        skip = left;
        pos = next;
    }
    proof {
        assert(visits(visitor, visited, initial, acc));
    }
    acc
}

} // verus!
