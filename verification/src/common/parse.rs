//! Readers of addresses and subnets in their text forms. Each takes the
//! text and the position to read from, and returns what it read and the
//! position behind it, or nothing where the text does not start with one.

use crate::common::addr::{
    joined, lemma_octets_pack, lemma_segments_pack, octet, pack_octets, pack_segments, segment,
    IpAddress,
};
use crate::common::subnet::{marked, Prefix, Subnet};
use crate::common::text::{
    at, byte_is, digits_of, lemma_reads_spelled, lemma_run_end, lemma_spelled, read_number_at,
    run_end, spec_number, spelled, ByteClass, Radix, COLON, DOT,
};
use vstd::prelude::*;

verus! {

/// A decimal number up to 255 behind a `.`.
pub open spec fn spec_dot_octet(s: Seq<u8>, pos: int) -> Option<(nat, int)> {
    if byte_is(s, pos, DOT) {
        spec_number(s, pos + 1, 10, 255)
    } else {
        None
    }
}

/// Four decimal numbers up to 255 with a `.` between them.
pub open spec fn spec_ipv4_addr(s: Seq<u8>, pos: int) -> Option<(IpAddress, int)> {
    match spec_number(s, pos, 10, 255) {
        Some((a, p1)) => match spec_dot_octet(s, p1) {
            Some((b, p2)) => match spec_dot_octet(s, p2) {
                Some((c, p3)) => match spec_dot_octet(s, p3) {
                    Some((d, end)) => Some(
                        (
                            IpAddress::V4(
                                pack_octets(seq![a as u8, b as u8, c as u8, d as u8]) as u32,
                            ),
                            end,
                        ),
                    ),
                    None => None,
                },
                None => None,
            },
            None => None,
        },
        None => None,
    }
}

fn dot_octet(input: &[u8], pos: usize) -> (found: Option<(u8, usize)>)
    ensures
        found matches Some((value, end)) ==> spec_dot_octet(input@, pos as int) == Some(
            (value as nat, end as int),
        ) && pos < end <= input@.len(),
        found.is_none() ==> spec_dot_octet(input@, pos as int).is_none(),
{
    if !at(input, pos, DOT) {
        return None;
    }
    match read_number_at(input, pos + 1, Radix::Decimal, 255) {
        Some((value, end)) => Some((value as u8, end)),
        None => None,
    }
}

/// Reads an IPv4 address in dotted form.
pub fn ipv4_addr(input: &[u8], pos: usize) -> (found: Option<(IpAddress, usize)>)
    ensures
        found matches Some((addr, end)) ==> spec_ipv4_addr(input@, pos as int) == Some(
            (addr, end as int),
        ) && pos < end <= input@.len(),
        found.is_none() ==> spec_ipv4_addr(input@, pos as int).is_none(),
{
    let (a, p1) = match read_number_at(input, pos, Radix::Decimal, 255) {
        Some(read) => read,
        None => {
            return None;
        },
    };
    let (b, p2) = match dot_octet(input, p1) {
        Some(read) => read,
        None => {
            return None;
        },
    };
    let (c, p3) = match dot_octet(input, p2) {
        Some(read) => read,
        None => {
            return None;
        },
    };
    let (d, end) = match dot_octet(input, p3) {
        Some(read) => read,
        None => {
            return None;
        },
    };
    Some((IpAddress::from_octets(a as u8, b, c, d), end))
}

/// What follows the first segment of an IPv6 address: segments behind a
/// `:` each, the first `::` moving on from the leading segments `head` to
/// the trailing segments `tail`. A `:` that no segment follows spoils the
/// address.
pub open spec fn spec_ipv6_rest(
    s: Seq<u8>,
    pos: int,
    head: Seq<u16>,
    tail: Seq<u16>,
    in_head: bool,
) -> Option<(Seq<u16>, Seq<u16>, int)>
    decreases s.len() - pos,
{
    if byte_is(s, pos, COLON) {
        let gap = in_head && byte_is(s, pos + 1, COLON);
        let from = if gap {
            pos + 2
        } else {
            pos + 1
        };
        match spec_number(s, from, 16, 0xffff) {
            Some((word, end)) => if !(pos < end <= s.len()) {
                None
            } else if in_head && !gap {
                spec_ipv6_rest(s, end, head.push(word as u16), tail, true)
            } else {
                spec_ipv6_rest(s, end, head, tail.push(word as u16), false)
            },
            None => None,
        }
    } else {
        Some((head, tail, pos))
    }
}

/// The eight segments of an address written with the leading segments
/// `head` and the trailing segments `tail`: zeros stand between them.
pub open spec fn spread(head: Seq<u16>, tail: Seq<u16>) -> Seq<u16> {
    Seq::new(
        8,
        |i: int|
            if i < head.len() {
                head[i]
            } else if i >= 8 - tail.len() {
                tail[i - (8 - tail.len())]
            } else {
                0u16
            },
    )
}

/// An IPv6 address: two to eight hexadecimal segments up to `ffff` with a
/// `:` between them, where one `::` may stand for a run of zero segments.
/// With fewer than eight segments and no `::`, the missing ones are zero.
pub open spec fn spec_ipv6_addr(s: Seq<u8>, pos: int) -> Option<(IpAddress, int)> {
    match spec_number(s, pos, 16, 0xffff) {
        Some((first, p1)) => match spec_ipv6_rest(s, p1, seq![first as u16], Seq::empty(), true) {
            Some((head, tail, end)) => if 2 <= head.len() + tail.len() <= 8 {
                Some((IpAddress::V6(pack_segments(spread(head, tail)) as u128), end))
            } else {
                None
            },
            None => None,
        },
        None => None,
    }
}

/// Once more segments were read than an address has, no address comes out.
proof fn lemma_rest_grows(s: Seq<u8>, pos: int, head: Seq<u16>, tail: Seq<u16>, in_head: bool)
    ensures
        spec_ipv6_rest(s, pos, head, tail, in_head) matches Some((h, t, end)) ==> h.len() + t.len()
            >= head.len() + tail.len(),
    decreases s.len() - pos,
{
    if byte_is(s, pos, COLON) {
        let gap = in_head && byte_is(s, pos + 1, COLON);
        let from = if gap {
            pos + 2
        } else {
            pos + 1
        };
        match spec_number(s, from, 16, 0xffff) {
            Some((word, end)) => {
                if pos < end <= s.len() {
                    if in_head && !gap {
                        lemma_rest_grows(s, end, head.push(word as u16), tail, true);
                    } else {
                        lemma_rest_grows(s, end, head, tail.push(word as u16), false);
                    }
                }
            },
            None => {},
        }
    }
}

/// Reads an IPv6 address.
pub fn ipv6_addr(input: &[u8], pos: usize) -> (found: Option<(IpAddress, usize)>)
    ensures
        found matches Some((addr, end)) ==> spec_ipv6_addr(input@, pos as int) == Some(
            (addr, end as int),
        ) && pos < end <= input@.len(),
        found.is_none() ==> spec_ipv6_addr(input@, pos as int).is_none(),
{
    let (first, p1) = match read_number_at(input, pos, Radix::Hex, 0xffff) {
        Some(read) => read,
        None => {
            return None;
        },
    };
    let mut head_segments: Vec<u16> = Vec::new();
    let mut tail_segments: Vec<u16> = Vec::new();
    let mut append_head = true;
    head_segments.push(first as u16);
    let mut at_pos = p1;
    let ghost whole = spec_ipv6_rest(input@, p1 as int, seq![first as u16], Seq::empty(), true);
    while at(input, at_pos, COLON)
        invariant
            pos < at_pos <= input@.len(),
            head_segments@.len() + tail_segments@.len() <= 8,
            head_segments@.len() >= 1,
            spec_number(input@, pos as int, 16, 0xffff) == Some((first as nat, p1 as int)),
            whole == spec_ipv6_rest(input@, p1 as int, seq![first as u16], Seq::empty(), true),
            whole == spec_ipv6_rest(
                input@,
                at_pos as int,
                head_segments@,
                tail_segments@,
                append_head,
            ),
        decreases input@.len() - at_pos,
    {
        let gap = append_head && at(input, at_pos + 1, COLON);
        let from = if gap {
            at_pos + 2
        } else {
            at_pos + 1
        };
        let (word, end) = match read_number_at(input, from, Radix::Hex, 0xffff) {
            Some(read) => read,
            None => {
                return None;
            },
        };
        if head_segments.len() + tail_segments.len() >= 8 {
            proof {
                if append_head && !gap {
                    lemma_rest_grows(
                        input@,
                        end as int,
                        head_segments@.push(word as u16),
                        tail_segments@,
                        true,
                    );
                } else {
                    lemma_rest_grows(
                        input@,
                        end as int,
                        head_segments@,
                        tail_segments@.push(word as u16),
                        false,
                    );
                }
            }
            return None;
        }
        if append_head && !gap {
            head_segments.push(word as u16);
        } else {
            append_head = false;
            tail_segments.push(word as u16);
        }
        at_pos = end;
    }
    if head_segments.len() + tail_segments.len() < 2 {
        return None;
    }
    let mut segments: Vec<u16> = Vec::new();
    let mut i: usize = 0;
    while i < 8
        invariant
            i <= 8,
            segments@.len() == i,
            1 <= head_segments@.len(),
            head_segments@.len() + tail_segments@.len() <= 8,
            forall|k: int| 0 <= k < i ==> segments@[k] == spread(head_segments@, tail_segments@)[k],
        decreases 8 - i,
    {
        let word = if i < head_segments.len() {
            head_segments[i]
        } else if i >= 8 - tail_segments.len() {
            tail_segments[i - (8 - tail_segments.len())]
        } else {
            0
        };
        segments.push(word);
        i += 1;
    }
    let words: [u16; 8] = [
        segments[0],
        segments[1],
        segments[2],
        segments[3],
        segments[4],
        segments[5],
        segments[6],
        segments[7],
    ];
    Some((IpAddress::from_segments(&words), at_pos))
}

/// An address of either family: an IPv4 address where the text starts with
/// one, an IPv6 address else.
pub open spec fn spec_ip_addr(s: Seq<u8>, pos: int) -> Option<(IpAddress, int)> {
    match spec_ipv4_addr(s, pos) {
        Some(found) => Some(found),
        None => spec_ipv6_addr(s, pos),
    }
}

/// Reads an address of either family.
pub fn ip_addr(input: &[u8], pos: usize) -> (found: Option<(IpAddress, usize)>)
    ensures
        found matches Some((addr, end)) ==> spec_ip_addr(input@, pos as int) == Some(
            (addr, end as int),
        ) && pos < end <= input@.len(),
        found.is_none() ==> spec_ip_addr(input@, pos as int).is_none(),
{
    match ipv4_addr(input, pos) {
        Some(found) => Some(found),
        None => ipv6_addr(input, pos),
    }
}

/// One part of a subnet: a number of base `base` up to `max` with the
/// separator `mark` behind it.
pub open spec fn spec_part(s: Seq<u8>, pos: int, base: nat, max: nat, mark: u8) -> Option<
    (nat, int),
> {
    match spec_number(s, pos, base, max) {
        Some((value, end)) => if byte_is(s, end, mark) {
            Some((value, end + 1))
        } else {
            None
        },
        None => None,
    }
}

/// Up to `most` parts in a row, as many as the text holds, and the position
/// behind them.
pub open spec fn spec_parts(s: Seq<u8>, pos: int, base: nat, max: nat, mark: u8, most: nat) -> (
    Seq<nat>,
    int,
)
    decreases most,
{
    if most == 0 {
        (Seq::empty(), pos)
    } else {
        match spec_part(s, pos, base, max, mark) {
            Some((value, next)) => {
                let (others, end) = spec_parts(s, next, base, max, mark, (most - 1) as nat);
                (seq![value] + others, end)
            },
            None => (Seq::empty(), pos),
        }
    }
}

/// The leading octets of an IPv4 subnet: one to three decimal numbers up to
/// 255, a `.` behind each.
pub open spec fn spec_ipv4_subnet(s: Seq<u8>, pos: int) -> Option<(Prefix, int)> {
    let (parts, end) = spec_parts(s, pos, 10, 255, DOT, 3);
    if parts.len() >= 1 {
        Some((Prefix::V4(parts.map_values(|v: nat| v as u8)), end))
    } else {
        None
    }
}

/// The leading segments of an IPv6 subnet: one to seven hexadecimal numbers
/// up to `ffff`, a `:` behind each.
pub open spec fn spec_ipv6_subnet(s: Seq<u8>, pos: int) -> Option<(Prefix, int)> {
    let (parts, end) = spec_parts(s, pos, 16, 0xffff, COLON, 7);
    if parts.len() >= 1 {
        Some((Prefix::V6(parts.map_values(|v: nat| v as u16)), end))
    } else {
        None
    }
}

fn part(input: &[u8], pos: usize, radix: Radix, max: u64, mark: u8) -> (found: Option<
    (u64, usize),
>)
    ensures
        found matches Some((value, end)) ==> spec_part(
            input@,
            pos as int,
            radix.base(),
            max as nat,
            mark,
        ) == Some((value as nat, end as int)) && pos < end <= input@.len() && value <= max,
        found.is_none() ==> spec_part(input@, pos as int, radix.base(), max as nat, mark).is_none(),
{
    match read_number_at(input, pos, radix, max) {
        Some((value, end)) => if at(input, end, mark) {
            Some((value, end + 1))
        } else {
            None
        },
        None => None,
    }
}

/// Reads up to `most` parts: see [`spec_parts`].
fn parts(input: &[u8], pos: usize, radix: Radix, max: u64, mark: u8, most: usize) -> (found: (
    Vec<u64>,
    usize,
))
    ensures
        spec_parts(input@, pos as int, radix.base(), max as nat, mark, most as nat) == (
            found.0@.map_values(|v: u64| v as nat),
            found.1 as int,
        ),
        found.0@.len() <= most,
        forall|i: int| 0 <= i < found.0@.len() ==> #[trigger] found.0@[i] <= max,
        pos <= found.1,
        found.0@.len() >= 1 ==> pos < found.1 <= input@.len(),
    decreases most,
{
    if most == 0 {
        let none: Vec<u64> = Vec::new();
        return (none, pos);
    }
    match part(input, pos, radix, max, mark) {
        Some((value, next)) => {
            let (others, end) = parts(input, next, radix, max, mark, most - 1);
            let mut all: Vec<u64> = Vec::new();
            all.push(value);
            let mut i: usize = 0;
            while i < others.len()
                invariant
                    i <= others@.len(),
                    all@ == seq![value] + others@.take(i as int),
                decreases others@.len() - i,
            {
                all.push(others[i]);
                i += 1;
            }
            (all, end)
        },
        None => {
            let none: Vec<u64> = Vec::new();
            (none, pos)
        },
    }
}

/// Reads the leading octets of an IPv4 subnet.
pub fn ipv4_subnet(input: &[u8], pos: usize) -> (found: Option<(Subnet, usize)>)
    ensures
        found matches Some((subnet, end)) ==> spec_ipv4_subnet(input@, pos as int) == Some(
            (subnet@, end as int),
        ) && subnet.wf() && pos < end <= input@.len(),
        found.is_none() ==> spec_ipv4_subnet(input@, pos as int).is_none(),
{
    let (values, end) = parts(input, pos, Radix::Decimal, 255, DOT, 3);
    if values.len() == 0 {
        return None;
    }
    let mut prefix: Vec<u8> = Vec::new();
    let mut i: usize = 0;
    while i < values.len()
        invariant
            i <= values@.len(),
            prefix@.len() == i,
            forall|k: int| 0 <= k < values@.len() ==> #[trigger] values@[k] <= 255,
            forall|k: int| 0 <= k < i ==> prefix@[k] == values@[k] as u8,
        decreases values@.len() - i,
    {
        prefix.push(values[i] as u8);
        i += 1;
    }
    proof {
        assert(prefix@ =~= values@.map_values(|v: u64| v as nat).map_values(|v: nat| v as u8));
    }
    Some((Subnet::V4(prefix), end))
}

/// Reads the leading segments of an IPv6 subnet.
pub fn ipv6_subnet(input: &[u8], pos: usize) -> (found: Option<(Subnet, usize)>)
    ensures
        found matches Some((subnet, end)) ==> spec_ipv6_subnet(input@, pos as int) == Some(
            (subnet@, end as int),
        ) && subnet.wf() && pos < end <= input@.len(),
        found.is_none() ==> spec_ipv6_subnet(input@, pos as int).is_none(),
{
    let (values, end) = parts(input, pos, Radix::Hex, 0xffff, COLON, 7);
    if values.len() == 0 {
        return None;
    }
    let mut prefix: Vec<u16> = Vec::new();
    let mut i: usize = 0;
    while i < values.len()
        invariant
            i <= values@.len(),
            prefix@.len() == i,
            forall|k: int| 0 <= k < values@.len() ==> #[trigger] values@[k] <= 0xffff,
            forall|k: int| 0 <= k < i ==> prefix@[k] == values@[k] as u16,
        decreases values@.len() - i,
    {
        prefix.push(values[i] as u16);
        i += 1;
    }
    proof {
        assert(prefix@ =~= values@.map_values(|v: u64| v as nat).map_values(|v: nat| v as u16));
    }
    Some((Subnet::V6(prefix), end))
}

/// A subnet of either family: an IPv4 prefix where the text starts with
/// one, an IPv6 prefix else.
pub open spec fn spec_subnet(s: Seq<u8>, pos: int) -> Option<(Prefix, int)> {
    match spec_ipv4_subnet(s, pos) {
        Some(found) => Some(found),
        None => spec_ipv6_subnet(s, pos),
    }
}

/// Reads a subnet of either family.
pub fn subnet(input: &[u8], pos: usize) -> (found: Option<(Subnet, usize)>)
    ensures
        found matches Some((subnet, end)) ==> spec_subnet(input@, pos as int) == Some(
            (subnet@, end as int),
        ) && subnet.wf() && pos < end <= input@.len(),
        found.is_none() ==> spec_subnet(input@, pos as int).is_none(),
{
    match ipv4_subnet(input, pos) {
        Some(found) => Some(found),
        None => ipv6_subnet(input, pos),
    }
}

/// The subnet that `text` starts with, if it starts with one.
pub open spec fn subnet_of(text: Seq<u8>) -> Option<Prefix> {
    match spec_subnet(text, 0) {
        Some((prefix, _)) => Some(prefix),
        None => None,
    }
}

impl Subnet {
    /// Reads the subnet that `text` starts with; what follows it is not
    /// looked at.
    pub fn from_text(text: &[u8]) -> (found: Option<Subnet>)
        ensures
            found matches Some(subnet) ==> subnet.wf() && subnet_of(text@) == Some(subnet@),
            found.is_none() ==> subnet_of(text@).is_none(),
    {
        match subnet(text, 0) {
            Some((subnet, _)) => Some(subnet),
            None => None,
        }
    }
}

/// The text of marked numbers starts with the first number and its mark,
/// and goes on with the text of the others.
pub proof fn lemma_marked_front(values: Seq<nat>, base: nat, mark: u8)
    requires
        values.len() > 0,
    ensures
        marked(values, base, mark) == spelled(values[0], base).push(mark) + marked(
            values.drop_first(),
            base,
            mark,
        ),
    decreases values.len(),
{
    if values.len() == 1 {
        assert(values.drop_last() =~= Seq::<nat>::empty());
        assert(values.drop_first() =~= Seq::<nat>::empty());
    } else {
        lemma_marked_front(values.drop_last(), base, mark);
        assert(values.drop_last().drop_first() =~= values.drop_first().drop_last());
    }
}

/// The parts that a text of marked numbers ends with are read back, all of
/// them where there are no more than `most`.
pub proof fn lemma_reads_marked(
    s: Seq<u8>,
    pos: int,
    values: Seq<nat>,
    base: nat,
    max: nat,
    mark: u8,
    most: nat,
)
    requires
        base == 10 || base == 16,
        !digits_of(base).holds(mark),
        0 <= pos <= s.len(),
        s.subrange(pos, s.len() as int) == marked(values, base, mark),
        values.len() <= most,
        forall|i: int| 0 <= i < values.len() ==> #[trigger] values[i] <= max,
    ensures
        spec_parts(s, pos, base, max, mark, most) == (values, s.len() as int),
    decreases values.len(),
{
    if values.len() == 0 {
        assert(s.subrange(pos, s.len() as int).len() == 0);
    } else {
        let digits = spelled(values[0], base);
        let rest = values.drop_first();
        let next = pos + digits.len() + 1;
        lemma_marked_front(values, base, mark);
        let tail = s.subrange(pos, s.len() as int);
        assert(tail.len() == digits.len() + 1 + marked(rest, base, mark).len());
        assert(s.subrange(pos, pos + digits.len()) =~= digits) by {
            assert forall|i: int| 0 <= i < digits.len() implies s.subrange(
                pos,
                pos + digits.len(),
            )[i] == digits[i] by {}
        }
        assert(s[pos + digits.len()] == mark) by {
            assert(s[pos + digits.len()] == tail[digits.len() as int]);
        }
        lemma_reads_spelled(s, pos, values[0], base, max);
        assert(s.subrange(next, s.len() as int) =~= marked(rest, base, mark)) by {
            assert forall|i: int| 0 <= i < s.len() - next implies s.subrange(
                next,
                s.len() as int,
            )[i] == marked(rest, base, mark)[i] by {
                assert(s[next + i] == tail[digits.len() + 1 + i]);
            }
        }
        lemma_reads_marked(s, next, rest, base, max, mark, (most - 1) as nat);
    }
}

/// A subnet that is written and read again is the same subnet.
pub proof fn lemma_subnet_text_reads_back(prefix: Prefix)
    requires
        match prefix {
            Prefix::V4(octets) => 1 <= octets.len() <= 3,
            Prefix::V6(segments) => 1 <= segments.len() <= 7,
        },
    ensures
        subnet_of(prefix.text()) == Some(prefix),
{
    let s = prefix.text();
    match prefix {
        Prefix::V4(octets) => {
            let values = octets.map_values(|v: u8| v as nat);
            assert(s.subrange(0, s.len() as int) =~= s);
            lemma_reads_marked(s, 0, values, 10, 255, DOT, 3);
            assert(values.map_values(|v: nat| v as u8) =~= octets);
        },
        Prefix::V6(segments) => {
            let values = segments.map_values(|v: u16| v as nat);
            assert(s.subrange(0, s.len() as int) =~= s);
            lemma_reads_marked(s, 0, values, 16, 0xffff, COLON, 7);
            assert(values.map_values(|v: nat| v as u16) =~= segments);
            // No decimal number with a `.` behind it starts the text.
            let digits = spelled(values[0], 16);
            lemma_marked_front(values, 16, COLON);
            lemma_spelled(values[0], 16);
            let end = run_end(s, 0, ByteClass::Digit);
            lemma_run_end(s, 0, ByteClass::Digit);
            assert(end <= digits.len()) by {
                if end > digits.len() {
                    assert(ByteClass::Digit.holds(s[digits.len() as int]));
                }
            }
        },
    }
}

/// The text of the numbers `groups` in base `base`, with `mark` before
/// each.
pub open spec fn behind(groups: Seq<nat>, base: nat, mark: u8) -> Seq<u8>
    decreases groups.len(),
{
    if groups.len() == 0 {
        Seq::empty()
    } else {
        seq![mark] + spelled(groups[0], base) + behind(groups.drop_first(), base, mark)
    }
}

/// One more number at the end adds its mark and its digits to the text.
proof fn lemma_behind_push(groups: Seq<nat>, last: nat, base: nat, mark: u8)
    ensures
        behind(groups.push(last), base, mark) == behind(groups, base, mark).push(mark) + spelled(
            last,
            base,
        ),
    decreases groups.len(),
{
    let grown = groups.push(last);
    if groups.len() == 0 {
        assert(behind(grown, base, mark) == seq![mark] + spelled(last, base) + behind(
            grown.drop_first(),
            base,
            mark,
        ));
    } else {
        lemma_behind_push(groups.drop_first(), last, base, mark);
        assert(grown.drop_first() =~= groups.drop_first().push(last));
    }
}

/// The text of joined numbers is the first number, and then the others
/// with the mark before each.
pub proof fn lemma_joined_front(parts: Seq<nat>, base: nat, mark: u8)
    requires
        parts.len() >= 1,
    ensures
        joined(parts, base, mark) == spelled(parts[0], base) + behind(
            parts.drop_first(),
            base,
            mark,
        ),
    decreases parts.len(),
{
    if parts.len() > 1 {
        let shorter = parts.drop_last();
        lemma_joined_front(shorter, base, mark);
        lemma_behind_push(shorter.drop_first(), parts.last(), base, mark);
        assert(shorter.drop_first().push(parts.last()) =~= parts.drop_first());
    }
}

/// A text that starts with a hexadecimal number and a `:` does not start
/// with an IPv4 address.
proof fn lemma_no_ipv4(s: Seq<u8>, n: nat)
    requires
        spelled(n, 16).len() < s.len(),
        s.subrange(0, spelled(n, 16).len() as int) == spelled(n, 16),
        s[spelled(n, 16).len() as int] == COLON,
    ensures
        spec_ipv4_addr(s, 0).is_none(),
{
    let digits = spelled(n, 16);
    let end = run_end(s, 0, ByteClass::Digit);
    lemma_spelled(n, 16);
    lemma_run_end(s, 0, ByteClass::Digit);
    assert(end <= digits.len());
    if end < digits.len() {
        assert(s[end] == s.subrange(0, digits.len() as int)[end]);
    }
}

/// Where a text ends with numbers that have a mark before each, the first
/// of them stands spelled behind its mark, with no digit behind it, and
/// the others follow.
proof fn lemma_behind_first(s: Seq<u8>, pos: int, groups: Seq<nat>, base: nat, mark: u8)
    requires
        base == 10 || base == 16,
        !digits_of(base).holds(mark),
        0 <= pos <= s.len(),
        groups.len() > 0,
        s.subrange(pos, s.len() as int) == behind(groups, base, mark),
    ensures
        byte_is(s, pos, mark),
        pos + 1 + spelled(groups[0], base).len() <= s.len(),
        s.subrange(pos + 1, pos + 1 + spelled(groups[0], base).len()) == spelled(groups[0], base),
        pos + 1 + spelled(groups[0], base).len() == s.len() || !digits_of(base).holds(
            s[pos + 1 + spelled(groups[0], base).len()],
        ),
        s.subrange(pos + 1 + spelled(groups[0], base).len(), s.len() as int) == behind(
            groups.drop_first(),
            base,
            mark,
        ),
        !byte_is(s, pos + 1, mark),
{
    let tail = s.subrange(pos, s.len() as int);
    let digits = spelled(groups[0], base);
    let rest = groups.drop_first();
    let from = pos + 1;
    let next = from + digits.len();
    lemma_spelled(groups[0], base);
    assert(tail.len() == 1 + digits.len() + behind(rest, base, mark).len());
    assert(s[pos] == mark) by {
        assert(s[pos] == tail[0]);
    }
    assert(s[from] == digits[0]) by {
        assert(s[from] == tail[1]);
    }
    assert(s.subrange(from, next) =~= digits) by {
        assert forall|i: int| 0 <= i < digits.len() implies s.subrange(from, next)[i]
            == digits[i] by {
            assert(s[from + i] == tail[1 + i]);
        }
    }
    assert(s.subrange(next, s.len() as int) =~= behind(rest, base, mark)) by {
        assert forall|i: int| 0 <= i < s.len() - next implies s.subrange(next, s.len() as int)[i]
            == behind(rest, base, mark)[i] by {
            assert(s[next + i] == tail[1 + digits.len() + i]);
        }
    }
    if next < s.len() {
        assert(s[next] == behind(rest, base, mark)[0]);
    }
}

/// The groups that a text ends with, a `:` before each, are read back as
/// further leading segments.
proof fn lemma_reads_colon_groups(s: Seq<u8>, pos: int, groups: Seq<nat>, head: Seq<u16>)
    requires
        0 <= pos <= s.len(),
        s.subrange(pos, s.len() as int) == behind(groups, 16, COLON),
        forall|i: int| 0 <= i < groups.len() ==> #[trigger] groups[i] <= 0xffff,
    ensures
        spec_ipv6_rest(s, pos, head, Seq::empty(), true) == Some(
            (head + groups.map_values(|g: nat| g as u16), Seq::<u16>::empty(), s.len() as int),
        ),
    decreases groups.len(),
{
    if groups.len() == 0 {
        assert(head + groups.map_values(|g: nat| g as u16) =~= head);
    } else {
        let rest = groups.drop_first();
        let next = pos + 1 + spelled(groups[0], 16).len();
        lemma_behind_first(s, pos, groups, 16, COLON);
        lemma_reads_spelled(s, pos + 1, groups[0], 16, 0xffff);
        lemma_reads_colon_groups(s, next, rest, head.push(groups[0] as u16));
        assert(head.push(groups[0] as u16) + rest.map_values(|g: nat| g as u16) =~= head
            + groups.map_values(|g: nat| g as u16));
    }
}

/// The first of the groups that a text ends with, a `.` before each, is
/// read back as an octet.
proof fn lemma_reads_dot_group(s: Seq<u8>, pos: int, groups: Seq<nat>)
    requires
        0 <= pos <= s.len(),
        groups.len() > 0,
        s.subrange(pos, s.len() as int) == behind(groups, 10, DOT),
        groups[0] <= 255,
    ensures
        spec_dot_octet(s, pos) == Some((groups[0], pos + 1 + spelled(groups[0], 10).len())),
        pos + 1 + spelled(groups[0], 10).len() <= s.len(),
        s.subrange(pos + 1 + spelled(groups[0], 10).len(), s.len() as int) == behind(
            groups.drop_first(),
            10,
            DOT,
        ),
{
    lemma_behind_first(s, pos, groups, 10, DOT);
    lemma_reads_spelled(s, pos + 1, groups[0], 10, 255);
}

/// Where a text is a number and then nothing or a mark, the number stands
/// spelled at its start with no digit behind it.
proof fn lemma_joined_first(s: Seq<u8>, parts: Seq<nat>, base: nat, mark: u8)
    requires
        base == 10 || base == 16,
        !digits_of(base).holds(mark),
        parts.len() >= 2,
        s == joined(parts, base, mark),
    ensures
        spelled(parts[0], base).len() < s.len(),
        s.subrange(0, spelled(parts[0], base).len() as int) == spelled(parts[0], base),
        s[spelled(parts[0], base).len() as int] == mark,
        s.subrange(spelled(parts[0], base).len() as int, s.len() as int) == behind(
            parts.drop_first(),
            base,
            mark,
        ),
{
    lemma_joined_front(parts, base, mark);
}

/// An IPv4 address that is written and read again is the same address,
/// and the whole text is read.
pub proof fn lemma_ipv4_text_reads_back(bits: u32)
    ensures
        spec_ipv4_addr(IpAddress::V4(bits).text(), 0) == Some(
            (IpAddress::V4(bits), IpAddress::V4(bits).text().len() as int),
        ),
{
    let addr = IpAddress::V4(bits);
    let s = addr.text();
    let parts = addr.parts();
    let first = spelled(parts[0], 10);
    let g1 = parts.drop_first();
    let g2 = g1.drop_first();
    let g3 = g2.drop_first();
    lemma_joined_first(s, parts, 10, DOT);
    lemma_reads_spelled(s, 0, parts[0], 10, 255);
    let p1: int = first.len() as int;
    lemma_reads_dot_group(s, p1, g1);
    let p2: int = p1 + 1 + spelled(g1[0], 10).len();
    lemma_reads_dot_group(s, p2, g2);
    let p3: int = p2 + 1 + spelled(g2[0], 10).len();
    lemma_reads_dot_group(s, p3, g3);
    lemma_octets_pack(bits);
}

/// An IPv6 address that is written and read again is the same address,
/// and the whole text is read.
pub proof fn lemma_ipv6_text_reads_back(bits: u128)
    ensures
        spec_ip_addr(IpAddress::V6(bits).text(), 0) == Some(
            (IpAddress::V6(bits), IpAddress::V6(bits).text().len() as int),
        ),
{
    let addr = IpAddress::V6(bits);
    let s = addr.text();
    let parts = addr.parts();
    let first = spelled(parts[0], 16);
    lemma_joined_first(s, parts, 16, COLON);
    lemma_no_ipv4(s, parts[0]);
    lemma_reads_spelled(s, 0, parts[0], 16, 0xffff);
    lemma_reads_colon_groups(s, first.len() as int, parts.drop_first(), seq![parts[0] as u16]);
    lemma_segments_pack(bits);
}

/// An address that is written and read again is the same address, and the
/// whole text is read.
pub proof fn lemma_addr_text_reads_back(addr: IpAddress)
    ensures
        spec_ip_addr(addr.text(), 0) == Some((addr, addr.text().len() as int)),
{
    match addr {
        IpAddress::V4(bits) => lemma_ipv4_text_reads_back(bits),
        IpAddress::V6(bits) => lemma_ipv6_text_reads_back(bits),
    }
}

} // verus!
