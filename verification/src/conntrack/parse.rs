//! Reader of connection-tracking records, one line of text each. A line
//! holds a fixed header and then keys with values; each `src=` after the
//! first starts the record of another direction.

use crate::common::addr::IpAddress;
use crate::common::parse::{ip_addr, spec_ip_addr};
use crate::common::text::{
    at, byte_is, next_line, read_number_at, same_bytes, spaced, spec_line, spec_number,
    spec_spaced, spec_token, token, ByteClass, Radix, EQUALS, SPACE, TAB,
};
use crate::minivec::{is_visit_trace, visits, MiniVec};
use vstd::prelude::*;
use vstd::slice::slice_subrange;
use vstd::string::StringSliceAdditionalSpecFns;

verus! {

/// One direction of a tracked connection.
#[derive(Debug, Clone, Copy)]
pub struct ConntrackEntry<'a> {
    pub transport: &'a [u8],
    pub protocol: &'a [u8],
    pub timeout: u64,
    pub src: Option<IpAddress>,
    pub sport: u16,
    pub dst: Option<IpAddress>,
    pub dport: u16,
    pub bytes: u64,
    pub packets: u64,
}

/// The content of an entry.
pub struct Record {
    pub transport: Seq<u8>,
    pub protocol: Seq<u8>,
    pub timeout: u64,
    pub src: Option<IpAddress>,
    pub sport: u16,
    pub dst: Option<IpAddress>,
    pub dport: u16,
    pub bytes: u64,
    pub packets: u64,
}

impl<'a> View for ConntrackEntry<'a> {
    type V = Record;

    open spec fn view(&self) -> Record {
        Record {
            transport: self.transport@,
            protocol: self.protocol@,
            timeout: self.timeout,
            src: self.src,
            sport: self.sport,
            dst: self.dst,
            dport: self.dport,
            bytes: self.bytes,
            packets: self.packets,
        }
    }
}

/// The keys that a record is made from.
#[derive(Debug, Clone, Copy, PartialEq, Eq, Structural)]
pub enum Field {
    Src,
    Dst,
    Sport,
    Dport,
    Bytes,
    Packets,
    Other,
}

/// A key with its value, as far as a record takes it: an address, a
/// number, or anything else.
#[derive(Debug, Clone, Copy, PartialEq, Eq, Structural)]
pub enum Value {
    Addr(Field, IpAddress),
    Number(Field, u64),
    Any,
}

/// The field that the key `key` names.
pub open spec fn spec_field(key: Seq<u8>) -> Field {
    if key == "src".spec_bytes() {
        Field::Src
    } else if key == "dst".spec_bytes() {
        Field::Dst
    } else if key == "sport".spec_bytes() {
        Field::Sport
    } else if key == "dport".spec_bytes() {
        Field::Dport
    } else if key == "bytes".spec_bytes() {
        Field::Bytes
    } else if key == "packets".spec_bytes() {
        Field::Packets
    } else {
        Field::Other
    }
}

/// Whether the value that ended at `pos` is complete: the text ends there,
/// or a space, a tab or `=` follows.
pub open spec fn value_ends(s: Seq<u8>, pos: int) -> bool {
    pos >= s.len() || s[pos] == SPACE || s[pos] == TAB || s[pos] == EQUALS
}

/// The key at `pos` and the position behind its `=`.
pub open spec fn spec_key(s: Seq<u8>, pos: int) -> Option<(Field, int)> {
    match spec_token(s, pos, ByteClass::Key) {
        Some(end) => if byte_is(s, end, EQUALS) {
            Some((spec_field(s.subrange(pos, end)), end + 1))
        } else {
            None
        },
        None => None,
    }
}

/// The key and value at `pos`, and the position behind them: a key with
/// an address, else a key with a decimal number that fits 64 bits, else
/// any run of bytes up to the next space or tab.
pub open spec fn spec_key_value(s: Seq<u8>, pos: int) -> Option<(Value, int)> {
    let addr = match spec_key(s, pos) {
        Some((field, from)) => match spec_ip_addr(s, from) {
            Some((addr, end)) => if value_ends(s, end) {
                Some((Value::Addr(field, addr), end))
            } else {
                None
            },
            None => None,
        },
        None => None,
    };
    let number = match spec_key(s, pos) {
        Some((field, from)) => match spec_number(s, from, 10, u64::MAX as nat) {
            Some((n, end)) => if value_ends(s, end) {
                Some((Value::Number(field, n as u64), end))
            } else {
                None
            },
            None => None,
        },
        None => None,
    };
    if addr.is_some() {
        addr
    } else if number.is_some() {
        number
    } else {
        match spec_token(s, pos, ByteClass::Word) {
            Some(end) => Some((Value::Any, end)),
            None => None,
        }
    }
}

/// The keys with values that follow the one that ended at `pos`, each
/// behind at least one space or tab, and where the last of them ends.
pub open spec fn spec_more_values(s: Seq<u8>, pos: int) -> (Seq<Value>, int)
    decreases s.len() - pos,
{
    match spec_token(s, pos, ByteClass::Space) {
        Some(from) => match spec_key_value(s, from) {
            Some((value, end)) => if pos < end <= s.len() {
                let (others, last) = spec_more_values(s, end);
                (seq![value] + others, last)
            } else {
                (Seq::empty(), pos)
            },
            None => (Seq::empty(), pos),
        },
        None => (Seq::empty(), pos),
    }
}

/// The keys with values from `pos` on, with spaces or tabs between them,
/// and where the last of them ends.
pub open spec fn spec_key_values(s: Seq<u8>, pos: int) -> (Seq<Value>, int) {
    match spec_key_value(s, pos) {
        Some((value, end)) => {
            let (others, last) = spec_more_values(s, end);
            (seq![value] + others, last)
        },
        None => (Seq::empty(), pos),
    }
}

/// The records finished so far and the one being filled, after one more
/// key with its value.
pub open spec fn taken(state: (Seq<Record>, Record), value: Value, blank: Record) -> (
    Seq<Record>,
    Record,
) {
    let (done, current) = state;
    match value {
        Value::Addr(Field::Src, addr) => if current.src.is_some() {
            (done.push(current), Record { src: Some(addr), ..blank })
        } else {
            (done, Record { src: Some(addr), ..current })
        },
        Value::Addr(Field::Dst, addr) => (done, Record { dst: Some(addr), ..current }),
        Value::Number(Field::Sport, n) => (done, Record { sport: (n % 0x1_0000) as u16, ..current }),
        Value::Number(Field::Dport, n) => (done, Record { dport: (n % 0x1_0000) as u16, ..current }),
        Value::Number(Field::Bytes, n) => (done, Record { bytes: n, ..current }),
        Value::Number(Field::Packets, n) => (done, Record { packets: n, ..current }),
        _ => (done, current),
    }
}

/// The records finished and the one being filled after the keys with
/// values of `values`, starting from the empty record `blank`.
pub open spec fn folded(values: Seq<Value>, blank: Record) -> (Seq<Record>, Record)
    decreases values.len(),
{
    if values.len() == 0 {
        (Seq::empty(), blank)
    } else {
        taken(folded(values.drop_last(), blank), values.last(), blank)
    }
}

/// The header of a line: the transport, a number, the protocol, a number
/// and the timeout, with spaces or tabs between them and behind the last.
/// Gives the end of the transport, the bounds of the protocol, the timeout
/// and the position behind the header.
pub open spec fn spec_header(s: Seq<u8>) -> Option<(int, int, int, u64, int)> {
    match spec_token(s, 0, ByteClass::Alphanumeric) {
        Some(transport_end) => match spec_spaced(s, transport_end, ByteClass::Digit) {
            Some((_, p1)) => match spec_spaced(s, p1, ByteClass::Alphanumeric) {
                Some((protocol_start, protocol_end)) => match spec_spaced(
                    s,
                    protocol_end,
                    ByteClass::Digit,
                ) {
                    Some((_, p2)) => match spec_token(s, p2, ByteClass::Space) {
                        Some(p3) => match spec_number(s, p3, 10, u64::MAX as nat) {
                            Some((timeout, p4)) => match spec_token(s, p4, ByteClass::Space) {
                                Some(end) => Some(
                                    (
                                        transport_end,
                                        protocol_start,
                                        protocol_end,
                                        timeout as u64,
                                        end,
                                    ),
                                ),
                                None => None,
                            },
                            None => None,
                        },
                        None => None,
                    },
                    None => None,
                },
                None => None,
            },
            None => None,
        },
        None => None,
    }
}

/// The records of one line, and where the reading ended: the header, then
/// the keys with values folded into records, the last of which is the one
/// that was being filled when the keys ended.
pub open spec fn spec_parse_line(s: Seq<u8>) -> Option<(Seq<Record>, int)> {
    match spec_header(s) {
        Some((transport_end, protocol_start, protocol_end, timeout, from)) => {
            let blank = Record {
                transport: s.subrange(0, transport_end),
                protocol: s.subrange(protocol_start, protocol_end),
                timeout,
                src: None,
                sport: 0,
                dst: None,
                dport: 0,
                bytes: 0,
                packets: 0,
            };
            let (values, end) = spec_key_values(s, from);
            let (done, current) = folded(values, blank);
            Some((done.push(current), end))
        },
        None => None,
    }
}

/// The field that the key from `from` to `to` names.
fn field_of(input: &[u8], from: usize, to: usize) -> (field: Field)
    requires
        from <= to <= input@.len(),
    ensures
        field == spec_field(input@.subrange(from as int, to as int)),
{
    let key = slice_subrange(input, from, to);
    if same_bytes(key, "src".as_bytes()) {
        Field::Src
    } else if same_bytes(key, "dst".as_bytes()) {
        Field::Dst
    } else if same_bytes(key, "sport".as_bytes()) {
        Field::Sport
    } else if same_bytes(key, "dport".as_bytes()) {
        Field::Dport
    } else if same_bytes(key, "bytes".as_bytes()) {
        Field::Bytes
    } else if same_bytes(key, "packets".as_bytes()) {
        Field::Packets
    } else {
        Field::Other
    }
}

fn ends_value(input: &[u8], pos: usize) -> (ends: bool)
    ensures
        ends == value_ends(input@, pos as int),
{
    pos >= input.len() || input[pos] == SPACE || input[pos] == TAB || input[pos] == EQUALS
}

fn key(input: &[u8], pos: usize) -> (found: Option<(Field, usize)>)
    ensures
        found matches Some((field, from)) ==> spec_key(input@, pos as int) == Some(
            (field, from as int),
        ) && pos < from <= input@.len(),
        found.is_none() ==> spec_key(input@, pos as int).is_none(),
{
    match token(input, pos, ByteClass::Key) {
        Some(end) => if at(input, end, EQUALS) {
            Some((field_of(input, pos, end), end + 1))
        } else {
            None
        },
        None => None,
    }
}

/// Reads a key with its value: see [`spec_key_value`].
fn key_value(input: &[u8], pos: usize) -> (found: Option<(Value, usize)>)
    ensures
        found matches Some((value, end)) ==> spec_key_value(input@, pos as int) == Some(
            (value, end as int),
        ) && pos < end <= input@.len(),
        found.is_none() ==> spec_key_value(input@, pos as int).is_none(),
{
    if let Some((field, from)) = key(input, pos) {
        if let Some((addr, end)) = ip_addr(input, from) {
            if ends_value(input, end) {
                return Some((Value::Addr(field, addr), end));
            }
        }
        if let Some((n, end)) = read_number_at(input, from, Radix::Decimal, u64::MAX) {
            if ends_value(input, end) {
                return Some((Value::Number(field, n), end));
            }
        }
    }
    match token(input, pos, ByteClass::Word) {
        Some(end) => Some((Value::Any, end)),
        None => None,
    }
}

/// The header of a line: see [`spec_header`].
fn header(input: &[u8]) -> (found: Option<(usize, usize, usize, u64, usize)>)
    ensures
        found matches Some((transport_end, protocol_start, protocol_end, timeout, end))
            ==> spec_header(input@) == Some(
            (transport_end as int, protocol_start as int, protocol_end as int, timeout, end as int),
        ) && transport_end <= protocol_start <= protocol_end <= end <= input@.len(),
        found.is_none() ==> spec_header(input@).is_none(),
{
    let transport_end = match token(input, 0, ByteClass::Alphanumeric) {
        Some(end) => end,
        None => {
            return None;
        },
    };
    let p1 = match spaced(input, transport_end, ByteClass::Digit) {
        Some((_, end)) => end,
        None => {
            return None;
        },
    };
    let (protocol_start, protocol_end) = match spaced(input, p1, ByteClass::Alphanumeric) {
        Some(bounds) => bounds,
        None => {
            return None;
        },
    };
    let p2 = match spaced(input, protocol_end, ByteClass::Digit) {
        Some((_, end)) => end,
        None => {
            return None;
        },
    };
    let p3 = match token(input, p2, ByteClass::Space) {
        Some(end) => end,
        None => {
            return None;
        },
    };
    let (timeout, p4) = match read_number_at(input, p3, Radix::Decimal, u64::MAX) {
        Some(read) => read,
        None => {
            return None;
        },
    };
    match token(input, p4, ByteClass::Space) {
        Some(end) => Some((transport_end, protocol_start, protocol_end, timeout, end)),
        None => None,
    }
}

/// The entry being filled after one more key with its value; where the
/// value starts another entry, the one filled so far goes to `entries`.
fn take<'a>(
    entries: &mut MiniVec<ConntrackEntry<'a>>,
    current: ConntrackEntry<'a>,
    value: Value,
    blank: ConntrackEntry<'a>,
) -> (next: ConntrackEntry<'a>)
    ensures
        (final(entries)@.map_values(|e: ConntrackEntry<'a>| e@), next@) == taken(
            (old(entries)@.map_values(|e: ConntrackEntry<'a>| e@), current@),
            value,
            blank@,
        ),
{
    let mut next = current;
    match value {
        Value::Addr(Field::Src, addr) => {
            if current.src.is_some() {
                entries.push(current);
                next = blank;
            }
            next.src = Some(addr);
        },
        Value::Addr(Field::Dst, addr) => {
            next.dst = Some(addr);
        },
        Value::Number(Field::Sport, n) => {
            next.sport = (n % 0x1_0000) as u16;
        },
        Value::Number(Field::Dport, n) => {
            next.dport = (n % 0x1_0000) as u16;
        },
        Value::Number(Field::Bytes, n) => {
            next.bytes = n;
        },
        Value::Number(Field::Packets, n) => {
            next.packets = n;
        },
        _ => {},
    }
    next
}

/// Reads one line of connection-tracking text: the entries it holds, in
/// the order of the line, and where the reading ended. Nothing comes back
/// for a line whose header is not as it should be.
pub fn parse_line<'a>(input: &'a [u8]) -> (found: Option<(MiniVec<ConntrackEntry<'a>>, usize)>)
    ensures
        found matches Some((entries, end)) ==> spec_parse_line(input@) == Some(
            (entries@.map_values(|e: ConntrackEntry<'a>| e@), end as int),
        ) && end <= input@.len() && entries@.len() >= 1,
        found.is_none() ==> spec_parse_line(input@).is_none(),
{
    let (transport_end, protocol_start, protocol_end, timeout, from) = match header(input) {
        Some(read) => read,
        None => {
            return None;
        },
    };
    let blank = ConntrackEntry {
        transport: slice_subrange(input, 0, transport_end),
        protocol: slice_subrange(input, protocol_start, protocol_end),
        timeout,
        src: None,
        sport: 0,
        dst: None,
        dport: 0,
        bytes: 0,
        packets: 0,
    };
    let mut entries: MiniVec<ConntrackEntry<'a>> = MiniVec::Empty;
    let mut current = blank;
    let mut end = from;
    let ghost all = spec_key_values(input@, from as int);
    let ghost mut read: Seq<Value> = Seq::empty();
    if let Some((value, next)) = key_value(input, from) {
        proof {
            assert(folded(read, blank@) == (Seq::<Record>::empty(), blank@));
        }
        current = take(&mut entries, current, value, blank);
        end = next;
        proof {
            read = read.push(value);
            assert(read.drop_last() =~= Seq::<Value>::empty());
        }
        loop
            invariant
                from <= end <= input@.len(),
                all == (read + spec_more_values(input@, end as int).0, spec_more_values(
                    input@,
                    end as int,
                ).1),
                folded(read, blank@) == (entries@.map_values(|e: ConntrackEntry<'a>| e@), current@),
            ensures
                all == (read, end as int),
                folded(read, blank@) == (entries@.map_values(|e: ConntrackEntry<'a>| e@), current@),
                from <= end <= input@.len(),
            decreases input@.len() - end,
        {
            let start = match token(input, end, ByteClass::Space) {
                Some(start) => start,
                None => {
                    break ;
                },
            };
            let (value, next) = match key_value(input, start) {
                Some(found) => found,
                None => {
                    break ;
                },
            };
            let ghost before = read;
            current = take(&mut entries, current, value, blank);
            proof {
                read = read.push(value);
                assert(read.drop_last() =~= before);
            }
            end = next;
        }
    }
    entries.push(current);
    Some((entries, end))
}

/// The records of all lines of `s` from `pos` on; a line that cannot be
/// read gives none.
pub open spec fn spec_records(s: Seq<u8>, pos: int) -> Seq<Record>
    decreases s.len() - pos,
{
    if 0 <= pos < s.len() {
        let (end, next) = spec_line(s, pos);
        let records = match spec_parse_line(s.subrange(pos, end)) {
            Some((records, _)) => records,
            None => Seq::empty(),
        };
        if pos < next <= s.len() {
            records + spec_records(s, next)
        } else {
            records
        }
    } else {
        Seq::empty()
    }
}

/// Reads connection-tracking text line by line and folds the entries of
/// every line that can be read into `initial`, in order, by calling
/// `visitor`. Lines that cannot be read are passed over.
pub fn parse<'a, V, C>(input: &'a [u8], initial: C, visitor: V) -> (out: C) where
    V: Fn(C, &ConntrackEntry<'a>) -> C,

    requires
        forall|c: C, entry: &ConntrackEntry<'a>| call_requires(visitor, (c, entry)),
    ensures
        exists|entries: Seq<ConntrackEntry<'a>>|
            #![trigger visits(visitor, entries, initial, out)]
            entries.map_values(|e: ConntrackEntry<'a>| e@) == spec_records(input@, 0) && visits(
                visitor,
                entries,
                initial,
                out,
            ),
{
    let ghost all = spec_records(input@, 0);
    let ghost mut visited: Seq<ConntrackEntry<'a>> = Seq::empty();
    let ghost mut trace: Seq<C> = seq![initial];
    let mut acc = initial;
    let mut pos: usize = 0;
    while pos < input.len()
        invariant
            pos <= input@.len(),
            forall|c: C, entry: &ConntrackEntry<'a>| call_requires(visitor, (c, entry)),
            all == visited.map_values(|e: ConntrackEntry<'a>| e@) + spec_records(input@, pos as int),
            is_visit_trace(visitor, visited, initial, trace),
            trace.last() == acc,
        decreases input@.len() - pos,
    {
        let (end, next) = next_line(input, pos);
        let text = slice_subrange(input, pos, end);
        let ghost rest = spec_records(input@, next as int);
        match parse_line(text) {
            Some((entries, _)) => {
                let ghost records = entries@.map_values(|e: ConntrackEntry<'a>| e@);
                let mut i: usize = 0;
                while i < entries.len()
                    invariant
                        i <= entries@.len(),
                        forall|c: C, entry: &ConntrackEntry<'a>| call_requires(visitor, (c, entry)),
                        records == entries@.map_values(|e: ConntrackEntry<'a>| e@),
                        all == visited.map_values(|e: ConntrackEntry<'a>| e@) + (records.skip(
                            i as int,
                        ) + rest),
                        is_visit_trace(visitor, visited, initial, trace),
                        trace.last() == acc,
                    decreases entries@.len() - i,
                {
                    let entry = entries.get(i).unwrap();
                    acc = visitor(acc, &entry);
                    proof {
                        visited = visited.push(entry);
                        trace = trace.push(acc);
                    }
                    i += 1;
                }
            },
            None => {},
        }
        pos = next;
    }
    proof {
        assert(visits(visitor, visited, initial, acc));
    }
    acc
}

} // verus!
