//! Addresses of hosts: an IPv4 address as the 32 bits of its four octets, an
//! IPv6 address as the 128 bits of its eight segments, the first octet or
//! segment in the highest place.

use crate::common::text::{append, spell, spelled, Radix, COLON, DOT};
use vstd::arithmetic::div_mod::{lemma_div_denominator, lemma_fundamental_div_mod};
use vstd::prelude::*;

verus! {

#[derive(Debug, Clone, Copy, PartialEq, Eq, Structural, Hash)]
pub enum IpAddress {
    V4(u32),
    V6(u128),
}

/// The place value of octet `i` of four.
pub open spec fn octet_weight(i: int) -> int {
    if i == 0 {
        0x100_0000
    } else if i == 1 {
        0x1_0000
    } else if i == 2 {
        0x100
    } else {
        1
    }
}

/// The place value of segment `i` of eight.
pub open spec fn segment_weight(i: int) -> int {
    if i == 0 {
        0x1_0000_0000_0000_0000_0000_0000_0000
    } else if i == 1 {
        0x1_0000_0000_0000_0000_0000_0000
    } else if i == 2 {
        0x1_0000_0000_0000_0000_0000
    } else if i == 3 {
        0x1_0000_0000_0000_0000
    } else if i == 4 {
        0x1_0000_0000_0000
    } else if i == 5 {
        0x1_0000_0000
    } else if i == 6 {
        0x1_0000
    } else {
        1
    }
}

/// Octet `i` of the IPv4 address `bits`, the first being octet 0.
pub open spec fn octet(bits: u32, i: int) -> u8 {
    ((bits as int / octet_weight(i)) % 0x100) as u8
}

/// Segment `i` of the IPv6 address `bits`, the first being segment 0.
pub open spec fn segment(bits: u128, i: int) -> u16 {
    ((bits as int / segment_weight(i)) % 0x1_0000) as u16
}

/// The bits of the IPv4 address with the four octets `octets`.
pub open spec fn pack_octets(octets: Seq<u8>) -> int {
    octets[0] * 0x100_0000 + octets[1] * 0x1_0000 + octets[2] * 0x100 + octets[3]
}

/// The bits of the IPv6 address with the eight segments `segments`.
pub open spec fn pack_segments(segments: Seq<u16>) -> int {
    segments[0] * 0x1_0000_0000_0000_0000_0000_0000_0000 + segments[1]
        * 0x1_0000_0000_0000_0000_0000_0000 + segments[2] * 0x1_0000_0000_0000_0000_0000
        + segments[3] * 0x1_0000_0000_0000_0000 + segments[4] * 0x1_0000_0000_0000 + segments[5]
        * 0x1_0000_0000 + segments[6] * 0x1_0000 + segments[7]
}

/// Reading one place of a number: the digit `digit` in base `base` that
/// stands at the place of value `weight`.
proof fn lemma_read_place(bits: int, weight: int, base: int, high: int, digit: int, rest: int)
    requires
        weight > 0,
        base > 0,
        0 <= rest < weight,
        0 <= digit < base,
        bits == weight * (high * base + digit) + rest,
    ensures
        (bits / weight) % base == digit,
{
    crate::time::lemma_div_mod_unique(bits, weight, high * base + digit, rest);
    assert(high * base == base * high) by (nonlinear_arith);
    crate::time::lemma_div_mod_unique(high * base + digit, base, high, digit);
}

/// Packed octets fit 32 bits, and each can be read back.
pub proof fn lemma_pack_octets(octets: Seq<u8>)
    requires
        octets.len() == 4,
    ensures
        0 <= pack_octets(octets) <= u32::MAX,
        forall|i: int| 0 <= i < 4 ==> octet(pack_octets(octets) as u32, i) == #[trigger] octets[i],
{
    let o = octets;
    let bits = pack_octets(o);
    lemma_read_place(bits, 0x100_0000, 0x100, 0, o[0] as int, o[1] * 0x1_0000 + o[2] * 0x100 + o[3]);
    lemma_read_place(bits, 0x1_0000, 0x100, o[0] as int, o[1] as int, o[2] * 0x100 + o[3]);
    lemma_read_place(bits, 0x100, 0x100, o[0] * 0x100 + o[1], o[2] as int, o[3] as int);
    lemma_read_place(bits, 1, 0x100, o[0] * 0x1_0000 + o[1] * 0x100 + o[2], o[3] as int, 0);
}

/// Packed segments fit 128 bits, and each can be read back.
pub proof fn lemma_pack_segments(segments: Seq<u16>)
    requires
        segments.len() == 8,
    ensures
        0 <= pack_segments(segments) <= u128::MAX,
        forall|i: int|
            0 <= i < 8 ==> segment(pack_segments(segments) as u128, i) == #[trigger] segments[i],
{
    let s = segments;
    let bits = pack_segments(s);
    lemma_read_place(bits, 0x1_0000_0000_0000_0000_0000_0000_0000, 0x1_0000, 0, s[0] as int, s[1] * 0x1_0000_0000_0000_0000_0000_0000 + s[2] * 0x1_0000_0000_0000_0000_0000 + s[3] * 0x1_0000_0000_0000_0000 + s[4] * 0x1_0000_0000_0000 + s[5] * 0x1_0000_0000 + s[6] * 0x1_0000 + s[7]);
    lemma_read_place(bits, 0x1_0000_0000_0000_0000_0000_0000, 0x1_0000, s[0] as int, s[1] as int, s[2] * 0x1_0000_0000_0000_0000_0000 + s[3] * 0x1_0000_0000_0000_0000 + s[4] * 0x1_0000_0000_0000 + s[5] * 0x1_0000_0000 + s[6] * 0x1_0000 + s[7]);
    lemma_read_place(bits, 0x1_0000_0000_0000_0000_0000, 0x1_0000, s[0] * 0x1_0000 + s[1], s[2] as int, s[3] * 0x1_0000_0000_0000_0000 + s[4] * 0x1_0000_0000_0000 + s[5] * 0x1_0000_0000 + s[6] * 0x1_0000 + s[7]);
    lemma_read_place(bits, 0x1_0000_0000_0000_0000, 0x1_0000, s[0] * 0x1_0000_0000 + s[1] * 0x1_0000 + s[2], s[3] as int, s[4] * 0x1_0000_0000_0000 + s[5] * 0x1_0000_0000 + s[6] * 0x1_0000 + s[7]);
    lemma_read_place(bits, 0x1_0000_0000_0000, 0x1_0000, s[0] * 0x1_0000_0000_0000 + s[1] * 0x1_0000_0000 + s[2] * 0x1_0000 + s[3], s[4] as int, s[5] * 0x1_0000_0000 + s[6] * 0x1_0000 + s[7]);
    lemma_read_place(bits, 0x1_0000_0000, 0x1_0000, s[0] * 0x1_0000_0000_0000_0000 + s[1] * 0x1_0000_0000_0000 + s[2] * 0x1_0000_0000 + s[3] * 0x1_0000 + s[4], s[5] as int, s[6] * 0x1_0000 + s[7]);
    lemma_read_place(bits, 0x1_0000, 0x1_0000, s[0] * 0x1_0000_0000_0000_0000_0000 + s[1] * 0x1_0000_0000_0000_0000 + s[2] * 0x1_0000_0000_0000 + s[3] * 0x1_0000_0000 + s[4] * 0x1_0000 + s[5], s[6] as int, s[7] as int);
    lemma_read_place(bits, 1, 0x1_0000, s[0] * 0x1_0000_0000_0000_0000_0000_0000 + s[1] * 0x1_0000_0000_0000_0000_0000 + s[2] * 0x1_0000_0000_0000_0000 + s[3] * 0x1_0000_0000_0000 + s[4] * 0x1_0000_0000 + s[5] * 0x1_0000 + s[6], s[7] as int, 0);
}

/// The octets of an address pack to the address.
pub proof fn lemma_octets_pack(bits: u32)
    ensures
        pack_octets(Seq::new(4, |i: int| octet(bits, i))) == bits,
{
    let x = bits as int;
    lemma_div_denominator(x, 1, 0x100);
    lemma_fundamental_div_mod(x / 1, 0x100);
    lemma_div_denominator(x, 0x100, 0x100);
    lemma_fundamental_div_mod(x / 0x100, 0x100);
    lemma_div_denominator(x, 0x1_0000, 0x100);
    lemma_fundamental_div_mod(x / 0x1_0000, 0x100);
}

/// The segments of an address pack to the address.
pub proof fn lemma_segments_pack(bits: u128)
    ensures
        pack_segments(Seq::new(8, |i: int| segment(bits, i))) == bits,
{
    let x = bits as int;
    lemma_div_denominator(x, 1, 0x1_0000);
    lemma_fundamental_div_mod(x / 1, 0x1_0000);
    lemma_div_denominator(x, 0x1_0000, 0x1_0000);
    lemma_fundamental_div_mod(x / 0x1_0000, 0x1_0000);
    lemma_div_denominator(x, 0x1_0000_0000, 0x1_0000);
    lemma_fundamental_div_mod(x / 0x1_0000_0000, 0x1_0000);
    lemma_div_denominator(x, 0x1_0000_0000_0000, 0x1_0000);
    lemma_fundamental_div_mod(x / 0x1_0000_0000_0000, 0x1_0000);
    lemma_div_denominator(x, 0x1_0000_0000_0000_0000, 0x1_0000);
    lemma_fundamental_div_mod(x / 0x1_0000_0000_0000_0000, 0x1_0000);
    lemma_div_denominator(x, 0x1_0000_0000_0000_0000_0000, 0x1_0000);
    lemma_fundamental_div_mod(x / 0x1_0000_0000_0000_0000_0000, 0x1_0000);
    lemma_div_denominator(x, 0x1_0000_0000_0000_0000_0000_0000, 0x1_0000);
    lemma_fundamental_div_mod(x / 0x1_0000_0000_0000_0000_0000_0000, 0x1_0000);
}

/// Octet `i` of the IPv4 address `bits`.
pub fn octet_at(bits: u32, i: usize) -> (value: u8)
    requires
        i < 4,
    ensures
        value == octet(bits, i as int),
{
    let weight: u32 = if i == 0 {
        0x100_0000
    } else if i == 1 {
        0x1_0000
    } else if i == 2 {
        0x100
    } else {
        1
    };
    ((bits / weight) % 0x100) as u8
}

/// Segment `i` of the IPv6 address `bits`.
pub fn segment_at(bits: u128, i: usize) -> (value: u16)
    requires
        i < 8,
    ensures
        value == segment(bits, i as int),
{
    let weight: u128 = if i == 0 {
        0x1_0000_0000_0000_0000_0000_0000_0000
    } else if i == 1 {
        0x1_0000_0000_0000_0000_0000_0000
    } else if i == 2 {
        0x1_0000_0000_0000_0000_0000
    } else if i == 3 {
        0x1_0000_0000_0000_0000
    } else if i == 4 {
        0x1_0000_0000_0000
    } else if i == 5 {
        0x1_0000_0000
    } else if i == 6 {
        0x1_0000
    } else {
        1
    };
    ((bits / weight) % 0x1_0000) as u16
}

/// The bits of the IPv4 address `a.b.c.d`.
pub fn octets_to_bits(a: u8, b: u8, c: u8, d: u8) -> (bits: u32)
    ensures
        bits == pack_octets(seq![a, b, c, d]),
{
    (a as u32) * 0x100_0000 + (b as u32) * 0x1_0000 + (c as u32) * 0x100 + (d as u32)
}

/// The bits of the IPv6 address with the eight segments of `segments`.
pub fn segments_to_bits(segments: &[u16; 8]) -> (bits: u128)
    ensures
        bits == pack_segments(segments@),
{
    (segments[0] as u128) * 0x1_0000_0000_0000_0000_0000_0000_0000 + (segments[1] as u128)
        * 0x1_0000_0000_0000_0000_0000_0000 + (segments[2] as u128) * 0x1_0000_0000_0000_0000_0000
        + (segments[3] as u128) * 0x1_0000_0000_0000_0000 + (segments[4] as u128)
        * 0x1_0000_0000_0000 + (segments[5] as u128) * 0x1_0000_0000 + (segments[6] as u128)
        * 0x1_0000 + (segments[7] as u128)
}

impl IpAddress {
    /// The IPv4 address `a.b.c.d`.
    pub fn from_octets(a: u8, b: u8, c: u8, d: u8) -> (addr: IpAddress)
        ensures
            addr == IpAddress::V4(pack_octets(seq![a, b, c, d]) as u32),
    {
        IpAddress::V4(octets_to_bits(a, b, c, d))
    }

    /// The IPv6 address with the eight segments of `segments`.
    pub fn from_segments(segments: &[u16; 8]) -> (addr: IpAddress)
        ensures
            addr == IpAddress::V6(pack_segments(segments@) as u128),
    {
        IpAddress::V6(segments_to_bits(segments))
    }

    pub fn is_ipv4(&self) -> (v4: bool)
        ensures
            v4 == (*self is V4),
    {
        match self {
            IpAddress::V4(_) => true,
            IpAddress::V6(_) => false,
        }
    }

    pub fn is_ipv6(&self) -> (v6: bool)
        ensures
            v6 == (*self is V6),
    {
        match self {
            IpAddress::V4(_) => false,
            IpAddress::V6(_) => true,
        }
    }
}

/// The text of the numbers `parts` in base `base`, with `mark` between
/// them.
pub open spec fn joined(parts: Seq<nat>, base: nat, mark: u8) -> Seq<u8>
    decreases parts.len(),
{
    if parts.len() <= 1 {
        spelled(parts[0], base)
    } else {
        joined(parts.drop_last(), base, mark).push(mark) + spelled(parts.last(), base)
    }
}

impl IpAddress {
    /// The parts that the address is written with: its four octets or its
    /// eight segments.
    pub open spec fn parts(self) -> Seq<nat> {
        match self {
            IpAddress::V4(bits) => Seq::new(4, |i: int| octet(bits, i) as nat),
            IpAddress::V6(bits) => Seq::new(8, |i: int| segment(bits, i) as nat),
        }
    }

    /// The text form of the address: the four octets in decimal with a `.`
    /// between them, or the eight segments in hexadecimal with a `:`
    /// between them.
    pub open spec fn text(self) -> Seq<u8> {
        match self {
            IpAddress::V4(_) => joined(self.parts(), 10, DOT),
            IpAddress::V6(_) => joined(self.parts(), 16, COLON),
        }
    }

    /// Appends the text form of the address to `out`.
    pub fn write_to(&self, out: &mut Vec<u8>)
        ensures
            final(out)@ == old(out)@ + self.text(),
    {
        let ghost parts = self.parts();
        let count: usize = match self {
            IpAddress::V4(_) => 4,
            IpAddress::V6(_) => 8,
        };
        let radix = match self {
            IpAddress::V4(_) => Radix::Decimal,
            IpAddress::V6(_) => Radix::Hex,
        };
        let mark: u8 = match self {
            IpAddress::V4(_) => DOT,
            IpAddress::V6(_) => COLON,
        };
        let mut text: Vec<u8> = Vec::new();
        let mut i: usize = 0;
        while i < count
            invariant
                i <= count,
                count == parts.len(),
                parts == self.parts(),
                count == match *self {
                    IpAddress::V4(_) => 4usize,
                    IpAddress::V6(_) => 8usize,
                },
                i > 0 ==> text@ == joined(parts.take(i as int), radix.base(), mark),
                i == 0 ==> text@.len() == 0,
            decreases count - i,
        {
            let part: u64 = match self {
                IpAddress::V4(bits) => octet_at(*bits, i) as u64,
                IpAddress::V6(bits) => segment_at(*bits, i) as u64,
            };
            proof {
                assert(parts.take(i + 1).drop_last() =~= parts.take(i as int));
            }
            if i > 0 {
                text.push(mark);
            }
            spell(&mut text, part, radix);
            i += 1;
        }
        proof {
            assert(parts.take(i as int) =~= parts);
        }
        append(out, text.as_slice());
    }
}

} // verus!
