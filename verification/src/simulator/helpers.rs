//! Random draws, and the names and addresses made from them.

use crate::common::addr::{
    lemma_pack_octets, lemma_pack_segments, octet, octets_to_bits, segment, segments_to_bits,
    IpAddress,
};
use vstd::prelude::*;

verus! {

/// A random number of 32 bits.
///
/// Not verified: calls `RngCore::next_u32` on `rand::thread_rng()`. Nothing
/// is claimed of the result.
#[verifier::external_body]
pub(crate) fn next_u32() -> u32 {
    rand::RngCore::next_u32(&mut rand::thread_rng())
}

/// A random number of 64 bits.
///
/// Not verified: calls `RngCore::next_u64` on `rand::thread_rng()`. Nothing
/// is claimed of the result.
#[verifier::external_body]
pub(crate) fn next_u64() -> u64 {
    rand::RngCore::next_u64(&mut rand::thread_rng())
}

/// The lower-case letter that the draw `draw` picks.
pub open spec fn letter_of(draw: u32) -> u8 {
    (0x61 + draw % 26) as u8
}

/// The lower-case letter or digit that the draw `draw` picks: one of the
/// 26 letters, then one of the 10 digits.
pub open spec fn letter_or_digit_of(draw: u32) -> u8 {
    if draw % 36 < 26 {
        (0x61 + draw % 36) as u8
    } else {
        (0x30 + draw % 36 - 26) as u8
    }
}

/// The host name that the draws `draws` pick: a letter, then a letter or
/// digit for each further draw.
pub open spec fn spec_hostname_from(draws: Seq<u32>) -> Seq<u8> {
    Seq::new(
        draws.len(),
        |i: int|
            if i == 0 {
                letter_of(draws[i])
            } else {
                letter_or_digit_of(draws[i])
            },
    )
}

/// The lower-case letter that `draw` picks.
pub fn letter(draw: u32) -> (c: u8)
    ensures
        c == letter_of(draw),
        0x61 <= c <= 0x7a,
{
    0x61 + ((draw % 26) as u8)
}

/// The lower-case letter or digit that `draw` picks.
pub fn letter_or_digit(draw: u32) -> (c: u8)
    ensures
        c == letter_or_digit_of(draw),
        0x61 <= c <= 0x7a || 0x30 <= c <= 0x39,
{
    if draw % 36 < 26 {
        0x61 + ((draw % 36) as u8)
    } else {
        0x30 + ((draw % 36 - 26) as u8)
    }
}

/// Number of characters of a random host name.
pub const HOSTNAME_LEN: usize = 8;

/// A random host name of eight characters: a lower-case letter, then
/// lower-case letters or digits.
pub fn random_hostname() -> (name: Vec<u8>)
    ensures
        exists|draws: Seq<u32>|
            draws.len() == HOSTNAME_LEN && name@ == #[trigger] spec_hostname_from(draws),
{
    let mut name: Vec<u8> = Vec::new();
    let ghost mut draws: Seq<u32> = Seq::empty();
    while name.len() < HOSTNAME_LEN
        invariant
            name@.len() <= HOSTNAME_LEN,
            draws.len() == name@.len(),
            name@ == spec_hostname_from(draws),
        decreases HOSTNAME_LEN - name@.len(),
    {
        let draw = next_u32();
        let c: u8 = if name.len() == 0 {
            letter(draw)
        } else {
            letter_or_digit(draw)
        };
        name.push(c);
        proof {
            draws = draws.push(draw);
        }
    }
    name
}

/// A random IPv4 address whose leading octets are those of `prefix`, as
/// far as it has four.
pub fn random_ipv4(prefix: &[u8]) -> (bits: u32)
    ensures
        forall|i: int| 0 <= i < prefix@.len() && i < 4 ==> octet(bits, i) == #[trigger] prefix@[i],
{
    let mut octets: Vec<u8> = Vec::new();
    while octets.len() < 4
        invariant
            octets@.len() <= 4,
            forall|i: int|
                0 <= i < prefix@.len() && i < octets@.len() ==> octets@[i] == #[trigger] prefix@[i],
        decreases 4 - octets@.len(),
    {
        let i = octets.len();
        let value: u8 = if i < prefix.len() {
            prefix[i]
        } else {
            (next_u32() % 0x100) as u8
        };
        octets.push(value);
    }
    proof {
        lemma_pack_octets(octets@);
    }
    octets_to_bits(octets[0], octets[1], octets[2], octets[3])
}

/// A random IPv6 address whose leading segments are those of `prefix`, as
/// far as it has eight.
pub fn random_ipv6(prefix: &[u16]) -> (bits: u128)
    ensures
        forall|i: int| 0 <= i < prefix@.len() && i < 8 ==> segment(bits, i) == #[trigger] prefix@[i],
{
    let mut words: Vec<u16> = Vec::new();
    while words.len() < 8
        invariant
            words@.len() <= 8,
            forall|i: int|
                0 <= i < prefix@.len() && i < words@.len() ==> words@[i] == #[trigger] prefix@[i],
        decreases 8 - words@.len(),
    {
        let i = words.len();
        let value: u16 = if i < prefix.len() {
            prefix[i]
        } else {
            (next_u32() % 0x1_0000) as u16
        };
        words.push(value);
    }
    proof {
        lemma_pack_segments(words@);
    }
    let segments: [u16; 8] = [
        words[0],
        words[1],
        words[2],
        words[3],
        words[4],
        words[5],
        words[6],
        words[7],
    ];
    segments_to_bits(&segments)
}

/// A random address of either family, with the leading octets or segments
/// of the family's prefix.
pub fn random_ip(v4_prefix: &[u8], v6_prefix: &[u16]) -> (addr: IpAddress)
    ensures
        addr matches IpAddress::V4(bits) ==> forall|i: int|
            0 <= i < v4_prefix@.len() && i < 4 ==> octet(bits, i) == #[trigger] v4_prefix@[i],
        addr matches IpAddress::V6(bits) ==> forall|i: int|
            0 <= i < v6_prefix@.len() && i < 8 ==> segment(bits, i) == #[trigger] v6_prefix@[i],
{
    if next_u32() % 2 == 0 {
        IpAddress::V4(random_ipv4(v4_prefix))
    } else {
        IpAddress::V6(random_ipv6(v6_prefix))
    }
}

} // verus!
