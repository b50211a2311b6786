//! Counts of traffic and the rates at which they grow.

use vstd::prelude::*;

verus! {

/// How fast the traffic of a connection grows.
#[derive(Debug, Clone, Copy, PartialEq, Eq, Structural)]
pub struct Rate {
    pub bytes_per_sec: u64,
    pub packets_per_sec: u64,
}

/// The largest rate that [`Rate::random`] takes as its scale.
pub const MAX_SCALE: u64 = 0x7fff_ffff_ffff_ffff;

impl Rate {
    /// The rate that the draw `draw` picks at the scale `bytes_per_sec`:
    /// from a hundredth of the scale up to just below the scale and a
    /// hundredth, with a packet for every thousand bytes.
    pub open spec fn spec_from_draw(draw: u64, bytes_per_sec: u64) -> Rate {
        let bytes = draw % bytes_per_sec + bytes_per_sec / 100;
        Rate { bytes_per_sec: bytes as u64, packets_per_sec: (bytes / 1000) as u64 }
    }

    pub fn from_draw(draw: u64, bytes_per_sec: u64) -> (rate: Rate)
        requires
            0 < bytes_per_sec <= MAX_SCALE,
        ensures
            rate == Self::spec_from_draw(draw, bytes_per_sec),
            bytes_per_sec / 100 <= rate.bytes_per_sec < bytes_per_sec + bytes_per_sec / 100,
    {
        let bytes = draw % bytes_per_sec + bytes_per_sec / 100;
        Rate { bytes_per_sec: bytes, packets_per_sec: bytes / 1000 }
    }

    /// A random rate at the scale `bytes_per_sec`.
    pub fn random(bytes_per_sec: u64) -> (rate: Rate)
        requires
            0 < bytes_per_sec <= MAX_SCALE,
        ensures
            exists|draw: u64| rate == #[trigger] Self::spec_from_draw(draw, bytes_per_sec),
            bytes_per_sec / 100 <= rate.bytes_per_sec < bytes_per_sec + bytes_per_sec / 100,
    {
        Rate::from_draw(crate::simulator::helpers::next_u64(), bytes_per_sec)
    }
}

/// A cumulative count of traffic.
#[derive(Debug, Clone, Copy, PartialEq, Eq, Structural)]
pub struct Traffic {
    pub bytes: u64,
    pub packets: u64,
}

impl Default for Traffic {
    fn default() -> (zero: Self)
        ensures
            zero == (Traffic { bytes: 0, packets: 0 }),
    {
        Traffic { bytes: 0, packets: 0 }
    }
}

impl core::ops::AddAssign for Traffic {
    fn add_assign(&mut self, rhs: Traffic)
        requires
            old(self).bytes + rhs.bytes <= u64::MAX,
            old(self).packets + rhs.packets <= u64::MAX,
        ensures
            final(self).bytes == old(self).bytes + rhs.bytes,
            final(self).packets == old(self).packets + rhs.packets,
    {
        self.bytes += rhs.bytes;
        self.packets += rhs.packets;
    }
}

} // verus!
