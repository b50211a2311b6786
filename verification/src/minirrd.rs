//! A round-robin series: a fixed number of time buckets of equal width in a
//! ring, the newest overwriting the oldest. Gaps between writes are filled by
//! interpolation, and writes into a bucket that is already held are merged.

use crate::time::{align, floor_to, lemma_div_mod_unique, lemma_floor_to, Timestamp};
use vstd::prelude::*;

verus! {

/// What a series stores in a bucket.
///
/// The two laws tie `Default` and `Clone` to the model: an implementor proves
/// that `default()` returns `spec_default()` and that a clone equals what it
/// was cloned from.
pub trait RRDEntry: Default + Clone {
    /// The entry of a bucket that nothing was written to.
    spec fn spec_default() -> Self;

    /// The merge of a new sample `self` with the entry `other` that its
    /// bucket holds.
    spec fn spec_combine(self, other: Self) -> Self;

    /// The entry `index` steps out of `steps` on the way from `previous` to
    /// `self`.
    spec fn spec_interpolate(self, previous: Self, index: nat, steps: nat) -> Self;

    proof fn default_value(made: Self)
        requires
            call_ensures(Self::default, (), made),
        ensures
            made == Self::spec_default(),
    ;

    proof fn clone_value(source: Self, copy: Self)
        requires
            cloned(source, copy),
        ensures
            copy == source,
    ;

    fn combine(self, other: &Self) -> (merged: Self)
        ensures
            merged == self.spec_combine(*other),
    ;

    fn interpolate(&self, previous: &Self, index: u64, steps: u64) -> (between: Self)
        requires
            0 < steps,
            index <= steps,
        ensures
            between == self.spec_interpolate(*previous, index as nat, steps as nat),
    ;
}

/// The mathematical content of a series: consecutive buckets, oldest first.
pub struct Series<E> {
    /// Width of a bucket, in milliseconds.
    pub resolution: int,
    /// The largest number of buckets held.
    pub capacity: int,
    /// Start of the oldest bucket.
    pub first: int,
    /// The buckets' entries, oldest first.
    pub entries: Seq<E>,
}

impl<E: RRDEntry> Series<E> {
    pub open spec fn wf(self) -> bool {
        &&& self.resolution > 0
        &&& 1 <= self.entries.len() <= self.capacity
        &&& self.first % self.resolution == 0
    }

    /// Start of the bucket at position `i`.
    pub open spec fn timestamp(self, i: int) -> int {
        self.first + i * self.resolution
    }

    /// Start of the newest bucket.
    pub open spec fn last(self) -> int {
        self.timestamp(self.entries.len() - 1)
    }

    /// How many buckets the bucket of time `t` lies from the newest one:
    /// negative inside the window, positive beyond it.
    pub open spec fn offset(self, t: int) -> int {
        (t - self.last()) / self.resolution
    }

    /// The series with `count` more buckets behind the newest, on the way to
    /// `entry` in `steps` steps, cut down to the newest `capacity` buckets.
    pub open spec fn extended(self, entry: E, steps: int, count: int) -> Series<E> {
        let newest = self.entries.last();
        let grown = self.entries + Seq::new(
            count as nat,
            |i: int| entry.spec_interpolate(newest, (i + 1) as nat, steps as nat),
        );
        let evicted = if grown.len() > self.capacity {
            grown.len() - self.capacity
        } else {
            0
        };
        Series {
            first: self.first + evicted * self.resolution,
            entries: grown.skip(evicted),
            ..self
        }
    }

    /// The series after `entry` was written at time `t`.
    ///
    /// A time before the window changes nothing. A time inside the window
    /// merges `entry` into its bucket. A time beyond it appends one bucket
    /// for each step up to the bucket of `t`, interpolated from the newest
    /// entry to `entry`, and evicts the oldest buckets above the capacity.
    pub open spec fn put(self, t: int, entry: E) -> Series<E> {
        let d = self.offset(t);
        let at = self.entries.len() - 1 + d;
        if t < self.first {
            self
        } else if d <= 0 {
            Series { entries: self.entries.update(at, entry.spec_combine(self.entries[at])), ..self }
        } else {
            self.extended(entry, d, d)
        }
    }

    /// Whether a write at time `t` is taken.
    pub open spec fn accepts(self, t: int) -> bool {
        t >= self.first
    }

    /// The series with one more bucket holding `entry` behind the newest;
    /// at full capacity the oldest bucket leaves.
    pub open spec fn pushed(self, entry: E) -> Series<E> {
        if self.entries.len() < self.capacity {
            Series { entries: self.entries.push(entry), ..self }
        } else {
            Series {
                first: self.first + self.resolution,
                entries: self.entries.skip(1).push(entry),
                ..self
            }
        }
    }

    /// Position of the bucket of time `t`, counted from the oldest bucket.
    pub open spec fn position(self, t: int) -> int {
        (t - self.first) / self.resolution
    }

    /// The offset from the newest bucket is the position less the newest
    /// bucket's own, and the bucket of `t` starts at `t` floored.
    pub proof fn lemma_offset(self, t: int)
        requires
            self.wf(),
        ensures
            self.offset(t) == self.position(t) - (self.entries.len() - 1),
            self.timestamp(self.position(t)) == floor_to(t, self.resolution),
            t >= self.first ==> self.position(t) >= 0,
            t >= self.first ==> self.position(t) * self.resolution <= t - self.first,
    {
        let res = self.resolution;
        let pos = self.position(t);
        let rest = (t - self.first) % res;
        let back = self.entries.len() - 1;
        vstd::arithmetic::div_mod::lemma_fundamental_div_mod(t - self.first, res);
        vstd::arithmetic::div_mod::lemma_fundamental_div_mod(self.first, res);
        assert(t - self.last() == res * (pos - back) + rest) by (nonlinear_arith)
            requires
                t - self.first == res * pos + rest,
                self.last() == self.first + back * res,
        ;
        lemma_div_mod_unique(t - self.last(), res, pos - back, rest);
        let k = self.first / res;
        assert(t == res * (k + pos) + rest) by (nonlinear_arith)
            requires
                t - self.first == res * pos + rest,
                self.first == res * k + 0,
        ;
        lemma_div_mod_unique(t, res, k + pos, rest);
        assert(self.first + pos * res == t - rest) by (nonlinear_arith)
            requires
                t - self.first == res * pos + rest,
        ;
        if t >= self.first {
            assert(pos >= 0) by (nonlinear_arith)
                requires
                    t - self.first == res * pos + rest,
                    t - self.first >= 0,
                    0 <= rest < res,
            ;
            assert(pos * res <= t - self.first) by (nonlinear_arith)
                requires
                    t - self.first == res * pos + rest,
                    0 <= rest,
            ;
        }
    }

    /// Extending by one more step is pushing the next interpolated bucket.
    pub proof fn lemma_extended_step(self, entry: E, steps: int, count: int)
        requires
            self.wf(),
            0 <= count,
        ensures
            self.extended(entry, steps, 0) == self,
            self.extended(entry, steps, count + 1) == self.extended(entry, steps, count).pushed(
                entry.spec_interpolate(self.entries.last(), (count + 1) as nat, steps as nat),
            ),
            self.extended(entry, steps, count).wf(),
    {
        let newest = self.entries.last();
        let before = self.extended(entry, steps, count);
        let after = self.extended(entry, steps, count + 1);
        let next = entry.spec_interpolate(newest, (count + 1) as nat, steps as nat);
        assert(self.extended(entry, steps, 0).entries =~= self.entries);
        assert(after.entries =~= before.pushed(next).entries);
        assert(after.first == before.pushed(next).first) by (nonlinear_arith)
            requires
                after.first == self.first + (if self.entries.len() + count + 1 > self.capacity {
                    self.entries.len() + count + 1 - self.capacity
                } else {
                    0
                }) * self.resolution,
                before.pushed(next).first == self.first + (if self.entries.len() + count
                    > self.capacity {
                    self.entries.len() + count - self.capacity
                } else {
                    0
                }) * self.resolution + (if before.entries.len() < self.capacity {
                    0
                } else {
                    self.resolution
                }),
                before.entries.len() == (if self.entries.len() + count > self.capacity {
                    self.capacity
                } else {
                    self.entries.len() + count
                }),
        ;
        let evicted = if self.entries.len() + count > self.capacity {
            self.entries.len() + count - self.capacity
        } else {
            0
        };
        vstd::arithmetic::div_mod::lemma_fundamental_div_mod(self.first, self.resolution);
        assert(before.first == self.resolution * (self.first / self.resolution + evicted) + 0)
            by (nonlinear_arith)
            requires
                before.first == self.first + evicted * self.resolution,
                self.first == self.resolution * (self.first / self.resolution) + 0,
        ;
        lemma_div_mod_unique(
            before.first,
            self.resolution,
            self.first / self.resolution + evicted,
            0,
        );
    }
}

impl<E: RRDEntry> Series<E> {
    /// The entry of the bucket that time `t` lies in.
    pub open spec fn stored(self, t: int) -> E {
        self.entries[self.entries.len() - 1 + self.offset(t)]
    }

    /// The series after the writes of `writes`, made in order.
    pub open spec fn puts(self, writes: Seq<(int, E)>) -> Series<E>
        decreases writes.len(),
    {
        if writes.len() == 0 {
            self
        } else {
            self.puts(writes.drop_last()).put(writes.last().0, writes.last().1)
        }
    }

    /// Every bucket starts at a multiple of the resolution, and each bucket
    /// one resolution after the one before it.
    pub proof fn lemma_aligned(self, i: int)
        requires
            self.wf(),
        ensures
            self.timestamp(i) % self.resolution == 0,
            self.timestamp(i + 1) - self.timestamp(i) == self.resolution,
    {
        let res = self.resolution;
        vstd::arithmetic::div_mod::lemma_fundamental_div_mod(self.first, res);
        assert(self.first + i * res == res * (self.first / res + i) + 0) by (nonlinear_arith)
            requires
                self.first == res * (self.first / res) + self.first % res,
                self.first % res == 0,
        ;
        lemma_div_mod_unique(self.first + i * res, res, self.first / res + i, 0);
        assert((i + 1) * res - i * res == res) by (nonlinear_arith);
    }

    /// A write that is taken leaves the newest bucket where it was or at
    /// the bucket of `t`, whichever is later, and holds every bucket from
    /// the old oldest one up to there, as far as the capacity goes. The
    /// window never moves back.
    pub proof fn lemma_put_window(self, t: int, entry: E)
        requires
            self.wf(),
        ensures
            self.put(t, entry).wf(),
            self.put(t, entry).resolution == self.resolution,
            self.put(t, entry).capacity == self.capacity,
            self.put(t, entry).first >= self.first,
            t >= self.first ==> self.put(t, entry).last() == if floor_to(t, self.resolution)
                > self.last() {
                floor_to(t, self.resolution)
            } else {
                self.last()
            },
            t >= self.first ==> self.put(t, entry).entries.len() == if self.position(t) + 1
                > self.capacity {
                self.capacity
            } else if self.position(t) + 1 > self.entries.len() {
                self.position(t) + 1
            } else {
                self.entries.len() as int
            },
            t >= self.first ==> self.put(t, entry).first <= t,
    {
        if t >= self.first {
            let res = self.resolution;
            let n = self.entries.len() as int;
            let d = self.offset(t);
            let pos = self.position(t);
            let after = self.put(t, entry);
            self.lemma_offset(t);
            if d <= 0 {
                assert(pos * res <= (n - 1) * res) by (nonlinear_arith)
                    requires
                        pos <= n - 1,
                        res > 0,
                ;
            } else {
                self.lemma_extended_step(entry, d, d);
                let evicted = if n + d > self.capacity {
                    n + d - self.capacity
                } else {
                    0
                };
                assert(after.last() == self.first + pos * res) by (nonlinear_arith)
                    requires
                        after.last() == after.first + (after.entries.len() - 1) * res,
                        after.first == self.first + evicted * res,
                        after.entries.len() == n + d - evicted,
                        pos == d + n - 1,
                ;
                assert(pos * res > (n - 1) * res) by (nonlinear_arith)
                    requires
                        pos > n - 1,
                        res > 0,
                ;
                assert(evicted * res >= 0) by (nonlinear_arith)
                    requires
                        evicted >= 0,
                        res > 0,
                ;
                assert(evicted * res <= pos * res) by (nonlinear_arith)
                    requires
                        evicted <= pos,
                        res > 0,
                ;
            }
        }
    }

    /// Whatever is written, in whatever order, the series keeps at least one
    /// bucket and at most its capacity, which never changes.
    pub proof fn lemma_length_bound(self, writes: Seq<(int, E)>)
        requires
            self.wf(),
        ensures
            self.puts(writes).wf(),
            1 <= self.puts(writes).entries.len() <= self.capacity,
            self.puts(writes).capacity == self.capacity,
            self.puts(writes).resolution == self.resolution,
        decreases writes.len(),
    {
        if writes.len() > 0 {
            self.lemma_length_bound(writes.drop_last());
            let before = self.puts(writes.drop_last());
            before.lemma_put_window(writes.last().0, writes.last().1);
        }
    }

    /// A write whose bucket lies a full capacity or more beyond the oldest
    /// bucket fills the ring: it then holds `capacity` buckets, the newest
    /// `capacity - 1` resolutions after the oldest.
    pub proof fn lemma_wrapped_is_full(self, t: int, entry: E)
        requires
            self.wf(),
            t >= self.first + (self.capacity - 1) * self.resolution,
        ensures
            self.put(t, entry).entries.len() == self.capacity,
            self.put(t, entry).last() - self.put(t, entry).first == (self.capacity - 1)
                * self.resolution,
    {
        let res = self.resolution;
        let full = self.capacity - 1;
        assert(full * res >= 0) by (nonlinear_arith)
            requires
                full >= 0,
                res > 0,
        ;
        self.lemma_offset(t);
        vstd::arithmetic::div_mod::lemma_fundamental_div_mod(t - self.first, res);
        assert(self.position(t) >= full) by (nonlinear_arith)
            requires
                t - self.first == res * self.position(t) + (t - self.first) % res,
                (t - self.first) % res < res,
                t - self.first >= full * res,
                res > 0,
        ;
        self.lemma_put_window(t, entry);
    }

    /// A write never makes the series shorter, and the oldest bucket only
    /// leaves a ring that is full.
    pub proof fn lemma_put_grows(self, t: int, entry: E)
        requires
            self.wf(),
        ensures
            self.put(t, entry).entries.len() >= self.entries.len(),
            self.put(t, entry).first != self.first ==> self.put(t, entry).entries.len()
                == self.capacity,
    {
        let d = self.offset(t);
        self.lemma_offset(t);
        if t >= self.first && d > 0 {
            let n = self.entries.len() as int;
            let evicted = if n + d > self.capacity {
                n + d - self.capacity
            } else {
                0
            };
            if evicted == 0 {
                assert(evicted * self.resolution == 0) by (nonlinear_arith)
                    requires
                        evicted == 0,
                ;
            }
        }
    }

    /// Through any writes the ring is full, or its oldest bucket is where
    /// it was at first.
    pub proof fn lemma_puts_first(self, writes: Seq<(int, E)>)
        requires
            self.wf(),
        ensures
            self.puts(writes).wf(),
            self.puts(writes).capacity == self.capacity,
            self.puts(writes).resolution == self.resolution,
            self.puts(writes).first == self.first || self.puts(writes).entries.len()
                == self.capacity,
        decreases writes.len(),
    {
        if writes.len() > 0 {
            self.lemma_puts_first(writes.drop_last());
            let before = self.puts(writes.drop_last());
            before.lemma_put_window(writes.last().0, writes.last().1);
            before.lemma_put_grows(writes.last().0, writes.last().1);
        }
    }

    /// Writes that reach a full capacity or more beyond the bucket the
    /// series started with fill the ring, whatever else is written before
    /// and after: it then holds `capacity` buckets, the newest
    /// `capacity - 1` resolutions after the oldest.
    pub proof fn lemma_puts_wrap(self, writes: Seq<(int, E)>, i: int)
        requires
            self.wf(),
            0 <= i < writes.len(),
            writes[i].0 >= self.first + (self.capacity - 1) * self.resolution,
        ensures
            self.puts(writes).entries.len() == self.capacity,
            self.puts(writes).last() - self.puts(writes).first == (self.capacity - 1)
                * self.resolution,
        decreases writes.len(),
    {
        let before = self.puts(writes.drop_last());
        let (t, entry) = writes.last();
        self.lemma_puts_first(writes.drop_last());
        before.lemma_put_window(t, entry);
        before.lemma_put_grows(t, entry);
        if i < writes.len() - 1 {
            self.lemma_puts_wrap(writes.drop_last(), i);
        } else if before.entries.len() < self.capacity {
            before.lemma_wrapped_is_full(t, entry);
        }
    }

    /// Writing the same entry at the same time twice is writing it once,
    /// provided the entry that the first write leaves in its bucket absorbs
    /// a second merge.
    pub proof fn lemma_put_twice(self, t: int, entry: E)
        requires
            self.wf(),
            t >= self.first ==> entry.spec_combine(self.put(t, entry).stored(t)) == self.put(
                t,
                entry,
            ).stored(t),
        ensures
            self.put(t, entry).put(t, entry) == self.put(t, entry),
    {
        if t >= self.first {
            let res = self.resolution;
            let once = self.put(t, entry);
            self.lemma_put_window(t, entry);
            self.lemma_offset(t);
            once.lemma_offset(t);
            if self.offset(t) > 0 {
                assert(self.position(t) * res > (self.entries.len() - 1) * res)
                    by (nonlinear_arith)
                    requires
                        self.position(t) > self.entries.len() - 1,
                        res > 0,
                ;
                lemma_floor_to(t, res);
                vstd::arithmetic::div_mod::lemma_fundamental_div_mod(t, res);
                lemma_div_mod_unique(t - once.last(), res, 0, t % res);
            }
            assert(once.put(t, entry).entries =~= once.entries);
        }
    }
}

#[derive(Debug)]
pub struct RRD<E> {
    resolution: u64,
    first_timestamp: i64,
    last_timestamp: i64,
    first_index: usize,
    last_index: usize,
    ring: Vec<E>,
}

impl<E: RRDEntry> RRD<E> {
    /// Number of occupied buckets.
    closed spec fn occupied(&self) -> int {
        if self.first_index <= self.last_index {
            self.last_index - self.first_index + 1
        } else {
            self.ring.len() - self.first_index + self.last_index + 1
        }
    }

    /// Ring slot of the bucket at position `i`.
    closed spec fn slot(&self, i: int) -> int {
        if self.first_index + i < self.ring.len() {
            self.first_index + i
        } else {
            self.first_index + i - self.ring.len()
        }
    }

    /// The representation invariant: both indices lie in the ring, both
    /// timestamps are bucket boundaries as far apart as the indices, and the
    /// whole ring spans less than `u64::MAX` milliseconds.
    pub closed spec fn wf(&self) -> bool {
        &&& self.resolution > 0
        &&& self.ring.len() >= 1
        &&& self.first_index < self.ring.len()
        &&& self.last_index < self.ring.len()
        &&& (self.first_timestamp as int) % (self.resolution as int) == 0
        &&& self.last_timestamp == self.first_timestamp + (self.occupied() - 1) * self.resolution
        &&& self.ring.len() * self.resolution <= u64::MAX
    }

    /// A well-formed ring stands for a well-formed series.
    pub proof fn lemma_wf(&self)
        requires
            self.wf(),
        ensures
            self@.wf(),
            self@.last() <= i64::MAX,
            self@.first >= i64::MIN,
            self@.capacity <= usize::MAX,
            self@.capacity * self@.resolution <= u64::MAX,
    {
    }
}

impl<E: RRDEntry> View for RRD<E> {
    type V = Series<E>;

    closed spec fn view(&self) -> Series<E> {
        Series {
            resolution: self.resolution as int,
            capacity: self.ring.len() as int,
            first: self.first_timestamp as int,
            entries: Seq::new(self.occupied() as nat, |i: int| self.ring[self.slot(i)]),
        }
    }
}

impl<E: RRDEntry> RRD<E> {
    /// A series of `retain / resolution` buckets of `resolution` milliseconds
    /// each, holding one empty bucket: the one that `start` lies in.
    pub fn new(start: Timestamp, resolution: u64, retain: u64) -> (rrd: Self)
        requires
            resolution > 0,
            retain / resolution >= 1,
            retain / resolution <= usize::MAX,
            floor_to(start.millis as int, resolution as int) >= i64::MIN,
        ensures
            rrd.wf(),
            rrd@ == (Series::<E> {
                resolution: resolution as int,
                capacity: (retain / resolution) as int,
                first: floor_to(start.millis as int, resolution as int),
                entries: seq![E::spec_default()],
            }),
    {
        let len: usize = (retain / resolution) as usize;
        let rounded: i64 = align(start.millis, resolution);
        let mut ring: Vec<E> = Vec::new();
        while ring.len() < len
            invariant
                ring.len() <= len,
                forall|i: int| 0 <= i < ring.len() ==> ring[i] == E::spec_default(),
            decreases len - ring.len(),
        {
            let blank = E::default();
            proof {
                E::default_value(blank);
            }
            ring.push(blank);
        }
        let rrd = RRD {
            resolution,
            first_timestamp: rounded,
            last_timestamp: rounded,
            first_index: 0,
            last_index: 0,
            ring,
        };
        proof {
            lemma_floor_to(start.millis as int, resolution as int);
            vstd::arithmetic::div_mod::lemma_fundamental_div_mod(retain as int, resolution as int);
            assert(len * resolution <= retain) by (nonlinear_arith)
                requires
                    retain == resolution * (retain as int / resolution as int) + retain as int % resolution as int,
                    len == retain as int / resolution as int,
                    retain as int % resolution as int >= 0,
            ;
            assert(rrd@.entries =~= seq![E::spec_default()]);
        }
        rrd
    }

    /// Number of buckets held.
    pub fn len(&self) -> (len: usize)
        requires
            self.wf(),
        ensures
            len == self@.entries.len(),
            1 <= len <= self@.capacity,
    {
        if self.first_index <= self.last_index {
            self.last_index - self.first_index + 1
        } else {
            self.ring.len() - self.first_index + self.last_index + 1
        }
    }

    /// Start of the oldest bucket.
    pub fn first_timestamp(&self) -> (t: Timestamp)
        requires
            self.wf(),
        ensures
            t.millis == self@.first,
            (t.millis as int) % self@.resolution == 0,
    {
        Timestamp { millis: self.first_timestamp }
    }

    /// Start of the newest bucket.
    pub fn last_timestamp(&self) -> (t: Timestamp)
        requires
            self.wf(),
        ensures
            t.millis == self@.last(),
            (t.millis as int) % self@.resolution == 0,
    {
        proof {
            self@.lemma_aligned(self.occupied() - 1);
        }
        Timestamp { millis: self.last_timestamp }
    }

    /// Ring slot of the bucket at position `i`.
    fn slot_of(&self, i: usize) -> (slot: usize)
        requires
            self.wf(),
            i < self.ring.len(),
        ensures
            slot == self.slot(i as int),
            slot < self.ring.len(),
    {
        let room: usize = self.ring.len() - self.first_index;
        if i < room {
            self.first_index + i
        } else {
            i - room
        }
    }

    /// Start of the bucket at position `i`.
    fn timestamp_of(&self, i: usize) -> (t: Timestamp)
        requires
            self.wf(),
            i < self@.entries.len(),
        ensures
            t.millis == self@.timestamp(i as int),
    {
        proof {
            assert(i * self.resolution <= (self.occupied() - 1) * self.resolution)
                by (nonlinear_arith)
                requires
                    0 <= i <= self.occupied() - 1,
                    self.resolution > 0,
            ;
            assert(0 <= i * self.resolution) by (nonlinear_arith)
                requires
                    self.resolution > 0,
            ;
        }
        let start: i128 = (self.first_timestamp as i128) + (i as i128) * (self.resolution as i128);
        Timestamp { millis: start as i64 }
    }

    /// The bucket at position `i`, counted from the oldest: its start and
    /// its entry.
    pub fn get(&self, i: usize) -> (found: Option<(Timestamp, &E)>)
        requires
            self.wf(),
        ensures
            i >= self@.entries.len() ==> found.is_none(),
            i < self@.entries.len() ==> found == Some(
                (Timestamp { millis: self@.timestamp(i as int) as i64 }, &self@.entries[i as int]),
            ),
            i < self@.entries.len() ==> i64::MIN <= self@.timestamp(i as int) <= i64::MAX
                && self@.timestamp(i as int) % self@.resolution == 0,
    {
        if i >= self.len() {
            return None;
        }
        proof {
            self@.lemma_aligned(i as int);
        }
        let t = self.timestamp_of(i);
        let slot = self.slot_of(i);
        Some((t, &self.ring[slot]))
    }

    /// All buckets in chronological order, each with its start.
    pub fn iter(&self) -> (buckets: Vec<(Timestamp, &E)>)
        requires
            self.wf(),
        ensures
            buckets@.len() == self@.entries.len(),
            forall|i: int|
                0 <= i < buckets@.len() ==> (#[trigger] buckets@[i]).0.millis == self@.timestamp(i)
                    && *buckets@[i].1 == self@.entries[i],
            forall|i: int|
                0 <= i < buckets@.len() ==> (#[trigger] buckets@[i]).0.millis as int
                    % self@.resolution == 0,
            forall|i: int|
                0 < i < buckets@.len() ==> (#[trigger] buckets@[i]).0.millis - buckets@[i
                    - 1].0.millis == self@.resolution,
    {
        let n = self.len();
        let mut buckets: Vec<(Timestamp, &E)> = Vec::new();
        let mut i: usize = 0;
        while i < n
            invariant
                self.wf(),
                n == self@.entries.len(),
                i <= n,
                buckets@.len() == i,
                forall|k: int|
                    0 <= k < i ==> (#[trigger] buckets@[k]).0.millis == self@.timestamp(k)
                        && *buckets@[k].1 == self@.entries[k],
            decreases n - i,
        {
            let t = self.timestamp_of(i);
            let slot = self.slot_of(i);
            buckets.push((t, &self.ring[slot]));
            i += 1;
        }
        proof {
            assert forall|k: int| 0 <= k < buckets@.len() implies (#[trigger] buckets@[k]).0.millis as int
                % self@.resolution == 0 by {
                self@.lemma_aligned(k);
            }
            assert forall|k: int| 0 < k < buckets@.len() implies (#[trigger] buckets@[k]).0.millis
                - buckets@[k - 1].0.millis == self@.resolution by {
                assert(self@.timestamp(k) - self@.timestamp(k - 1) == self@.resolution)
                    by (nonlinear_arith)
                    requires
                        self@.timestamp(k) == self@.first + k * self@.resolution,
                        self@.timestamp(k - 1) == self@.first + (k - 1) * self@.resolution,
                ;
            }
        }
        buckets
    }

    /// Opens one more bucket behind the newest and stores `entry` in it; at
    /// full capacity the oldest bucket is given up for it.
    fn push_bucket(&mut self, entry: E)
        requires
            old(self).wf(),
            old(self)@.last() + old(self)@.resolution <= i64::MAX,
        ensures
            final(self).wf(),
            final(self)@ == old(self)@.pushed(entry),
    {
        let cap = self.ring.len();
        let ghost before = *self;
        self.last_index = if self.last_index + 1 >= cap {
            0
        } else {
            self.last_index + 1
        };
        self.last_timestamp = ((self.last_timestamp as i128) + (self.resolution as i128)) as i64;
        if self.first_index == self.last_index {
            self.first_index = if self.first_index + 1 >= cap {
                0
            } else {
                self.first_index + 1
            };
            self.first_timestamp = ((self.first_timestamp as i128) + (self.resolution as i128)) as i64;
            proof {
                let res = self.resolution as int;
                let first = before.first_timestamp as int;
                vstd::arithmetic::div_mod::lemma_fundamental_div_mod(first, res);
                assert(first + res == res * (first / res + 1) + 0) by (nonlinear_arith)
                    requires
                        first == res * (first / res) + first % res,
                        first % res == 0,
                ;
                lemma_div_mod_unique(first + res, res, first / res + 1, 0);
            }
        }
        let at = self.last_index;
        self.ring.set(at, entry);
        proof {
            assert(self.last_timestamp == self.first_timestamp + (self.occupied() - 1)
                * self.resolution) by (nonlinear_arith)
                requires
                    before.last_timestamp == before.first_timestamp + (before.occupied() - 1)
                        * before.resolution,
                    self.resolution == before.resolution,
                    self.last_timestamp == before.last_timestamp + before.resolution,
                    before.occupied() < cap ==> self.first_timestamp == before.first_timestamp
                        && self.occupied() == before.occupied() + 1,
                    before.occupied() >= cap ==> self.first_timestamp == before.first_timestamp
                        + before.resolution && self.occupied() == before.occupied(),
            ;
            assert(self@.entries =~= before@.pushed(entry).entries);
        }
    }

    /// Writes `entry` at time `timestamp`: see [`Series::put`]. Returns
    /// whether the write was taken, which it is unless `timestamp` lies
    /// before the oldest bucket.
    pub fn put(&mut self, timestamp: Timestamp, entry: E) -> (taken: bool)
        requires
            old(self).wf(),
        ensures
            final(self).wf(),
            taken == old(self)@.accepts(timestamp.millis as int),
            final(self)@ == old(self)@.put(timestamp.millis as int, entry),
    {
        let t = timestamp.millis;
        if t < self.first_timestamp {
            return false;
        }
        let cap = self.ring.len();
        let n = self.len();
        let ghost before = *self;
        proof {
            before@.lemma_offset(t as int);
        }
        let ahead: u64 = ((t as i128) - (self.first_timestamp as i128)) as u64;
        let pos: u64 = ahead / self.resolution;
        if pos < n as u64 {
            let at = self.slot_of(pos as usize);
            let merged = entry.combine(&self.ring[at]);
            self.ring.set(at, merged);
            proof {
                assert(self@.entries =~= before@.put(t as int, entry).entries);
            }
        } else {
            let steps: u64 = pos - (n as u64 - 1);
            let newest = self.ring[self.last_index].clone();
            proof {
                E::clone_value(before.ring[before.last_index as int], newest);
                before@.lemma_extended_step(entry, steps as int, 0);
                assert(pos * self.resolution == before@.last() - before@.first + steps
                    * self.resolution) by (nonlinear_arith)
                    requires
                        before@.last() == before@.first + (n - 1) * self.resolution,
                        steps == pos - (n - 1),
                ;
            }
            if steps >= cap as u64 {
                let end: i128 = (self.first_timestamp as i128) + (pos as i128) * (
                self.resolution as i128);
                proof {
                    assert((cap - 1) * self.resolution <= cap * self.resolution)
                        by (nonlinear_arith)
                        requires
                            cap >= 1,
                            self.resolution > 0,
                    ;
                }
                let span: i128 = ((cap - 1) as i128) * (self.resolution as i128);
                proof {
                    assert((cap - 1) * self.resolution <= steps * self.resolution)
                        by (nonlinear_arith)
                        requires
                            cap - 1 <= steps,
                            self.resolution > 0,
                    ;
                    assert((cap - 1) * self.resolution >= 0) by (nonlinear_arith)
                        requires
                            cap >= 1,
                            self.resolution > 0,
                    ;
                    assert((n - 1) * self.resolution >= 0) by (nonlinear_arith)
                        requires
                            n >= 1,
                            self.resolution > 0,
                    ;
                }
                self.first_index = 0;
                self.last_index = cap - 1;
                self.first_timestamp = (end - span) as i64;
                self.last_timestamp = end as i64;
                proof {
                    let res = self.resolution as int;
                    let first = before.first_timestamp as int;
                    let shift = n + steps - cap;
                    assert(end - span == first + shift * res) by (nonlinear_arith)
                        requires
                            end == first + pos * res,
                            span == (cap - 1) * res,
                            steps == pos - (n - 1),
                            shift == n + steps - cap,
                    ;
                    vstd::arithmetic::div_mod::lemma_fundamental_div_mod(first, res);
                    assert(first + shift * res == res * (first / res + shift) + 0)
                        by (nonlinear_arith)
                        requires
                            first == res * (first / res) + first % res,
                            first % res == 0,
                    ;
                    lemma_div_mod_unique(first + shift * res, res, first / res + shift, 0);
                }
                let mut i: usize = 0;
                while i < cap
                    invariant
                        i <= cap,
                        cap == self.ring.len(),
                        cap as u64 <= steps,
                        self.resolution == before.resolution,
                        self.first_index == 0,
                        self.last_index == cap - 1,
                        self.first_timestamp == end - span,
                        self.last_timestamp == end,
                        forall|k: int|
                            0 <= k < i ==> self.ring[k] == entry.spec_interpolate(
                                newest,
                                (steps - (cap - 1 - k)) as nat,
                                steps as nat,
                            ),
                    decreases cap - i,
                {
                    let between = entry.interpolate(&newest, steps - ((cap - 1 - i) as u64), steps);
                    self.ring.set(i, between);
                    i += 1;
                }
                proof {
                    assert(self@.entries =~= before@.extended(
                        entry,
                        steps as int,
                        steps as int,
                    ).entries);
                }
            } else {
                let mut i: u64 = 0;
                while i < steps
                    invariant
                        i <= steps,
                        before.wf(),
                        self.wf(),
                        newest == before@.entries.last(),
                        self@ == before@.extended(entry, steps as int, i as int),
                        self@.last() + (steps - i) * self.resolution <= i64::MAX,
                    decreases steps - i,
                {
                    proof {
                        before@.lemma_extended_step(entry, steps as int, i as int);
                        assert(self@.last() + self@.resolution <= self@.last() + (steps - i)
                            * self.resolution) by (nonlinear_arith)
                            requires
                                steps - i >= 1,
                                self.resolution > 0,
                                self@.resolution == self.resolution,
                        ;
                    }
                    let ghost was = *self;
                    let between = entry.interpolate(&newest, i + 1, steps);
                    self.push_bucket(between);
                    proof {
                        assert(self@.last() == was@.last() + was@.resolution) by (nonlinear_arith)
                            requires
                                self@ == was@.pushed(between),
                                was@.wf(),
                                self@.last() == self@.first + (self@.entries.len() - 1)
                                    * self@.resolution,
                                was@.last() == was@.first + (was@.entries.len() - 1)
                                    * was@.resolution,
                        ;
                        assert(self@.last() + (steps - (i + 1)) * self.resolution == was@.last() + (
                        steps - i) * was.resolution) by (nonlinear_arith)
                            requires
                                self@.last() == was@.last() + was@.resolution,
                                was@.resolution == was.resolution,
                                self.resolution == was.resolution,
                        ;
                    }
                    i += 1;
                }
            }
        }
        true
    }
}

} // verus!
