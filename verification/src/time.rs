//! Points in time, counted in milliseconds from the Unix epoch, and the
//! arithmetic that aligns them to bucket boundaries.

use vstd::arithmetic::div_mod::{lemma_fundamental_div_mod, lemma_fundamental_div_mod_converse};
use vstd::prelude::*;

verus! {

/// A point in time: milliseconds since 1970-01-01T00:00:00 UTC, negative
/// before it.
#[derive(Debug, Clone, Copy, PartialEq, Eq, Structural, PartialOrd, Ord, Hash)]
pub struct Timestamp {
    pub millis: i64,
}

/// After this many milliseconds a collector reads its file again.
pub const TICK_MILLIS: u64 = 500;

/// The largest multiple of `step` that is not above `t`.
pub open spec fn floor_to(t: int, step: int) -> int {
    t - t % step
}

/// Quotient and remainder are the only pair that splits `x` by `d`.
pub proof fn lemma_div_mod_unique(x: int, d: int, q: int, r: int)
    requires
        d > 0,
        0 <= r < d,
        x == d * q + r,
    ensures
        x / d == q,
        x % d == r,
{
    assert(d * q == q * d) by (nonlinear_arith);
    lemma_fundamental_div_mod_converse(x, d, q, r);
}

/// A floored value is a multiple of the step, and lies less than one step
/// below the value it was taken from.
pub proof fn lemma_floor_to(t: int, step: int)
    requires
        step > 0,
    ensures
        floor_to(t, step) == step * (t / step),
        floor_to(t, step) % step == 0,
        floor_to(t, step) <= t < floor_to(t, step) + step,
{
    lemma_fundamental_div_mod(t, step);
    lemma_div_mod_unique(step * (t / step), step, t / step, 0);
}

impl Timestamp {
    pub fn from_millis(millis: i64) -> (t: Timestamp)
        ensures
            t.millis == millis,
    {
        Timestamp { millis }
    }

    pub fn millis(&self) -> (millis: i64)
        ensures
            millis == self.millis,
    {
        self.millis
    }

    /// The current wall-clock time.
    ///
    /// Not verified: calls `chrono::Utc::now` and reads the value with
    /// `DateTime::timestamp_millis`. `Utc::now` takes the system time as a
    /// duration since the epoch, and does not return where the clock
    /// stands before the epoch, so the value is never negative. Nothing
    /// else is claimed of it.
    #[verifier::external_body]
    pub(crate) fn now() -> (t: Timestamp)
        ensures
            t.millis >= 0,
    {
        Timestamp { millis: chrono::Utc::now().timestamp_millis() }
    }
}

/// Aligns `t` down to a multiple of `step`.
pub fn align(t: i64, step: u64) -> (aligned: i64)
    requires
        step > 0,
        floor_to(t as int, step as int) >= i64::MIN,
    ensures
        aligned == floor_to(t as int, step as int),
{
    proof {
        lemma_floor_to(t as int, step as int);
    }
    if t >= 0 {
        let rest: u64 = (t as u64) % step;
        t - (rest as i64)
    } else {
        let below: u64 = (-(t as i128)) as u64;
        let rest: u64 = below % step;
        proof {
            lemma_fundamental_div_mod(below as int, step as int);
            if rest == 0 {
                assert(t == step * (-(below / step))) by (nonlinear_arith)
                    requires
                        below == step * (below / step),
                        t == -below,
                ;
                lemma_div_mod_unique(t as int, step as int, -(below / step), 0);
            } else {
                assert(t == step * (-(below / step) - 1) + (step - rest)) by (nonlinear_arith)
                    requires
                        below == step * (below / step) + rest,
                        t == -below,
                ;
                lemma_div_mod_unique(t as int, step as int, -(below / step) - 1, step - rest);
            }
        }
        if rest == 0 {
            t
        } else {
            ((t as i128) - ((step - rest) as i128)) as i64
        }
    }
}

} // verus!
