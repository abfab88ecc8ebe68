//! Wall-clock values on a wrapping 24-hour clock, and slots on it.
//!
//! A `Time` is always normalized: hour in [0, 24), minute in [0, 60).
//! Arithmetic wraps modulo 24 hours; there is no day-overflow concept.
//! The mathematical model of a `Time` is its minutes-since-midnight
//! value, an integer in [0, 1440).

use vstd::arithmetic::div_mod::{lemma_fundamental_div_mod, lemma_small_mod};
use vstd::prelude::*;

verus! {

/// Minutes in a day: the modulus of all wrapping clock arithmetic.
pub const DAY_MINS: usize = 1440;

#[derive(Clone, Copy, PartialEq, Eq, Structural, Debug)]
pub struct Time {
    pub hour: usize,
    pub min: usize,
}

impl Time {
    /// A normalized clock value: hour in [0, 24), minute in [0, 60).
    pub open spec fn wf(self) -> bool {
        self.hour < 24 && self.min < 60
    }

    /// The model of a clock value: minutes since midnight.
    pub open spec fn spec_in_mins(self) -> int {
        self.hour * 60 + self.min
    }

    /// The clock value at `m` minutes since midnight, wrapping past a day.
    pub open spec fn spec_from_mins(m: int) -> Time {
        Time { hour: (((m / 60) % 24) as usize), min: ((m % 60) as usize) }
    }

    /// Wrapping addition on the clock, as minutes modulo a day.
    pub open spec fn spec_add(self, other: Time) -> Time {
        Time::spec_from_mins((self.spec_in_mins() + other.spec_in_mins()) % (DAY_MINS as int))
    }

    /// Wrapping subtraction on the clock, as minutes modulo a day.
    pub open spec fn spec_sub(self, other: Time) -> Time {
        Time::spec_from_mins(
            (self.spec_in_mins() - other.spec_in_mins() + DAY_MINS) % (DAY_MINS as int),
        )
    }

    pub fn new(hour: usize, min: usize) -> (r: Time)
        requires
            hour < 24,
            min < 60,
        ensures
            r == (Time { hour, min }),
            r.wf(),
    {
        Time { hour, min }
    }

    pub fn hours(hours: usize) -> (r: Time)
        ensures
            r == (Time { hour: hours % 24, min: 0usize }),
            r.wf(),
    {
        Time { hour: hours % 24, min: 0 }
    }

    pub fn mins(mins: usize) -> (r: Time)
        ensures
            r == Time::spec_from_mins(mins as int % (DAY_MINS as int)),
            r.wf(),
    {
        proof {
            lemma_mod_mod_factor(mins as int);
        }
        Time { hour: (mins / 60) % 24, min: mins % 60 }
    }

    pub fn in_mins(&self) -> (r: usize)
        requires
            self.wf(),
        ensures
            r == self.spec_in_mins(),
    {
        self.hour * 60 + self.min
    }

    /// Grid coordinates of a clock value: a 5-minute column and an hour row.
    pub fn to_grid(&self) -> (r: [usize; 2])
        ensures
            r[0] == self.min / 5,
            r[1] == self.hour,
    {
        let y = self.hour;
        let x = self.min / 5;
        [x, y]
    }

    /// Wrapping addition; total on normalized values, never panics.
    pub fn add(self, other: Time) -> (r: Time)
        requires
            self.wf(),
            other.wf(),
        ensures
            r == self.spec_add(other),
            r.wf(),
    {
        let min = self.min + other.min;
        let plus_hours = min / 60;
        let hour = (self.hour + other.hour + plus_hours) % 24;
        let min = min % 60;
        let r = Time { hour, min };
        proof {
            lemma_add_model(self, other, r);
        }
        r
    }

    /// Wrapping subtraction; total on normalized values, never panics,
    /// and always yields a normalized value (underflow wraps to the
    /// previous clock lap, never to a negative component).
    pub fn sub(self, other: Time) -> (r: Time)
        requires
            self.wf(),
            other.wf(),
        ensures
            r == self.spec_sub(other),
            r.wf(),
    {
        let (min, minus_hours): (usize, usize) = if self.min >= other.min {
            (self.min - other.min, 0)
        } else {
            ((self.min + 60) - other.min, 1)
        };
        let hour = ((self.hour + 24) - other.hour - minus_hours) % 24;
        let r = Time { hour, min };
        proof {
            lemma_sub_model(self, other, r);
        }
        r
    }

    /// The clamp of `self` into `[min, max]`, compared as minutes since
    /// midnight (wrap-free within a single day window).
    pub open spec fn spec_clamp(self, lo: Time, hi: Time) -> Time {
        if vstd::math::max(lo.spec_in_mins(), self.spec_in_mins()) > hi.spec_in_mins() {
            hi
        } else if self.spec_in_mins() < lo.spec_in_mins() {
            lo
        } else {
            self
        }
    }

    pub fn clamp(&self, min: Time, max: Time) -> (r: Time)
        requires
            self.wf(),
            min.wf(),
            max.wf(),
        ensures
            r == self.spec_clamp(min, max),
            r.wf(),
    {
        let lo = min.in_mins();
        let v = self.in_mins();
        let hi = max.in_mins();
        let w = if v < lo {
            lo
        } else {
            v
        };
        if w > hi {
            max
        } else if v < lo {
            min
        } else {
            *self
        }
    }
}

/// A half-open interval `[start, start + duration)` on the wrapping
/// clock, with the duration in minutes.
#[derive(Clone, Copy, PartialEq, Eq, Structural, Debug)]
pub struct TimeSlot {
    pub start: Time,
    pub duration: usize,
}

impl TimeSlot {
    /// A well-formed slot: normalized start and a duration under a day,
    /// so the end is one wrap of the clock at most.
    pub open spec fn wf(self) -> bool {
        self.start.wf() && self.duration < DAY_MINS
    }

    /// Where the slot ends, wrapping past midnight.
    pub open spec fn spec_end(self) -> Time {
        Time::spec_from_mins((self.start.spec_in_mins() + self.duration) % (DAY_MINS as int))
    }

    pub fn end(&self) -> (r: Time)
        requires
            self.wf(),
        ensures
            r == self.spec_end(),
            r.wf(),
    {
        let r = self.start.add(Time::mins(self.duration));
        proof {
            lemma_small_mod(self.duration as nat, 1440);
            lemma_from_mins_props(self.duration as int);
        }
        r
    }

    /// Containment is half-open and wrap-aware: `start <= t < end` as
    /// minutes since midnight. A slot whose end wraps past midnight
    /// has an end below its start, and then contains nothing; the
    /// 24:00 boundary is the clock's known edge.
    pub open spec fn spec_contains(self, t: Time) -> bool {
        self.start.spec_in_mins() <= t.spec_in_mins() < self.spec_end().spec_in_mins()
    }

    pub fn contains(&self, time: Time) -> (r: bool)
        requires
            self.wf(),
            time.wf(),
        ensures
            r == self.spec_contains(time),
    {
        let s = self.start.in_mins();
        let t = time.in_mins();
        let e = self.end();
        proof {
            lemma_in_mins_bounds(e);
        }
        let e = e.in_mins();
        s <= t && t < e
    }
}

/// A normalized clock value is exactly its minutes-since-midnight model:
/// `spec_from_mins` inverts `spec_in_mins` on [0, 1440).
pub proof fn lemma_from_mins_props(m: int)
    requires
        0 <= m < DAY_MINS,
    ensures
        Time::spec_from_mins(m).wf(),
        Time::spec_from_mins(m).spec_in_mins() == m,
{
    lemma_fundamental_div_mod(m, 60);
    assert(m / 60 < 24) by {
        assert(m <= 1439);
        assert(60 * (m / 60) <= m);
    }
    lemma_small_mod((m / 60) as nat, 24);
}

/// A normalized clock value lies in [0, 1440) as minutes since midnight.
pub proof fn lemma_in_mins_bounds(t: Time)
    requires
        t.wf(),
    ensures
        0 <= t.spec_in_mins() < DAY_MINS,
{
}

/// Normalized clock values with equal minute models are equal.
pub proof fn lemma_time_eq(a: Time, b: Time)
    requires
        a.wf(),
        b.wf(),
        a.spec_in_mins() == b.spec_in_mins(),
    ensures
        a == b,
{
}

proof fn lemma_mod_mod_factor(m: int)
    requires
        m >= 0,
    ensures
        Time::spec_from_mins(m % (DAY_MINS as int)) == (Time {
            hour: (((m / 60) % 24) as usize),
            min: ((m % 60) as usize),
        }),
{
    let r = m % 1440;
    lemma_fundamental_div_mod(m, 1440);
    let q = m / 1440;
    assert(m == 1440 * q + r);
    assert(r / 60 == m / 60 - 24 * q) by {
        lemma_fundamental_div_mod(m, 60);
        lemma_fundamental_div_mod(r, 60);
        assert(m % 60 == (1440 * q + r) % 60);
        assert((1440 * q + r) % 60 == r % 60) by {
            vstd::arithmetic::div_mod::lemma_mod_multiples_vanish(24 * q, r, 60);
            assert(1440 * q + r == 60 * (24 * q) + r);
        }
        assert(60 * (m / 60) == m - m % 60);
        assert(60 * (r / 60) == r - r % 60);
        assert(60 * (m / 60) - 60 * (r / 60) == 1440 * q);
        assert(60 * (m / 60 - r / 60) == 60 * (24 * q));
    }
    assert((m / 60 - 24 * q) % 24 == (m / 60) % 24) by {
        vstd::arithmetic::div_mod::lemma_mod_multiples_vanish(-q, m / 60, 24);
        assert(m / 60 - 24 * q == 24 * (-q) + m / 60);
    }
    assert(r % 60 == m % 60) by {
        vstd::arithmetic::div_mod::lemma_mod_multiples_vanish(24 * q, r, 60);
        assert(1440 * q + r == 60 * (24 * q) + r);
    }
}

proof fn lemma_add_model(a: Time, b: Time, r: Time)
    requires
        a.wf(),
        b.wf(),
        r == (Time {
            hour: ((a.hour + b.hour + (a.min + b.min) / 60) % 24) as usize,
            min: ((a.min + b.min) % 60) as usize,
        }),
    ensures
        r == a.spec_add(b),
{
    let s = a.spec_in_mins() + b.spec_in_mins();
    let hh = a.hour + b.hour + (a.min + b.min) / 60;
    lemma_fundamental_div_mod((a.min + b.min) as int, 60);
    assert(s == hh * 60 + (a.min + b.min) % 60);
    assert(r.wf());
    if hh < 24 {
        assert(s < 1440);
        lemma_small_mod(s as nat, 1440);
        assert(r.spec_in_mins() == s) by {
            lemma_small_mod(hh as nat, 24);
        }
        lemma_from_mins_props(s % 1440);
        lemma_time_eq(r, a.spec_add(b));
    } else {
        assert(hh < 48);
        assert(hh % 24 == hh - 24) by {
            lemma_fundamental_div_mod(hh as int, 24);
            vstd::arithmetic::div_mod::lemma_mod_multiples_vanish(-1, hh as int, 24);
            lemma_small_mod((hh - 24) as nat, 24);
        }
        assert(s - 1440 == (hh - 24) * 60 + (a.min + b.min) % 60);
        assert(r.spec_in_mins() == s - 1440);
        assert(s % 1440 == s - 1440) by {
            vstd::arithmetic::div_mod::lemma_mod_multiples_vanish(-1, s, 1440);
            lemma_small_mod((s - 1440) as nat, 1440);
        }
        lemma_from_mins_props(s % 1440);
        lemma_time_eq(r, a.spec_add(b));
    }
}

proof fn lemma_sub_model(a: Time, b: Time, r: Time)
    requires
        a.wf(),
        b.wf(),
        r == (if a.min >= b.min {
            Time {
                hour: (((a.hour + 24) - b.hour) % 24) as usize,
                min: (a.min - b.min) as usize,
            }
        } else {
            Time {
                hour: (((a.hour + 24) - b.hour - 1) % 24) as usize,
                min: ((a.min + 60) - b.min) as usize,
            }
        }),
    ensures
        r == a.spec_sub(b),
{
    let d = a.spec_in_mins() - b.spec_in_mins() + 1440;
    assert(0 < d < 2880);
    let hh: int = if a.min >= b.min {
        (a.hour + 24) - b.hour
    } else {
        (a.hour + 24) - b.hour - 1
    };
    assert(0 <= hh < 48);
    assert(d == hh * 60 + r.min);
    assert(r.wf());
    if hh < 24 {
        assert(r.hour == hh) by {
            lemma_small_mod(hh as nat, 24);
        }
        assert(d < 1440);
        lemma_small_mod(d as nat, 1440);
        assert(r.spec_in_mins() == d);
        lemma_from_mins_props(d % 1440);
        lemma_time_eq(r, a.spec_sub(b));
    } else {
        assert(hh % 24 == hh - 24) by {
            vstd::arithmetic::div_mod::lemma_mod_multiples_vanish(-1, hh, 24);
            lemma_small_mod((hh - 24) as nat, 24);
        }
        assert(r.spec_in_mins() == d - 1440);
        assert(d % 1440 == d - 1440) by {
            vstd::arithmetic::div_mod::lemma_mod_multiples_vanish(-1, d, 1440);
            lemma_small_mod((d - 1440) as nat, 1440);
        }
        lemma_from_mins_props(d % 1440);
        lemma_time_eq(r, a.spec_sub(b));
    }
}

/// Law: wrapping addition then subtraction of the same value is the
/// identity on normalized clock values.
pub proof fn lemma_add_sub_inverse(t1: Time, t2: Time)
    requires
        t1.wf(),
        t2.wf(),
    ensures
        t1.spec_add(t2).spec_sub(t2) == t1,
{
    let v1 = t1.spec_in_mins();
    let v2 = t2.spec_in_mins();
    let s = (v1 + v2) % 1440;
    if v1 + v2 < 1440 {
        lemma_small_mod((v1 + v2) as nat, 1440);
    } else {
        vstd::arithmetic::div_mod::lemma_mod_multiples_vanish(-1, v1 + v2, 1440);
        lemma_small_mod((v1 + v2 - 1440) as nat, 1440);
    }
    lemma_from_mins_props(s);
    let a = t1.spec_add(t2);
    assert(a.spec_in_mins() == s);
    let d = (a.spec_in_mins() - v2 + 1440) % 1440;
    if v1 + v2 < 1440 {
        vstd::arithmetic::div_mod::lemma_mod_multiples_vanish(-1, v1 + 1440, 1440);
        lemma_small_mod(v1 as nat, 1440);
    } else {
        lemma_small_mod(v1 as nat, 1440);
    }
    assert(d == v1);
    lemma_from_mins_props(d);
    lemma_time_eq(t1.spec_add(t2).spec_sub(t2), t1);
}

/// Law: adding sixty minutes is the same as adding one hour.
pub proof fn lemma_sixty_mins_is_hour(t: Time)
    requires
        t.wf(),
    ensures
        t.spec_add(Time::spec_from_mins(60)) == t.spec_add(Time { hour: 1, min: 0 }),
{
    lemma_from_mins_props(60);
    lemma_time_eq(Time::spec_from_mins(60), Time { hour: 1, min: 0 });
}

} // verus!
