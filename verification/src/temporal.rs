//! The unit-aware temporal value model: date, time-of-day and date-time
//! values as plain integers, exact conversion between a logical value and
//! its physical integer encoding for each storage unit, and parsing of
//! text into those values.
use vstd::prelude::*;
use vstd::arithmetic::div_mod::{
    lemma_fundamental_div_mod, lemma_fundamental_div_mod_converse_div,
    lemma_fundamental_div_mod_converse_mod, lemma_div_multiples_vanish, lemma_mod_bound,
};

use chrono::Timelike;

verus! {

/// Number of seconds in a day.
pub const SECONDS_IN_DAY: i64 = 86_400;

/// Number of nanoseconds in a second.
pub const NANOSECONDS_IN_SECOND: i64 = 1_000_000_000;

/// Storage precision of a temporal encoding: how many ticks one second
/// holds.
#[derive(Clone, Copy, Debug, PartialEq, Eq, Structural)]
pub enum TimeUnit {
    Second,
    Millisecond,
    Microsecond,
    Nanosecond,
}

impl TimeUnit {
    /// Ticks per second.
    pub open spec fn factor_spec(self) -> int {
        match self {
            TimeUnit::Second => 1,
            TimeUnit::Millisecond => 1_000,
            TimeUnit::Microsecond => 1_000_000,
            TimeUnit::Nanosecond => 1_000_000_000,
        }
    }

    /// Nanoseconds per tick; the factor and this always multiply to one
    /// thousand million.
    pub open spec fn nanos_per_tick_spec(self) -> int {
        match self {
            TimeUnit::Second => 1_000_000_000,
            TimeUnit::Millisecond => 1_000_000,
            TimeUnit::Microsecond => 1_000,
            TimeUnit::Nanosecond => 1,
        }
    }

    pub fn factor(self) -> (f: i64)
        ensures
            f == self.factor_spec(),
    {
        match self {
            TimeUnit::Second => 1,
            TimeUnit::Millisecond => 1_000,
            TimeUnit::Microsecond => 1_000_000,
            TimeUnit::Nanosecond => 1_000_000_000,
        }
    }

    pub fn nanos_per_tick(self) -> (n: i64)
        ensures
            n == self.nanos_per_tick_spec(),
    {
        match self {
            TimeUnit::Second => 1_000_000_000,
            TimeUnit::Millisecond => 1_000_000,
            TimeUnit::Microsecond => 1_000,
            TimeUnit::Nanosecond => 1,
        }
    }
}

/// A calendar-free instant: whole seconds since the epoch (1970-01-01
/// 00:00:00) plus the nanoseconds into that second. A leap second is
/// carried as a nanosecond count of one thousand million or more.
#[derive(Clone, Copy, Debug, PartialEq, Eq, Structural)]
pub struct DateTimeVal {
    pub secs: i64,
    pub nanos: u32,
}

pub open spec fn datetime_wf(dt: DateTimeVal) -> bool {
    dt.nanos < 2_000_000_000
}

/// A time of day: whole seconds from midnight plus the nanoseconds into
/// that second (again up to two thousand million minus one, for a leap
/// second).
#[derive(Clone, Copy, Debug, PartialEq, Eq, Structural)]
pub struct TimeVal {
    pub secs: u32,
    pub nanos: u32,
}

pub open spec fn time_wf(t: TimeVal) -> bool {
    t.secs < 86_400 && t.nanos < 2_000_000_000
}

/// A date: whole days since the epoch day (1970-01-01).
#[derive(Clone, Copy, Debug, PartialEq, Eq, Structural)]
pub struct DateVal {
    pub days: i32,
}

/// The moment the epoch starts.
pub fn unix_time() -> (r: DateTimeVal)
    ensures
        r == (DateTimeVal { secs: 0, nanos: 0 }),
{
    DateTimeVal { secs: 0, nanos: 0 }
}

/// The epoch day.
pub fn unix_epoch_date() -> (r: DateVal)
    ensures
        r == (DateVal { days: 0 }),
{
    DateVal { days: 0 }
}

/// Seconds-since-epoch bound under which a date-time value converts to
/// any physical encoding of this unit without leaving 64 bits.
pub open spec fn max_secs_spec(u: TimeUnit) -> int {
    match u {
        TimeUnit::Second => 9_000_000_000_000_000_000,
        TimeUnit::Millisecond => 9_000_000_000_000_000,
        TimeUnit::Microsecond => 9_000_000_000_000,
        TimeUnit::Nanosecond => 9_000_000_000,
    }
}

/// Whether this date-time value is representable in the unit's physical
/// 64-bit encoding.
pub open spec fn datetime_fits(dt: DateTimeVal, u: TimeUnit) -> bool {
    -max_secs_spec(u) <= dt.secs <= max_secs_spec(u)
}

pub fn datetime_fits_check(dt: &DateTimeVal, u: TimeUnit) -> (b: bool)
    ensures
        b == datetime_fits(*dt, u),
{
    match u {
        TimeUnit::Second => -9_000_000_000_000_000_000 <= dt.secs
            && dt.secs <= 9_000_000_000_000_000_000,
        TimeUnit::Millisecond => -9_000_000_000_000_000 <= dt.secs
            && dt.secs <= 9_000_000_000_000_000,
        TimeUnit::Microsecond => -9_000_000_000_000 <= dt.secs && dt.secs <= 9_000_000_000_000,
        TimeUnit::Nanosecond => -9_000_000_000 <= dt.secs && dt.secs <= 9_000_000_000,
    }
}

/// The physical encoding of a date-time value: whole ticks since the
/// epoch, the residual sub-tick nanoseconds discarded.
pub open spec fn physical_of_datetime(dt: DateTimeVal, u: TimeUnit) -> int {
    dt.secs * u.factor_spec() + dt.nanos as int / u.nanos_per_tick_spec()
}

/// The date-time value a physical tick count denotes.
pub open spec fn datetime_of_physical(v: int, u: TimeUnit) -> DateTimeVal {
    DateTimeVal {
        secs: (v / u.factor_spec()) as i64,
        nanos: ((v % u.factor_spec()) * u.nanos_per_tick_spec()) as u32,
    }
}

/// Lowers a date-time value to its physical tick count in the given unit.
pub fn datetime_to_physical(dt: &DateTimeVal, u: TimeUnit) -> (r: i64)
    requires
        datetime_wf(*dt),
        datetime_fits(*dt, u),
    ensures
        r == physical_of_datetime(*dt, u),
{
    match u {
        TimeUnit::Second => dt.secs + (dt.nanos / 1_000_000_000) as i64,
        TimeUnit::Millisecond => dt.secs * 1_000 + (dt.nanos / 1_000_000) as i64,
        TimeUnit::Microsecond => dt.secs * 1_000_000 + (dt.nanos / 1_000) as i64,
        TimeUnit::Nanosecond => dt.secs * 1_000_000_000 + dt.nanos as i64,
    }
}

/// Raises a physical tick count to the date-time value it denotes; the
/// result always carries fewer than a thousand million nanoseconds.
pub fn physical_to_datetime(v: i64, u: TimeUnit) -> (r: DateTimeVal)
    ensures
        r == datetime_of_physical(v as int, u),
        datetime_wf(r),
        r.nanos < 1_000_000_000,
{
    let f = u.factor();
    if f == 1 {
        proof {
            assert(v as int % 1 == 0 && v as int / 1 == v as int) by {
                lemma_fundamental_div_mod(v as int, 1);
                lemma_mod_bound(v as int, 1);
            }
        }
        return DateTimeVal { secs: v, nanos: 0 };
    }
    let npt = u.nanos_per_tick();
    proof {
        lemma_mod_bound(v as int, f as int);
        assert(i64::MIN <= v as int / f as int <= i64::MAX) by {
            lemma_fundamental_div_mod(v as int, f as int);
            assert(f as int * (v as int / f as int) == v as int - v as int % f as int);
            assert(i64::MIN <= v as int / f as int <= i64::MAX) by (nonlinear_arith)
                requires
                    f as int * (v as int / f as int) == v as int - v as int % f as int,
                    0 <= (v as int % f as int) && (v as int % f as int) < f as int,
                    1 < f as int <= 1_000_000_000,
                    i64::MIN <= v as int <= i64::MAX,
            ;
        }
        assert(((v as int % f as int) * npt as int) < 1_000_000_000) by (nonlinear_arith)
            requires
                0 <= (v as int % f as int) && (v as int % f as int) < f as int,
                npt as int == u.nanos_per_tick_spec(),
                f as int == u.factor_spec(),
                f as int * npt as int == 1_000_000_000,
                npt as int >= 1,
        ;
        assert(0 <= (v as int % f as int) * npt as int) by (nonlinear_arith)
            requires
                0 <= v as int % f as int,
                npt as int >= 1,
        ;
    }
    let secs = match v.checked_div_euclid(f) {
        Some(q) => q,
        None => vstd::pervasive::unreached(),
    };
    let rem = match v.checked_rem_euclid(f) {
        Some(m) => m,
        None => vstd::pervasive::unreached(),
    };
    let nanos = (rem * npt) as u32;
    proof {
        assert(f as int * npt as int == 1_000_000_000);
    }
    DateTimeVal { secs, nanos }
}

/// The physical encoding of a time-of-day value: whole ticks since
/// midnight, the residual sub-tick nanoseconds discarded.
pub open spec fn physical_of_time(t: TimeVal, u: TimeUnit) -> int {
    t.secs * u.factor_spec() + t.nanos as int / u.nanos_per_tick_spec()
}

/// The time-of-day value a physical tick count denotes.
pub open spec fn time_of_physical(v: int, u: TimeUnit) -> TimeVal {
    TimeVal {
        secs: (v / u.factor_spec()) as u32,
        nanos: ((v % u.factor_spec()) * u.nanos_per_tick_spec()) as u32,
    }
}

/// The physical tick counts that denote a time of day in this unit.
pub open spec fn time_phys_in_range(v: int, u: TimeUnit) -> bool {
    0 <= v < 86_400 * u.factor_spec()
}

/// Lowers a time-of-day value to its physical tick count since midnight.
pub fn time_to_physical(t: &TimeVal, u: TimeUnit) -> (r: i64)
    requires
        time_wf(*t),
    ensures
        r == physical_of_time(*t, u),
{
    match u {
        TimeUnit::Second => t.secs as i64 + (t.nanos / 1_000_000_000) as i64,
        TimeUnit::Millisecond => t.secs as i64 * 1_000 + (t.nanos / 1_000_000) as i64,
        TimeUnit::Microsecond => t.secs as i64 * 1_000_000 + (t.nanos / 1_000) as i64,
        TimeUnit::Nanosecond => t.secs as i64 * 1_000_000_000 + t.nanos as i64,
    }
}

/// Raises a physical tick count since midnight to the time of day it
/// denotes.
pub fn physical_to_time(v: i64, u: TimeUnit) -> (r: TimeVal)
    requires
        time_phys_in_range(v as int, u),
    ensures
        r == time_of_physical(v as int, u),
        time_wf(r),
        r.nanos < 1_000_000_000,
{
    let f = u.factor();
    proof {
        lemma_mod_bound(v as int, f as int);
        lemma_fundamental_div_mod(v as int, f as int);
        assert(0 <= (v as int / f as int) && (v as int / f as int) < 86_400) by (nonlinear_arith)
            requires
                f as int * (v as int / f as int) == v as int - v as int % f as int,
                0 <= (v as int % f as int) && (v as int % f as int) < f as int,
                1 <= f as int,
                0 <= (v as int) && (v as int) < 86_400 * f as int,
        ;
        assert((v as int % f as int) * u.nanos_per_tick_spec() < 1_000_000_000
            && 0 <= (v as int % f as int) * u.nanos_per_tick_spec()) by (nonlinear_arith)
            requires
                0 <= (v as int % f as int) && (v as int % f as int) < f as int,
                u.nanos_per_tick_spec() >= 1,
                f as int * u.nanos_per_tick_spec() == 1_000_000_000,
        ;
    }
    let npt = u.nanos_per_tick();
    let secs = match v.checked_div_euclid(f) {
        Some(q) => q,
        None => vstd::pervasive::unreached(),
    };
    let rem = match v.checked_rem_euclid(f) {
        Some(m) => m,
        None => vstd::pervasive::unreached(),
    };
    TimeVal { secs: secs as u32, nanos: (rem * npt) as u32 }
}

/// The date-time value a day count denotes: midnight of that day.
pub open spec fn datetime_of_date32(days: int) -> DateTimeVal {
    DateTimeVal { secs: (days * 86_400) as i64, nanos: 0 }
}

/// The day a date-time value falls in.
pub open spec fn date32_of_datetime(dt: DateTimeVal) -> int {
    dt.secs / 86_400
}

/// Raises a day count to the date-time value of that day's midnight.
pub fn date32_as_datetime(v: i32) -> (r: DateTimeVal)
    ensures
        r == datetime_of_physical(v as int * SECONDS_IN_DAY, TimeUnit::Second),
        r == datetime_of_date32(v as int),
{
    proof {
        let s = v as int * 86_400;
        lemma_fundamental_div_mod(s, 1);
        lemma_mod_bound(s, 1);
    }
    DateTimeVal { secs: v as i64 * SECONDS_IN_DAY, nanos: 0 }
}

/// Raises a milliseconds-since-epoch count (the wider date encoding) to
/// the date-time value it denotes.
pub fn date64_as_datetime(v: i64) -> (r: DateTimeVal)
    ensures
        r == datetime_of_physical(v as int, TimeUnit::Millisecond),
        datetime_wf(r),
{
    physical_to_datetime(v, TimeUnit::Millisecond)
}

pub fn timestamp_nanoseconds_as_datetime(v: i64) -> (r: DateTimeVal)
    ensures
        r == datetime_of_physical(v as int, TimeUnit::Nanosecond),
        datetime_wf(r),
{
    physical_to_datetime(v, TimeUnit::Nanosecond)
}

pub fn timestamp_microseconds_as_datetime(v: i64) -> (r: DateTimeVal)
    ensures
        r == datetime_of_physical(v as int, TimeUnit::Microsecond),
        datetime_wf(r),
{
    physical_to_datetime(v, TimeUnit::Microsecond)
}

pub fn timestamp_milliseconds_as_datetime(v: i64) -> (r: DateTimeVal)
    ensures
        r == datetime_of_physical(v as int, TimeUnit::Millisecond),
        datetime_wf(r),
{
    physical_to_datetime(v, TimeUnit::Millisecond)
}

pub fn timestamp_seconds_as_datetime(v: i64) -> (r: DateTimeVal)
    ensures
        r == datetime_of_physical(v as int, TimeUnit::Second),
        datetime_wf(r),
{
    physical_to_datetime(v, TimeUnit::Second)
}

pub fn naive_datetime_to_date64(v: &DateTimeVal) -> (r: i64)
    requires
        datetime_wf(*v),
        datetime_fits(*v, TimeUnit::Millisecond),
    ensures
        r == physical_of_datetime(*v, TimeUnit::Millisecond),
{
    datetime_to_physical(v, TimeUnit::Millisecond)
}

pub fn naive_datetime_to_timestamp_nanoseconds(v: &DateTimeVal) -> (r: i64)
    requires
        datetime_wf(*v),
        datetime_fits(*v, TimeUnit::Nanosecond),
    ensures
        r == physical_of_datetime(*v, TimeUnit::Nanosecond),
{
    datetime_to_physical(v, TimeUnit::Nanosecond)
}

pub fn naive_datetime_to_timestamp_microseconds(v: &DateTimeVal) -> (r: i64)
    requires
        datetime_wf(*v),
        datetime_fits(*v, TimeUnit::Microsecond),
    ensures
        r == physical_of_datetime(*v, TimeUnit::Microsecond),
{
    datetime_to_physical(v, TimeUnit::Microsecond)
}

pub fn naive_datetime_to_timestamp_milliseconds(v: &DateTimeVal) -> (r: i64)
    requires
        datetime_wf(*v),
        datetime_fits(*v, TimeUnit::Millisecond),
    ensures
        r == physical_of_datetime(*v, TimeUnit::Millisecond),
{
    datetime_to_physical(v, TimeUnit::Millisecond)
}

pub fn naive_datetime_to_timestamp_seconds(v: &DateTimeVal) -> (r: i64)
    requires
        datetime_wf(*v),
        datetime_fits(*v, TimeUnit::Second),
    ensures
        r == physical_of_datetime(*v, TimeUnit::Second),
{
    datetime_to_physical(v, TimeUnit::Second)
}

pub fn naive_time_to_time64_nanoseconds(v: &TimeVal) -> (r: i64)
    requires
        time_wf(*v),
    ensures
        r == physical_of_time(*v, TimeUnit::Nanosecond),
{
    time_to_physical(v, TimeUnit::Nanosecond)
}

pub fn naive_time_to_time64_microseconds(v: &TimeVal) -> (r: i64)
    requires
        time_wf(*v),
    ensures
        r == physical_of_time(*v, TimeUnit::Microsecond),
{
    time_to_physical(v, TimeUnit::Microsecond)
}

pub fn naive_time_to_time32_milliseconds(v: &TimeVal) -> (r: i32)
    requires
        time_wf(*v),
    ensures
        r == physical_of_time(*v, TimeUnit::Millisecond),
{
    time_to_physical(v, TimeUnit::Millisecond) as i32
}

pub fn naive_time_to_time32_seconds(v: &TimeVal) -> (r: i32)
    requires
        time_wf(*v),
    ensures
        r == physical_of_time(*v, TimeUnit::Second),
{
    time_to_physical(v, TimeUnit::Second) as i32
}

pub fn time64_nanosecond_as_time(v: i64) -> (r: TimeVal)
    requires
        time_phys_in_range(v as int, TimeUnit::Nanosecond),
    ensures
        r == time_of_physical(v as int, TimeUnit::Nanosecond),
        time_wf(r),
{
    physical_to_time(v, TimeUnit::Nanosecond)
}

pub fn time64_microsecond_as_time(v: i64) -> (r: TimeVal)
    requires
        time_phys_in_range(v as int, TimeUnit::Microsecond),
    ensures
        r == time_of_physical(v as int, TimeUnit::Microsecond),
        time_wf(r),
{
    physical_to_time(v, TimeUnit::Microsecond)
}

pub fn time32_second_as_time(v: i32) -> (r: TimeVal)
    requires
        time_phys_in_range(v as int, TimeUnit::Second),
    ensures
        r == time_of_physical(v as int, TimeUnit::Second),
        time_wf(r),
{
    physical_to_time(v as i64, TimeUnit::Second)
}

pub fn time32_millisecond_as_time(v: i32) -> (r: TimeVal)
    requires
        time_phys_in_range(v as int, TimeUnit::Millisecond),
    ensures
        r == time_of_physical(v as int, TimeUnit::Millisecond),
        time_wf(r),
{
    physical_to_time(v as i64, TimeUnit::Millisecond)
}

/// Round trip, physical side: raising any 64-bit tick count to its
/// date-time value and lowering it again returns the same count, for
/// every storage unit.
pub proof fn lemma_datetime_physical_round_trip(v: i64, u: TimeUnit)
    ensures
        physical_of_datetime(datetime_of_physical(v as int, u), u) == v as int,
{
    let f = u.factor_spec();
    let npt = u.nanos_per_tick_spec();
    let q = v as int / f;
    let r = v as int % f;
    lemma_fundamental_div_mod(v as int, f);
    lemma_mod_bound(v as int, f);
    assert(i64::MIN <= q <= i64::MAX) by (nonlinear_arith)
        requires
            f * q == v as int - r,
            0 <= r < f,
            1 <= f,
            i64::MIN <= v as int <= i64::MAX,
    ;
    assert(0 <= r * npt < 1_000_000_000) by (nonlinear_arith)
        requires
            0 <= r < f,
            1 <= npt,
            f * npt == 1_000_000_000,
    ;
    lemma_div_multiples_vanish(r, npt);
    assert((npt * r) / npt == r);
    assert(r * npt == npt * r) by (nonlinear_arith);
    assert(q * f == f * q) by (nonlinear_arith);
}

/// Round trip, value side: lowering a date-time value at the unit's own
/// precision (no residual sub-tick nanoseconds, no leap carry) and
/// raising the result returns the same value.
pub proof fn lemma_datetime_value_round_trip(dt: DateTimeVal, u: TimeUnit)
    requires
        datetime_wf(dt),
        dt.nanos < 1_000_000_000,
        dt.nanos as int % u.nanos_per_tick_spec() == 0,
    ensures
        datetime_of_physical(physical_of_datetime(dt, u), u) == dt,
{
    let f = u.factor_spec();
    let npt = u.nanos_per_tick_spec();
    let sub = dt.nanos as int / npt;
    let ticks = dt.secs * f + sub;
    assert(0 <= sub < f) by (nonlinear_arith)
        requires
            sub == dt.nanos as int / npt,
            0 <= (dt.nanos as int) && (dt.nanos as int) < 1_000_000_000,
            1 <= npt,
            f * npt == 1_000_000_000,
    ;
    assert(ticks == dt.secs * f + sub);
    assert(dt.secs * f == (dt.secs as int) * f) by (nonlinear_arith);
    lemma_fundamental_div_mod_converse_div(ticks, f, dt.secs as int, sub);
    lemma_fundamental_div_mod_converse_mod(ticks, f, dt.secs as int, sub);
    assert(ticks / f == dt.secs as int);
    assert(ticks % f == sub);
    lemma_fundamental_div_mod(dt.nanos as int, npt);
    assert(dt.nanos as int == npt * sub);
    assert(sub * npt == npt * sub) by (nonlinear_arith);
}

/// Round trip, physical side, for time-of-day encodings: any tick count
/// within the day raises and lowers to itself.
pub proof fn lemma_time_physical_round_trip(v: i64, u: TimeUnit)
    requires
        time_phys_in_range(v as int, u),
    ensures
        physical_of_time(time_of_physical(v as int, u), u) == v as int,
{
    let f = u.factor_spec();
    let npt = u.nanos_per_tick_spec();
    let q = v as int / f;
    let r = v as int % f;
    lemma_fundamental_div_mod(v as int, f);
    lemma_mod_bound(v as int, f);
    assert(0 <= q < 86_400) by (nonlinear_arith)
        requires
            f * q == v as int - r,
            0 <= r < f,
            1 <= f,
            0 <= (v as int) && (v as int) < 86_400 * f,
    ;
    assert(0 <= r * npt < 1_000_000_000) by (nonlinear_arith)
        requires
            0 <= r < f,
            1 <= npt,
            f * npt == 1_000_000_000,
    ;
    lemma_div_multiples_vanish(r, npt);
    assert(r * npt == npt * r) by (nonlinear_arith);
    assert(q * f == f * q) by (nonlinear_arith);
}

/// Round trip, value side, for time-of-day encodings: a time of day at
/// the unit's own precision lowers and raises to itself.
pub proof fn lemma_time_value_round_trip(t: TimeVal, u: TimeUnit)
    requires
        time_wf(t),
        t.nanos < 1_000_000_000,
        t.nanos as int % u.nanos_per_tick_spec() == 0,
    ensures
        time_of_physical(physical_of_time(t, u), u) == t,
{
    let f = u.factor_spec();
    let npt = u.nanos_per_tick_spec();
    let sub = t.nanos as int / npt;
    let ticks = t.secs * f + sub;
    assert(0 <= sub < f) by (nonlinear_arith)
        requires
            sub == t.nanos as int / npt,
            0 <= (t.nanos as int) && (t.nanos as int) < 1_000_000_000,
            1 <= npt,
            f * npt == 1_000_000_000,
    ;
    assert(t.secs * f == (t.secs as int) * f) by (nonlinear_arith);
    lemma_fundamental_div_mod_converse_div(ticks, f, t.secs as int, sub);
    lemma_fundamental_div_mod_converse_mod(ticks, f, t.secs as int, sub);
    lemma_fundamental_div_mod(t.nanos as int, npt);
    assert(t.nanos as int == npt * sub);
    assert(sub * npt == npt * sub) by (nonlinear_arith);
}

/// Round trip for the day encoding: the midnight instant of a day count
/// falls back in that same day.
pub proof fn lemma_date32_round_trip(v: i32)
    ensures
        date32_of_datetime(datetime_of_date32(v as int)) == v as int,
{
    lemma_div_multiples_vanish(v as int, 86_400);
    assert(v as int * 86_400 == 86_400 * v as int) by (nonlinear_arith);
}

pub uninterp spec fn time_parse(s: Seq<char>, fmt: Seq<char>) -> Option<TimeVal>;

/// Relies on chrono's NaiveTime::parse_from_str: what a text parses to
/// under a strftime-style format depends on the two strings alone, and a
/// failed parse is reported per element. The accessors give a
/// second-of-day below 86400 and nanoseconds below two thousand million
/// (chrono's documented invariant).
#[verifier::external_body]
pub(crate) fn parse_naive_time_from_str(s: &str, fmt: &str) -> (r: Option<TimeVal>)
    ensures
        r == time_parse(s@, fmt@),
        match r {
            Some(t) => time_wf(t),
            None => true,
        },
{
    match chrono::NaiveTime::parse_from_str(s, fmt) {
        Ok(t) => Some(TimeVal { secs: t.num_seconds_from_midnight(), nanos: t.nanosecond() }),
        Err(_) => None,
    }
}

pub uninterp spec fn datetime_parse(s: Seq<char>, fmt: Seq<char>) -> Option<DateTimeVal>;

/// Relies on chrono's NaiveDateTime::parse_from_str: what a text parses
/// to under a strftime-style format depends on the two strings alone,
/// and a failed parse is reported per element. The timestamp accessors
/// give the seconds since the epoch and a subsecond nanosecond count
/// below two thousand million (chrono's documented invariant).
#[verifier::external_body]
pub(crate) fn parse_naive_datetime_from_str(s: &str, fmt: &str) -> (r: Option<DateTimeVal>)
    ensures
        r == datetime_parse(s@, fmt@),
        match r {
            Some(dt) => datetime_wf(dt),
            None => true,
        },
{
    match chrono::NaiveDateTime::parse_from_str(s, fmt) {
        Ok(t) => {
            let utc = t.and_utc();
            Some(DateTimeVal { secs: utc.timestamp(), nanos: utc.timestamp_subsec_nanos() })
        },
        Err(_) => None,
    }
}

pub uninterp spec fn date_parse(s: Seq<char>, fmt: Seq<char>) -> Option<DateVal>;

/// Relies on chrono's NaiveDate::parse_from_str: what a text parses to
/// under a strftime-style format depends on the two strings alone, and a
/// failed parse is reported per element. The day count is the signed
/// whole-day distance from the epoch day.
#[verifier::external_body]
pub(crate) fn parse_naive_date_from_str(s: &str, fmt: &str) -> (r: Option<DateVal>)
    ensures
        r == date_parse(s@, fmt@),
{
    match chrono::NaiveDate::parse_from_str(s, fmt) {
        Ok(d) => {
            let epoch = chrono::NaiveDate::from_ymd_opt(1970, 1, 1).unwrap();
            Some(DateVal { days: d.signed_duration_since(epoch).num_days() as i32 })
        },
        Err(_) => None,
    }
}

} // verus!
