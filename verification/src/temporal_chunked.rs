//! Temporal columns: one chunked integer column per physical temporal
//! encoding, built from logical date, time and date-time values or parsed
//! from text, and read back as logical values.
use vstd::prelude::*;

use crate::PolarsError;
use crate::chunked::ChunkedArray;
use crate::chunked::opt_view;
use crate::temporal::DateTimeVal;
use crate::temporal::DateVal;
use crate::temporal::TimeUnit;
use crate::temporal::TimeVal;
use crate::temporal::date32_as_datetime;
use crate::temporal::date_parse;
use crate::temporal::datetime_of_date32;
use crate::temporal::datetime_fits;
use crate::temporal::datetime_fits_check;
use crate::temporal::datetime_of_physical;
use crate::temporal::datetime_parse;
use crate::temporal::datetime_to_physical;
use crate::temporal::datetime_wf;
use crate::temporal::parse_naive_date_from_str;
use crate::temporal::parse_naive_datetime_from_str;
use crate::temporal::parse_naive_time_from_str;
use crate::temporal::physical_of_datetime;
use crate::temporal::physical_of_time;
use crate::temporal::physical_to_datetime;
use crate::temporal::physical_to_time;
use crate::temporal::time_of_physical;
use crate::temporal::time_parse;
use crate::temporal::time_phys_in_range;
use crate::temporal::time_to_physical;
use crate::temporal::time_wf;

verus! {

/// The stored tick of one parsed time text: the parse of the text, taken
/// to the unit's physical encoding; a failed parse is a null.
pub open spec fn time_tick_of_parse(s: Seq<char>, fmt: Seq<char>, u: TimeUnit) -> Option<i64> {
    match time_parse(s, fmt) {
        Some(t) => Some(physical_of_time(t, u) as i64),
        None => None,
    }
}

/// The stored tick of one parsed date-time text; a text whose instant
/// does not fit the unit's 64-bit encoding is a null as well.
pub open spec fn datetime_tick_of_parse(s: Seq<char>, fmt: Seq<char>, u: TimeUnit) -> Option<
    i64,
> {
    match datetime_parse(s, fmt) {
        Some(dt) => if datetime_fits(dt, u) {
            Some(physical_of_datetime(dt, u) as i64)
        } else {
            None
        },
        None => None,
    }
}

/// The stored day count of one parsed date text.
pub open spec fn date_tick_of_parse(s: Seq<char>, fmt: Seq<char>) -> Option<i64> {
    match date_parse(s, fmt) {
        Some(d) => Some(d.days as i64),
        None => None,
    }
}

fn times_to_ticks(v: &Vec<TimeVal>, u: TimeUnit) -> (r: Vec<i64>)
    requires
        forall|i: int| 0 <= i < v@.len() ==> time_wf(#[trigger] v@[i]),
    ensures
        r@ == v@.map_values(|t: TimeVal| physical_of_time(t, u) as i64),
{
    let n = v.len();
    let mut out: Vec<i64> = Vec::new();
    let mut i: usize = 0;
    while i < n
        invariant
            n == v@.len(),
            i <= n,
            out@.len() == i,
            forall|j: int| 0 <= j < n ==> time_wf(#[trigger] v@[j]),
            forall|j: int| 0 <= j < i ==> #[trigger] out@[j] == physical_of_time(v@[j], u) as i64,
        decreases n - i,
    {
        let t = time_to_physical(&v[i], u);
        out.push(t);
        i += 1;
    }
    proof {
        assert(out@ =~= v@.map_values(|t: TimeVal| physical_of_time(t, u) as i64));
    }
    out
}

fn datetimes_to_ticks(v: &Vec<DateTimeVal>, u: TimeUnit) -> (r: Vec<i64>)
    requires
        forall|i: int|
            0 <= i < v@.len() ==> datetime_wf(#[trigger] v@[i]) && datetime_fits(v@[i], u),
    ensures
        r@ == v@.map_values(|t: DateTimeVal| physical_of_datetime(t, u) as i64),
{
    let n = v.len();
    let mut out: Vec<i64> = Vec::new();
    let mut i: usize = 0;
    while i < n
        invariant
            n == v@.len(),
            i <= n,
            out@.len() == i,
            forall|j: int|
                0 <= j < n ==> datetime_wf(#[trigger] v@[j]) && datetime_fits(v@[j], u),
            forall|j: int|
                0 <= j < i ==> #[trigger] out@[j] == physical_of_datetime(v@[j], u) as i64,
        decreases n - i,
    {
        let t = datetime_to_physical(&v[i], u);
        out.push(t);
        i += 1;
    }
    proof {
        assert(out@ =~= v@.map_values(|t: DateTimeVal| physical_of_datetime(t, u) as i64));
    }
    out
}

fn dates_to_ticks(v: &Vec<DateVal>) -> (r: Vec<i64>)
    ensures
        r@ == v@.map_values(|d: DateVal| d.days as i64),
{
    let n = v.len();
    let mut out: Vec<i64> = Vec::new();
    let mut i: usize = 0;
    while i < n
        invariant
            n == v@.len(),
            i <= n,
            out@.len() == i,
            forall|j: int| 0 <= j < i ==> #[trigger] out@[j] == v@[j].days as i64,
        decreases n - i,
    {
        out.push(v[i].days as i64);
        i += 1;
    }
    proof {
        assert(out@ =~= v@.map_values(|d: DateVal| d.days as i64));
    }
    out
}

fn parse_times_to_ticks(v: &Vec<String>, fmt: &str, u: TimeUnit) -> (r: Vec<Option<i64>>)
    ensures
        r@.len() == v@.len(),
        forall|i: int|
            0 <= i < v@.len() ==> #[trigger] r@[i] == time_tick_of_parse(v@[i]@, fmt@, u),
{
    let n = v.len();
    let mut out: Vec<Option<i64>> = Vec::new();
    let mut i: usize = 0;
    while i < n
        invariant
            n == v@.len(),
            i <= n,
            out@.len() == i,
            forall|j: int|
                0 <= j < i ==> #[trigger] out@[j] == time_tick_of_parse(v@[j]@, fmt@, u),
        decreases n - i,
    {
        match parse_naive_time_from_str(v[i].as_str(), fmt) {
            Some(t) => out.push(Some(time_to_physical(&t, u))),
            None => out.push(None),
        }
        i += 1;
    }
    out
}

fn parse_datetimes_to_ticks(v: &Vec<String>, fmt: &str, u: TimeUnit) -> (r: Vec<Option<i64>>)
    ensures
        r@.len() == v@.len(),
        forall|i: int|
            0 <= i < v@.len() ==> #[trigger] r@[i] == datetime_tick_of_parse(v@[i]@, fmt@, u),
{
    let n = v.len();
    let mut out: Vec<Option<i64>> = Vec::new();
    let mut i: usize = 0;
    while i < n
        invariant
            n == v@.len(),
            i <= n,
            out@.len() == i,
            forall|j: int|
                0 <= j < i ==> #[trigger] out@[j] == datetime_tick_of_parse(v@[j]@, fmt@, u),
        decreases n - i,
    {
        match parse_naive_datetime_from_str(v[i].as_str(), fmt) {
            Some(dt) => {
                if datetime_fits_check(&dt, u) {
                    out.push(Some(datetime_to_physical(&dt, u)));
                } else {
                    out.push(None);
                }
            },
            None => out.push(None),
        }
        i += 1;
    }
    out
}

fn parse_dates_to_ticks(v: &Vec<String>, fmt: &str) -> (r: Vec<Option<i64>>)
    ensures
        r@.len() == v@.len(),
        forall|i: int| 0 <= i < v@.len() ==> #[trigger] r@[i] == date_tick_of_parse(v@[i]@, fmt@),
{
    let n = v.len();
    let mut out: Vec<Option<i64>> = Vec::new();
    let mut i: usize = 0;
    while i < n
        invariant
            n == v@.len(),
            i <= n,
            out@.len() == i,
            forall|j: int| 0 <= j < i ==> #[trigger] out@[j] == date_tick_of_parse(v@[j]@, fmt@),
        decreases n - i,
    {
        match parse_naive_date_from_str(v[i].as_str(), fmt) {
            Some(d) => out.push(Some(d.days as i64)),
            None => out.push(None),
        }
        i += 1;
    }
    out
}

/// Builds the single-chunk tick column behind every temporal type.
fn ticks_to_array(name: &str, ticks: Vec<i64>) -> (r: ChunkedArray<i64>)
    ensures
        r.wf(),
        r.name_view() == name@,
        r.contents() == ticks@.map_values(|t: i64| Some(t)),
{
    let r = ChunkedArray::new_from_vec(name, ticks);
    proof {
        assert(r.contents() =~= r.contents());
    }
    r
}

/// Builds the single-chunk nullable tick column behind every temporal
/// type's parse path.
fn opt_ticks_to_array(name: &str, ticks: &Vec<Option<i64>>) -> (r: ChunkedArray<i64>)
    ensures
        r.wf(),
        r.name_view() == name@,
        r.contents() == ticks@,
{
    let r = ChunkedArray::new_from_opt_vec(name, ticks);
    proof {
        assert(ticks@.map_values(|c: Option<i64>| opt_view(c)) =~= ticks@);
    }
    r
}

/// A column type holding times of day at one storage unit, buildable
/// from logical time values or parsed from text.
pub trait FromNaiveTime: Sized {
    spec fn unit() -> TimeUnit;

    spec fn contents_of(&self) -> Seq<Option<i64>>;

    spec fn name_of(&self) -> Seq<char>;

    spec fn inv(&self) -> bool;

    fn new_from_naive_time(name: &str, v: &Vec<TimeVal>) -> (r: Self)
        requires
            forall|i: int| 0 <= i < v@.len() ==> time_wf(#[trigger] v@[i]),
        ensures
            r.inv(),
            r.name_of() == name@,
            r.contents_of() == v@.map_values(
                |t: TimeVal| Some(physical_of_time(t, Self::unit()) as i64),
            ),
    ;

    fn parse_from_str_slice(name: &str, v: &Vec<String>, fmt: &str) -> (r: Self)
        ensures
            r.inv(),
            r.name_of() == name@,
            r.contents_of().len() == v@.len(),
            forall|i: int|
                0 <= i < v@.len() ==> #[trigger] r.contents_of()[i] == time_tick_of_parse(
                    v@[i]@,
                    fmt@,
                    Self::unit(),
                ),
    ;
}

/// Reads a time column back as logical time values, null for null.
pub trait AsNaiveTime: FromNaiveTime {
    fn as_naive_time(&self) -> (r: Vec<Option<TimeVal>>)
        requires
            self.inv(),
            forall|i: int|
                0 <= i < self.contents_of().len() ==> match #[trigger] self.contents_of()[i] {
                    Some(t) => time_phys_in_range(t as int, Self::unit()),
                    None => true,
                },
        ensures
            r@.len() == self.contents_of().len(),
            forall|i: int|
                0 <= i < r@.len() ==> #[trigger] r@[i] == match self.contents_of()[i] {
                    Some(t) => Some(time_of_physical(t as int, Self::unit())),
                    None => None,
                },
    ;
}

/// A column type holding instants at one storage unit, buildable from
/// logical date-time values or parsed from text.
pub trait FromNaiveDateTime: Sized {
    spec fn unit() -> TimeUnit;

    spec fn contents_of(&self) -> Seq<Option<i64>>;

    spec fn name_of(&self) -> Seq<char>;

    spec fn inv(&self) -> bool;

    fn new_from_naive_datetime(name: &str, v: &Vec<DateTimeVal>) -> (r: Self)
        requires
            forall|i: int|
                0 <= i < v@.len() ==> datetime_wf(#[trigger] v@[i]) && datetime_fits(
                    v@[i],
                    Self::unit(),
                ),
        ensures
            r.inv(),
            r.name_of() == name@,
            r.contents_of() == v@.map_values(
                |t: DateTimeVal| Some(physical_of_datetime(t, Self::unit()) as i64),
            ),
    ;

    fn parse_from_str_slice(name: &str, v: &Vec<String>, fmt: &str) -> (r: Self)
        ensures
            r.inv(),
            r.name_of() == name@,
            r.contents_of().len() == v@.len(),
            forall|i: int|
                0 <= i < v@.len() ==> #[trigger] r.contents_of()[i] == datetime_tick_of_parse(
                    v@[i]@,
                    fmt@,
                    Self::unit(),
                ),
    ;
}

/// Reads an instant column back as logical date-time values.
pub trait AsNaiveDateTime: FromNaiveDateTime {
    fn as_naive_datetime(&self) -> (r: Vec<Option<DateTimeVal>>)
        requires
            self.inv(),
        ensures
            r@.len() == self.contents_of().len(),
            forall|i: int|
                0 <= i < r@.len() ==> #[trigger] r@[i] == match self.contents_of()[i] {
                    Some(t) => Some(datetime_of_physical(t as int, Self::unit())),
                    None => None,
                },
    ;
}

/// A column type holding dates as day counts, buildable from logical
/// date values or parsed from text.
pub trait FromNaiveDate: Sized {
    spec fn contents_of(&self) -> Seq<Option<i64>>;

    spec fn name_of(&self) -> Seq<char>;

    spec fn inv(&self) -> bool;

    fn new_from_naive_date(name: &str, v: &Vec<DateVal>) -> (r: Self)
        ensures
            r.inv(),
            r.name_of() == name@,
            r.contents_of() == v@.map_values(|d: DateVal| Some(d.days as i64)),
    ;

    fn parse_from_str_slice(name: &str, v: &Vec<String>, fmt: &str) -> (r: Self)
        ensures
            r.inv(),
            r.name_of() == name@,
            r.contents_of().len() == v@.len(),
            forall|i: int|
                0 <= i < v@.len() ==> #[trigger] r.contents_of()[i] == date_tick_of_parse(
                    v@[i]@,
                    fmt@,
                ),
    ;
}

/// Reads a date column back as logical date values.
pub trait AsNaiveDate: FromNaiveDate {
    fn as_naive_date(&self) -> (r: Vec<Option<DateVal>>)
        requires
            self.inv(),
            forall|i: int|
                0 <= i < self.contents_of().len() ==> match #[trigger] self.contents_of()[i] {
                    Some(d) => i32::MIN <= d <= i32::MAX,
                    None => true,
                },
        ensures
            r@.len() == self.contents_of().len(),
            forall|i: int|
                0 <= i < r@.len() ==> #[trigger] r@[i] == match self.contents_of()[i] {
                    Some(d) => Some(DateVal { days: d as i32 }),
                    None => None,
                },
    ;
}

fn array_to_times(ca: &ChunkedArray<i64>, u: TimeUnit) -> (r: Vec<Option<TimeVal>>)
    requires
        ca.wf(),
        forall|i: int|
            0 <= i < ca.contents().len() ==> match #[trigger] ca.contents()[i] {
                Some(t) => time_phys_in_range(t as int, u),
                None => true,
            },
    ensures
        r@.len() == ca.contents().len(),
        forall|i: int|
            0 <= i < r@.len() ==> #[trigger] r@[i] == match ca.contents()[i] {
                Some(t) => Some(time_of_physical(t as int, u)),
                None => None,
            },
{
    let cells = ca.to_opt_vec();
    let n = cells.len();
    let mut out: Vec<Option<TimeVal>> = Vec::new();
    let mut i: usize = 0;
    proof {
        assert(cells@.map_values(|c: Option<i64>| opt_view(c)) =~= cells@);
    }
    while i < n
        invariant
            ca.wf(),
            cells@ == ca.contents(),
            forall|j: int|
                0 <= j < ca.contents().len() ==> match #[trigger] ca.contents()[j] {
                    Some(t) => time_phys_in_range(t as int, u),
                    None => true,
                },
            n == cells@.len(),
            i <= n,
            out@.len() == i,
            forall|j: int|
                0 <= j < i ==> #[trigger] out@[j] == match ca.contents()[j] {
                    Some(t) => Some(time_of_physical(t as int, u)),
                    None => None,
                },
        decreases n - i,
    {
        match cells[i] {
            Some(t) => out.push(Some(physical_to_time(t, u))),
            None => out.push(None),
        }
        i += 1;
    }
    out
}

fn array_to_datetimes(ca: &ChunkedArray<i64>, u: TimeUnit) -> (r: Vec<Option<DateTimeVal>>)
    requires
        ca.wf(),
    ensures
        r@.len() == ca.contents().len(),
        forall|i: int|
            0 <= i < r@.len() ==> #[trigger] r@[i] == match ca.contents()[i] {
                Some(t) => Some(datetime_of_physical(t as int, u)),
                None => None,
            },
{
    let cells = ca.to_opt_vec();
    let n = cells.len();
    let mut out: Vec<Option<DateTimeVal>> = Vec::new();
    let mut i: usize = 0;
    proof {
        assert(cells@.map_values(|c: Option<i64>| opt_view(c)) =~= cells@);
    }
    while i < n
        invariant
            ca.wf(),
            cells@ == ca.contents(),
            n == cells@.len(),
            i <= n,
            out@.len() == i,
            forall|j: int|
                0 <= j < i ==> #[trigger] out@[j] == match ca.contents()[j] {
                    Some(t) => Some(datetime_of_physical(t as int, u)),
                    None => None,
                },
        decreases n - i,
    {
        match cells[i] {
            Some(t) => out.push(Some(physical_to_datetime(t, u))),
            None => out.push(None),
        }
        i += 1;
    }
    out
}

fn array_to_dates(ca: &ChunkedArray<i64>) -> (r: Vec<Option<DateVal>>)
    requires
        ca.wf(),
        forall|i: int|
            0 <= i < ca.contents().len() ==> match #[trigger] ca.contents()[i] {
                Some(d) => i32::MIN <= d <= i32::MAX,
                None => true,
            },
    ensures
        r@.len() == ca.contents().len(),
        forall|i: int|
            0 <= i < r@.len() ==> #[trigger] r@[i] == match ca.contents()[i] {
                Some(d) => Some(DateVal { days: d as i32 }),
                None => None,
            },
{
    let cells = ca.to_opt_vec();
    let n = cells.len();
    let mut out: Vec<Option<DateVal>> = Vec::new();
    let mut i: usize = 0;
    proof {
        assert(cells@.map_values(|c: Option<i64>| opt_view(c)) =~= cells@);
    }
    while i < n
        invariant
            ca.wf(),
            cells@ == ca.contents(),
            forall|j: int|
                0 <= j < ca.contents().len() ==> match #[trigger] ca.contents()[j] {
                    Some(d) => i32::MIN <= d <= i32::MAX,
                    None => true,
                },
            n == cells@.len(),
            i <= n,
            out@.len() == i,
            forall|j: int|
                0 <= j < i ==> #[trigger] out@[j] == match ca.contents()[j] {
                    Some(d) => Some(DateVal { days: d as i32 }),
                    None => None,
                },
        decreases n - i,
    {
        match cells[i] {
            Some(d) => out.push(Some(DateVal { days: d as i32 })),
            None => out.push(None),
        }
        i += 1;
    }
    out
}

/// A time-of-day column stored as nanoseconds since midnight.
pub struct Time64NanosecondChunked {
    pub ca: ChunkedArray<i64>,
}

/// A time-of-day column stored as microseconds since midnight.
pub struct Time64MicrosecondChunked {
    pub ca: ChunkedArray<i64>,
}

/// A time-of-day column stored as milliseconds since midnight.
pub struct Time32MillisecondChunked {
    pub ca: ChunkedArray<i64>,
}

/// A time-of-day column stored as whole seconds since midnight.
pub struct Time32SecondChunked {
    pub ca: ChunkedArray<i64>,
}

/// An instant column stored as milliseconds since the epoch (the wider
/// date encoding, which counts milliseconds, unlike its day-counting
/// sibling).
pub struct Date64Chunked {
    pub ca: ChunkedArray<i64>,
}

/// An instant column stored as nanoseconds since the epoch.
pub struct TimestampNanosecondChunked {
    pub ca: ChunkedArray<i64>,
}

/// An instant column stored as microseconds since the epoch.
pub struct TimestampMicrosecondChunked {
    pub ca: ChunkedArray<i64>,
}

/// An instant column stored as milliseconds since the epoch.
pub struct TimestampMillisecondChunked {
    pub ca: ChunkedArray<i64>,
}

/// An instant column stored as whole seconds since the epoch.
pub struct TimestampSecondChunked {
    pub ca: ChunkedArray<i64>,
}

/// A date column stored as whole days since the epoch day.
pub struct Date32Chunked {
    pub ca: ChunkedArray<i64>,
}


impl FromNaiveTime for Time64NanosecondChunked {
    open spec fn unit() -> TimeUnit {
        TimeUnit::Nanosecond
    }

    open spec fn contents_of(&self) -> Seq<Option<i64>> {
        self.ca.contents()
    }

    open spec fn name_of(&self) -> Seq<char> {
        self.ca.name_view()
    }

    open spec fn inv(&self) -> bool {
        self.ca.wf()
    }

    fn new_from_naive_time(name: &str, v: &Vec<TimeVal>) -> (r: Self) {
        let ticks = times_to_ticks(v, TimeUnit::Nanosecond);
        let r = Time64NanosecondChunked { ca: ticks_to_array(name, ticks) };
        proof {
            assert(r.contents_of() =~= v@.map_values(
                |t: TimeVal| Some(physical_of_time(t, TimeUnit::Nanosecond) as i64),
            ));
        }
        r
    }

    fn parse_from_str_slice(name: &str, v: &Vec<String>, fmt: &str) -> (r: Self) {
        let ticks = parse_times_to_ticks(v, fmt, TimeUnit::Nanosecond);
        Time64NanosecondChunked { ca: opt_ticks_to_array(name, &ticks) }
    }
}

impl AsNaiveTime for Time64NanosecondChunked {
    fn as_naive_time(&self) -> (r: Vec<Option<TimeVal>>) {
        array_to_times(&self.ca, TimeUnit::Nanosecond)
    }
}

impl Time64NanosecondChunked {
    /// The values of the single chunk, if the column is contiguous and
    /// has no null.
    pub fn cont_slice(&self) -> (r: Result<Vec<i64>, PolarsError>)
        requires
            self.ca.wf(),
        ensures
            match r {
                Ok(v) => self.ca.chunks@.len() == 1 && v@.map_values(|x: i64| Some(x@))
                    == self.ca.contents(),
                Err(e) => {
                    ||| (e == PolarsError::NotContiguous && self.ca.chunks@.len() != 1)
                    ||| (e == PolarsError::NullValue && self.ca.chunks@.len() == 1 && exists|j: int|
                        0 <= j < self.ca.contents().len() && self.ca.contents()[j] is None)
                },
            },
    {
        self.ca.cont_slice()
    }
}

impl FromNaiveTime for Time64MicrosecondChunked {
    open spec fn unit() -> TimeUnit {
        TimeUnit::Microsecond
    }

    open spec fn contents_of(&self) -> Seq<Option<i64>> {
        self.ca.contents()
    }

    open spec fn name_of(&self) -> Seq<char> {
        self.ca.name_view()
    }

    open spec fn inv(&self) -> bool {
        self.ca.wf()
    }

    fn new_from_naive_time(name: &str, v: &Vec<TimeVal>) -> (r: Self) {
        let ticks = times_to_ticks(v, TimeUnit::Microsecond);
        let r = Time64MicrosecondChunked { ca: ticks_to_array(name, ticks) };
        proof {
            assert(r.contents_of() =~= v@.map_values(
                |t: TimeVal| Some(physical_of_time(t, TimeUnit::Microsecond) as i64),
            ));
        }
        r
    }

    fn parse_from_str_slice(name: &str, v: &Vec<String>, fmt: &str) -> (r: Self) {
        let ticks = parse_times_to_ticks(v, fmt, TimeUnit::Microsecond);
        Time64MicrosecondChunked { ca: opt_ticks_to_array(name, &ticks) }
    }
}

impl AsNaiveTime for Time64MicrosecondChunked {
    fn as_naive_time(&self) -> (r: Vec<Option<TimeVal>>) {
        array_to_times(&self.ca, TimeUnit::Microsecond)
    }
}

impl Time64MicrosecondChunked {
    /// The values of the single chunk, if the column is contiguous and
    /// has no null.
    pub fn cont_slice(&self) -> (r: Result<Vec<i64>, PolarsError>)
        requires
            self.ca.wf(),
        ensures
            match r {
                Ok(v) => self.ca.chunks@.len() == 1 && v@.map_values(|x: i64| Some(x@))
                    == self.ca.contents(),
                Err(e) => {
                    ||| (e == PolarsError::NotContiguous && self.ca.chunks@.len() != 1)
                    ||| (e == PolarsError::NullValue && self.ca.chunks@.len() == 1 && exists|j: int|
                        0 <= j < self.ca.contents().len() && self.ca.contents()[j] is None)
                },
            },
    {
        self.ca.cont_slice()
    }
}

impl FromNaiveTime for Time32MillisecondChunked {
    open spec fn unit() -> TimeUnit {
        TimeUnit::Millisecond
    }

    open spec fn contents_of(&self) -> Seq<Option<i64>> {
        self.ca.contents()
    }

    open spec fn name_of(&self) -> Seq<char> {
        self.ca.name_view()
    }

    open spec fn inv(&self) -> bool {
        self.ca.wf()
    }

    fn new_from_naive_time(name: &str, v: &Vec<TimeVal>) -> (r: Self) {
        let ticks = times_to_ticks(v, TimeUnit::Millisecond);
        let r = Time32MillisecondChunked { ca: ticks_to_array(name, ticks) };
        proof {
            assert(r.contents_of() =~= v@.map_values(
                |t: TimeVal| Some(physical_of_time(t, TimeUnit::Millisecond) as i64),
            ));
        }
        r
    }

    fn parse_from_str_slice(name: &str, v: &Vec<String>, fmt: &str) -> (r: Self) {
        let ticks = parse_times_to_ticks(v, fmt, TimeUnit::Millisecond);
        Time32MillisecondChunked { ca: opt_ticks_to_array(name, &ticks) }
    }
}

impl AsNaiveTime for Time32MillisecondChunked {
    fn as_naive_time(&self) -> (r: Vec<Option<TimeVal>>) {
        array_to_times(&self.ca, TimeUnit::Millisecond)
    }
}

impl Time32MillisecondChunked {
    /// The values of the single chunk, if the column is contiguous and
    /// has no null.
    pub fn cont_slice(&self) -> (r: Result<Vec<i64>, PolarsError>)
        requires
            self.ca.wf(),
        ensures
            match r {
                Ok(v) => self.ca.chunks@.len() == 1 && v@.map_values(|x: i64| Some(x@))
                    == self.ca.contents(),
                Err(e) => {
                    ||| (e == PolarsError::NotContiguous && self.ca.chunks@.len() != 1)
                    ||| (e == PolarsError::NullValue && self.ca.chunks@.len() == 1 && exists|j: int|
                        0 <= j < self.ca.contents().len() && self.ca.contents()[j] is None)
                },
            },
    {
        self.ca.cont_slice()
    }
}

impl FromNaiveTime for Time32SecondChunked {
    open spec fn unit() -> TimeUnit {
        TimeUnit::Second
    }

    open spec fn contents_of(&self) -> Seq<Option<i64>> {
        self.ca.contents()
    }

    open spec fn name_of(&self) -> Seq<char> {
        self.ca.name_view()
    }

    open spec fn inv(&self) -> bool {
        self.ca.wf()
    }

    fn new_from_naive_time(name: &str, v: &Vec<TimeVal>) -> (r: Self) {
        let ticks = times_to_ticks(v, TimeUnit::Second);
        let r = Time32SecondChunked { ca: ticks_to_array(name, ticks) };
        proof {
            assert(r.contents_of() =~= v@.map_values(
                |t: TimeVal| Some(physical_of_time(t, TimeUnit::Second) as i64),
            ));
        }
        r
    }

    fn parse_from_str_slice(name: &str, v: &Vec<String>, fmt: &str) -> (r: Self) {
        let ticks = parse_times_to_ticks(v, fmt, TimeUnit::Second);
        Time32SecondChunked { ca: opt_ticks_to_array(name, &ticks) }
    }
}

impl AsNaiveTime for Time32SecondChunked {
    fn as_naive_time(&self) -> (r: Vec<Option<TimeVal>>) {
        array_to_times(&self.ca, TimeUnit::Second)
    }
}

impl Time32SecondChunked {
    /// The values of the single chunk, if the column is contiguous and
    /// has no null.
    pub fn cont_slice(&self) -> (r: Result<Vec<i64>, PolarsError>)
        requires
            self.ca.wf(),
        ensures
            match r {
                Ok(v) => self.ca.chunks@.len() == 1 && v@.map_values(|x: i64| Some(x@))
                    == self.ca.contents(),
                Err(e) => {
                    ||| (e == PolarsError::NotContiguous && self.ca.chunks@.len() != 1)
                    ||| (e == PolarsError::NullValue && self.ca.chunks@.len() == 1 && exists|j: int|
                        0 <= j < self.ca.contents().len() && self.ca.contents()[j] is None)
                },
            },
    {
        self.ca.cont_slice()
    }
}

impl FromNaiveDateTime for Date64Chunked {
    open spec fn unit() -> TimeUnit {
        TimeUnit::Millisecond
    }

    open spec fn contents_of(&self) -> Seq<Option<i64>> {
        self.ca.contents()
    }

    open spec fn name_of(&self) -> Seq<char> {
        self.ca.name_view()
    }

    open spec fn inv(&self) -> bool {
        self.ca.wf()
    }

    fn new_from_naive_datetime(name: &str, v: &Vec<DateTimeVal>) -> (r: Self) {
        let ticks = datetimes_to_ticks(v, TimeUnit::Millisecond);
        let r = Date64Chunked { ca: ticks_to_array(name, ticks) };
        proof {
            assert(r.contents_of() =~= v@.map_values(
                |t: DateTimeVal| Some(physical_of_datetime(t, TimeUnit::Millisecond) as i64),
            ));
        }
        r
    }

    fn parse_from_str_slice(name: &str, v: &Vec<String>, fmt: &str) -> (r: Self) {
        let ticks = parse_datetimes_to_ticks(v, fmt, TimeUnit::Millisecond);
        Date64Chunked { ca: opt_ticks_to_array(name, &ticks) }
    }
}

impl AsNaiveDateTime for Date64Chunked {
    fn as_naive_datetime(&self) -> (r: Vec<Option<DateTimeVal>>) {
        array_to_datetimes(&self.ca, TimeUnit::Millisecond)
    }
}

impl Date64Chunked {
    /// The values of the single chunk, if the column is contiguous and
    /// has no null.
    pub fn cont_slice(&self) -> (r: Result<Vec<i64>, PolarsError>)
        requires
            self.ca.wf(),
        ensures
            match r {
                Ok(v) => self.ca.chunks@.len() == 1 && v@.map_values(|x: i64| Some(x@))
                    == self.ca.contents(),
                Err(e) => {
                    ||| (e == PolarsError::NotContiguous && self.ca.chunks@.len() != 1)
                    ||| (e == PolarsError::NullValue && self.ca.chunks@.len() == 1 && exists|j: int|
                        0 <= j < self.ca.contents().len() && self.ca.contents()[j] is None)
                },
            },
    {
        self.ca.cont_slice()
    }
}

impl FromNaiveDateTime for TimestampNanosecondChunked {
    open spec fn unit() -> TimeUnit {
        TimeUnit::Nanosecond
    }

    open spec fn contents_of(&self) -> Seq<Option<i64>> {
        self.ca.contents()
    }

    open spec fn name_of(&self) -> Seq<char> {
        self.ca.name_view()
    }

    open spec fn inv(&self) -> bool {
        self.ca.wf()
    }

    fn new_from_naive_datetime(name: &str, v: &Vec<DateTimeVal>) -> (r: Self) {
        let ticks = datetimes_to_ticks(v, TimeUnit::Nanosecond);
        let r = TimestampNanosecondChunked { ca: ticks_to_array(name, ticks) };
        proof {
            assert(r.contents_of() =~= v@.map_values(
                |t: DateTimeVal| Some(physical_of_datetime(t, TimeUnit::Nanosecond) as i64),
            ));
        }
        r
    }

    fn parse_from_str_slice(name: &str, v: &Vec<String>, fmt: &str) -> (r: Self) {
        let ticks = parse_datetimes_to_ticks(v, fmt, TimeUnit::Nanosecond);
        TimestampNanosecondChunked { ca: opt_ticks_to_array(name, &ticks) }
    }
}

impl AsNaiveDateTime for TimestampNanosecondChunked {
    fn as_naive_datetime(&self) -> (r: Vec<Option<DateTimeVal>>) {
        array_to_datetimes(&self.ca, TimeUnit::Nanosecond)
    }
}

impl TimestampNanosecondChunked {
    /// The values of the single chunk, if the column is contiguous and
    /// has no null.
    pub fn cont_slice(&self) -> (r: Result<Vec<i64>, PolarsError>)
        requires
            self.ca.wf(),
        ensures
            match r {
                Ok(v) => self.ca.chunks@.len() == 1 && v@.map_values(|x: i64| Some(x@))
                    == self.ca.contents(),
                Err(e) => {
                    ||| (e == PolarsError::NotContiguous && self.ca.chunks@.len() != 1)
                    ||| (e == PolarsError::NullValue && self.ca.chunks@.len() == 1 && exists|j: int|
                        0 <= j < self.ca.contents().len() && self.ca.contents()[j] is None)
                },
            },
    {
        self.ca.cont_slice()
    }
}

impl FromNaiveDateTime for TimestampMicrosecondChunked {
    open spec fn unit() -> TimeUnit {
        TimeUnit::Microsecond
    }

    open spec fn contents_of(&self) -> Seq<Option<i64>> {
        self.ca.contents()
    }

    open spec fn name_of(&self) -> Seq<char> {
        self.ca.name_view()
    }

    open spec fn inv(&self) -> bool {
        self.ca.wf()
    }

    fn new_from_naive_datetime(name: &str, v: &Vec<DateTimeVal>) -> (r: Self) {
        let ticks = datetimes_to_ticks(v, TimeUnit::Microsecond);
        let r = TimestampMicrosecondChunked { ca: ticks_to_array(name, ticks) };
        proof {
            assert(r.contents_of() =~= v@.map_values(
                |t: DateTimeVal| Some(physical_of_datetime(t, TimeUnit::Microsecond) as i64),
            ));
        }
        r
    }

    fn parse_from_str_slice(name: &str, v: &Vec<String>, fmt: &str) -> (r: Self) {
        let ticks = parse_datetimes_to_ticks(v, fmt, TimeUnit::Microsecond);
        TimestampMicrosecondChunked { ca: opt_ticks_to_array(name, &ticks) }
    }
}

impl AsNaiveDateTime for TimestampMicrosecondChunked {
    fn as_naive_datetime(&self) -> (r: Vec<Option<DateTimeVal>>) {
        array_to_datetimes(&self.ca, TimeUnit::Microsecond)
    }
}

impl TimestampMicrosecondChunked {
    /// The values of the single chunk, if the column is contiguous and
    /// has no null.
    pub fn cont_slice(&self) -> (r: Result<Vec<i64>, PolarsError>)
        requires
            self.ca.wf(),
        ensures
            match r {
                Ok(v) => self.ca.chunks@.len() == 1 && v@.map_values(|x: i64| Some(x@))
                    == self.ca.contents(),
                Err(e) => {
                    ||| (e == PolarsError::NotContiguous && self.ca.chunks@.len() != 1)
                    ||| (e == PolarsError::NullValue && self.ca.chunks@.len() == 1 && exists|j: int|
                        0 <= j < self.ca.contents().len() && self.ca.contents()[j] is None)
                },
            },
    {
        self.ca.cont_slice()
    }
}

impl FromNaiveDateTime for TimestampMillisecondChunked {
    open spec fn unit() -> TimeUnit {
        TimeUnit::Millisecond
    }

    open spec fn contents_of(&self) -> Seq<Option<i64>> {
        self.ca.contents()
    }

    open spec fn name_of(&self) -> Seq<char> {
        self.ca.name_view()
    }

    open spec fn inv(&self) -> bool {
        self.ca.wf()
    }

    fn new_from_naive_datetime(name: &str, v: &Vec<DateTimeVal>) -> (r: Self) {
        let ticks = datetimes_to_ticks(v, TimeUnit::Millisecond);
        let r = TimestampMillisecondChunked { ca: ticks_to_array(name, ticks) };
        proof {
            assert(r.contents_of() =~= v@.map_values(
                |t: DateTimeVal| Some(physical_of_datetime(t, TimeUnit::Millisecond) as i64),
            ));
        }
        r
    }

    fn parse_from_str_slice(name: &str, v: &Vec<String>, fmt: &str) -> (r: Self) {
        let ticks = parse_datetimes_to_ticks(v, fmt, TimeUnit::Millisecond);
        TimestampMillisecondChunked { ca: opt_ticks_to_array(name, &ticks) }
    }
}

impl AsNaiveDateTime for TimestampMillisecondChunked {
    fn as_naive_datetime(&self) -> (r: Vec<Option<DateTimeVal>>) {
        array_to_datetimes(&self.ca, TimeUnit::Millisecond)
    }
}

impl TimestampMillisecondChunked {
    /// The values of the single chunk, if the column is contiguous and
    /// has no null.
    pub fn cont_slice(&self) -> (r: Result<Vec<i64>, PolarsError>)
        requires
            self.ca.wf(),
        ensures
            match r {
                Ok(v) => self.ca.chunks@.len() == 1 && v@.map_values(|x: i64| Some(x@))
                    == self.ca.contents(),
                Err(e) => {
                    ||| (e == PolarsError::NotContiguous && self.ca.chunks@.len() != 1)
                    ||| (e == PolarsError::NullValue && self.ca.chunks@.len() == 1 && exists|j: int|
                        0 <= j < self.ca.contents().len() && self.ca.contents()[j] is None)
                },
            },
    {
        self.ca.cont_slice()
    }
}

impl FromNaiveDateTime for TimestampSecondChunked {
    open spec fn unit() -> TimeUnit {
        TimeUnit::Second
    }

    open spec fn contents_of(&self) -> Seq<Option<i64>> {
        self.ca.contents()
    }

    open spec fn name_of(&self) -> Seq<char> {
        self.ca.name_view()
    }

    open spec fn inv(&self) -> bool {
        self.ca.wf()
    }

    fn new_from_naive_datetime(name: &str, v: &Vec<DateTimeVal>) -> (r: Self) {
        let ticks = datetimes_to_ticks(v, TimeUnit::Second);
        let r = TimestampSecondChunked { ca: ticks_to_array(name, ticks) };
        proof {
            assert(r.contents_of() =~= v@.map_values(
                |t: DateTimeVal| Some(physical_of_datetime(t, TimeUnit::Second) as i64),
            ));
        }
        r
    }

    fn parse_from_str_slice(name: &str, v: &Vec<String>, fmt: &str) -> (r: Self) {
        let ticks = parse_datetimes_to_ticks(v, fmt, TimeUnit::Second);
        TimestampSecondChunked { ca: opt_ticks_to_array(name, &ticks) }
    }
}

impl AsNaiveDateTime for TimestampSecondChunked {
    fn as_naive_datetime(&self) -> (r: Vec<Option<DateTimeVal>>) {
        array_to_datetimes(&self.ca, TimeUnit::Second)
    }
}

impl TimestampSecondChunked {
    /// The values of the single chunk, if the column is contiguous and
    /// has no null.
    pub fn cont_slice(&self) -> (r: Result<Vec<i64>, PolarsError>)
        requires
            self.ca.wf(),
        ensures
            match r {
                Ok(v) => self.ca.chunks@.len() == 1 && v@.map_values(|x: i64| Some(x@))
                    == self.ca.contents(),
                Err(e) => {
                    ||| (e == PolarsError::NotContiguous && self.ca.chunks@.len() != 1)
                    ||| (e == PolarsError::NullValue && self.ca.chunks@.len() == 1 && exists|j: int|
                        0 <= j < self.ca.contents().len() && self.ca.contents()[j] is None)
                },
            },
    {
        self.ca.cont_slice()
    }
}

impl FromNaiveDate for Date32Chunked {
    open spec fn contents_of(&self) -> Seq<Option<i64>> {
        self.ca.contents()
    }

    open spec fn name_of(&self) -> Seq<char> {
        self.ca.name_view()
    }

    open spec fn inv(&self) -> bool {
        self.ca.wf()
    }

    fn new_from_naive_date(name: &str, v: &Vec<DateVal>) -> (r: Self) {
        let ticks = dates_to_ticks(v);
        let r = Date32Chunked { ca: ticks_to_array(name, ticks) };
        proof {
            assert(r.contents_of() =~= v@.map_values(|d: DateVal| Some(d.days as i64)));
        }
        r
    }

    fn parse_from_str_slice(name: &str, v: &Vec<String>, fmt: &str) -> (r: Self) {
        let ticks = parse_dates_to_ticks(v, fmt);
        Date32Chunked { ca: opt_ticks_to_array(name, &ticks) }
    }
}

impl AsNaiveDate for Date32Chunked {
    fn as_naive_date(&self) -> (r: Vec<Option<DateVal>>) {
        array_to_dates(&self.ca)
    }
}

impl Date32Chunked {
    /// The values of the single chunk, if the column is contiguous and
    /// has no null.
    pub fn cont_slice(&self) -> (r: Result<Vec<i64>, PolarsError>)
        requires
            self.ca.wf(),
        ensures
            match r {
                Ok(v) => self.ca.chunks@.len() == 1 && v@.map_values(|x: i64| Some(x@))
                    == self.ca.contents(),
                Err(e) => {
                    ||| (e == PolarsError::NotContiguous && self.ca.chunks@.len() != 1)
                    ||| (e == PolarsError::NullValue && self.ca.chunks@.len() == 1 && exists|j: int|
                        0 <= j < self.ca.contents().len() && self.ca.contents()[j] is None)
                },
            },
    {
        self.ca.cont_slice()
    }

    /// Reads each stored day count back as the midnight instant of that
    /// day.
    pub fn as_naive_datetime(&self) -> (r: Vec<Option<DateTimeVal>>)
        requires
            self.ca.wf(),
            forall|i: int|
                0 <= i < self.ca.contents().len() ==> match #[trigger] self.ca.contents()[i] {
                    Some(d) => i32::MIN <= d <= i32::MAX,
                    None => true,
                },
        ensures
            r@.len() == self.ca.contents().len(),
            forall|i: int|
                0 <= i < r@.len() ==> #[trigger] r@[i] == match self.ca.contents()[i] {
                    Some(d) => Some(datetime_of_date32(d as int)),
                    None => None,
                },
    {
        let days = array_to_dates(&self.ca);
        let n = days.len();
        let mut out: Vec<Option<DateTimeVal>> = Vec::new();
        let mut i: usize = 0;
        while i < n
            invariant
                n == days@.len(),
                n == self.ca.contents().len(),
                forall|j: int|
                    0 <= j < n ==> match #[trigger] self.ca.contents()[j] {
                        Some(d) => i32::MIN <= d <= i32::MAX,
                        None => true,
                    },
                forall|j: int|
                    0 <= j < n ==> #[trigger] days@[j] == match self.ca.contents()[j] {
                        Some(d) => Some(DateVal { days: d as i32 }),
                        None => None,
                    },
                i <= n,
                out@.len() == i,
                forall|j: int|
                    0 <= j < i ==> #[trigger] out@[j] == match self.ca.contents()[j] {
                        Some(d) => Some(datetime_of_date32(d as int)),
                        None => None,
                    },
            decreases n - i,
        {
            match days[i] {
                Some(d) => out.push(Some(date32_as_datetime(d.days))),
                None => out.push(None),
            }
            i += 1;
        }
        out
    }
}

} // verus!
