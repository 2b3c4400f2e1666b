use chrono::Timelike;

use polars::temporal::DateTimeVal;
use polars::temporal::TimeVal;
use polars::temporal::date32_as_datetime;
use polars::temporal::date64_as_datetime;
use polars::temporal::naive_datetime_to_timestamp_seconds;
use polars::temporal::time64_nanosecond_as_time;
use polars::temporal::naive_time_to_time64_nanoseconds;
use polars::temporal::unix_time;
use polars::temporal_chunked::Date32Chunked;
use polars::temporal_chunked::Date64Chunked;
use polars::temporal_chunked::FromNaiveDate;
use polars::temporal_chunked::FromNaiveDateTime;
use polars::temporal_chunked::FromNaiveTime;
use polars::temporal_chunked::AsNaiveTime;
use polars::temporal_chunked::Time32MillisecondChunked;
use polars::temporal_chunked::Time32SecondChunked;
use polars::temporal_chunked::Time64MicrosecondChunked;
use polars::temporal_chunked::Time64NanosecondChunked;
use polars::temporal_chunked::TimestampMicrosecondChunked;
use polars::temporal_chunked::TimestampMillisecondChunked;
use polars::temporal_chunked::TimestampNanosecondChunked;
use polars::temporal_chunked::TimestampSecondChunked;

fn time_val(s: &str, fmt: &str) -> TimeVal {
    let t = chrono::NaiveTime::parse_from_str(s, fmt).unwrap();
    TimeVal { secs: t.num_seconds_from_midnight(), nanos: t.nanosecond() }
}

fn datetime_val(s: &str, fmt: &str) -> DateTimeVal {
    let t = chrono::NaiveDateTime::parse_from_str(s, fmt).unwrap().and_utc();
    DateTimeVal { secs: t.timestamp(), nanos: t.timestamp_subsec_nanos() }
}

#[test]
fn from_time() {
    let times: Vec<_> = ["23:56:04", "00:00:00"]
        .iter()
        .map(|s| time_val(s, "%H:%M:%S"))
        .collect();
    let t = Time64NanosecondChunked::new_from_naive_time("times", &times);
    assert_eq!([86164000000000, 0], t.cont_slice().unwrap()[..]);
    let t = Time64MicrosecondChunked::new_from_naive_time("times", &times);
    assert_eq!([86164000000, 0], t.cont_slice().unwrap()[..]);
    let t = Time32MillisecondChunked::new_from_naive_time("times", &times);
    assert_eq!([86164000, 0], t.cont_slice().unwrap()[..]);
    let t = Time32SecondChunked::new_from_naive_time("times", &times);
    assert_eq!([86164, 0], t.cont_slice().unwrap()[..]);
}

#[test]
fn from_datetime() {
    let datetimes: Vec<_> = [
        "1988-08-25 00:00:16",
        "2015-09-05 23:56:04",
        "2012-12-21 00:00:00",
    ]
    .iter()
    .map(|s| datetime_val(s, "%Y-%m-%d %H:%M:%S"))
    .collect();

    let dt = Date64Chunked::new_from_naive_datetime("name", &datetimes);
    assert_eq!(
        [588470416000, 1441497364000, 1356048000000],
        dt.cont_slice().unwrap()[..]
    );
    let dt = TimestampNanosecondChunked::new_from_naive_datetime("name", &datetimes);
    assert_eq!(
        [588470416000000000, 1441497364000000000, 1356048000000000000],
        dt.cont_slice().unwrap()[..]
    );
    let dt = TimestampMicrosecondChunked::new_from_naive_datetime("name", &datetimes);
    assert_eq!(
        [588470416000000, 1441497364000000, 1356048000000000],
        dt.cont_slice().unwrap()[..]
    );
    let dt = TimestampMillisecondChunked::new_from_naive_datetime("name", &datetimes);
    assert_eq!(
        [588470416000, 1441497364000, 1356048000000],
        dt.cont_slice().unwrap()[..]
    );
    let dt = TimestampSecondChunked::new_from_naive_datetime("name", &datetimes);
    assert_eq!(
        [588470416, 1441497364, 1356048000],
        dt.cont_slice().unwrap()[..]
    );
}

#[test]
fn from_date() {
    let dates: Vec<String> = [
        "2020-08-21",
        "2020-08-21",
        "2020-08-22",
        "2020-08-23",
        "2020-08-22",
    ]
    .iter()
    .map(|s| s.to_string())
    .collect();
    let fmt = "%Y-%m-%d";
    let ca = Date32Chunked::parse_from_str_slice("dates", &dates, fmt);
    assert_eq!(
        [18495, 18495, 18496, 18497, 18496],
        ca.cont_slice().unwrap()[..]
    );
}

#[test]
fn parse_time_nanosecond_example() {
    let texts = vec!["23:56:04".to_string()];
    let t = Time64NanosecondChunked::parse_from_str_slice("times", &texts, "%H:%M:%S");
    assert_eq!([86164000000000], t.cont_slice().unwrap()[..]);
}

#[test]
fn parse_datetime_millisecond_example() {
    let texts = vec!["1988-08-25 00:00:16".to_string()];
    let t = TimestampMillisecondChunked::parse_from_str_slice("name", &texts, "%Y-%m-%d %H:%M:%S");
    assert_eq!([588470416000], t.cont_slice().unwrap()[..]);
}

#[test]
fn parse_failure_becomes_null() {
    let texts = vec!["not a date".to_string(), "2020-08-21".to_string()];
    let ca = Date32Chunked::parse_from_str_slice("dates", &texts, "%Y-%m-%d");
    // A per-element parse failure is a null, not a batch failure.
    assert!(matches!(ca.cont_slice(), Err(polars::PolarsError::NullValue)));
    assert_eq!(ca.ca.get(0), Some(None));
    assert_eq!(ca.ca.get(1), Some(Some(18495)));
}

#[test]
fn time_round_trip() {
    let t = TimeVal { secs: 86164, nanos: 500_000_000 };
    let phys = naive_time_to_time64_nanoseconds(&t);
    assert_eq!(phys, 86164500000000);
    assert_eq!(time64_nanosecond_as_time(phys), t);
}

#[test]
fn datetime_round_trip() {
    let dt = DateTimeVal { secs: 588470416, nanos: 0 };
    assert_eq!(naive_datetime_to_timestamp_seconds(&dt), 588470416);
    // Narrowing truncates residual sub-unit ticks instead of rounding.
    let fine = DateTimeVal { secs: 12, nanos: 999_999_999 };
    assert_eq!(polars::temporal::naive_datetime_to_timestamp_milliseconds(&fine), 12999);
    let back = polars::temporal::timestamp_milliseconds_as_datetime(12999);
    assert_eq!(back, DateTimeVal { secs: 12, nanos: 999_000_000 });
}

#[test]
fn date_encodings_differ() {
    // The day-counting encoding and its wider sibling, which counts
    // milliseconds, deliberately stay two distinct encodings.
    let midnight = date32_as_datetime(18495);
    assert_eq!(midnight.secs, 18495i64 * 86_400);
    let from_ms = date64_as_datetime(18495i64 * 86_400_000);
    assert_eq!(from_ms, midnight);
    assert_eq!(unix_time(), DateTimeVal { secs: 0, nanos: 0 });
}

#[test]
fn read_back_times() {
    let times: Vec<_> = ["01:02:03".to_string()].to_vec();
    let t = Time64NanosecondChunked::parse_from_str_slice("times", &times, "%H:%M:%S");
    let back = t.as_naive_time();
    assert_eq!(back.len(), 1);
    assert_eq!(back[0], Some(TimeVal { secs: 3723, nanos: 0 }));
}
