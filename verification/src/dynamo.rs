//! The time-bucket model: statistics rows are keyed by a period (the bucket
//! granularity) and a calendar-aligned bucket key, and range queries over
//! them are built either from a pair of epoch-millisecond instants or from a
//! pair of bucket keys. Because every date layout is fixed width and most
//! significant first, bucket keys of one period sort lexicographically in
//! time order, which is what makes inclusive key-range queries correct.

use vstd::prelude::*;
use vstd::string::StringExecFns;

use crate::error::AppError;
use crate::text::{four_digit_seq, lex_le, two_digit_seq, lemma_lex_concat, lemma_lex_le_refl};
use crate::text::{push_four_digits, push_two_digits};

verus! {

/// The granularity that statistics are bucketed by. Week rows exist in the
/// store but have no date layout here yet, so rendering a dated week bucket
/// fails loudly instead of inventing one.
#[derive(Debug, Clone, Copy, PartialEq, Eq, Structural)]
pub enum Period {
    Minute,
    Minute5,
    Minute15,
    Hour,
    Day,
    Week,
}

/// The tag under which rows of this period are stored.
pub open spec fn period_seq(p: Period) -> Seq<char> {
    match p {
        Period::Minute => "minute"@,
        Period::Minute5 => "minute_5"@,
        Period::Minute15 => "minute_15"@,
        Period::Hour => "hour"@,
        Period::Day => "day"@,
        Period::Week => "week"@,
    }
}

impl Period {
    /// The tag under which rows of this period are stored.
    pub fn as_str(&self) -> (r: &'static str)
        ensures
            r@ == period_seq(*self),
    {
        match self {
            Period::Minute => "minute",
            Period::Minute5 => "minute_5",
            Period::Minute15 => "minute_15",
            Period::Hour => "hour",
            Period::Day => "day",
            Period::Week => "week",
        }
    }
}

/// One row of the queue-definition table.
#[derive(Debug, Clone)]
pub struct QueueDetails {
    pub archive: Option<bool>,
    pub clone: Option<String>,
    pub event: String,
    pub max_eid: Option<String>,
    pub timestamp: Option<i64>,
    pub v: Option<u32>,
}

/// A UTC instant broken into the calendar fields that bucket keys are
/// rendered from.
#[derive(Debug, Clone, Copy, PartialEq, Eq, Structural)]
pub struct DateTimeParts {
    pub year: u32,
    pub month: u32,
    pub day: u32,
    pub hour: u32,
    pub minute: u32,
}

impl DateTimeParts {
    /// The fields describe a renderable calendar instant: four-digit year
    /// and the usual field ranges.
    pub open spec fn wf(self) -> bool {
        &&& self.year <= 9999
        &&& 1 <= self.month <= 12
        &&& 1 <= self.day <= 31
        &&& self.hour <= 23
        &&& self.minute <= 59
    }
}

/// Calendar order on field tuples, most significant field first.
pub open spec fn parts_le(a: DateTimeParts, b: DateTimeParts) -> bool {
    if a.year != b.year {
        a.year < b.year
    } else if a.month != b.month {
        a.month < b.month
    } else if a.day != b.day {
        a.day < b.day
    } else if a.hour != b.hour {
        a.hour < b.hour
    } else {
        a.minute <= b.minute
    }
}

/// The date half of a bucket key: minute-level periods render
/// year-month-day hour:minute, hourly periods stop after the hour, daily
/// periods after the day. Week has no layout and renders nothing.
pub open spec fn date_seq(p: Period, d: DateTimeParts) -> Seq<char> {
    match p {
        Period::Minute | Period::Minute5 | Period::Minute15 => four_digit_seq(d.year as int) + (
        "-"@ + (two_digit_seq(d.month as int) + ("-"@ + (two_digit_seq(d.day as int) + (" "@ + (
        two_digit_seq(d.hour as int) + (":"@ + two_digit_seq(d.minute as int)))))))),
        Period::Hour => four_digit_seq(d.year as int) + ("-"@ + (two_digit_seq(d.month as int) + (
        "-"@ + (two_digit_seq(d.day as int) + (" "@ + two_digit_seq(d.hour as int)))))),
        Period::Day => four_digit_seq(d.year as int) + ("-"@ + (two_digit_seq(d.month as int) + (
        "-"@ + two_digit_seq(d.day as int)))),
        Period::Week => Seq::<char>::empty(),
    }
}

/// A full bucket key: the period tag, an underscore, and either the rendered
/// date or a second underscore as the open endpoint of a range.
pub open spec fn bucket_key_seq(p: Period, d: Option<DateTimeParts>) -> Seq<char> {
    match d {
        Some(parts) => period_seq(p) + ("_"@ + date_seq(p, parts)),
        None => period_seq(p) + "__"@,
    }
}

/// One endpoint of a per-bot range query: a period and an optional instant.
/// Without an instant the key renders as the open `{period}__` marker.
#[derive(Debug, Clone, Copy)]
pub struct BotBucket {
    pub period: Period,
    pub date: Option<DateTimeParts>,
}

impl BotBucket {
    /// The date, if any, is renderable.
    pub open spec fn wf(self) -> bool {
        match self.date {
            Some(d) => d.wf(),
            None => true,
        }
    }

    pub fn new(period: Period, date: Option<DateTimeParts>) -> (r: Self)
        ensures
            r.period == period,
            r.date == date,
    {
        Self { period, date }
    }

    /// Renders the bucket key. A dated week bucket is refused: there is no
    /// week layout, and silently inventing one would corrupt range queries.
    pub fn key_string(&self) -> (r: Result<String, AppError>)
        requires
            self.wf(),
        ensures
            match r {
                Ok(s) => s@ == bucket_key_seq(self.period, self.date) && !(self.period
                    is Week && self.date is Some),
                Err(e) => self.period is Week && self.date is Some && e is UnimplementedWeekBucket,
            },
    {
        let mut out = String::new();
        out.append(self.period.as_str());
        match self.date {
            None => {
                out.append("__");
                assert(out@ =~= bucket_key_seq(self.period, self.date));
                Ok(out)
            },
            Some(d) => {
                match self.period {
                    Period::Week => Err(AppError::UnimplementedWeekBucket),
                    Period::Minute | Period::Minute5 | Period::Minute15 => {
                        out.append("_");
                        push_four_digits(&mut out, d.year);
                        out.append("-");
                        push_two_digits(&mut out, d.month);
                        out.append("-");
                        push_two_digits(&mut out, d.day);
                        out.append(" ");
                        push_two_digits(&mut out, d.hour);
                        out.append(":");
                        push_two_digits(&mut out, d.minute);
                        assert(out@ =~= bucket_key_seq(self.period, self.date));
                        Ok(out)
                    },
                    Period::Hour => {
                        out.append("_");
                        push_four_digits(&mut out, d.year);
                        out.append("-");
                        push_two_digits(&mut out, d.month);
                        out.append("-");
                        push_two_digits(&mut out, d.day);
                        out.append(" ");
                        push_two_digits(&mut out, d.hour);
                        assert(out@ =~= bucket_key_seq(self.period, self.date));
                        Ok(out)
                    },
                    Period::Day => {
                        out.append("_");
                        push_four_digits(&mut out, d.year);
                        out.append("-");
                        push_two_digits(&mut out, d.month);
                        out.append("-");
                        push_two_digits(&mut out, d.day);
                        assert(out@ =~= bucket_key_seq(self.period, self.date));
                        Ok(out)
                    },
                }
            },
        }
    }
}

/// Calendar-later instants never render to lexicographically smaller date
/// strings, for any period that has a date layout.
proof fn lemma_date_seq_monotonic(p: Period, d1: DateTimeParts, d2: DateTimeParts)
    requires
        !(p is Week),
        d1.wf(),
        d2.wf(),
        parts_le(d1, d2),
    ensures
        lex_le(date_seq(p, d1), date_seq(p, d2)),
{
    let y1 = four_digit_seq(d1.year as int);
    let y2 = four_digit_seq(d2.year as int);
    let mo1 = two_digit_seq(d1.month as int);
    let mo2 = two_digit_seq(d2.month as int);
    let dd1 = two_digit_seq(d1.day as int);
    let dd2 = two_digit_seq(d2.day as int);
    let h1 = two_digit_seq(d1.hour as int);
    let h2 = two_digit_seq(d2.hour as int);
    let mi1 = two_digit_seq(d1.minute as int);
    let mi2 = two_digit_seq(d2.minute as int);
    crate::text::lemma_four_digit_le(d1.year as int, d2.year as int);
    if d1.year == d2.year {
        crate::text::lemma_two_digit_le(d1.month as int, d2.month as int);
        if d1.month == d2.month {
            crate::text::lemma_two_digit_le(d1.day as int, d2.day as int);
            if d1.day == d2.day {
                crate::text::lemma_two_digit_le(d1.hour as int, d2.hour as int);
                if d1.hour == d2.hour {
                    crate::text::lemma_two_digit_le(d1.minute as int, d2.minute as int);
                }
            }
        }
    }
    match p {
        Period::Minute | Period::Minute5 | Period::Minute15 => {
            if d1.year == d2.year {
                if d1.month == d2.month {
                    if d1.day == d2.day {
                        if d1.hour == d2.hour {
                            crate::text::lemma_lex_prefix(":"@, mi1, mi2);
                        }
                        lemma_lex_concat(h1, h2, ":"@ + mi1, ":"@ + mi2);
                        crate::text::lemma_lex_prefix(" "@, h1 + (":"@ + mi1), h2 + (":"@ + mi2));
                    }
                    lemma_lex_concat(
                        dd1,
                        dd2,
                        " "@ + (h1 + (":"@ + mi1)),
                        " "@ + (h2 + (":"@ + mi2)),
                    );
                    crate::text::lemma_lex_prefix(
                        "-"@,
                        dd1 + (" "@ + (h1 + (":"@ + mi1))),
                        dd2 + (" "@ + (h2 + (":"@ + mi2))),
                    );
                }
                lemma_lex_concat(
                    mo1,
                    mo2,
                    "-"@ + (dd1 + (" "@ + (h1 + (":"@ + mi1)))),
                    "-"@ + (dd2 + (" "@ + (h2 + (":"@ + mi2)))),
                );
                crate::text::lemma_lex_prefix(
                    "-"@,
                    mo1 + ("-"@ + (dd1 + (" "@ + (h1 + (":"@ + mi1))))),
                    mo2 + ("-"@ + (dd2 + (" "@ + (h2 + (":"@ + mi2))))),
                );
            }
            lemma_lex_concat(
                y1,
                y2,
                "-"@ + (mo1 + ("-"@ + (dd1 + (" "@ + (h1 + (":"@ + mi1)))))),
                "-"@ + (mo2 + ("-"@ + (dd2 + (" "@ + (h2 + (":"@ + mi2)))))),
            );
        },
        Period::Hour => {
            if d1.year == d2.year {
                if d1.month == d2.month {
                    if d1.day == d2.day {
                        crate::text::lemma_lex_prefix(" "@, h1, h2);
                    }
                    lemma_lex_concat(dd1, dd2, " "@ + h1, " "@ + h2);
                    crate::text::lemma_lex_prefix("-"@, dd1 + (" "@ + h1), dd2 + (" "@ + h2));
                }
                lemma_lex_concat(mo1, mo2, "-"@ + (dd1 + (" "@ + h1)), "-"@ + (dd2 + (" "@ + h2)));
                crate::text::lemma_lex_prefix(
                    "-"@,
                    mo1 + ("-"@ + (dd1 + (" "@ + h1))),
                    mo2 + ("-"@ + (dd2 + (" "@ + h2))),
                );
            }
            lemma_lex_concat(
                y1,
                y2,
                "-"@ + (mo1 + ("-"@ + (dd1 + (" "@ + h1)))),
                "-"@ + (mo2 + ("-"@ + (dd2 + (" "@ + h2)))),
            );
        },
        Period::Day => {
            if d1.year == d2.year {
                if d1.month == d2.month {
                    crate::text::lemma_lex_prefix("-"@, dd1, dd2);
                }
                lemma_lex_concat(mo1, mo2, "-"@ + dd1, "-"@ + dd2);
                crate::text::lemma_lex_prefix("-"@, mo1 + ("-"@ + dd1), mo2 + ("-"@ + dd2));
            }
            lemma_lex_concat(y1, y2, "-"@ + (mo1 + ("-"@ + dd1)), "-"@ + (mo2 + ("-"@ + dd2)));
        },
        Period::Week => {},
    }
}

/// Bucket keys of one period are lexicographically sortable in time order:
/// an instant that is calendar-wise no later never renders to a larger key.
pub proof fn lemma_bucket_key_monotonic(p: Period, d1: DateTimeParts, d2: DateTimeParts)
    requires
        !(p is Week),
        d1.wf(),
        d2.wf(),
        parts_le(d1, d2),
    ensures
        lex_le(bucket_key_seq(p, Some(d1)), bucket_key_seq(p, Some(d2))),
{
    lemma_date_seq_monotonic(p, d1, d2);
    crate::text::lemma_lex_prefix("_"@, date_seq(p, d1), date_seq(p, d2));
    crate::text::lemma_lex_prefix(
        period_seq(p),
        "_"@ + date_seq(p, d1),
        "_"@ + date_seq(p, d2),
    );
    assert(period_seq(p) + ("_"@ + date_seq(p, d1)) == bucket_key_seq(p, Some(d1)));
    assert(period_seq(p) + ("_"@ + date_seq(p, d2)) == bucket_key_seq(p, Some(d2)));
}

/// Subtraction on epoch milliseconds, saturating at the representable
/// range.
pub open spec fn sub_sat_i64(a: int, b: int) -> int {
    if a - b < i64::MIN {
        i64::MIN as int
    } else if a - b > i64::MAX {
        i64::MAX as int
    } else {
        a - b
    }
}

/// An absolute-time query window: all buckets of one period whose row
/// timestamp lies between the two epoch-millisecond endpoints, inclusive.
#[derive(Debug, Clone, Copy)]
pub struct AllBuckets {
    pub period: Period,
    pub start: i64,
    pub end: i64,
}

/// Builds an [`AllBuckets`] window as "the `past_ms` milliseconds up to
/// `search_til`"; the defaults are the last fifteen minutes up to now.
#[derive(Debug, Clone, Copy)]
pub struct AllBucketsBuilder {
    pub period: Period,
    pub past_ms: i64,
    pub search_til: i64,
}

impl AllBucketsBuilder {
    /// A window over the last fifteen minutes, ending now.
    pub fn new(period: Period) -> (r: Self)
        ensures
            r.period == period,
            r.past_ms == 900000,
    {
        let now = now_ms();
        Self { period, past_ms: 900000, search_til: now }
    }

    /// Sets how far back from the end instant the window reaches.
    pub fn past_ms(self, duration_ms: i64) -> (r: Self)
        ensures
            r == (Self { past_ms: duration_ms, ..self }),
    {
        Self { past_ms: duration_ms, ..self }
    }

    /// Sets the end instant of the window, as epoch milliseconds.
    pub fn search_til(self, date_ms: i64) -> (r: Self)
        ensures
            r == (Self { search_til: date_ms, ..self }),
    {
        Self { search_til: date_ms, ..self }
    }

    /// The finished window: from the end instant minus the lookback,
    /// saturating at the representable range, up to the end instant. A
    /// non-negative lookback always yields start at or before end.
    pub fn build(self) -> (r: AllBuckets)
        ensures
            r.period == self.period,
            r.end == self.search_til,
            r.start == sub_sat_i64(self.search_til as int, self.past_ms as int),
            self.past_ms >= 0 ==> r.start <= r.end,
    {
        let start: i64 = if self.past_ms >= 0 {
            if self.search_til >= i64::MIN + self.past_ms {
                self.search_til - self.past_ms
            } else {
                i64::MIN
            }
        } else {
            if self.search_til <= i64::MAX + self.past_ms {
                self.search_til - self.past_ms
            } else {
                i64::MAX
            }
        };
        AllBuckets { period: self.period, start, end: self.search_til }
    }
}

/// Relies on `chrono::Utc::now` and `chrono::DateTime::timestamp_millis`
/// for the current time as epoch milliseconds. Nothing is assumed of the
/// value: the clock may say anything.
#[verifier::external_body]
pub fn now_ms() -> i64 {
    chrono::Utc::now().timestamp_millis()
}

/// The UTC calendar fields of an epoch-millisecond instant, as year,
/// month, day, hour and minute: a fixed function of the instant alone, or
/// nothing when the instant is out of the representable range.
pub uninterp spec fn utc_fields_of(ms: int) -> Option<(int, int, int, int, int)>;

/// Relies on `chrono::DateTime::from_timestamp_millis` together with the
/// `Datelike` and `Timelike` accessors for the UTC calendar fields of an
/// epoch-millisecond instant, as year, month, day, hour and minute; the
/// fields depend on the instant alone. The accessors document month in
/// 1..=12, day in 1..=31, hour below 24 and minute below 60; out-of-range
/// instants yield nothing.
#[verifier::external_body]
fn utc_fields_from_ms(ms: i64) -> (r: Option<(i64, u32, u32, u32, u32)>)
    ensures
        match r {
            Some(t) => utc_fields_of(ms as int) == Some(
                (t.0 as int, t.1 as int, t.2 as int, t.3 as int, t.4 as int),
            ) && 1 <= t.1 <= 12 && 1 <= t.2 <= 31 && t.3 <= 23 && t.4 <= 59,
            None => utc_fields_of(ms as int) is None,
        },
{
    match chrono::DateTime::<chrono::Utc>::from_timestamp_millis(ms) {
        Some(dt) => Some((
            chrono::Datelike::year(&dt) as i64,
            chrono::Datelike::month(&dt),
            chrono::Datelike::day(&dt),
            chrono::Timelike::hour(&dt),
            chrono::Timelike::minute(&dt),
        )),
        None => None,
    }
}

/// The calendar fields of an epoch-millisecond instant, when the instant
/// lies in a four-digit year.
pub fn utc_parts_from_ms(ms: i64) -> (r: Option<DateTimeParts>)
    ensures
        match r {
            Some(p) => p.wf() && utc_fields_of(ms as int) == Some(
                (
                    p.year as int,
                    p.month as int,
                    p.day as int,
                    p.hour as int,
                    p.minute as int,
                ),
            ),
            None => match utc_fields_of(ms as int) {
                Some(t) => !(0 <= t.0 <= 9999),
                None => true,
            },
        },
{
    match utc_fields_from_ms(ms) {
        Some((y, mo, d, h, mi)) => {
            if 0 <= y && y <= 9999 {
                Some(DateTimeParts { year: y as u32, month: mo, day: d, hour: h, minute: mi })
            } else {
                None
            }
        },
        None => None,
    }
}

/// The lookback of the default per-bot statistics window, in milliseconds:
/// one hour.
pub const DEFAULT_LOOKBACK_MS: i64 = 3600000;

/// The bucket-key range for the default per-bot statistics fetch: from the
/// fifteen-minute bucket one hour before the given instant, through the
/// open end marker. Yields nothing only when the start instant has no
/// renderable calendar form.
pub fn default_stats_window(now: i64) -> (r: Option<(String, String)>)
    ensures
        r matches Some(keys) ==> (exists|p: DateTimeParts|
            p.wf() && utc_fields_of(sub_sat_i64(now as int, DEFAULT_LOOKBACK_MS as int)) == Some(
                (
                    p.year as int,
                    p.month as int,
                    p.day as int,
                    p.hour as int,
                    p.minute as int,
                ),
            ) && keys.0@ == bucket_key_seq(Period::Minute15, Some(p))) && keys.1@
            == bucket_key_seq(Period::Minute15, None::<DateTimeParts>),
        (utc_fields_of(sub_sat_i64(now as int, DEFAULT_LOOKBACK_MS as int)) matches Some(t) && 0
            <= t.0 <= 9999) ==> r is Some,
        r is None ==> match utc_fields_of(sub_sat_i64(now as int, DEFAULT_LOOKBACK_MS as int)) {
            Some(t) => !(0 <= t.0 <= 9999),
            None => true,
        },
{
    let start_ms: i64 = if now >= i64::MIN + DEFAULT_LOOKBACK_MS {
        now - DEFAULT_LOOKBACK_MS
    } else {
        i64::MIN
    };
    proof {
        assert(start_ms == sub_sat_i64(now as int, DEFAULT_LOOKBACK_MS as int));
    }
    match utc_parts_from_ms(start_ms) {
        Some(parts) => {
            let start_bucket = BotBucket::new(Period::Minute15, Some(parts));
            let end_bucket = BotBucket::new(Period::Minute15, None);
            match (start_bucket.key_string(), end_bucket.key_string()) {
                (Ok(s), Ok(e)) => {
                    proof {
                        let p = parts;
                        assert(p.wf() && s@ == bucket_key_seq(Period::Minute15, Some(p)));
                    }
                    Some((s, e))
                },
                _ => {
                    proof {
                        assert(false);
                    }
                    None
                },
            }
        },
        None => None,
    }
}

} // verus!
