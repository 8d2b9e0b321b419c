//! Calendar values as plain numbers, their text forms, and the trusted
//! bridge to chrono's parsers and clock.

use vstd::prelude::*;
use chrono::{Datelike, Timelike};
use crate::numfmt::{pad2_of, pad4_of, pad2, pad4};
use crate::text::concat_chars;

verus! {

/// A calendar date, held as plain values.
#[derive(Clone, Copy, Debug, PartialEq, Eq, Structural)]
pub struct DateVal {
    pub year: i32,
    pub month: u32,
    pub day: u32,
}

/// A wall-clock time, held as plain values.
#[derive(Clone, Copy, Debug, PartialEq, Eq, Structural)]
pub struct TimeVal {
    pub hour: u32,
    pub minute: u32,
    pub second: u32,
}

/// A date and a time together.
#[derive(Clone, Copy, Debug, PartialEq, Eq, Structural)]
pub struct StampVal {
    pub date: DateVal,
    pub time: TimeVal,
}

impl DateVal {
    /// The range the library's text forms cover.
    pub open spec fn wf(self) -> bool {
        0 <= self.year <= 9999 && 1 <= self.month <= 12 && 1 <= self.day <= 31
    }
}

impl TimeVal {
    pub open spec fn wf(self) -> bool {
        self.hour < 24 && self.minute < 60 && self.second < 60
    }

    /// Midnight.
    pub fn zero() -> (r: TimeVal)
        ensures
            r == (TimeVal { hour: 0, minute: 0, second: 0 }),
    {
        TimeVal { hour: 0, minute: 0, second: 0 }
    }
}

impl StampVal {
    pub open spec fn wf(self) -> bool {
        self.date.wf() && self.time.wf()
    }
}

/// What chrono's `NaiveDate::parse_from_str` returns on the given text and
/// format, as `(year, month, day)`.
pub uninterp spec fn date_parse(s: Seq<char>, fmt: Seq<char>) -> Option<(i32, u32, u32)>;

/// What chrono's `NaiveTime::parse_from_str` returns on the given text and
/// format, as `(hour, minute, second)`.
pub uninterp spec fn time_parse(s: Seq<char>, fmt: Seq<char>) -> Option<(u32, u32, u32)>;

/// What chrono's `NaiveDateTime::parse_from_str` returns on the given text
/// and format, as date and time tuples.
pub uninterp spec fn datetime_parse(s: Seq<char>, fmt: Seq<char>) -> Option<
    ((i32, u32, u32), (u32, u32, u32)),
>;

/// Relies on chrono's `NaiveDate::parse_from_str`, which reads a calendar
/// date from text according to a strftime-style format; the result depends
/// on the two strings alone, and a parsed date always has its month in
/// 1..=12 and its day in 1..=31.
#[verifier::external_body]
pub fn parse_date(s: &str, fmt: &str) -> (r: Option<DateVal>)
    ensures
        match date_parse(s@, fmt@) {
            Some(t) => r == Some(DateVal { year: t.0, month: t.1, day: t.2 }),
            None => r is None,
        },
        r matches Some(d) ==> 1 <= d.month <= 12 && 1 <= d.day <= 31,
{
    match chrono::NaiveDate::parse_from_str(s, fmt) {
        Ok(d) => Some(DateVal { year: d.year(), month: d.month(), day: d.day() }),
        Err(_) => None,
    }
}

/// Relies on chrono's `NaiveTime::parse_from_str`, which reads a time of day
/// from text according to a strftime-style format; the result depends on the
/// two strings alone, and a parsed time always has hour < 24 and minute and
/// second < 60.
#[verifier::external_body]
pub fn parse_time(s: &str, fmt: &str) -> (r: Option<TimeVal>)
    ensures
        match time_parse(s@, fmt@) {
            Some(t) => r == Some(TimeVal { hour: t.0, minute: t.1, second: t.2 }),
            None => r is None,
        },
        r matches Some(t) ==> t.hour < 24 && t.minute < 60 && t.second < 60,
{
    match chrono::NaiveTime::parse_from_str(s, fmt) {
        Ok(t) => Some(TimeVal { hour: t.hour(), minute: t.minute(), second: t.second() }),
        Err(_) => None,
    }
}

/// Relies on chrono's `NaiveDateTime::parse_from_str`, which reads a date
/// and time from text according to a strftime-style format; the result
/// depends on the two strings alone, with the same field ranges as the date
/// and time parsers.
#[verifier::external_body]
pub fn parse_datetime(s: &str, fmt: &str) -> (r: Option<StampVal>)
    ensures
        match datetime_parse(s@, fmt@) {
            Some(t) => r == Some(
                StampVal {
                    date: DateVal { year: t.0.0, month: t.0.1, day: t.0.2 },
                    time: TimeVal { hour: t.1.0, minute: t.1.1, second: t.1.2 },
                },
            ),
            None => r is None,
        },
        r matches Some(st) ==> 1 <= st.date.month <= 12 && 1 <= st.date.day <= 31
            && st.time.hour < 24 && st.time.minute < 60 && st.time.second < 60,
{
    match chrono::NaiveDateTime::parse_from_str(s, fmt) {
        Ok(dt) => Some(StampVal {
            date: DateVal { year: dt.year(), month: dt.month(), day: dt.day() },
            time: TimeVal { hour: dt.hour(), minute: dt.minute(), second: dt.second() },
        }),
        Err(_) => None,
    }
}

/// Relies on chrono's `Local::now` for the current wall-clock date and time.
/// The value depends on the clock, so nothing is assumed of it beyond
/// chrono's field ranges.
#[verifier::external_body]
pub fn local_now() -> (r: StampVal)
    ensures
        1 <= r.date.month <= 12 && 1 <= r.date.day <= 31,
        r.time.hour < 24 && r.time.minute < 60 && r.time.second < 60,
{
    let now = chrono::Local::now();
    StampVal {
        date: DateVal { year: now.year(), month: now.month(), day: now.day() },
        time: TimeVal { hour: now.hour(), minute: now.minute(), second: now.second() },
    }
}

/// The current local date and time with the year clamped into the range the
/// library's text forms cover; on any realistic clock this is the identity.
pub fn local_now_clamped() -> (r: StampVal)
    ensures
        r.wf(),
{
    let st = local_now();
    let y: i32 = if st.date.year < 0 {
        0
    } else if st.date.year > 9999 {
        9999
    } else {
        st.date.year
    };
    StampVal { date: DateVal { year: y, month: st.date.month, day: st.date.day }, time: st.time }
}

/// `DD/MM/YYYY`.
pub open spec fn fmt_date_of(d: DateVal) -> Seq<char> {
    pad2_of(d.day as int) + seq!['/'] + pad2_of(d.month as int) + seq!['/'] + pad4_of(d.year as int)
}

/// `HH:MM:SS`.
pub open spec fn fmt_time_of(t: TimeVal) -> Seq<char> {
    pad2_of(t.hour as int) + seq![':'] + pad2_of(t.minute as int) + seq![':'] + pad2_of(
        t.second as int,
    )
}

/// `DD/MM/YYYY HH:MM:SS`.
pub open spec fn fmt_stamp_of(st: StampVal) -> Seq<char> {
    fmt_date_of(st.date) + seq![' '] + fmt_time_of(st.time)
}

/// `YYYYMMDD_HHMMSS`, the suffix used for archived and rejected file names.
pub open spec fn compact_stamp_of(st: StampVal) -> Seq<char> {
    pad4_of(st.date.year as int) + pad2_of(st.date.month as int) + pad2_of(st.date.day as int)
        + seq!['_'] + pad2_of(st.time.hour as int) + pad2_of(st.time.minute as int) + pad2_of(
        st.time.second as int,
    )
}

/// `YYYY-MM-DD HH:MM:SS`, the timestamp used in logs and audit rows.
pub open spec fn iso_stamp_of(st: StampVal) -> Seq<char> {
    pad4_of(st.date.year as int) + seq!['-'] + pad2_of(st.date.month as int) + seq!['-'] + pad2_of(
        st.date.day as int,
    ) + seq![' '] + fmt_time_of(st.time)
}

/// `YYYY-MM-DD`.
pub open spec fn iso_date_of(d: DateVal) -> Seq<char> {
    pad4_of(d.year as int) + seq!['-'] + pad2_of(d.month as int) + seq!['-'] + pad2_of(d.day as int)
}

/// `YYYYMM`, the suffix of monthly rolling log files.
pub open spec fn month_tag_of(d: DateVal) -> Seq<char> {
    pad4_of(d.year as int) + pad2_of(d.month as int)
}

pub fn fmt_date(d: &DateVal) -> (r: Vec<char>)
    requires
        d.wf(),
    ensures
        r@ == fmt_date_of(*d),
{
    let mut v = pad2(d.day as u64);
    v.push('/');
    let mo = pad2(d.month as u64);
    let v2 = concat_chars(&v, &mo);
    let mut v3 = v2;
    v3.push('/');
    let yr = pad4(d.year as u64);
    let r = concat_chars(&v3, &yr);
    proof {
        assert(r@ =~= fmt_date_of(*d));
    }
    r
}

pub fn fmt_time(t: &TimeVal) -> (r: Vec<char>)
    requires
        t.wf(),
    ensures
        r@ == fmt_time_of(*t),
{
    let mut v = pad2(t.hour as u64);
    v.push(':');
    let mi = pad2(t.minute as u64);
    let mut v2 = concat_chars(&v, &mi);
    v2.push(':');
    let se = pad2(t.second as u64);
    let r = concat_chars(&v2, &se);
    proof {
        assert(r@ =~= fmt_time_of(*t));
    }
    r
}

pub fn fmt_stamp(st: &StampVal) -> (r: Vec<char>)
    requires
        st.wf(),
    ensures
        r@ == fmt_stamp_of(*st),
{
    let mut v = fmt_date(&st.date);
    v.push(' ');
    let t = fmt_time(&st.time);
    let r = concat_chars(&v, &t);
    proof {
        assert(r@ =~= fmt_stamp_of(*st));
    }
    r
}

pub fn compact_stamp(st: &StampVal) -> (r: Vec<char>)
    requires
        st.wf(),
    ensures
        r@ == compact_stamp_of(*st),
{
    let mut v = pad4(st.date.year as u64);
    let mo = pad2(st.date.month as u64);
    let mut v2 = concat_chars(&v, &mo);
    let da = pad2(st.date.day as u64);
    let mut v3 = concat_chars(&v2, &da);
    v3.push('_');
    let ho = pad2(st.time.hour as u64);
    let v4 = concat_chars(&v3, &ho);
    let mi = pad2(st.time.minute as u64);
    let v5 = concat_chars(&v4, &mi);
    let se = pad2(st.time.second as u64);
    let r = concat_chars(&v5, &se);
    proof {
        assert(r@ =~= compact_stamp_of(*st));
    }
    r
}

pub fn iso_stamp(st: &StampVal) -> (r: Vec<char>)
    requires
        st.wf(),
    ensures
        r@ == iso_stamp_of(*st),
{
    let mut v = pad4(st.date.year as u64);
    v.push('-');
    let mo = pad2(st.date.month as u64);
    let mut v2 = concat_chars(&v, &mo);
    v2.push('-');
    let da = pad2(st.date.day as u64);
    let mut v3 = concat_chars(&v2, &da);
    v3.push(' ');
    let t = fmt_time(&st.time);
    let r = concat_chars(&v3, &t);
    proof {
        assert(r@ =~= iso_stamp_of(*st));
    }
    r
}

pub fn iso_date(d: &DateVal) -> (r: Vec<char>)
    requires
        d.wf(),
    ensures
        r@ == iso_date_of(*d),
{
    let mut v = pad4(d.year as u64);
    v.push('-');
    let mo = pad2(d.month as u64);
    let mut v2 = concat_chars(&v, &mo);
    v2.push('-');
    let da = pad2(d.day as u64);
    let r = concat_chars(&v2, &da);
    proof {
        assert(r@ =~= iso_date_of(*d));
    }
    r
}

pub fn month_tag(d: &DateVal) -> (r: Vec<char>)
    requires
        d.wf(),
    ensures
        r@ == month_tag_of(*d),
{
    let v = pad4(d.year as u64);
    let mo = pad2(d.month as u64);
    let r = concat_chars(&v, &mo);
    proof {
        assert(r@ =~= month_tag_of(*d));
    }
    r
}

} // verus!
