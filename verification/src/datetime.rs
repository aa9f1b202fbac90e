//! Date-time recognition: the patterns tried, the timestamp rules, and the order
//! of moments. Parsing, calendar arithmetic and formatting are chrono's.

use vstd::prelude::*;
use chrono::{DateTime, Datelike, NaiveDate, NaiveDateTime, TimeDelta, Timelike, Utc};
use crate::number::{is_digit, is_digit_char, parse_i64, parse_int_spec};
use crate::text::{to_chars, trim, trim_spec};

verus! {

/// A calendar moment as its fields (proleptic Gregorian, no time zone).
#[derive(Clone, Copy, Debug, PartialEq, Eq, Structural)]
pub struct DateTimeParts {
    pub year: i32,
    pub month: u32,
    pub day: u32,
    pub hour: u32,
    pub minute: u32,
    pub second: u32,
    pub nanosecond: u32,
}

/// What `NaiveDateTime::parse_from_str(value, pattern)` yields, as fields.
pub uninterp spec fn datetime_by_pattern(value: Seq<char>, pattern: Seq<char>) -> Option<
    DateTimeParts,
>;

/// What `NaiveDate::parse_from_str(value, pattern)` yields, as year, month, day.
pub uninterp spec fn date_by_pattern(value: Seq<char>, pattern: Seq<char>) -> Option<
    (i32, u32, u32),
>;

/// What `DateTime::<Utc>::from_timestamp(secs, nanos)` yields, as UTC fields.
pub uninterp spec fn moment_of_timestamp(secs: i64, nanos: u32) -> Option<DateTimeParts>;

/// `n` in decimal, zero-padded on the left to `width` digits.
pub open spec fn zero_padded(n: nat, width: nat) -> Seq<char> {
    let d = crate::number::decimal_spec(n);
    if d.len() < width {
        Seq::new((width - d.len()) as nat, |i: int| '0') + d
    } else {
        d
    }
}

/// A date as `%Y-%m-%d` writes it for a year from 0 to 9999.
pub open spec fn date_layout(year: i32, month: u32, day: u32) -> Seq<char> {
    zero_padded(year as nat, 4) + "-"@ + zero_padded(month as nat, 2) + "-"@ + zero_padded(day as nat, 2)
}

/// A moment as `%Y-%m-%d %H:%M:%S` writes it for a year from 0 to 9999 and no
/// leap second.
pub open spec fn datetime_layout(p: DateTimeParts) -> Seq<char> {
    date_layout(p.year, p.month, p.day) + " "@ + zero_padded(p.hour as nat, 2) + ":"@ + zero_padded(
        p.minute as nat,
        2,
    ) + ":"@ + zero_padded(p.second as nat, 2)
}

/// The text `format("%Y-%m-%d %H:%M:%S")` writes for the moment with these
/// fields (none when chrono rejects the fields).
pub uninterp spec fn datetime_text(p: DateTimeParts) -> Option<Seq<char>>;

/// The text `format("%Y-%m-%d")` writes for the date with these fields (none
/// when chrono rejects them).
pub uninterp spec fn date_text(year: i32, month: u32, day: u32) -> Option<Seq<char>>;

/// The moment `minutes` minutes after `p` (none when chrono rejects the fields
/// or the result leaves its range).
pub uninterp spec fn shifted_moment(p: DateTimeParts, minutes: i64) -> Option<DateTimeParts>;

/// Calls `NaiveDateTime::parse_from_str`; the parse is chrono's strftime parser,
/// named and not described.
#[verifier::external_body]
fn parse_datetime_with(value: &str, pattern: &str) -> (r: Option<DateTimeParts>)
    ensures
        r == datetime_by_pattern(value@, pattern@),
{
    match NaiveDateTime::parse_from_str(value, pattern) {
        Ok(v) => Some(DateTimeParts { year: v.year(), month: v.month(), day: v.day(),
            hour: v.hour(), minute: v.minute(), second: v.second(), nanosecond: v.nanosecond() }),
        Err(_) => None,
    }
}

/// Calls `NaiveDate::parse_from_str`; the parse is chrono's, named and not
/// described.
#[verifier::external_body]
fn parse_date_with(value: &str, pattern: &str) -> (r: Option<(i32, u32, u32)>)
    ensures
        r == date_by_pattern(value@, pattern@),
{
    match NaiveDate::parse_from_str(value, pattern) {
        Ok(d) => Some((d.year(), d.month(), d.day())),
        Err(_) => None,
    }
}

/// Calls `DateTime::<Utc>::from_timestamp` and reads the UTC fields; the
/// calendar conversion is chrono's, named and not described.
#[verifier::external_body]
fn from_timestamp(secs: i64, nanos: u32) -> (r: Option<DateTimeParts>)
    ensures
        r == moment_of_timestamp(secs, nanos),
{
    match DateTime::<Utc>::from_timestamp(secs, nanos) {
        Some(t) => {
            let v = t.naive_utc();
            Some(DateTimeParts { year: v.year(), month: v.month(), day: v.day(),
                hour: v.hour(), minute: v.minute(), second: v.second(), nanosecond: v.nanosecond() })
        },
        None => None,
    }
}

/// Rebuilds the moment with chrono and calls its `format("%Y-%m-%d %H:%M:%S")`.
/// The text is named; for a year from 0 to 9999 and no leap second it is the
/// zero-padded layout (chrono pads `%Y` to four digits and the other fields to
/// two). Years outside that range are left unsaid.
#[verifier::external_body]
fn format_datetime(p: DateTimeParts) -> (r: Option<String>)
    ensures
        r.deep_view() == datetime_text(p),
        0 <= p.year <= 9999 && p.nanosecond < 1_000_000_000 ==> (r matches Some(s) ==> s@
            == datetime_layout(p)),
{
    match NaiveDate::from_ymd_opt(p.year, p.month, p.day) {
        Some(d) => match d.and_hms_nano_opt(p.hour, p.minute, p.second, p.nanosecond) {
            Some(v) => Some(v.format("%Y-%m-%d %H:%M:%S").to_string()),
            None => None,
        },
        None => None,
    }
}

/// Rebuilds the date with chrono and calls its `format("%Y-%m-%d")`. The text
/// is named; for a year from 0 to 9999 it is the zero-padded layout. Years
/// outside that range are left unsaid.
#[verifier::external_body]
fn format_date(year: i32, month: u32, day: u32) -> (r: Option<String>)
    ensures
        r.deep_view() == date_text(year, month, day),
        0 <= year <= 9999 ==> (r matches Some(s) ==> s@ == date_layout(year, month, day)),
{
    match NaiveDate::from_ymd_opt(year, month, day) {
        Some(d) => Some(d.format("%Y-%m-%d").to_string()),
        None => None,
    }
}

/// Rebuilds the moment with chrono and calls `checked_add_signed` with
/// `TimeDelta::try_minutes(minutes)`; the calendar arithmetic is named, not
/// described.
#[verifier::external_body]
fn add_minutes(p: DateTimeParts, minutes: i64) -> (r: Option<DateTimeParts>)
    ensures
        r == shifted_moment(p, minutes),
{
    let start = match NaiveDate::from_ymd_opt(p.year, p.month, p.day) {
        Some(d) => d.and_hms_nano_opt(p.hour, p.minute, p.second, p.nanosecond),
        None => None,
    };
    match (start, TimeDelta::try_minutes(minutes)) {
        (Some(v), Some(delta)) => match v.checked_add_signed(delta) {
            Some(t) => Some(DateTimeParts { year: t.year(), month: t.month(), day: t.day(),
                hour: t.hour(), minute: t.minute(), second: t.second(), nanosecond: t.nanosecond() }),
            None => None,
        },
        _ => None,
    }
}

/// The moment in `p`'s text as `%Y-%m-%d %H:%M:%S`.
pub fn datetime_to_text(p: DateTimeParts) -> (r: Option<String>)
    ensures
        r.deep_view() == datetime_text(p),
        0 <= p.year <= 9999 && p.nanosecond < 1_000_000_000 ==> (r matches Some(s) ==> s@
            == datetime_layout(p)),
{
    format_datetime(p)
}

/// The date of `p` as `%Y-%m-%d`.
pub fn date_to_text(p: DateTimeParts) -> (r: Option<String>)
    ensures
        r.deep_view() == date_text(p.year, p.month, p.day),
        0 <= p.year <= 9999 ==> (r matches Some(s) ==> s@ == date_layout(p.year, p.month, p.day)),
{
    format_date(p.year, p.month, p.day)
}

/// `p` shifted by a number of minutes.
pub fn shift_minutes(p: DateTimeParts, minutes: i64) -> (r: Option<DateTimeParts>)
    ensures
        r == shifted_moment(p, minutes),
{
    add_minutes(p, minutes)
}

/// The patterns tried, in order.
pub open spec fn pattern_at(i: int) -> Seq<char> {
    if i == 0 {
        "%Y-%m-%d %H:%M:%S"@
    } else if i == 1 {
        "%Y/%m/%d %H:%M:%S"@
    } else if i == 2 {
        "%Y-%m-%d %H:%M"@
    } else if i == 3 {
        "%Y/%m/%d %H:%M"@
    } else if i == 4 {
        "%Y-%m-%d"@
    } else if i == 5 {
        "%Y/%m/%d"@
    } else if i == 6 {
        "%Y%m%d"@
    } else {
        "%+"@
    }
}

/// Number of patterns.
pub open spec fn pattern_count() -> int {
    8
}

fn pattern(i: usize) -> (r: &'static str)
    requires
        i < 8,
    ensures
        r@ == pattern_at(i as int),
{
    if i == 0 {
        "%Y-%m-%d %H:%M:%S"
    } else if i == 1 {
        "%Y/%m/%d %H:%M:%S"
    } else if i == 2 {
        "%Y-%m-%d %H:%M"
    } else if i == 3 {
        "%Y/%m/%d %H:%M"
    } else if i == 4 {
        "%Y-%m-%d"
    } else if i == 5 {
        "%Y/%m/%d"
    } else if i == 6 {
        "%Y%m%d"
    } else {
        "%+"
    }
}

/// Midnight of a date.
pub open spec fn midnight(d: (i32, u32, u32)) -> DateTimeParts {
    DateTimeParts {
        year: d.0,
        month: d.1,
        day: d.2,
        hour: 0,
        minute: 0,
        second: 0,
        nanosecond: 0,
    }
}

/// Tries patterns `i..` in order: a full date-time first, then a date alone
/// (read as midnight).
pub open spec fn parse_from_pattern(value: Seq<char>, i: int) -> Option<DateTimeParts>
    decreases pattern_count() - i,
{
    if i < 0 || i >= pattern_count() {
        None
    } else {
        match datetime_by_pattern(value, pattern_at(i)) {
            Some(p) => Some(p),
            None => match date_by_pattern(value, pattern_at(i)) {
                Some(d) => Some(midnight(d)),
                None => parse_from_pattern(value, i + 1),
            },
        }
    }
}

/// A date-time read by the first pattern that accepts the text.
pub open spec fn parsed_datetime(value: Seq<char>) -> Option<DateTimeParts> {
    parse_from_pattern(value, 0)
}

/// Reads a date-time by the first pattern that accepts the text.
pub fn parse_datetime_value(value: &str) -> (r: Option<DateTimeParts>)
    ensures
        r == parsed_datetime(value@),
{
    let mut i: usize = 0;
    while i < 8
        invariant
            0 <= i <= 8,
            parsed_datetime(value@) == parse_from_pattern(value@, i as int),
        decreases 8 - i,
    {
        let pat = pattern(i);
        match parse_datetime_with(value, pat) {
            Some(p) => return Some(p),
            None => {},
        }
        match parse_date_with(value, pat) {
            Some(d) => {
                return Some(
                    DateTimeParts {
                        year: d.0,
                        month: d.1,
                        day: d.2,
                        hour: 0,
                        minute: 0,
                        second: 0,
                        nanosecond: 0,
                    },
                );
            },
            None => {},
        }
        i += 1;
    }
    None
}

/// Whether some pattern accepts the text (as a date-time or as a date).
pub fn looks_like_datetime(value: &str) -> (r: bool)
    ensures
        r == (parsed_datetime(value@) is Some),
{
    parse_datetime_value(value).is_some()
}

/// Text made only of digits and minus signs, and not empty.
pub open spec fn timestamp_shape(t: Seq<char>) -> bool {
    t.len() > 0 && forall|k: int| 0 <= k < t.len() ==> (t[k] == '-' || is_digit(#[trigger] t[k]))
}

/// Seconds and nanoseconds of a timestamp: values of at least 10^18 in
/// magnitude are nanoseconds, of at least 10^15 microseconds, of at least 10^12
/// milliseconds, smaller ones seconds. Division truncates toward zero; the
/// fraction keeps its magnitude. The most negative `i64` counts as small.
pub open spec fn timestamp_split(ts: int) -> (int, int) {
    let neg = ts < 0;
    let a = if neg {
        -ts
    } else {
        ts
    };
    let d = if a >= 1_000_000_000_000_000_000 {
        1_000_000_000int
    } else if a >= 1_000_000_000_000_000 {
        1_000_000int
    } else if a >= 1_000_000_000_000 {
        1_000int
    } else {
        1int
    };
    if ts == i64::MIN || d == 1 {
        (ts, 0)
    } else {
        (
            if neg {
                -(a / d)
            } else {
                a / d
            },
            (a % d) * (1_000_000_000int / d),
        )
    }
}

/// A timestamp read from text (see `timestamp_split`).
pub open spec fn parsed_timestamp(value: Seq<char>) -> Option<DateTimeParts> {
    let t = trim_spec(value);
    if !timestamp_shape(t) {
        None
    } else {
        match parse_int_spec(t) {
            Some(ts) => {
                let (s, n) = timestamp_split(ts);
                moment_of_timestamp(s as i64, n as u32)
            },
            None => None,
        }
    }
}

/// Reads a Unix timestamp in seconds, milliseconds, microseconds or nanoseconds.
pub fn parse_timestamp_value(value: &str) -> (r: Option<DateTimeParts>)
    ensures
        r == parsed_timestamp(value@),
{
    let trimmed = trim(value);
    let chars = to_chars(trimmed.as_str());
    if chars.len() == 0 {
        return None;
    }
    let mut k: usize = 0;
    while k < chars.len()
        invariant
            chars@ == trim_spec(value@),
            0 <= k <= chars@.len(),
            forall|m: int| 0 <= m < k ==> (chars@[m] == '-' || is_digit(#[trigger] chars@[m])),
        decreases chars.len() - k,
    {
        if !(chars[k] == '-' || is_digit_char(chars[k])) {
            return None;
        }
        k += 1;
    }
    let ts = match parse_i64(trimmed.as_str()) {
        Some(t) => t,
        None => return None,
    };
    if ts == i64::MIN {
        return from_timestamp(ts, 0);
    }
    let neg = ts < 0;
    let a: u64 = if neg {
        (-ts) as u64
    } else {
        ts as u64
    };
    let d: u64 = if a >= 1_000_000_000_000_000_000 {
        1_000_000_000
    } else if a >= 1_000_000_000_000_000 {
        1_000_000
    } else if a >= 1_000_000_000_000 {
        1_000
    } else {
        1
    };
    if d == 1 {
        return from_timestamp(ts, 0);
    }
    let q: u64 = a / d;
    let rem: u64 = a % d;
    assert(q <= a);
    let secs: i64 = if neg {
        -(q as i64)
    } else {
        q as i64
    };
    let scale: u64 = 1_000_000_000 / d;
    assert(rem * scale < 1_000_000_000) by (nonlinear_arith)
        requires
            rem < d,
            d * scale == 1_000_000_000,
    ;
    let nanos: u32 = (rem * scale) as u32;
    from_timestamp(secs, nanos)
}

/// A date-time by pattern, or else a timestamp.
pub open spec fn parsed_moment(value: Seq<char>) -> Option<DateTimeParts> {
    match parsed_datetime(value) {
        Some(p) => Some(p),
        None => parsed_timestamp(value),
    }
}

/// Reads a date-time by pattern, or else a timestamp.
pub fn parse_datetime_or_timestamp(value: &str) -> (r: Option<DateTimeParts>)
    ensures
        r == parsed_moment(value@),
{
    match parse_datetime_value(value) {
        Some(p) => Some(p),
        None => parse_timestamp_value(value),
    }
}

/// Order of two integers: -1, 0 or 1.
pub open spec fn int_order(a: int, b: int) -> int {
    if a < b {
        -1
    } else if a > b {
        1
    } else {
        0
    }
}

/// Chronological order of two moments (field by field): -1, 0 or 1.
pub open spec fn moment_order(a: DateTimeParts, b: DateTimeParts) -> int {
    if a.year != b.year {
        int_order(a.year as int, b.year as int)
    } else if a.month != b.month {
        int_order(a.month as int, b.month as int)
    } else if a.day != b.day {
        int_order(a.day as int, b.day as int)
    } else if a.hour != b.hour {
        int_order(a.hour as int, b.hour as int)
    } else if a.minute != b.minute {
        int_order(a.minute as int, b.minute as int)
    } else if a.second != b.second {
        int_order(a.second as int, b.second as int)
    } else {
        int_order(a.nanosecond as int, b.nanosecond as int)
    }
}

/// Chronological order of two moments: -1, 0 or 1.
pub fn compare_moments(a: &DateTimeParts, b: &DateTimeParts) -> (r: i8)
    ensures
        r as int == moment_order(*a, *b),
{
    if a.year != b.year {
        if a.year < b.year { -1 } else { 1 }
    } else if a.month != b.month {
        if a.month < b.month { -1 } else { 1 }
    } else if a.day != b.day {
        if a.day < b.day { -1 } else { 1 }
    } else if a.hour != b.hour {
        if a.hour < b.hour { -1 } else { 1 }
    } else if a.minute != b.minute {
        if a.minute < b.minute { -1 } else { 1 }
    } else if a.second != b.second {
        if a.second < b.second { -1 } else { 1 }
    } else if a.nanosecond != b.nanosecond {
        if a.nanosecond < b.nanosecond { -1 } else { 1 }
    } else {
        0
    }
}

} // verus!

verus! {

/// What `DateTime::parse_from_rfc3339` yields for a text, as UTC fields.
pub uninterp spec fn rfc3339_moment(value: Seq<char>) -> Option<DateTimeParts>;

/// Calls `DateTime::parse_from_rfc3339` and reads the UTC fields; the parse
/// and the offset conversion are chrono's, named and not described.
#[verifier::external_body]
fn parse_rfc3339(value: &str) -> (r: Option<DateTimeParts>)
    ensures
        r == rfc3339_moment(value@),
{
    match DateTime::parse_from_rfc3339(value) {
        Ok(t) => {
            let v = t.naive_utc();
            Some(DateTimeParts { year: v.year(), month: v.month(), day: v.day(),
                hour: v.hour(), minute: v.minute(), second: v.second(), nanosecond: v.nanosecond() })
        },
        Err(_) => None,
    }
}

/// The moment a fusion source's time cell holds: read from the trimmed text
/// as RFC 3339 (converted to UTC) first, then by the date-time patterns,
/// then as a timestamp.
pub open spec fn fusion_moment(value: Seq<char>) -> Option<DateTimeParts> {
    let t = trim_spec(value);
    match rfc3339_moment(t) {
        Some(p) => Some(p),
        None => parsed_moment(t),
    }
}

/// Reads the moment of a fusion source's time cell (see `fusion_moment`).
pub fn parse_fusion_moment(value: &str) -> (r: Option<DateTimeParts>)
    ensures
        r == fusion_moment(value@),
{
    let t = trim(value);
    match parse_rfc3339(t.as_str()) {
        Some(p) => Some(p),
        None => parse_datetime_or_timestamp(t.as_str()),
    }
}

} // verus!
