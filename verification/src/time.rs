//! Points in time, as plain numbers, and the calls into chrono that read them
//! from text.
use vstd::prelude::*;
use chrono::{DateTime, FixedOffset, NaiveDate, NaiveDateTime, TimeDelta};

verus! {

/// Seconds since the epoch of the first representable instant (0:00 UTC on
/// the first day of year -262143).
pub const MIN_SECS: i64 = -8334601315200i64;

/// Seconds since the epoch of the last representable second (23:59:59 UTC on
/// the last day of year 262142).
pub const MAX_SECS: i64 = 8210266876799i64;

/// An instant with the UTC offset it was written with.
///
/// `secs` counts seconds since 1970-01-01T00:00:00Z; `nanos` is the fraction
/// of the second, from 1_000_000_000 on when the instant lies in a leap second.
/// Two timestamps compare by instant alone: the offset only says how the
/// instant was written.
#[derive(Clone, Copy, Debug)]
pub struct Timestamp {
    pub secs: i64,
    pub nanos: u32,
    pub offset: i32,
}

impl Timestamp {
    /// Within the range of instants that can be represented.
    pub open spec fn wf(self) -> bool {
        &&& MIN_SECS <= self.secs <= MAX_SECS
        &&& self.nanos < 2_000_000_000
        &&& -86_400 < self.offset < 86_400
    }
}

/// `a` lies strictly before `b`.
pub open spec fn before(a: Timestamp, b: Timestamp) -> bool {
    a.secs < b.secs || (a.secs == b.secs && a.nanos < b.nanos)
}

pub fn is_before(a: &Timestamp, b: &Timestamp) -> (r: bool)
    ensures
        r == before(*a, *b),
{
    a.secs < b.secs || (a.secs == b.secs && a.nanos < b.nanos)
}

/// What chrono's `DateTime::parse_from_str(s, fmt)` reads from `s`.
pub uninterp spec fn chrono_parse_from_str(s: Seq<char>, fmt: Seq<char>) -> Option<Timestamp>;

/// What chrono's `DateTime::parse_from_rfc3339(s)` reads from `s`.
pub uninterp spec fn chrono_parse_rfc3339(s: Seq<char>) -> Option<Timestamp>;

/// What chrono's `NaiveDateTime::parse_from_str(s, fmt)` reads from `s`,
/// taken as UTC.
pub uninterp spec fn chrono_naive_parse(s: Seq<char>, fmt: Seq<char>) -> Option<Timestamp>;

/// What chrono's `NaiveDate::parse_from_str(s, fmt)` reads from `s`, taken
/// as midnight UTC of that day.
pub uninterp spec fn chrono_date_parse(s: Seq<char>, fmt: Seq<char>) -> Option<Timestamp>;

/// chrono's `DateTime::parse_from_str`: a date-time with an offset, read
/// with the strftime-like format `fmt`. The contract names the result and
/// says that any date-time chrono returns lies in its representable range;
/// the grammar of `fmt` itself is chrono's and is not restated here.
#[verifier::external_body]
pub(crate) fn parse_from_str(s: &str, fmt: &str) -> (r: Option<Timestamp>)
    ensures
        r == chrono_parse_from_str(s@, fmt@),
        r matches Some(t) ==> t.wf(),
{
    match DateTime::parse_from_str(s, fmt) {
        Ok(dt) => Some(Timestamp {
            secs: dt.timestamp(),
            nanos: dt.timestamp_subsec_nanos(),
            offset: dt.offset().local_minus_utc(),
        }),
        Err(_) => None,
    }
}

/// chrono's `DateTime::parse_from_rfc3339`. The contract names the result and
/// says that it lies in the representable range.
#[verifier::external_body]
pub(crate) fn parse_rfc3339(s: &str) -> (r: Option<Timestamp>)
    ensures
        r == chrono_parse_rfc3339(s@),
        r matches Some(t) ==> t.wf(),
{
    match DateTime::parse_from_rfc3339(s) {
        Ok(dt) => Some(Timestamp {
            secs: dt.timestamp(),
            nanos: dt.timestamp_subsec_nanos(),
            offset: dt.offset().local_minus_utc(),
        }),
        Err(_) => None,
    }
}

/// chrono's `NaiveDateTime::parse_from_str`, the result taken as UTC (as
/// `DateTime::from_naive_utc_and_offset(naive, +00:00)` does). The contract
/// names the result, says it is in range and that its offset is zero.
#[verifier::external_body]
pub(crate) fn parse_naive_utc(s: &str, fmt: &str) -> (r: Option<Timestamp>)
    ensures
        r == chrono_naive_parse(s@, fmt@),
        r matches Some(t) ==> t.wf() && t.offset == 0,
{
    match NaiveDateTime::parse_from_str(s, fmt) {
        Ok(n) => Some(Timestamp {
            secs: n.and_utc().timestamp(),
            nanos: n.and_utc().timestamp_subsec_nanos(),
            offset: 0,
        }),
        Err(_) => None,
    }
}

/// chrono's `NaiveDate::parse_from_str`, the day taken at 00:00:00 UTC. The
/// contract names the result, says it is in range, on a whole second and with
/// a zero offset.
#[verifier::external_body]
pub(crate) fn parse_date_utc(s: &str, fmt: &str) -> (r: Option<Timestamp>)
    ensures
        r == chrono_date_parse(s@, fmt@),
        r matches Some(t) ==> t.wf() && t.offset == 0 && t.nanos == 0,
{
    match NaiveDate::parse_from_str(s, fmt) {
        Ok(d) => Some(Timestamp {
            secs: d.and_time(chrono::NaiveTime::MIN).and_utc().timestamp(),
            nanos: 0,
            offset: 0,
        }),
        Err(_) => None,
    }
}

/// The instant `n` seconds before `t`, as chrono computes it: a leap second
/// first folds into the second after it.
pub open spec fn minus_seconds(t: Timestamp, n: int) -> Timestamp {
    if t.nanos >= 1_000_000_000 {
        Timestamp { secs: (t.secs + 1 - n) as i64, nanos: (t.nanos - 1_000_000_000) as u32, offset: t.offset }
    } else {
        Timestamp { secs: (t.secs - n) as i64, nanos: t.nanos, offset: t.offset }
    }
}

/// chrono's `DateTime::checked_sub_signed(TimeDelta::seconds(n))`. Its source
/// keeps the offset, folds a leap second into the next second, subtracts `n`
/// whole seconds, and fails only when the result leaves the representable
/// range; the contract says exactly that for a positive `n` (for `n == 0`
/// chrono leaves a leap second as it is, so that case is not admitted).
#[verifier::external_body]
pub(crate) fn checked_minus_seconds(t: Timestamp, n: i64) -> (r: Option<Timestamp>)
    requires
        t.wf(),
        t.nanos >= 1_000_000_000 ==> t.secs % 60 == 59,
        1 <= n <= 1_000_000_000,
    ensures
        MIN_SECS <= minus_seconds(t, n as int).secs ==> r == Some(minus_seconds(t, n as int)),
        r matches Some(x) ==> x == minus_seconds(t, n as int) && x.wf(),
{
    let off = FixedOffset::east_opt(t.offset).unwrap();
    let start = match DateTime::from_timestamp(t.secs, t.nanos) {
        Some(d) => d.with_timezone(&off),
        None => return None,
    };
    match start.checked_sub_signed(TimeDelta::seconds(n)) {
        Some(dt) => Some(Timestamp {
            secs: dt.timestamp(),
            nanos: dt.timestamp_subsec_nanos(),
            offset: dt.offset().local_minus_utc(),
        }),
        None => None,
    }
}

/// How the viewer writes an instant out.
#[derive(Debug, Clone, Copy, PartialEq, Eq, Structural)]
pub enum TimeFormat {
    /// `2024-01-15 10:23:45`
    Seconds,
    /// `2024-01-15 10:23:45 +01:00`
    SecondsZone,
    /// `2024-01-15 10:23 +01:00`
    MinutesZone,
}

/// chrono's pattern for a format.
pub open spec fn format_pattern(f: TimeFormat) -> Seq<char> {
    match f {
        TimeFormat::Seconds => "%Y-%m-%d %H:%M:%S"@,
        TimeFormat::SecondsZone => "%Y-%m-%d %H:%M:%S %:z"@,
        TimeFormat::MinutesZone => "%Y-%m-%d %H:%M %:z"@,
    }
}

impl TimeFormat {
    pub fn pattern(self) -> (r: &'static str)
        ensures
            r@ == format_pattern(self),
    {
        match self {
            TimeFormat::Seconds => "%Y-%m-%d %H:%M:%S",
            TimeFormat::SecondsZone => "%Y-%m-%d %H:%M:%S %:z",
            TimeFormat::MinutesZone => "%Y-%m-%d %H:%M %:z",
        }
    }
}

/// What chrono writes for the instant `secs`, `nanos` seen at UTC offset
/// `offset` seconds, by `format(pattern).to_string()`.
pub uninterp spec fn chrono_format(secs: i64, nanos: u32, offset: i32, pattern: Seq<char>) -> Seq<char>;

/// chrono's `DateTime::from_timestamp(secs, nanos)`, moved to the offset
/// with `FixedOffset::east_opt` and `with_timezone`, then written by
/// `format(pattern).to_string()`. For an instant in range outside a leap
/// second both steps succeed; a leap second reads only on a minute's last
/// second, so it may give `None`. The patterns are valid ones, on which
/// writing out cannot fail.
#[verifier::external_body]
fn chrono_show(t: Timestamp, pattern: &str) -> (r: Option<String>)
    requires
        t.wf(),
        pattern@ == format_pattern(TimeFormat::Seconds) || pattern@ == format_pattern(
            TimeFormat::SecondsZone,
        ) || pattern@ == format_pattern(TimeFormat::MinutesZone),
    ensures
        r matches Some(x) ==> x@ == chrono_format(t.secs, t.nanos, t.offset, pattern@),
        t.nanos < 1_000_000_000 ==> r is Some,
{
    let off = FixedOffset::east_opt(t.offset)?;
    let at = DateTime::from_timestamp(t.secs, t.nanos)?;
    Some(at.with_timezone(&off).format(pattern).to_string())
}

/// An instant written out in format `f` (by chrono); `?` for an instant
/// out of range or one chrono cannot read.
pub fn show_time(t: Timestamp, f: TimeFormat) -> (r: String)
    ensures
        t.wf() && t.nanos < 1_000_000_000 ==> r@ == chrono_format(t.secs, t.nanos, t.offset, format_pattern(f)),
        !t.wf() ==> r@ == "?"@,
        r@ == chrono_format(t.secs, t.nanos, t.offset, format_pattern(f)) || r@ == "?"@,
{
    let ok = MIN_SECS <= t.secs && t.secs <= MAX_SECS && t.nanos < 2_000_000_000 && -86_400
        < t.offset && t.offset < 86_400;
    if ok {
        match chrono_show(t, f.pattern()) {
            Some(x) => {
                return x;
            },
            None => {},
        }
    }
    let mut r = String::new();
    crate::text::push_char(&mut r, '?');
    proof {
        reveal_strlit("?");
    }
    r
}

/// std's `SystemTime`, a reading of the system clock.
#[verifier::external_type_specification]
#[verifier::external_body]
pub struct ExSystemTime(std::time::SystemTime);

/// std's `SystemTime::now`: the system clock's current reading. Which
/// reading it is depends on the clock, so nothing is stated of it.
#[verifier::external_body]
pub(crate) fn clock_reading() -> (t: std::time::SystemTime) {
    std::time::SystemTime::now()
}

/// std's `SystemTime::duration_since(UNIX_EPOCH)`, as whole seconds and
/// the nanoseconds past them: `None` for a reading before the epoch. The
/// nanoseconds are below one second, as std documents for
/// `Duration::subsec_nanos`.
#[verifier::external_body]
pub(crate) fn since_epoch(t: &std::time::SystemTime) -> (r: Option<(u64, u32)>)
    ensures
        r matches Some((s, n)) ==> n < 1_000_000_000,
{
    match t.duration_since(std::time::UNIX_EPOCH) {
        Ok(d) => Some((d.as_secs(), d.subsec_nanos())),
        Err(_) => None,
    }
}

/// The instant `secs` seconds and `nanos` nanoseconds after the epoch, at
/// offset zero; `None` past the last representable second.
pub fn utc_from_epoch(secs: u64, nanos: u32) -> (r: Option<Timestamp>)
    requires
        nanos < 1_000_000_000,
    ensures
        r == if secs <= MAX_SECS as u64 {
            Some(Timestamp { secs: secs as i64, nanos, offset: 0 })
        } else {
            None
        },
        r matches Some(t) ==> t.wf() && 0 <= t.secs,
{
    if secs <= MAX_SECS as u64 {
        Some(Timestamp { secs: secs as i64, nanos, offset: 0 })
    } else {
        None
    }
}

/// The current time, as chrono's `Utc::now` reads it: the system clock's
/// whole seconds and nanoseconds since the epoch, at offset zero, turned
/// into an instant by `utc_from_epoch`. `None` when the clock reads a time
/// before the epoch (where `Utc::now` panics) or past the last
/// representable second. Which reading the clock gives is not stated.
pub fn now_utc() -> (r: Option<Timestamp>)
    ensures
        r matches Some(t) ==> t.wf() && 0 <= t.secs && t.nanos < 1_000_000_000 && t.offset == 0,
{
    let reading = clock_reading();
    match since_epoch(&reading) {
        Some((secs, nanos)) => utc_from_epoch(secs, nanos),
        None => None,
    }
}

} // verus!
