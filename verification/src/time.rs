//! Ban timestamps: reading them from database text with `chrono`, the date and
//! time placeholders of templates, and the "time left" text.

use vstd::prelude::*;

use chrono::{DateTime, NaiveDate, NaiveDateTime, Utc};

use crate::text::{decimal, i64_to_decimal, join, join_with, trim, trimmed, views};

verus! {

/// An instant as `chrono` represents a UTC date-time: whole seconds since the
/// Unix epoch and the nanoseconds past them.
#[derive(Clone, Copy, Debug, PartialEq, Eq, Structural)]
pub struct UtcInstant {
    pub seconds: i64,
    pub nanos: u32,
}

impl View for UtcInstant {
    type V = (i64, u32);

    open spec fn view(&self) -> (i64, u32) {
        (self.seconds, self.nanos)
    }
}

/// The view of an optional instant.
pub open spec fn opt_instant_view(o: Option<UtcInstant>) -> Option<(i64, u32)> {
    match o {
        Some(i) => Some(i@),
        None => None,
    }
}

/// `DateTime::<Utc>::from_timestamp(seconds, nanos)` gives a date-time.
pub uninterp spec fn chrono_representable(seconds: i64, nanos: u32) -> bool;

/// What `DateTime::parse_from_rfc3339` reads from `s`, as a UTC instant.
pub uninterp spec fn chrono_rfc3339(s: Seq<char>) -> Option<(i64, u32)>;

/// What `DateTime::parse_from_str(s, fmt)` reads, as a UTC instant.
pub uninterp spec fn chrono_offset_datetime(s: Seq<char>, fmt: Seq<char>) -> Option<(i64, u32)>;

/// What `NaiveDateTime::parse_from_str(s, fmt)` reads, taken as UTC.
pub uninterp spec fn chrono_naive_datetime(s: Seq<char>, fmt: Seq<char>) -> Option<(i64, u32)>;

/// What `NaiveDate::parse_from_str(s, fmt)` reads, at midnight UTC.
pub uninterp spec fn chrono_naive_date(s: Seq<char>, fmt: Seq<char>) -> Option<(i64, u32)>;

/// What `DateTime::<Utc>::format(fmt)` writes for an instant.
pub uninterp spec fn chrono_format(seconds: i64, nanos: u32, fmt: Seq<char>) -> Seq<char>;

/// `(end - start).num_minutes()` for two UTC date-times.
pub uninterp spec fn chrono_minutes_between(
    end_seconds: i64,
    end_nanos: u32,
    start_seconds: i64,
    start_nanos: u32,
) -> i64;

/// The parsed value is a UTC date-time that `chrono` can rebuild from its timestamp.
pub open spec fn representable(o: Option<(i64, u32)>) -> bool {
    o matches Some(i) ==> chrono_representable(i.0, i.1)
}

/// `DateTime::parse_from_rfc3339(s)`, converted to UTC. Its timestamp and
/// nanoseconds round-trip through `DateTime::from_timestamp` (chrono documents
/// the round trip).
#[verifier::external_body]
fn parse_rfc3339(s: &str) -> (r: Option<UtcInstant>)
    ensures
        opt_instant_view(r) == chrono_rfc3339(s@),
        representable(opt_instant_view(r)),
{
    match DateTime::parse_from_rfc3339(s) {
        Ok(dt) => {
            let utc = dt.with_timezone(&Utc);
            Some(UtcInstant { seconds: utc.timestamp(), nanos: utc.timestamp_subsec_nanos() })
        },
        Err(_) => None,
    }
}

/// `DateTime::parse_from_str(s, fmt)`, converted to UTC; round-trips as above.
#[verifier::external_body]
fn parse_offset_datetime(s: &str, fmt: &str) -> (r: Option<UtcInstant>)
    ensures
        opt_instant_view(r) == chrono_offset_datetime(s@, fmt@),
        representable(opt_instant_view(r)),
{
    match DateTime::parse_from_str(s, fmt) {
        Ok(dt) => {
            let utc = dt.with_timezone(&Utc);
            Some(UtcInstant { seconds: utc.timestamp(), nanos: utc.timestamp_subsec_nanos() })
        },
        Err(_) => None,
    }
}

/// `NaiveDateTime::parse_from_str(s, fmt)` taken as UTC (`and_utc`); round-trips as above.
#[verifier::external_body]
fn parse_naive_datetime(s: &str, fmt: &str) -> (r: Option<UtcInstant>)
    ensures
        opt_instant_view(r) == chrono_naive_datetime(s@, fmt@),
        representable(opt_instant_view(r)),
{
    match NaiveDateTime::parse_from_str(s, fmt) {
        Ok(dt) => {
            let utc = dt.and_utc();
            Some(UtcInstant { seconds: utc.timestamp(), nanos: utc.timestamp_subsec_nanos() })
        },
        Err(_) => None,
    }
}

/// `NaiveDate::parse_from_str(s, fmt)` at 00:00:00 (`and_hms_opt(0, 0, 0)`,
/// which exists for every date) taken as UTC; round-trips as above.
#[verifier::external_body]
fn parse_naive_date(s: &str, fmt: &str) -> (r: Option<UtcInstant>)
    ensures
        opt_instant_view(r) == chrono_naive_date(s@, fmt@),
        representable(opt_instant_view(r)),
{
    match NaiveDate::parse_from_str(s, fmt) {
        Ok(date) => match date.and_hms_opt(0, 0, 0) {
            Some(dt) => {
                let utc = dt.and_utc();
                Some(UtcInstant { seconds: utc.timestamp(), nanos: utc.timestamp_subsec_nanos() })
            },
            None => None,
        },
        Err(_) => None,
    }
}

/// The formats that placeholders use; `chrono` writes each of them for every date.
pub open spec fn placeholder_format(fmt: Seq<char>) -> bool {
    fmt == "%Y-%m-%d"@ || fmt == "%H:%M UTC"@ || fmt == "%Y-%m-%d %H:%M UTC"@
}

/// `DateTime::from_timestamp(..)` then `format(fmt).to_string()`.
#[verifier::external_body]
fn format_instant(instant: UtcInstant, fmt: &str) -> (r: String)
    requires
        chrono_representable(instant.seconds, instant.nanos),
        placeholder_format(fmt@),
    ensures
        r@ == chrono_format(instant.seconds, instant.nanos, fmt@),
{
    match DateTime::from_timestamp(instant.seconds, instant.nanos) {
        Some(dt) => dt.format(fmt).to_string(),
        None => String::new(),
    }
}

/// `Utc::now()`. Nothing is stated of the instant but that chrono can rebuild it.
/// chrono panics when the system clock reads before 1970, a condition of the
/// machine rather than of any argument.
#[verifier::external_body]
fn utc_now() -> (r: UtcInstant)
    ensures
        chrono_representable(r.seconds, r.nanos),
{
    let now = Utc::now();
    UtcInstant { seconds: now.timestamp(), nanos: now.timestamp_subsec_nanos() }
}

/// `(end - start).num_minutes()`: whole minutes from `start` to `end`.
#[verifier::external_body]
fn minutes_between(end: UtcInstant, start: UtcInstant) -> (r: i64)
    requires
        chrono_representable(end.seconds, end.nanos),
        chrono_representable(start.seconds, start.nanos),
    ensures
        r == chrono_minutes_between(end.seconds, end.nanos, start.seconds, start.nanos),
{
    match (
        DateTime::from_timestamp(end.seconds, end.nanos),
        DateTime::from_timestamp(start.seconds, start.nanos),
    ) {
        (Some(e), Some(s)) => (e - s).num_minutes(),
        _ => 0,
    }
}

/// The instant that a ban timestamp text denotes: the trimmed text read, in
/// this order, as RFC 3339, as `%Y-%m-%d %H:%M:%S%.f%#z`, as
/// `%Y-%m-%d %H:%M:%S%.f` or `%Y-%m-%d %H:%M:%S` in UTC, or as a `%Y-%m-%d`
/// date at midnight UTC; the first reading that succeeds counts.
pub open spec fn parsed_timestamp(value: Seq<char>) -> Option<(i64, u32)> {
    let t = trimmed(value);
    if t.len() == 0 {
        None
    } else if chrono_rfc3339(t) is Some {
        chrono_rfc3339(t)
    } else if chrono_offset_datetime(t, "%Y-%m-%d %H:%M:%S%.f%#z"@) is Some {
        chrono_offset_datetime(t, "%Y-%m-%d %H:%M:%S%.f%#z"@)
    } else if chrono_naive_datetime(t, "%Y-%m-%d %H:%M:%S%.f"@) is Some {
        chrono_naive_datetime(t, "%Y-%m-%d %H:%M:%S%.f"@)
    } else if chrono_naive_datetime(t, "%Y-%m-%d %H:%M:%S"@) is Some {
        chrono_naive_datetime(t, "%Y-%m-%d %H:%M:%S"@)
    } else {
        chrono_naive_date(t, "%Y-%m-%d"@)
    }
}

/// Reads a ban timestamp (see [`parsed_timestamp`]).
pub fn parse_duration_end(value: &str) -> (r: Option<UtcInstant>)
    ensures
        opt_instant_view(r) == parsed_timestamp(value@),
        representable(opt_instant_view(r)),
{
    let trimmed_value = trim(value);
    if trimmed_value.is_empty() {
        return None;
    }
    let rfc = parse_rfc3339(trimmed_value);
    if rfc.is_some() {
        return rfc;
    }
    let with_offset = parse_offset_datetime(trimmed_value, "%Y-%m-%d %H:%M:%S%.f%#z");
    if with_offset.is_some() {
        return with_offset;
    }
    let fractional = parse_naive_datetime(trimmed_value, "%Y-%m-%d %H:%M:%S%.f");
    if fractional.is_some() {
        return fractional;
    }
    let whole = parse_naive_datetime(trimmed_value, "%Y-%m-%d %H:%M:%S");
    if whole.is_some() {
        return whole;
    }
    parse_naive_date(trimmed_value, "%Y-%m-%d")
}

/// One unit of the "time left" text, such as `3 days` or `1 hour`.
pub open spec fn unit_text(value: int, name: Seq<char>) -> Seq<char> {
    decimal(value) + " "@ + name + if value == 1 {
        Seq::<char>::empty()
    } else {
        "s"@
    }
}

/// Takes as many whole units as fit into the remaining minutes.
pub open spec fn take_unit(parts: Seq<Seq<char>>, rest: int, unit: int, name: Seq<char>) -> (
    Seq<Seq<char>>,
    int,
) {
    if rest < unit {
        (parts, rest)
    } else {
        (parts.push(unit_text(rest / unit, name)), rest % unit)
    }
}

/// Minutes in a month (30 days), a week, a day and an hour.
pub open spec fn minutes_per_month() -> int {
    43200
}

/// The parts of the "time left" text: months of 30 days, weeks, days, hours
/// and minutes, largest first, each unit present only when non-zero.
pub open spec fn time_left_parts(minutes: int) -> Seq<Seq<char>> {
    let (p1, r1) = take_unit(Seq::empty(), minutes, minutes_per_month(), "month"@);
    let (p2, r2) = take_unit(p1, r1, 10080, "week"@);
    let (p3, r3) = take_unit(p2, r2, 1440, "day"@);
    let (p4, r4) = take_unit(p3, r3, 60, "hour"@);
    let (p5, r5) = take_unit(p4, r4, 1, "minute"@);
    p5
}

/// The "time left" text for a number of whole minutes: empty when none are
/// left, otherwise the unit parts separated by spaces.
pub open spec fn time_left_text(minutes: int) -> Seq<char> {
    if minutes <= 0 {
        Seq::<char>::empty()
    } else {
        join(time_left_parts(minutes), " "@)
    }
}

fn take_unit_exec(parts: &mut Vec<String>, rest: &mut i64, unit: i64, name: &str)
    requires
        *old(rest) >= 0,
        unit > 0,
    ensures
        (views(final(parts)@), *final(rest) as int) == take_unit(
            views(old(parts)@),
            *old(rest) as int,
            unit as int,
            name@,
        ),
        *final(rest) >= 0,
{
    if *rest < unit {
        return;
    }
    let value = *rest / unit;
    *rest = *rest % unit;
    let mut text = i64_to_decimal(value);
    text.append(" ");
    text.append(name);
    if value != 1 {
        text.append("s");
    }
    proof {
        reveal_strlit("");
        assert(text@ == unit_text(value as int, name@)) by {
            if value == 1 {
                assert(text@ =~= unit_text(value as int, name@));
            }
        }
    }
    let ghost before = views(parts@);
    parts.push(text);
    assert(views(parts@) =~= before.push(text@));
}

/// The "time left" text for a number of whole minutes (see [`time_left_text`]).
pub fn format_time_left(minutes: i64) -> (r: String)
    ensures
        r@ == time_left_text(minutes as int),
{
    if minutes <= 0 {
        return String::new();
    }
    let mut parts: Vec<String> = Vec::new();
    let mut rest = minutes;
    assert(views(parts@) =~= Seq::<Seq<char>>::empty());
    take_unit_exec(&mut parts, &mut rest, 43200, "month");
    take_unit_exec(&mut parts, &mut rest, 10080, "week");
    take_unit_exec(&mut parts, &mut rest, 1440, "day");
    take_unit_exec(&mut parts, &mut rest, 60, "hour");
    take_unit_exec(&mut parts, &mut rest, 1, "minute");
    join_with(&parts, " ")
}

/// Texts for the `{date}`, `{time}`, `{date_time}` and `{time_left}` placeholders.
#[derive(Clone, Debug, PartialEq, Eq)]
pub struct TimePlaceholders {
    pub date: String,
    pub time: String,
    pub date_time: String,
    pub time_left: String,
}

/// The value of [`TimePlaceholders`].
pub struct TimePlaceholdersView {
    pub date: Seq<char>,
    pub time: Seq<char>,
    pub date_time: Seq<char>,
    pub time_left: Seq<char>,
}

impl View for TimePlaceholders {
    type V = TimePlaceholdersView;

    open spec fn view(&self) -> TimePlaceholdersView {
        TimePlaceholdersView {
            date: self.date@,
            time: self.time@,
            date_time: self.date_time@,
            time_left: self.time_left@,
        }
    }
}

/// The creation instant written with `fmt`, or empty when it cannot be read.
pub open spec fn created_text(created_at: Seq<char>, fmt: Seq<char>) -> Seq<char> {
    match parsed_timestamp(created_at) {
        Some(i) => chrono_format(i.0, i.1, fmt),
        None => Seq::<char>::empty(),
    }
}

/// The placeholders of a ban created at `created_at` and ending at
/// `duration_end`, at the instant `now`: the creation date, time (`HH:MM UTC`)
/// and both, and the time left until the end; each empty when its timestamp
/// cannot be read.
pub open spec fn placeholders_at(
    created_at: Seq<char>,
    duration_end: Seq<char>,
    now: (i64, u32),
) -> TimePlaceholdersView {
    TimePlaceholdersView {
        date: created_text(created_at, "%Y-%m-%d"@),
        time: created_text(created_at, "%H:%M UTC"@),
        date_time: created_text(created_at, "%Y-%m-%d %H:%M UTC"@),
        time_left: match parsed_timestamp(duration_end) {
            Some(end) => time_left_text(chrono_minutes_between(end.0, end.1, now.0, now.1) as int),
            None => Seq::<char>::empty(),
        },
    }
}

fn created_format(created: Option<UtcInstant>, fmt: &str) -> (r: String)
    requires
        representable(opt_instant_view(created)),
        placeholder_format(fmt@),
    ensures
        r@ == (match created {
            Some(i) => chrono_format(i.seconds, i.nanos, fmt@),
            None => Seq::<char>::empty(),
        }),
{
    match created {
        Some(i) => format_instant(i, fmt),
        None => String::new(),
    }
}

/// The time placeholders of a ban at the instant `now` (see [`placeholders_at`]).
pub fn time_placeholders_at(created_at: &str, duration_end: &str, now: UtcInstant) -> (r:
    TimePlaceholders)
    requires
        chrono_representable(now.seconds, now.nanos),
    ensures
        r@ == placeholders_at(created_at@, duration_end@, now@),
{
    let created = parse_duration_end(created_at);
    let end = parse_duration_end(duration_end);
    let time_left = match end {
        Some(e) => format_time_left(minutes_between(e, now)),
        None => String::new(),
    };
    TimePlaceholders {
        date: created_format(created, "%Y-%m-%d"),
        time: created_format(created, "%H:%M UTC"),
        date_time: created_format(created, "%Y-%m-%d %H:%M UTC"),
        time_left,
    }
}

/// The time placeholders of a ban now: as [`time_placeholders_at`] with the
/// current time.
pub fn resolve_time_placeholders(created_at: &str, duration_end: &str) -> (r: TimePlaceholders)
    ensures
        exists|now: (i64, u32)|
            chrono_representable(now.0, now.1) && r@ == #[trigger] placeholders_at(
                created_at@,
                duration_end@,
                now,
            ),
{
    let now = utc_now();
    let r = time_placeholders_at(created_at, duration_end, now);
    assert(r@ == placeholders_at(created_at@, duration_end@, now@));
    r
}


/// Decimal text is never empty.
proof fn lemma_decimal_nonempty(n: int)
    ensures
        decimal(n).len() > 0,
{
    let m: nat = if n < 0 { (-n) as nat } else { n as nat };
    lemma_decimal_digits_nonempty(m);
}

proof fn lemma_decimal_digits_nonempty(n: nat)
    ensures
        crate::text::decimal_digits(n).len() > 0,
    decreases n,
{
    if n >= 10 {
        lemma_decimal_digits_nonempty(n / 10);
    }
}

proof fn lemma_join_nonempty(pieces: Seq<Seq<char>>, sep: Seq<char>)
    requires
        pieces.len() > 0,
        pieces.last().len() > 0,
    ensures
        join(pieces, sep).len() > 0,
{
}

/// The "time left" text is empty exactly when no whole minute is left.
pub proof fn lemma_time_left_empty_iff_elapsed(minutes: int)
    ensures
        (time_left_text(minutes).len() == 0) == (minutes <= 0),
{
    if minutes > 0 {
        let (p1, r1) = take_unit(Seq::empty(), minutes, minutes_per_month(), "month"@);
        let (p2, r2) = take_unit(p1, r1, 10080, "week"@);
        let (p3, r3) = take_unit(p2, r2, 1440, "day"@);
        let (p4, r4) = take_unit(p3, r3, 60, "hour"@);
        let (p5, r5) = take_unit(p4, r4, 1, "minute"@);
        assert(p5 == time_left_parts(minutes));
        // each unit either is taken, adding a non-empty part, or leaves the minutes untouched
        assert(p1.len() > 0 || r1 == minutes);
        assert(p2.len() > 0 || r2 == minutes);
        assert(p3.len() > 0 || r3 == minutes);
        assert(p4.len() > 0 || r4 == minutes);
        assert(p5.len() > 0);
        assert forall|v: int, name: Seq<char>| #[trigger] unit_text(v, name).len() > 0 by {
            lemma_decimal_nonempty(v);
        }
        assert(p5.last().len() > 0);
        lemma_join_nonempty(p5, " "@);
    }
}

/// Under an hour, the time left is the minutes (`1 minute`, `5 minutes`); a
/// whole number of hours under a day is the hours (`1 hour`, `3 hours`).
pub proof fn lemma_time_left_minutes_and_hours(minutes: int, hours: int)
    ensures
        0 < minutes < 60 ==> time_left_text(minutes) == decimal(minutes) + " minute"@ + (if minutes
            == 1 {
            Seq::<char>::empty()
        } else {
            "s"@
        }),
        0 < hours < 24 ==> time_left_text(60 * hours) == decimal(hours) + " hour"@ + (if hours
            == 1 {
            Seq::<char>::empty()
        } else {
            "s"@
        }),
{
    reveal_strlit(" ");
    reveal_strlit(" minute");
    reveal_strlit(" hour");
    reveal_strlit("minute");
    reveal_strlit("hour");
    if 0 < minutes < 60 {
        let part = unit_text(minutes, "minute"@);
        assert(minutes / 1 == minutes && minutes % 1 == 0);
        assert(time_left_parts(minutes) =~= seq![part]);
        assert(" "@ + "minute"@ =~= " minute"@);
        assert(part =~= decimal(minutes) + " minute"@ + (if minutes == 1 {
            Seq::<char>::empty()
        } else {
            "s"@
        }));
    }
    if 0 < hours < 24 {
        let m = 60 * hours;
        assert(m / 60 == hours && m % 60 == 0) by (nonlinear_arith)
            requires
                m == 60 * hours,
        ;
        let part = unit_text(hours, "hour"@);
        assert(time_left_parts(m) =~= seq![part]);
        assert(" "@ + "hour"@ =~= " hour"@);
        assert(part =~= decimal(hours) + " hour"@ + (if hours == 1 {
            Seq::<char>::empty()
        } else {
            "s"@
        }));
    }
}

} // verus!
