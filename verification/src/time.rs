//! Calendar days, times of day and timestamps with a local offset.
//!
//! A timestamp holds what a reader in its own time zone sees: the local
//! calendar day, the local time of day, and how far local time is ahead of
//! UTC. The instant it stands for follows from the three by arithmetic.
//! What the machine's time zone decides (the present moment, the offset
//! that belongs to a local date and time) is asked of `chrono`.

use chrono::format::ParseError;
use chrono::{
    Datelike, FixedOffset, Local, MappedLocalTime, NaiveDate, NaiveTime, TimeZone, Timelike,
};
use vstd::prelude::*;

verus! {

/// A calendar day, counted in days of the proleptic Gregorian calendar with
/// January 1 of year 1 as day 1.
#[derive(Clone, Copy, Debug, PartialEq, Eq, Structural)]
pub struct Date {
    pub days: i32,
}

/// A time of day: seconds since midnight and the nanoseconds within the
/// second. During a leap second `nanos` runs on to twice its usual range.
#[derive(Clone, Copy, Debug, PartialEq, Eq, Structural)]
pub struct TimeOfDay {
    pub secs: u32,
    pub nanos: u32,
}

/// A moment as seen in a time zone that is `offset` seconds ahead of UTC.
#[derive(Clone, Copy, Debug, PartialEq, Eq, Structural)]
pub struct Timestamp {
    pub date: Date,
    pub time: TimeOfDay,
    pub offset: i32,
}

/// A signed span of time of `secs` seconds and `nanos` nanoseconds.
#[derive(Clone, Copy, Debug, PartialEq, Eq, Structural)]
pub struct Duration {
    pub secs: i64,
    pub nanos: u32,
}

impl Date {
    /// Whether the day is one that the calendar of `chrono` can hold: those
    /// of the years 262144 BCE to 262142 CE, none of which is so much as a
    /// hundred million days from day 0.
    pub open spec fn in_calendar(self) -> bool {
        -100_000_000 < self.days < 100_000_000
    }

    /// Whether this day is `other` or an earlier one.
    pub open spec fn on_or_before(self, other: Date) -> bool {
        self.days <= other.days
    }

    /// Whether this day is `other` or an earlier one.
    pub fn is_on_or_before(&self, other: &Date) -> (b: bool)
        ensures
            b == self.on_or_before(*other),
    {
        self.days <= other.days
    }
}

impl TimeOfDay {
    /// The fields are in their ranges.
    pub open spec fn wf(self) -> bool {
        self.secs < 86_400 && self.nanos < 2_000_000_000
    }
}

impl Timestamp {
    /// The day is one of the calendar, the time of day is in range, and
    /// the offset is less than a day.
    pub open spec fn wf(self) -> bool {
        self.date.in_calendar() && self.time.wf() && -86_400 < self.offset < 86_400
    }

    /// Seconds from midnight of day 0, UTC, to this moment, whole seconds
    /// only.
    pub open spec fn utc_seconds(self) -> int {
        self.date.days * 86_400 + self.time.secs - self.offset
    }

    /// Nanoseconds from midnight of day 0, UTC, to this moment.
    pub open spec fn utc_nanos(self) -> int {
        self.utc_seconds() * 1_000_000_000 + self.time.nanos
    }

    /// Whether this moment is strictly earlier than `other`: first by the
    /// whole second in UTC, then by the nanoseconds.
    pub open spec fn precedes(self, other: Timestamp) -> bool {
        self.utc_seconds() < other.utc_seconds() || (self.utc_seconds() == other.utc_seconds()
            && self.time.nanos < other.time.nanos)
    }

    /// Whether both stand for one moment, whatever their offsets.
    pub open spec fn same_instant(self, other: Timestamp) -> bool {
        self.utc_seconds() == other.utc_seconds() && self.time.nanos == other.time.nanos
    }

    /// The same day at another time of day, seen at `offset`.
    pub open spec fn at_time(self, time: TimeOfDay, offset: i32) -> Timestamp {
        Timestamp { date: self.date, time, offset }
    }

    /// The same time of day on another day, seen at `offset`.
    pub open spec fn on_date(self, date: Date, offset: i32) -> Timestamp {
        Timestamp { date, time: self.time, offset }
    }

    /// Seconds from midnight of day 0, UTC, to this moment.
    pub fn utc_secs(&self) -> (s: i64)
        ensures
            s == self.utc_seconds(),
    {
        let days: i64 = self.date.days as i64;
        let secs: i64 = self.time.secs as i64;
        let offset: i64 = self.offset as i64;
        days * 86_400 + secs - offset
    }

    /// Whether this moment is strictly earlier than `other`.
    pub fn is_before(&self, other: &Timestamp) -> (b: bool)
        ensures
            b == self.precedes(*other),
    {
        let a: i64 = self.utc_secs();
        let b: i64 = other.utc_secs();
        a < b || (a == b && self.time.nanos < other.time.nanos)
    }

    /// Whether both stand for one moment.
    pub fn is_same_instant(&self, other: &Timestamp) -> (b: bool)
        ensures
            b == self.same_instant(*other),
    {
        self.utc_secs() == other.utc_secs() && self.time.nanos == other.time.nanos
    }

    /// The same day at another time of day, seen at `offset`.
    pub fn with_time(&self, time: TimeOfDay, offset: i32) -> (t: Timestamp)
        ensures
            t == self.at_time(time, offset),
    {
        Timestamp { date: self.date, time, offset }
    }

    /// The same time of day on another day, seen at `offset`.
    pub fn with_date(&self, date: Date, offset: i32) -> (t: Timestamp)
        ensures
            t == self.on_date(date, offset),
    {
        Timestamp { date, time: self.time, offset }
    }

    /// The moment `utc_seconds` seconds and `nanos` nanoseconds after
    /// midnight of day 0, UTC, as it is seen at `offset`. `None` where its
    /// day cannot be counted.
    pub open spec fn seen_at(utc_seconds: int, nanos: u32, offset: i32) -> Option<Timestamp> {
        let local = utc_seconds + offset;
        let days = local / 86_400;
        if i32::MIN <= days <= i32::MAX {
            Some(
                Timestamp {
                    date: Date { days: days as i32 },
                    time: TimeOfDay { secs: (local % 86_400) as u32, nanos },
                    offset,
                },
            )
        } else {
            None
        }
    }

    /// The moment that comes `span` after this one, as it is seen at
    /// `offset`. `None` where its day cannot be counted.
    pub open spec fn shifted(self, span: Duration, offset: i32) -> Option<Timestamp> {
        let nanos = self.utc_nanos() + span.total_nanos();
        Timestamp::seen_at(nanos / 1_000_000_000, (nanos % 1_000_000_000) as u32, offset)
    }

    /// The moment `utc_seconds` seconds and `nanos` nanoseconds after
    /// midnight of day 0, UTC, as it is seen at `offset`.
    pub fn from_utc(utc_seconds: i64, nanos: u32, offset: i32) -> (r: Option<Timestamp>)
        ensures
            r == Timestamp::seen_at(utc_seconds as int, nanos, offset),
    {
        if utc_seconds < -0x1_0000_0000_0000 || utc_seconds > 0x1_0000_0000_0000 {
            return None;
        }
        let local: i64 = utc_seconds + offset as i64;
        // Shifted by a whole number of days, the local second is never
        // negative.
        let lifted: i64 = local + 0x2_0000_0000 * 86_400;
        let days: i64 = lifted / 86_400 - 0x2_0000_0000;
        let secs: i64 = lifted % 86_400;
        assert(days == local as int / 86_400 && secs == local as int % 86_400) by {
            assert(lifted == (days + 0x2_0000_0000) * 86_400 + secs);
        }
        if days < i32::MIN as i64 || days > i32::MAX as i64 {
            return None;
        }
        Some(
            Timestamp {
                date: Date { days: days as i32 },
                time: TimeOfDay { secs: secs as u32, nanos },
                offset,
            },
        )
    }

    /// The second of the moment that comes `span` after this one, counted
    /// from midnight of day 0, UTC, and the nanoseconds within it. `None`
    /// where the moment is so far off that its day cannot be counted at any
    /// offset.
    pub fn instant_after(&self, span: &Duration) -> (r: Option<(i64, u32)>)
        ensures
            match r {
                Some((secs, nanos)) => secs == (self.utc_nanos() + span.total_nanos())
                    / 1_000_000_000 && nanos == (self.utc_nanos() + span.total_nanos())
                    % 1_000_000_000 && -0x1_0000_0000_0000 <= secs <= 0x1_0000_0000_0000,
                None => forall|offset: i32| #[trigger] self.shifted(*span, offset) is None,
            },
    {
        let part: u64 = self.time.nanos as u64 + span.nanos as u64;
        let carry: u64 = part / 1_000_000_000;
        let nanos: u64 = part % 1_000_000_000;
        let secs: i128 = self.utc_secs() as i128 + span.secs as i128 + carry as i128;
        assert(self.utc_nanos() + span.total_nanos() == secs * 1_000_000_000 + nanos);
        if secs < -0x1_0000_0000_0000 || secs > 0x1_0000_0000_0000 {
            return None;
        }
        Some((secs as i64, nanos as u32))
    }

    /// The moment that comes `span` after this one, as it is seen at
    /// `offset`.
    pub fn plus(&self, span: &Duration, offset: i32) -> (r: Option<Timestamp>)
        ensures
            r == self.shifted(*span, offset),
    {
        match self.instant_after(span) {
            Some((secs, nanos)) => Timestamp::from_utc(secs, nanos, offset),
            None => None,
        }
    }

    /// The span from this moment to `end`, negative where `end` is the
    /// earlier one.
    pub fn until(&self, end: &Timestamp) -> (d: Duration)
        ensures
            d.wf(),
            d.total_nanos() == end.utc_nanos() - self.utc_nanos(),
    {
        let secs: i64 = end.utc_secs() - self.utc_secs();
        let from: i64 = self.time.nanos as i64;
        let to: i64 = end.time.nanos as i64;
        // Shifted by five seconds, the difference of the nanoseconds is
        // never negative.
        let shifted: i64 = to - from + 5_000_000_000;
        let carry: i64 = shifted / 1_000_000_000;
        let rest: i64 = shifted % 1_000_000_000;
        Duration { secs: secs + carry - 5, nanos: rest as u32 }
    }
}

impl Duration {
    /// The nanoseconds are less than a second.
    pub open spec fn wf(self) -> bool {
        self.nanos < 1_000_000_000
    }

    /// The span in nanoseconds.
    pub open spec fn total_nanos(self) -> int {
        self.secs * 1_000_000_000 + self.nanos
    }

    /// The empty span.
    pub fn zero() -> (d: Duration)
        ensures
            d.wf(),
            d.total_nanos() == 0,
    {
        Duration { secs: 0, nanos: 0 }
    }
}

/// Reads the clock with `chrono::Local::now` and takes the local day, the
/// local time of day and the offset out of what it returns.
///
/// Not proved: that the day is one of the calendar and that the time of
/// day and the offset are in their ranges, which `chrono` keeps for every
/// `NaiveDate`, `NaiveTime` and `FixedOffset`. Nothing else is said: the
/// moment is whatever the machine's clock shows. On a
/// machine whose time zone data cannot be used `chrono` gives up with a
/// panic, here and wherever the time zone is asked.
#[verifier::external_body]
pub(crate) fn now() -> (t: Timestamp)
    ensures
        t.wf(),
{
    let now = Local::now();
    let local = now.naive_local();
    Timestamp {
        date: Date { days: local.date().num_days_from_ce() },
        time: TimeOfDay {
            secs: local.time().num_seconds_from_midnight(),
            nanos: local.time().nanosecond(),
        },
        offset: now.offset().local_minus_utc(),
    }
}

/// What a time zone makes of a local day and time of day: no moment (the
/// local clock skipped it), one, or two (the local clock was set back and
/// showed it twice), each with its offset from UTC.
#[derive(Clone, Copy, Debug, PartialEq, Eq, Structural)]
pub enum LocalOffset {
    Skipped,
    Single(i32),
    Ambiguous(i32, i32),
}

impl LocalOffset {
    /// Every offset is less than a day.
    pub open spec fn wf(self) -> bool {
        match self {
            LocalOffset::Skipped => true,
            LocalOffset::Single(offset) => -86_400 < offset < 86_400,
            LocalOffset::Ambiguous(first, second) => -86_400 < first < 86_400 && -86_400 < second
                < 86_400,
        }
    }

    /// The offset, where there is exactly one.
    pub open spec fn the_single(self) -> Option<i32> {
        match self {
            LocalOffset::Single(offset) => Some(offset),
            _ => None,
        }
    }

    /// The offset where there is one, the first where there are two.
    pub open spec fn the_earliest(self) -> Option<i32> {
        match self {
            LocalOffset::Skipped => None,
            LocalOffset::Single(offset) => Some(offset),
            LocalOffset::Ambiguous(first, _) => Some(first),
        }
    }

    /// The offset, where there is exactly one.
    pub fn single(&self) -> (r: Option<i32>)
        ensures
            r == self.the_single(),
    {
        match self {
            LocalOffset::Single(offset) => Some(*offset),
            _ => None,
        }
    }

    /// The offset where there is one, the first where there are two.
    pub fn earliest(&self) -> (r: Option<i32>)
        ensures
            r == self.the_earliest(),
    {
        match self {
            LocalOffset::Skipped => None,
            LocalOffset::Single(offset) => Some(*offset),
            LocalOffset::Ambiguous(first, _) => Some(*first),
        }
    }
}

/// The time of day that `text` shows when read by `format`, if it shows
/// one.
pub uninterp spec fn parsed_time(text: Seq<char>, format: Seq<char>) -> Option<TimeOfDay>;

/// The day that `text` shows when read by `format`, if it shows one.
pub uninterp spec fn parsed_day(text: Seq<char>, format: Seq<char>) -> Option<Date>;

#[verifier::external_type_specification]
#[verifier::external_body]
pub struct ExParseError(ParseError);

/// Asks `chrono::Local` what the machine's time zone makes of a local day
/// and time of day, with `TimeZone::from_local_datetime`. No moment where
/// the day or the time is out of `chrono`'s range.
///
/// Not proved: that each offset is less than a day, which `chrono` keeps
/// for every `FixedOffset`. How many moments there are, and with which
/// offsets, depends on the machine's time zone.
#[verifier::external_body]
pub(crate) fn local_offsets(date: Date, time: TimeOfDay) -> (r: LocalOffset)
    ensures
        r.wf(),
{
    let day = NaiveDate::from_num_days_from_ce_opt(date.days);
    let clock = NaiveTime::from_num_seconds_from_midnight_opt(time.secs, time.nanos);
    let (Some(day), Some(clock)) = (day, clock) else {
        return LocalOffset::Skipped;
    };
    match Local.from_local_datetime(&day.and_time(clock)) {
        MappedLocalTime::None => LocalOffset::Skipped,
        MappedLocalTime::Single(moment) => LocalOffset::Single(moment.offset().local_minus_utc()),
        MappedLocalTime::Ambiguous(first, second) => LocalOffset::Ambiguous(
            first.offset().local_minus_utc(),
            second.offset().local_minus_utc(),
        ),
    }
}

/// Seconds from midnight of day 0, UTC, to the beginning of 1970, from
/// which `chrono` counts.
pub const EPOCH_SECONDS: i64 = 62_135_683_200;

/// Asks `chrono::Local` which offset the machine's time zone has at the
/// moment `unix_seconds` seconds after the beginning of 1970, UTC, with
/// `TimeZone::timestamp_opt`. `None` where the moment is out of `chrono`'s
/// range.
///
/// Not proved: that an offset is less than a day, which `chrono` keeps for
/// every `FixedOffset`. Which offset comes depends on the machine's time
/// zone.
#[verifier::external_body]
pub(crate) fn local_offset_at(unix_seconds: i64) -> (r: Option<i32>)
    ensures
        r matches Some(offset) ==> -86_400 < offset < 86_400,
{
    let moment = Local.timestamp_opt(unix_seconds, 0).single()?;
    Some(moment.offset().local_minus_utc())
}

/// Reads a time of day with `chrono::NaiveTime::parse_from_str`.
///
/// Not proved: that the outcome is a function of the text and the format
/// alone, named [`parsed_time`], and that a time of day that was read is in
/// range, which `chrono` keeps for every `NaiveTime`.
#[verifier::external_body]
pub(crate) fn parse_time_as(text: &str, format: &str) -> (r: Result<TimeOfDay, ParseError>)
    ensures
        match r {
            Ok(time) => parsed_time(text@, format@) == Some(time) && time.wf(),
            Err(_) => parsed_time(text@, format@) is None,
        },
{
    let time = NaiveTime::parse_from_str(text, format)?;
    Ok(TimeOfDay { secs: time.num_seconds_from_midnight(), nanos: time.nanosecond() })
}

/// What `chrono`'s `ParseError` says of itself through `Display`. Nothing
/// is claimed of the text.
#[verifier::external_body]
pub(crate) fn describe_parse_error(error: &ParseError) -> String {
    error.to_string()
}

/// How a timestamp is written: day, time of day and offset. `None` where
/// `chrono` has no such timestamp.
pub uninterp spec fn timestamp_text(t: Timestamp) -> Option<Seq<char>>;

/// How a day is written together with an offset. `None` where `chrono` has
/// no such day or offset.
pub uninterp spec fn day_text(date: Date, offset: i32) -> Option<Seq<char>>;

/// Writes a timestamp with the `Display` of `chrono::DateTime`.
///
/// Not proved: that the text is a function of the timestamp alone, named
/// [`timestamp_text`].
#[verifier::external_body]
pub(crate) fn format_timestamp(t: Timestamp) -> (r: Option<String>)
    ensures
        match r {
            Some(text) => timestamp_text(t) == Some(text@),
            None => timestamp_text(t) is None,
        },
{
    let day = NaiveDate::from_num_days_from_ce_opt(t.date.days)?;
    let clock = NaiveTime::from_num_seconds_from_midnight_opt(t.time.secs, t.time.nanos)?;
    let zone = FixedOffset::east_opt(t.offset)?;
    let moment = zone.from_local_datetime(&day.and_time(clock)).single()?;
    Some(moment.to_string())
}

/// Writes a day and an offset with the `Display` of `chrono::Date`.
///
/// Not proved: that the text is a function of the day and the offset alone,
/// named [`day_text`].
#[verifier::external_body]
#[allow(deprecated)]
pub(crate) fn format_day(date: Date, offset: i32) -> (r: Option<String>)
    ensures
        match r {
            Some(text) => day_text(date, offset) == Some(text@),
            None => day_text(date, offset) is None,
        },
{
    let day = NaiveDate::from_num_days_from_ce_opt(date.days)?;
    let zone = FixedOffset::east_opt(offset)?;
    Some(chrono::Date::<FixedOffset>::from_utc(day, zone).to_string())
}

/// Reads a day with `chrono::NaiveDate::parse_from_str`.
///
/// Not proved: that the outcome is a function of the text and the format
/// alone, named [`parsed_day`], and that a day that was read is one of the
/// calendar, which `chrono` keeps for every `NaiveDate`.
#[verifier::external_body]
pub(crate) fn parse_day_as(text: &str, format: &str) -> (r: Result<Date, ParseError>)
    ensures
        match r {
            Ok(day) => parsed_day(text@, format@) == Some(day) && day.in_calendar(),
            Err(_) => parsed_day(text@, format@) is None,
        },
{
    let day = NaiveDate::parse_from_str(text, format)?;
    Ok(Date { days: day.num_days_from_ce() })
}

} // verus!
