//! Helpers of the commands: joining text, and reading days and times of
//! day.

use crate::cli::{printed, with_line_ends, CliCallbacks};
use crate::commands::print_lines;
use crate::clock::{
    clock_views, is_rearrangement, sort_by_start, sorted_by_start, Clock, ClockView,
};
use crate::doc::{Doc, DocView};
use crate::error::CliError;
use crate::text::{
    describe_int_error, joined, parse_i64, parsed_i64, signed_decimal, signed_decimal_of,
    split_once, texts,
};
use crate::time::{
    day_text, format_day, format_timestamp, local_offsets, now, parse_day_as, parse_time_as,
    parsed_day, parsed_time, timestamp_text, Date, Duration, LocalOffset, TimeOfDay, Timestamp,
};
use chrono::format::ParseError;
use vstd::prelude::*;

verus! {

/// The strings of `strings` in a row, with `sep` between each two.
pub fn join_strings(strings: &Vec<String>, sep: &str) -> (r: String)
    ensures
        r@ == joined(texts(strings@), sep@),
{
    let mut acc = String::new();
    let mut i: usize = 0;
    while i < strings.len()
        invariant
            i <= strings@.len(),
            acc@ == joined(texts(strings@).take(i as int), sep@),
        decreases strings@.len() - i,
    {
        proof {
            let seen = texts(strings@).take(i as int);
            let next = texts(strings@).take(i + 1);
            assert(next.drop_last() =~= seen);
            assert(next.last() == strings@[i as int]@);
            if i == 0 {
                assert(joined(next, sep@) == next[0]);
                assert(acc@ + strings@[i as int]@ =~= next[0]);
            }
        }
        acc = fold_strings(sep, acc, &strings[i], i + 1);
        i += 1;
    }
    proof {
        assert(texts(strings@).take(i as int) =~= texts(strings@));
    }
    acc
}

/// One step of joining: `acc` with `item` appended, after `sep` unless
/// `item` is the first, which has the number 1.
pub fn fold_strings(sep: &str, acc: String, item: &String, i: usize) -> (r: String)
    ensures
        r@ == if i > 1 {
            acc@ + sep@ + item@
        } else {
            acc@ + item@
        },
{
    let mut acc = acc;
    if i > 1 {
        acc.append(sep);
    }
    acc.append(item.as_str());
    acc
}


/// The time of day that `text` shows: hours, minutes and seconds, or hours
/// and minutes alone.
pub open spec fn time_shown(text: Seq<char>) -> Option<TimeOfDay> {
    match parsed_time(text, "%H:%M:%S"@) {
        Some(time) => Some(time),
        None => parsed_time(text, "%H:%M"@),
    }
}

/// Reads a time of day: hours, minutes and seconds, or hours and minutes
/// alone.
pub fn parse_time(string: &str) -> (r: Result<TimeOfDay, ParseError>)
    ensures
        match r {
            Ok(time) => time_shown(string@) == Some(time) && time.wf(),
            Err(_) => time_shown(string@) is None,
        },
{
    match parse_time_as(string, "%H:%M:%S") {
        Ok(time) => Ok(time),
        Err(_) => parse_time_as(string, "%H:%M"),
    }
}

/// What a text asks for as a day.
#[derive(Debug)]
pub enum DateRequest {
    /// The day so many days before today.
    DaysAgo(i64),
    /// The day itself.
    On(Date),
    /// A count of days that is no number, with what is wrong with it.
    BadOffset { msg: String },
    /// Neither a count of days nor a day.
    BadFormat,
}

/// Whether `request` is what `text` asks for: after a leading `-` a count of
/// days before today, else a day as year, month and day.
pub open spec fn is_reading(text: Seq<char>, request: DateRequest) -> bool {
    if text.len() > 0 && text[0] == '-' {
        match parsed_i64(text.skip(1)) {
            Some(days) => request == DateRequest::DaysAgo(days),
            None => request is BadOffset,
        }
    } else {
        match parsed_day(text, "%Y-%m-%d"@) {
            Some(day) => request == DateRequest::On(day),
            None => request is BadFormat,
        }
    }
}

/// The day `days` days before `today`, if it can be counted.
pub open spec fn days_before(today: Date, days: i64) -> Option<Date> {
    let day = today.days - days;
    if i32::MIN <= day <= i32::MAX {
        Some(Date { days: day as i32 })
    } else {
        None
    }
}

/// Whether `answer` is what comes of `request` when today is `today` and
/// the time zone makes `midnight` of midnight of the day asked for. A day
/// whose midnight the local clock skipped is an error.
pub open spec fn is_date_answer(
    request: DateRequest,
    today: Date,
    midnight: LocalOffset,
    answer: Result<Date, CliError>,
) -> bool {
    match request {
        DateRequest::DaysAgo(days) => match days_before(today, days) {
            Some(day) => answer == Ok::<Date, CliError>(day),
            None => answer matches Err(CliError::ParseError { msg }) && msg@
                == "Day is out of range"@,
        },
        DateRequest::On(day) => if midnight.the_earliest() is Some {
            answer == Ok::<Date, CliError>(day)
        } else {
            answer matches Err(CliError::ParseError { msg }) && msg@
                == "Couldn't apply timezone"@
        },
        DateRequest::BadOffset { msg: reason } => answer matches Err(
            CliError::ParseError { msg },
        ) && msg@ == reason@,
        DateRequest::BadFormat => answer matches Err(CliError::ParseError { msg }) && msg@
            == "Couldn't parse argument format"@,
    }
}

/// Reads what `date_str` asks for as a day.
pub fn read_date(date_str: &str) -> (request: DateRequest)
    ensures
        is_reading(date_str@, request),
{
    match split_once(date_str, '-') {
        Some((head, rest)) => {
            if head.is_empty() {
                assert(head@ =~= Seq::<char>::empty());
                assert(date_str@.skip(1) =~= rest@);
                assert(date_str@[0] == '-');
                return match parse_i64(rest) {
                    Ok(days) => DateRequest::DaysAgo(days),
                    Err(err) => DateRequest::BadOffset { msg: describe_int_error(&err) },
                };
            }
            assert(head@.contains(head@[0]));
            assert(date_str@[0] == head@[0]);
        },
        None => {
            proof {
                if date_str@.len() > 0 {
                    assert(date_str@.contains(date_str@[0]));
                }
            }
        },
    }
    match parse_day_as(date_str, "%Y-%m-%d") {
        Ok(day) => DateRequest::On(day),
        Err(_) => DateRequest::BadFormat,
    }
}

/// What comes of `request` when today is `today` and the time zone makes
/// `midnight` of midnight of the day asked for.
pub fn finish_date(request: DateRequest, today: Date, midnight: LocalOffset) -> (answer: Result<
    Date,
    CliError,
>)
    ensures
        is_date_answer(request, today, midnight, answer),
{
    match request {
        DateRequest::DaysAgo(days) => {
            if days < -0x1_0000_0000 || days > 0x1_0000_0000 {
                return Err(CliError::ParseError { msg: "Day is out of range".to_owned() });
            }
            let day: i64 = today.days as i64 - days;
            if day < i32::MIN as i64 || day > i32::MAX as i64 {
                return Err(CliError::ParseError { msg: "Day is out of range".to_owned() });
            }
            Ok(Date { days: day as i32 })
        },
        DateRequest::On(day) => match midnight.earliest() {
            Some(_) => Ok(day),
            None => Err(CliError::ParseError { msg: "Couldn't apply timezone".to_owned() }),
        },
        DateRequest::BadOffset { msg } => Err(CliError::ParseError { msg }),
        DateRequest::BadFormat => Err(
            CliError::ParseError { msg: "Couldn't parse argument format".to_owned() },
        ),
    }
}

/// Whether `answer` is what reading `text` as a day may come to, whatever
/// day today is and whatever the machine's time zone makes of midnight of
/// the day asked for.
pub open spec fn is_parsed_date(text: Seq<char>, answer: Result<Date, CliError>) -> bool {
    exists|request: DateRequest, today: Date, midnight: LocalOffset|
        is_reading(text, request) && today.in_calendar() && midnight.wf()
            && #[trigger] is_date_answer(request, today, midnight, answer)
}

/// Reads a day: after a leading `-` the day so many days before today, else
/// a day as year, month and day, which the machine's time zone must have a
/// midnight for.
pub fn parse_date(date_str: &str) -> (answer: Result<Date, CliError>)
    ensures
        is_parsed_date(date_str@, answer),
{
    let request = read_date(date_str);
    let mut today = Date { days: 0 };
    let mut midnight = LocalOffset::Skipped;
    match &request {
        DateRequest::DaysAgo(_) => {
            today = now().date;
        },
        DateRequest::On(day) => {
            midnight = local_offsets(*day, TimeOfDay { secs: 0, nanos: 0 });
        },
        _ => {},
    }
    finish_date(request, today, midnight)
}

/// `a` divided by `b`, rounded toward zero.
pub open spec fn toward_zero(a: int, b: int) -> int {
    if a >= 0 {
        a / b
    } else {
        -((-a) / b)
    }
}

/// What is left of `a` when it is divided by `b` toward zero; it has the
/// sign of `a`.
pub open spec fn left_over(a: int, b: int) -> int {
    a - toward_zero(a, b) * b
}

/// How a span of `seconds` seconds is written: whole days, and the hours,
/// minutes and seconds beyond them.
pub open spec fn span_text(seconds: int) -> Seq<char> {
    signed_decimal_of(toward_zero(seconds, 86_400)) + "d "@ + signed_decimal_of(
        left_over(toward_zero(seconds, 3_600), 24),
    ) + "h "@ + signed_decimal_of(left_over(toward_zero(seconds, 60), 60)) + "m "@
        + signed_decimal_of(left_over(seconds, 60)) + "s"@
}

/// The whole seconds of a span of `nanos` nanoseconds.
pub open spec fn whole_seconds(nanos: int) -> int {
    toward_zero(nanos, 1_000_000_000)
}

/// Writes a span of `seconds` seconds: whole days, and the hours, minutes
/// and seconds beyond them.
pub fn print_span(seconds: i128) -> (text: String)
    requires
        seconds > i128::MIN,
    ensures
        text@ == span_text(seconds as int),
{
    let (days, hours, minutes, secs): (i128, i128, i128, i128) = if seconds >= 0 {
        (seconds / 86_400, (seconds / 3_600) % 24, (seconds / 60) % 60, seconds % 60)
    } else {
        let size: i128 = -seconds;
        (-(size / 86_400), -((size / 3_600) % 24), -((size / 60) % 60), -(size % 60))
    };
    let mut text = signed_decimal(days);
    text.append("d ");
    text.append(signed_decimal(hours).as_str());
    text.append("h ");
    text.append(signed_decimal(minutes).as_str());
    text.append("m ");
    text.append(signed_decimal(secs).as_str());
    text.append("s");
    text
}

/// Writes the whole seconds of a span of `secs` seconds and `nanos`
/// nanoseconds.
pub fn print_parts(secs: i128, nanos: i128) -> (text: String)
    requires
        -0x4000_0000_0000_0000_0000_0000_0000_0000 < secs < 0x4000_0000_0000_0000_0000_0000_0000_0000,
        0 <= nanos < 0x4000_0000_0000_0000_0000_0000_0000_0000,
    ensures
        text@ == span_text(whole_seconds(secs * 1_000_000_000 + nanos)),
{
    let carry: i128 = nanos / 1_000_000_000;
    let rest: i128 = nanos % 1_000_000_000;
    let total: i128 = secs + carry;
    let whole: i128 = if total < 0 && rest > 0 {
        total + 1
    } else {
        total
    };
    assert(secs * 1_000_000_000 + nanos == total * 1_000_000_000 + rest);
    print_span(whole)
}

impl Duration {
    /// How the span is written: its whole seconds as days, hours, minutes
    /// and seconds.
    pub fn print(&self) -> (text: String)
        ensures
            text@ == span_text(whole_seconds(self.total_nanos())),
    {
        print_parts(self.secs as i128, self.nanos as i128)
    }
}

impl DocView {
    /// The titles of the tasks `ids`, in their order. A task that is not
    /// stored has none.
    pub open spec fn titles(self, ids: Seq<u128>) -> Seq<Seq<char>>
        decreases ids.len(),
    {
        if ids.len() == 0 {
            Seq::empty()
        } else if self.tasks.contains_key(ids.last()) {
            self.titles(ids.drop_last()).push(self.tasks[ids.last()].title)
        } else {
            self.titles(ids.drop_last())
        }
    }

    /// The titles along `path` with arrows between them: from the end of
    /// the path back to its beginning where `top_down` says so, else from
    /// its beginning on.
    pub open spec fn trail(self, path: Seq<u128>, top_down: bool) -> Seq<char> {
        joined(
            self.titles(
                if top_down {
                    path.reverse()
                } else {
                    path
                },
            ),
            " -> "@,
        )
    }

    /// Whether `text` names the task of a clock: the titles along a path
    /// from the task up, or `(none)` where there is no task.
    pub open spec fn names_task(self, task: Option<u128>, top_down: bool, text: Seq<char>) -> bool {
        match task {
            Some(task) => exists|path: Seq<u128>| #[trigger]
                self.is_path(task, path) && text == self.trail(path, top_down),
            None => text == "(none)"@,
        }
    }
}

/// How a moment is written, `(none)` where there is none or the calendar
/// has no such moment.
pub open spec fn moment_text(moment: Option<Timestamp>) -> Seq<char> {
    match moment {
        Some(moment) => match timestamp_text(moment) {
            Some(text) => text,
            None => "(none)"@,
        },
        None => "(none)"@,
    }
}

/// The text of a clock whose task is named by `task`: from when to when it
/// ran, the task, and the comment.
pub open spec fn clock_text(clock: ClockView, task: Seq<char>) -> Seq<char> {
    moment_text(Some(clock.start)) + " - "@ + moment_text(clock.end) + ":\n Task: "@ + task
        + "\n Comment: "@ + match clock.comment {
        Some(comment) => comment,
        None => "(none)"@,
    }
}

/// How a moment is written, `(none)` where there is none or the calendar
/// has no such moment.
pub fn write_moment(moment: Option<Timestamp>) -> (text: String)
    ensures
        text@ == moment_text(moment),
{
    match moment {
        Some(moment) => match format_timestamp(moment) {
            Some(text) => text,
            None => "(none)".to_owned(),
        },
        None => "(none)".to_owned(),
    }
}

/// The text of `clock`: from when to when it ran, its task by the titles
/// along a path from the task up, and its comment.
pub fn write_clock(doc: &Doc, clock: &Clock, top_down: bool) -> (text: String)
    ensures
        exists|task: Seq<char>| #[trigger]
            doc@.names_task(clock.task_id, top_down, task) && text@ == clock_text(clock@, task),
{
    let task_str = match clock.task_id {
        Some(task_id) => task_trail(doc, &task_id, top_down),
        None => "(none)".to_owned(),
    };
    let comment = match &clock.comment {
        Some(comment) => comment.clone(),
        None => "(none)".to_owned(),
    };
    let mut text = write_moment(Some(clock.start));
    text.append(" - ");
    text.append(write_moment(clock.end).as_str());
    text.append(":\n Task: ");
    text.append(task_str.as_str());
    text.append("\n Comment: ");
    text.append(comment.as_str());
    proof {
        assert(doc@.names_task(clock.task_id, top_down, task_str@));
    }
    text
}

/// The titles of the tasks from `task_id` up through its parents, with
/// arrows between them: from the top down where `top_down` says so, else
/// from `task_id` up. A task that is not stored has no title.
pub fn task_trail(doc: &Doc, task_id: &u128, top_down: bool) -> (text: String)
    ensures
        exists|path: Seq<u128>| #[trigger]
            doc@.is_path(*task_id, path) && text@ == doc@.trail(path, top_down),
{
    let path = doc.path(task_id);
    let ghost order = if top_down {
        path@.reverse()
    } else {
        path@
    };
    let mut titles: Vec<String> = Vec::new();
    let mut i: usize = 0;
    while i < path.len()
        invariant
            i <= path@.len(),
            order.len() == path@.len(),
            forall|j: int|
                0 <= j < order.len() ==> order[j] == if top_down {
                    path@[path@.len() - 1 - j]
                } else {
                    path@[j]
                },
            texts(titles@) == doc@.titles(order.take(i as int)),
        decreases path@.len() - i,
    {
        let at: usize = if top_down {
            path.len() - 1 - i
        } else {
            i
        };
        proof {
            let next = order.take(i + 1);
            assert(next.drop_last() =~= order.take(i as int));
            assert(next.last() == path@[at as int]);
        }
        match doc.get(&path[at]) {
            Ok(task) => {
                assert(texts(titles@.push(task.title)) =~= texts(titles@).push(task.title@));
                titles.push(task.title);
            },
            Err(_) => {},
        }
        i += 1;
    }
    proof {
        assert(order.take(i as int) =~= order);
    }
    join_strings(&titles, " -> ")
}

/// What is shown of one clock in a report: the day it starts on and how
/// that day is written, the text of the clock, and from when to when it
/// ran.
#[derive(Debug)]
pub struct ClockLine {
    pub day: Date,
    pub heading: String,
    pub text: String,
    pub from: Timestamp,
    pub until: Timestamp,
}

/// The mathematical content of a [`ClockLine`].
pub struct ClockLineView {
    pub day: Date,
    pub heading: Seq<char>,
    pub text: Seq<char>,
    pub from: Timestamp,
    pub until: Timestamp,
}

impl View for ClockLine {
    type V = ClockLineView;

    open spec fn view(&self) -> ClockLineView {
        ClockLineView {
            day: self.day,
            heading: self.heading@,
            text: self.text@,
            from: self.from,
            until: self.until,
        }
    }
}

impl ClockLineView {
    /// How long the clock ran, in nanoseconds.
    pub open spec fn nanos(self) -> int {
        self.until.utc_nanos() - self.from.utc_nanos()
    }
}

/// The contents of a list of clock lines, one by one.
pub open spec fn line_views(lines: Seq<ClockLine>) -> Seq<ClockLineView> {
    lines.map_values(|l: ClockLine| l@)
}

/// Whether the last of `entries` begins a day: it is the first, or the one
/// before it starts on another day.
pub open spec fn begins_day(entries: Seq<ClockLineView>) -> bool {
    entries.len() == 1 || entries[entries.len() - 2].day != entries.last().day
}

/// How long the clocks of `entries` ran in all, in nanoseconds.
pub open spec fn total_nanos(entries: Seq<ClockLineView>) -> int
    decreases entries.len(),
{
    if entries.len() == 0 {
        0
    } else {
        total_nanos(entries.drop_last()) + entries.last().nanos()
    }
}

/// How long the clocks at the end of `entries` ran that start on the day of
/// the last, in nanoseconds.
pub open spec fn day_nanos(entries: Seq<ClockLineView>) -> int
    decreases entries.len(),
{
    if entries.len() == 0 {
        0
    } else if begins_day(entries) {
        entries.last().nanos()
    } else {
        day_nanos(entries.drop_last()) + entries.last().nanos()
    }
}

/// The line that closes a day.
pub open spec fn day_line(nanos: int) -> Seq<char> {
    "Day duration: "@ + span_text(whole_seconds(nanos))
}

/// The lines for `entries` themselves. A day begins with its heading; the
/// sum of the day before follows the first clock of the next day.
pub open spec fn report_body(entries: Seq<ClockLineView>) -> Seq<Seq<char>>
    decreases entries.len(),
{
    if entries.len() == 0 {
        Seq::empty()
    } else {
        let before = report_body(entries.drop_last());
        let last = entries.last();
        if !begins_day(entries) {
            before.push(last.text)
        } else if entries.len() == 1 {
            before.push("--- "@ + last.heading + " ---"@).push(last.text)
        } else {
            before.push("--- "@ + last.heading + " ---"@).push(last.text).push(
                day_line(day_nanos(entries.drop_last())),
            ).push(Seq::empty())
        }
    }
}

/// The report on `entries`: their lines, the sum of the last day, and the
/// sum of all.
pub open spec fn report_of(entries: Seq<ClockLineView>) -> Seq<Seq<char>> {
    report_body(entries).push(day_line(day_nanos(entries))).push(Seq::empty()).push(
        "Overall duration in time range: "@ + span_text(whole_seconds(total_nanos(entries))),
    )
}

/// The report on `entries`, line by line.
pub fn assemble_report(entries: &Vec<ClockLine>) -> (lines: Vec<String>)
    ensures
        texts(lines@) == report_of(line_views(entries@)),
{
    let ghost views = line_views(entries@);
    let mut lines: Vec<String> = Vec::new();
    let mut all_secs: i128 = 0;
    let mut all_nanos: i128 = 0;
    let mut day_secs: i128 = 0;
    let mut day_part: i128 = 0;
    let mut i: usize = 0;
    while i < entries.len()
        invariant
            i <= entries@.len(),
            views == line_views(entries@),
            texts(lines@) == report_body(views.take(i as int)),
            all_secs * 1_000_000_000 + all_nanos == total_nanos(views.take(i as int)),
            day_secs * 1_000_000_000 + day_part == day_nanos(views.take(i as int)),
            -i * 0x8_0000_0000_0000 <= all_secs <= i * 0x8_0000_0000_0000,
            -i * 0x8_0000_0000_0000 <= day_secs <= i * 0x8_0000_0000_0000,
            0 <= all_nanos <= i * 1_000_000_000,
            0 <= day_part <= i * 1_000_000_000,
        decreases entries@.len() - i,
    {
        let entry = &entries[i];
        let span = entry.from.until(&entry.until);
        let new_day = i == 0 || entries[i - 1].day.days != entry.day.days;
        proof {
            let seen = views.take(i + 1);
            assert(seen.drop_last() =~= views.take(i as int));
            assert(seen.last() == entry@);
            if i > 0 {
                assert(seen[seen.len() - 2] == entries@[i - 1]@);
            }
            assert(new_day == begins_day(seen));
            assert(span.total_nanos() == entry@.nanos());
        }
        if new_day {
            let mut heading = "--- ".to_owned();
            heading.append(entry.heading.as_str());
            heading.append(" ---");
            assert(texts(lines@.push(heading)) =~= texts(lines@).push(heading@));
            lines.push(heading);
        }
        let text = entry.text.clone();
        assert(texts(lines@.push(text)) =~= texts(lines@).push(text@));
        lines.push(text);
        if new_day {
            if i > 0 {
                let mut closing = "Day duration: ".to_owned();
                closing.append(print_parts(day_secs, day_part).as_str());
                assert(texts(lines@.push(closing)) =~= texts(lines@).push(closing@));
                lines.push(closing);
                let empty = String::new();
                assert(texts(lines@.push(empty)) =~= texts(lines@).push(empty@));
                lines.push(empty);
            }
            day_secs = 0;
            day_part = 0;
        }
        day_secs = day_secs + span.secs as i128;
        day_part = day_part + span.nanos as i128;
        all_secs = all_secs + span.secs as i128;
        all_nanos = all_nanos + span.nanos as i128;
        i += 1;
    }
    proof {
        assert(views.take(i as int) =~= views);
    }
    let mut closing = "Day duration: ".to_owned();
    closing.append(print_parts(day_secs, day_part).as_str());
    assert(texts(lines@.push(closing)) =~= texts(lines@).push(closing@));
    lines.push(closing);
    let empty = String::new();
    assert(texts(lines@.push(empty)) =~= texts(lines@).push(empty@));
    lines.push(empty);
    let mut overall = "Overall duration in time range: ".to_owned();
    overall.append(print_parts(all_secs, all_nanos).as_str());
    assert(texts(lines@.push(overall)) =~= texts(lines@).push(overall@));
    lines.push(overall);
    lines
}

/// How the day of a moment is written, `(none)` where the calendar has no
/// such day.
pub open spec fn heading_text(moment: Timestamp) -> Seq<char> {
    match day_text(moment.date, moment.offset) {
        Some(text) => text,
        None => "(none)"@,
    }
}

/// What is shown of `clock` in a report that is made at `now`.
pub fn clock_line(doc: &Doc, clock: &Clock, now: Timestamp) -> (line: ClockLine)
    ensures
        line.day == clock.start.date,
        line.from == clock.start,
        line.until == clock@.end_or(now),
        line.heading@ == heading_text(clock.start),
        exists|task: Seq<char>| #[trigger]
            doc@.names_task(clock.task_id, true, task) && line.text@ == clock_text(clock@, task),
{
    let heading = match format_day(clock.start.date, clock.start.offset) {
        Some(text) => text,
        None => "(none)".to_owned(),
    };
    ClockLine {
        day: clock.start.date,
        heading,
        text: write_clock(doc, clock, true),
        from: clock.start,
        until: match clock.end {
            Some(end) => end,
            None => now,
        },
    }
}

/// Whether `lines` show the clocks `clocks`, one by one, as they are read
/// at `now`.
pub open spec fn shows(
    doc: DocView,
    lines: Seq<ClockLineView>,
    clocks: Seq<ClockView>,
    now: Timestamp,
) -> bool {
    &&& lines.len() == clocks.len()
    &&& forall|i: int| 0 <= i < lines.len() ==> shows_clock(doc, #[trigger] lines[i], clocks[i], now)
}

/// Whether `line` shows `clock` as it is read at `now`.
pub open spec fn shows_clock(doc: DocView, line: ClockLineView, clock: ClockView, now: Timestamp) -> bool {
    &&& line.day == clock.start.date
    &&& line.from == clock.start
    &&& line.until == clock.end_or(now)
    &&& line.heading == heading_text(clock.start)
    &&& exists|task: Seq<char>| #[trigger]
        doc.names_task(clock.task_id, true, task) && line.text == clock_text(clock, task)
}

/// Whether `lines` are a report on `clocks` as they are read at `now`:
/// `sorted` are the clocks in the order of their starts, rearranged by
/// `order`; `shown` is what is shown of each; and `lines` is the report on
/// that.
pub open spec fn is_report(
    doc: DocView,
    clocks: Seq<ClockView>,
    now: Timestamp,
    lines: Seq<Seq<char>>,
    shown: Seq<ClockLineView>,
    sorted: Seq<ClockView>,
    order: Seq<int>,
) -> bool {
    &&& is_rearrangement(order, clocks, sorted)
    &&& sorted_by_start(sorted)
    &&& shows(doc, shown, sorted, now)
    &&& lines == report_of(shown)
}

/// The report on `clocks` as they are read at `now`: the clocks in the
/// order of their starts, day by day, with the time that was clocked on
/// each day and in all.
pub fn clock_report(clocks: &Vec<Clock>, doc: &Doc, now: Timestamp) -> (lines: Vec<String>)
    ensures
        exists|shown: Seq<ClockLineView>, sorted: Seq<ClockView>, order: Seq<int>| #[trigger]
            is_report(doc@, clock_views(clocks@), now, texts(lines@), shown, sorted, order),
{
    let sorted = sort_by_start(clocks);
    let mut entries: Vec<ClockLine> = Vec::new();
    let mut i: usize = 0;
    while i < sorted.len()
        invariant
            i <= sorted@.len(),
            entries@.len() == i,
            forall|j: int|
                0 <= j < i ==> shows_clock(doc@, (#[trigger] entries@[j])@, sorted@[j]@, now),
        decreases sorted@.len() - i,
    {
        entries.push(clock_line(doc, &sorted[i], now));
        i += 1;
    }
    let lines = assemble_report(&entries);
    proof {
        let order = choose|order: Seq<int>| #[trigger]
            is_rearrangement(order, clock_views(clocks@), clock_views(sorted@));
        assert(shows(doc@, line_views(entries@), clock_views(sorted@), now));
        assert(is_report(
            doc@,
            clock_views(clocks@),
            now,
            texts(lines@),
            line_views(entries@),
            clock_views(sorted@),
            order,
        ));
    }
    lines
}

/// Whether `lines` are a report on `clocks` as they are read at the
/// moment `now`.
pub open spec fn is_shown_report(
    doc: DocView,
    clocks: Seq<ClockView>,
    now: Timestamp,
    lines: Seq<Seq<char>>,
) -> bool {
    now.wf() && exists|shown: Seq<ClockLineView>, sorted: Seq<ClockView>, order: Seq<int>| #[trigger]
        is_report(doc, clocks, now, lines, shown, sorted, order)
}

/// Whether `after` is what becomes of the callbacks `callbacks` when the
/// report `lines` on `clocks`, as they are read at `now`, is printed line
/// by line.
pub open spec fn shows_clocks<T, C: CliCallbacks<T>>(
    doc: DocView,
    clocks: Seq<ClockView>,
    now: Timestamp,
    lines: Seq<Seq<char>>,
    callbacks: C,
    after: C,
) -> bool {
    is_shown_report(doc, clocks, now, lines) && printed::<T, C>(
        callbacks,
        with_line_ends(lines),
        after,
    )
}

/// Prints the report on `clocks` as they are read at the present moment,
/// line by line.
pub fn display_clocks<T, C: CliCallbacks<T>>(clocks: &Vec<Clock>, doc: &Doc, callbacks: &mut C)
    ensures
        exists|now: Timestamp, lines: Seq<Seq<char>>| #[trigger]
            shows_clocks::<T, C>(
                doc@,
                clock_views(clocks@),
                now,
                lines,
                *old(callbacks),
                *final(callbacks),
            ),
{
    let present = now();
    let lines = clock_report(clocks, doc, present);
    print_lines(&lines, callbacks);
    proof {
        assert(shows_clocks::<T, C>(
            doc@,
            clock_views(clocks@),
            present,
            texts(lines@),
            *old(callbacks),
            *callbacks,
        ));
    }
}

} // verus!
