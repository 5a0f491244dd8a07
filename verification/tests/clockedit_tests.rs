use chrono::{Datelike, Local, NaiveDate, NaiveTime, TimeZone, Utc};
use todoapp3::clock::{Clock, ClockMod};
use todoapp3::clockedit::ClockEdit;
use todoapp3::clockeditcli::ExitAction;
use todoapp3::doc::Doc;
use todoapp3::error::Error;
use todoapp3::time::{Date, Duration, TimeOfDay, Timestamp, EPOCH_SECONDS};

fn day(year: i32, month: u32, day: u32) -> Date {
    Date { days: NaiveDate::from_ymd_opt(year, month, day).unwrap().num_days_from_ce() }
}

fn time(hour: u32, minute: u32, second: u32) -> TimeOfDay {
    TimeOfDay { secs: hour * 3600 + minute * 60 + second, nanos: 0 }
}

fn at(date: Date, hour: u32, minute: u32, second: u32) -> Timestamp {
    Timestamp { date, time: time(hour, minute, second), offset: 0 }
}

/// The offset that the machine's time zone has for a local day and time.
fn machine_offset(date: Date, time: TimeOfDay) -> Option<i32> {
    let day = NaiveDate::from_num_days_from_ce_opt(date.days)?;
    let clock = NaiveTime::from_num_seconds_from_midnight_opt(time.secs, time.nanos)?;
    let moment = Local.from_local_datetime(&day.and_time(clock)).single()?;
    Some(moment.offset().local_minus_utc())
}

fn closed(id: u128, start: Timestamp, end: Timestamp) -> Clock {
    let mut clock = Clock::started(id, start);
    clock.set_end(end);
    clock
}

fn edit_of_one() -> ClockEdit {
    let d = day(2024, 3, 1);
    ClockEdit { clocks: vec![closed(1, at(d, 8, 0, 0), at(d, 17, 30, 0))] }
}

#[test]
fn set_start_time_keeps_the_day() {
    let mut edit = edit_of_one();
    assert_eq!(edit.set_start_time_with(1, time(9, 0, 0), Some(0)), Ok(()));
    assert_eq!(edit.clocks[0].start, at(day(2024, 3, 1), 9, 0, 0));
    assert_eq!(edit.clocks[0].end, Some(at(day(2024, 3, 1), 17, 30, 0)));
}

#[test]
fn set_start_time_asks_the_time_zone_for_the_offset() {
    let mut edit = edit_of_one();
    assert_eq!(edit.set_start_time(1, time(9, 0, 0)), Ok(()));
    let start = edit.clocks[0].start;
    match machine_offset(day(2024, 3, 1), time(9, 0, 0)) {
        Some(offset) => {
            assert_eq!(start.date, day(2024, 3, 1));
            assert_eq!(start.time, time(9, 0, 0));
            assert_eq!(start.offset, offset);
        }
        None => assert_eq!(start, at(day(2024, 3, 1), 8, 0, 0)),
    }
}

#[test]
fn set_start_time_without_offset_changes_nothing() {
    let mut edit = edit_of_one();
    assert_eq!(edit.set_start_time_with(1, time(9, 0, 0), None), Ok(()));
    assert_eq!(edit.clocks[0].start, at(day(2024, 3, 1), 8, 0, 0));
}

#[test]
fn set_start_time_takes_the_offset_it_is_given() {
    let mut edit = edit_of_one();
    edit.set_start_time_with(1, time(9, 0, 0), Some(3600)).unwrap();
    let mut expected = at(day(2024, 3, 1), 9, 0, 0);
    expected.offset = 3600;
    assert_eq!(edit.clocks[0].start, expected);
}

#[test]
fn set_end_date_keeps_the_time_of_day() {
    let mut edit = edit_of_one();
    assert_eq!(edit.set_end_date_with(1, day(2024, 3, 2), Some(0)), Ok(()));
    assert_eq!(edit.clocks[0].end, Some(at(day(2024, 3, 2), 17, 30, 0)));
    assert_eq!(edit.clocks[0].start, at(day(2024, 3, 1), 8, 0, 0));
}

#[test]
fn set_end_date_asks_the_time_zone_for_the_offset() {
    let mut edit = edit_of_one();
    assert_eq!(edit.set_end_date(1, day(2024, 3, 2)), Ok(()));
    let end = edit.clocks[0].end.unwrap();
    match machine_offset(day(2024, 3, 2), time(17, 30, 0)) {
        Some(offset) => {
            assert_eq!(end.date, day(2024, 3, 2));
            assert_eq!(end.time, time(17, 30, 0));
            assert_eq!(end.offset, offset);
        }
        None => assert_eq!(end, at(day(2024, 3, 1), 17, 30, 0)),
    }
}

#[test]
fn set_end_time_keeps_the_day() {
    let mut edit = edit_of_one();
    assert_eq!(edit.set_end_time_with(1, time(18, 15, 0), Some(0)), Ok(()));
    assert_eq!(edit.clocks[0].end, Some(at(day(2024, 3, 1), 18, 15, 0)));
    assert_eq!(edit.set_end_time(1, time(19, 0, 0)), Ok(()));
    let end = edit.clocks[0].end.unwrap();
    if machine_offset(day(2024, 3, 1), time(19, 0, 0)).is_some() {
        assert_eq!((end.date, end.time), (day(2024, 3, 1), time(19, 0, 0)));
    }
}

#[test]
fn an_open_clock_keeps_its_end_open() {
    let d = day(2024, 3, 1);
    let mut edit = ClockEdit { clocks: vec![Clock::started(1, at(d, 8, 0, 0))] };
    assert_eq!(edit.set_end_time(1, time(9, 0, 0)), Ok(()));
    assert_eq!(edit.set_end_time_with(1, time(9, 0, 0), Some(0)), Ok(()));
    assert_eq!(edit.set_end_date(1, day(2024, 3, 2)), Ok(()));
    assert_eq!(edit.set_end_date_with(1, day(2024, 3, 2), Some(0)), Ok(()));
    assert_eq!(edit.clocks[0].end, None);
}

#[test]
fn numbers_outside_the_list_fail() {
    let mut edit = edit_of_one();
    let before = edit.clocks[0].start;
    for i in [0usize, 2, 99] {
        assert_eq!(edit.set_start_time(i, time(9, 0, 0)), Err(Error::ClockOutOfIndex));
        assert_eq!(edit.set_start_time_with(i, time(9, 0, 0), Some(0)), Err(Error::ClockOutOfIndex));
        assert_eq!(edit.set_end_time(i, time(9, 0, 0)), Err(Error::ClockOutOfIndex));
        assert_eq!(edit.set_end_time_with(i, time(9, 0, 0), Some(0)), Err(Error::ClockOutOfIndex));
        assert_eq!(edit.set_end_date(i, day(2024, 3, 2)), Err(Error::ClockOutOfIndex));
        assert_eq!(edit.set_end_date_with(i, day(2024, 3, 2), Some(0)), Err(Error::ClockOutOfIndex));
        assert_eq!(edit.set_start(i, before), Err(Error::ClockOutOfIndex));
        assert_eq!(edit.set_end(i, before), Err(Error::ClockOutOfIndex));
        let hour = Duration { secs: 3600, nanos: 0 };
        assert_eq!(edit.set_duration(i, hour), Err(Error::ClockOutOfIndex));
        assert_eq!(edit.set_duration_with(i, hour, Some(0)), Err(Error::ClockOutOfIndex));
    }
    assert_eq!(edit.clocks[0].start, before);
    let mut empty = ClockEdit { clocks: Vec::new() };
    assert_eq!(empty.set_start_time(1, time(9, 0, 0)), Err(Error::ClockOutOfIndex));
}

#[test]
fn set_start_and_set_end_replace_the_moment() {
    let d = day(2024, 3, 1);
    let mut edit = ClockEdit {
        clocks: vec![Clock::started(1, at(d, 8, 0, 0)), Clock::started(2, at(d, 9, 0, 0))],
    };
    assert_eq!(edit.set_start(2, at(d, 7, 0, 0)), Ok(()));
    assert_eq!(edit.set_end(2, at(d, 7, 30, 0)), Ok(()));
    assert_eq!(edit.clocks[1].start, at(d, 7, 0, 0));
    assert_eq!(edit.clocks[1].end, Some(at(d, 7, 30, 0)));
    assert_eq!(edit.clocks[0].start, at(d, 8, 0, 0));
    assert_eq!(edit.clocks[0].end, None);
}

#[test]
fn set_duration_puts_the_end_after_the_start() {
    let mut edit = edit_of_one();
    let span = Duration { secs: 16 * 3600 + 30, nanos: 0 };
    assert_eq!(edit.set_duration_with(1, span, Some(3600)), Ok(()));
    // 08:00 UTC and 16:00:30 more is 00:00:30 UTC on the next day, 01:00:30 at +01:00.
    let mut expected = at(day(2024, 3, 2), 1, 0, 30);
    expected.offset = 3600;
    assert_eq!(edit.clocks[0].end, Some(expected));
    assert_eq!(edit.set_duration_with(1, Duration { secs: 60, nanos: 0 }, None), Ok(()));
    assert_eq!(edit.clocks[0].end, Some(expected));
}

#[test]
fn set_duration_asks_the_time_zone_for_the_offset() {
    let mut edit = edit_of_one();
    let span = Duration { secs: 3600, nanos: 0 };
    assert_eq!(edit.set_duration(1, span), Ok(()));
    let end = edit.clocks[0].end.unwrap();
    let unix = at(day(2024, 3, 1), 9, 0, 0).utc_secs() - EPOCH_SECONDS;
    let offset = Local.timestamp_opt(unix, 0).single().unwrap().offset().local_minus_utc();
    assert_eq!(end.offset, offset);
    assert_eq!(end.utc_secs(), at(day(2024, 3, 1), 9, 0, 0).utc_secs());
    assert_eq!(edit.clocks[0].duration_at(end), span);
}

#[test]
fn timestamps_from_seconds_agree_with_the_calendar() {
    let unix = Utc.with_ymd_and_hms(2024, 3, 1, 23, 30, 15).unwrap().timestamp();
    let seen = Timestamp::from_utc(unix + EPOCH_SECONDS, 5, 7200).unwrap();
    assert_eq!(seen.date, day(2024, 3, 2));
    assert_eq!(seen.time, TimeOfDay { secs: 3600 + 30 * 60 + 15, nanos: 5 });
    assert_eq!(seen.offset, 7200);
    assert_eq!(seen.utc_secs(), unix + EPOCH_SECONDS);
    let early = Timestamp::from_utc(-1, 0, 0).unwrap();
    assert_eq!(early.date, Date { days: -1 });
    assert_eq!(early.time, TimeOfDay { secs: 86_399, nanos: 0 });
    assert_eq!(Timestamp::from_utc(i64::MAX, 0, 0), None);
    assert_eq!(Timestamp::from_utc((i32::MAX as i64 + 1) * 86_400, 0, 0), None);
    assert_eq!(at(day(1970, 1, 1), 0, 0, 0).utc_secs(), EPOCH_SECONDS);
}

#[test]
fn plus_carries_nanoseconds() {
    let mut start = at(day(2024, 3, 1), 23, 59, 59);
    start.time.nanos = 600_000_000;
    let end = start.plus(&Duration { secs: 0, nanos: 500_000_000 }, 0).unwrap();
    assert_eq!(end.date, day(2024, 3, 2));
    assert_eq!(end.time, TimeOfDay { secs: 0, nanos: 100_000_000 });
    let back = start.plus(&Duration { secs: -86_400, nanos: 0 }, 0).unwrap();
    assert_eq!(back.date, day(2024, 2, 29));
    assert_eq!(back.time, start.time);
    assert_eq!(start.plus(&Duration { secs: i64::MAX, nanos: 0 }, 0), None);
}

#[test]
fn get_update_and_modify_count_from_zero() {
    let d = day(2024, 3, 1);
    let mut edit = edit_of_one();
    assert_eq!(edit.get_clock(0).unwrap().id, 1);
    assert_eq!(edit.get_clock(1).map(|c| c.id), Err(Error::ClockOutOfIndex));
    assert_eq!(edit.update_clock(0, Clock::started(9, at(d, 1, 0, 0))), Ok(()));
    assert_eq!(edit.clocks[0].id, 9);
    assert_eq!(edit.update_clock(1, Clock::started(9, at(d, 1, 0, 0))), Err(Error::ClockOutOfIndex));
    let r = edit.modify_clock(0, |mut clock| {
        clock.set_comment("seen".to_string());
        clock
    });
    assert_eq!(r, Ok(()));
    assert_eq!(edit.clocks[0].comment, Some("seen".to_string()));
    assert_eq!(edit.modify_clock(5, |clock| clock), Err(Error::ClockOutOfIndex));
    assert_eq!(edit.clone().clocks.len(), 1);
}

fn doc_with_day() -> Doc {
    let mut doc = Doc::new();
    let d = day(2024, 3, 1);
    doc.upsert_clock(closed(1, at(d, 12, 0, 0), at(d, 13, 0, 0)));
    doc.upsert_clock(closed(2, at(d, 8, 0, 0), at(d, 9, 0, 0)));
    doc.upsert_clock(closed(3, at(day(2024, 3, 2), 8, 0, 0), at(day(2024, 3, 2), 9, 0, 0)));
    doc.upsert_clock(Clock::started(4, at(d, 10, 0, 0)));
    doc
}

#[test]
fn create_clock_edit_takes_the_day_in_the_order_of_the_starts() {
    let doc = doc_with_day();
    let edit = doc.create_clock_edit(day(2024, 3, 1));
    let ids: Vec<u128> = edit.clocks.iter().map(|c| c.id).collect();
    assert_eq!(ids, vec![2, 4, 1]);
    assert!(doc.create_clock_edit(day(2024, 3, 5)).clocks.is_empty());
}

#[test]
fn edits_stay_in_the_working_copy_until_they_are_applied() {
    let mut doc = doc_with_day();
    let d = day(2024, 3, 1);
    let mut edit = doc.create_clock_edit(d);
    edit.set_start_time_with(1, time(7, 0, 0), Some(0)).unwrap();
    edit.set_end_time_with(3, time(14, 0, 0), Some(0)).unwrap();
    assert_eq!(doc.clock(&2).unwrap().start, at(d, 8, 0, 0));
    assert_eq!(doc.clock(&1).unwrap().end, Some(at(d, 13, 0, 0)));
    doc.apply_clock_edit(edit);
    assert_eq!(doc.clock(&2).unwrap().start, at(d, 7, 0, 0));
    assert_eq!(doc.clock(&1).unwrap().end, Some(at(d, 14, 0, 0)));
    assert_eq!(doc.clock(&3).unwrap().start, at(day(2024, 3, 2), 8, 0, 0));
    assert_eq!(doc.clocks.len(), 4);
}

#[test]
fn applying_overwrites_by_identifier() {
    let mut doc = doc_with_day();
    let d = day(2024, 3, 1);
    let mut first = Clock::started(2, at(d, 1, 0, 0));
    first.set_comment("first".to_string());
    let second = Clock::started(2, at(d, 2, 0, 0));
    let fresh = Clock::started(50, at(d, 3, 0, 0));
    doc.apply_clock_edit(ClockEdit { clocks: vec![first, second, fresh] });
    assert_eq!(doc.clock(&2).unwrap().start, at(d, 2, 0, 0));
    assert_eq!(doc.clock(&2).unwrap().comment, None);
    assert_eq!(doc.clock(&2).unwrap().end, None);
    assert_eq!(doc.clock(&50).unwrap().start, at(d, 3, 0, 0));
    assert_eq!(doc.clocks.len(), 5);
}

#[test]
fn a_cancelled_edit_leaves_no_trace() {
    let mut doc = doc_with_day();
    let d = day(2024, 3, 1);
    let mut edit = doc.create_clock_edit(d);
    edit.set_start_time_with(1, time(7, 0, 0), Some(0)).unwrap();
    doc.finish_clock_edit(edit.clone(), ExitAction::Cancel);
    assert_eq!(doc.clock(&2).unwrap().start, at(d, 8, 0, 0));
    doc.finish_clock_edit(edit, ExitAction::Apply);
    assert_eq!(doc.clock(&2).unwrap().start, at(d, 7, 0, 0));
}
