use chrono::{Datelike, Local, NaiveDate};
use todoapp3::clock::{sort_by_start, Clock, ClockMod};
use todoapp3::doc::Doc;
use todoapp3::error::Error;
use todoapp3::tasks::Task;
use todoapp3::time::{Date, Duration, TimeOfDay, Timestamp};

fn day(year: i32, month: u32, day: u32) -> Date {
    Date { days: NaiveDate::from_ymd_opt(year, month, day).unwrap().num_days_from_ce() }
}

fn at(date: Date, hour: u32, minute: u32, second: u32) -> Timestamp {
    Timestamp { date, time: TimeOfDay { secs: hour * 3600 + minute * 60 + second, nanos: 0 }, offset: 0 }
}

fn task_with_id(id: u128) -> Task {
    let mut task = Task::new();
    task.id = id;
    task
}

fn clock_for(id: u128, start: Timestamp, task: Option<u128>) -> Clock {
    let mut clock = Clock::started(id, start);
    if let Some(task) = task {
        clock.set_task_id(task);
    }
    clock
}

fn ids(clocks: &[Clock]) -> Vec<u128> {
    let mut ids: Vec<u128> = clocks.iter().map(|c| c.id).collect();
    ids.sort();
    ids
}

#[test]
fn clock_out_without_running_clock_answers_false() {
    let mut doc = Doc::new();
    assert_eq!(doc.clock_out(), Ok(false));
    assert_eq!(doc.clock_out_at(at(day(2024, 3, 1), 8, 0, 0)), Ok(false));
    assert!(doc.clocks.is_empty());
}

#[test]
fn clock_new_starts_an_open_clock() {
    let mut doc = Doc::new();
    let start = at(day(2024, 3, 1), 8, 0, 0);
    let clock = doc.clock_new_with(5, start, start).unwrap();
    assert_eq!(clock.id, 5);
    assert_eq!(clock.start, start);
    assert_eq!(clock.end, None);
    assert_eq!(clock.comment, None);
    assert_eq!(clock.task_id, None);
    assert_eq!(doc.current_clock, Some(5));
    assert_eq!(doc.clock(&5).unwrap().end, None);
}

#[test]
fn clock_out_closes_the_running_clock() {
    let mut doc = Doc::new();
    let start = at(day(2024, 3, 1), 8, 0, 0);
    let end = at(day(2024, 3, 1), 9, 30, 0);
    doc.clock_new_with(5, start, start).unwrap();
    assert_eq!(doc.clock_out_at(end), Ok(true));
    assert_eq!(doc.current_clock, None);
    assert_eq!(doc.clock(&5).unwrap().end, Some(end));
    assert_eq!(doc.clock(&5).unwrap().start, start);
    assert_eq!(doc.clock_out_at(end), Ok(false));
}

#[test]
fn second_clock_stops_the_first() {
    let mut doc = Doc::new();
    let first = doc.clock_new().unwrap();
    let second = doc.clock_new().unwrap();
    assert_ne!(first.id, second.id);
    assert!(doc.clock(&first.id).unwrap().end.is_some());
    assert_eq!(doc.current_clock, Some(second.id));
    let open: Vec<u128> = doc.clocks.values().filter(|c| c.end.is_none()).map(|c| c.id).collect();
    assert_eq!(open, vec![second.id]);
    assert_eq!(doc.clocks.len(), 2);
}

#[test]
fn second_clock_stops_the_first_at_the_given_moment() {
    let mut doc = Doc::new();
    let d = day(2024, 3, 1);
    doc.clock_new_with(1, at(d, 7, 0, 0), at(d, 8, 0, 0)).unwrap();
    doc.clock_new_with(2, at(d, 9, 0, 0), at(d, 9, 0, 1)).unwrap();
    assert_eq!(doc.clock(&1).unwrap().end, Some(at(d, 9, 0, 0)));
    assert_eq!(doc.clock(&2).unwrap().start, at(d, 9, 0, 1));
    assert_eq!(doc.clock(&2).unwrap().end, None);
    assert_eq!(doc.current_clock, Some(2));
}

#[test]
fn the_present_moment_is_read_from_the_machine() {
    let before = Local::now().date_naive().num_days_from_ce();
    let mut doc = Doc::new();
    let clock = doc.clock_new().unwrap();
    let after = Local::now().date_naive().num_days_from_ce();
    assert!(before <= clock.start.date.days && clock.start.date.days <= after);
    assert!(clock.start.time.secs < 86_400);
    assert!(clock.start.offset > -86_400 && clock.start.offset < 86_400);
    assert_eq!((clock.id >> 76) & 0xf, 4);
}

#[test]
fn a_register_that_points_nowhere_is_an_error() {
    let mut doc = Doc::new();
    doc.current_clock = Some(42);
    let now = at(day(2024, 3, 1), 8, 0, 0);
    assert_eq!(doc.clock_out_at(now), Err(Error::ClockNotFound));
    assert_eq!(doc.clock_out(), Err(Error::ClockNotFound));
    assert_eq!(doc.clock_new_with(1, now, now).map(|c| c.id), Err(Error::ClockNotFound));
    assert_eq!(doc.clock_new().map(|c| c.id), Err(Error::ClockNotFound));
    assert_eq!(doc.clock_assign(7), Err(Error::ClockNotFound));
    assert_eq!(doc.clock_comment("x"), Err(Error::ClockNotFound));
    assert_eq!(doc.current_clock, Some(42));
    assert!(doc.clocks.is_empty());
    assert_eq!(doc.clock(&42).map(|c| c.id), Err(Error::ClockNotFound));
}

#[test]
fn assign_and_comment_work_on_the_running_clock() {
    let mut doc = Doc::new();
    assert_eq!(doc.clock_assign(7), Ok(()));
    assert_eq!(doc.clock_comment("nothing runs"), Ok(()));
    assert!(doc.clocks.is_empty());
    let now = at(day(2024, 3, 1), 8, 0, 0);
    doc.clock_new_with(1, now, now).unwrap();
    doc.clock_assign(7).unwrap();
    doc.clock_comment("deep work").unwrap();
    let clock = doc.clock(&1).unwrap();
    assert_eq!(clock.task_id, Some(7));
    assert_eq!(clock.comment, Some("deep work".to_string()));
    assert_eq!(clock.end, None);
}

#[test]
fn upsert_clock_replaces_by_identifier() {
    let mut doc = Doc::new();
    let d = day(2024, 3, 1);
    doc.upsert_clock(clock_for(1, at(d, 8, 0, 0), None));
    doc.upsert_clock(clock_for(1, at(d, 9, 0, 0), Some(3)));
    assert_eq!(doc.clocks.len(), 1);
    assert_eq!(doc.clock(&1).unwrap().start, at(d, 9, 0, 0));
    assert_eq!(doc.clock(&1).unwrap().task_id, Some(3));
}

#[test]
fn task_clock_matches_the_task_exactly() {
    let mut doc = Doc::new();
    let d = day(2024, 3, 1);
    doc.upsert_clock(clock_for(1, at(d, 8, 0, 0), Some(7)));
    doc.upsert_clock(clock_for(2, at(d, 9, 0, 0), Some(8)));
    doc.upsert_clock(clock_for(3, at(d, 10, 0, 0), None));
    doc.upsert_clock(clock_for(4, at(d, 11, 0, 0), Some(7)));
    assert_eq!(ids(&doc.task_clock(&7)), vec![1, 4]);
    assert_eq!(ids(&doc.task_clock(&8)), vec![2]);
    assert!(doc.task_clock(&9).is_empty());
}

/// Root with the children 10 and 20; 10 has the child 11.
fn doc_with_clocks() -> Doc {
    let mut doc = Doc::new();
    let root = doc.root;
    doc.add_subtask(task_with_id(10), &root).unwrap();
    doc.add_subtask(task_with_id(20), &root).unwrap();
    doc.add_subtask(task_with_id(11), &10).unwrap();
    let d1 = day(2024, 3, 1);
    let d2 = day(2024, 3, 2);
    let d3 = day(2024, 3, 3);
    doc.upsert_clock(clock_for(1, at(d1, 8, 0, 0), Some(10)));
    doc.upsert_clock(clock_for(2, at(d1, 9, 0, 0), Some(20)));
    doc.upsert_clock(clock_for(3, at(d1, 10, 0, 0), None));
    doc.upsert_clock(clock_for(4, at(d1, 23, 59, 59), Some(11)));
    doc.upsert_clock(clock_for(5, at(d2, 0, 0, 0), Some(10)));
    doc.upsert_clock(clock_for(6, at(d3, 12, 0, 0), Some(11)));
    doc
}

#[test]
fn day_clock_without_scope_takes_the_day() {
    let doc = doc_with_clocks();
    assert_eq!(ids(&doc.day_clock(day(2024, 3, 1), None)), vec![1, 2, 3, 4]);
    assert_eq!(ids(&doc.day_clock(day(2024, 3, 2), None)), vec![5]);
    assert!(doc.day_clock(day(2024, 3, 4), None).is_empty());
}

#[test]
fn day_clock_with_scope_leaves_out_other_tasks() {
    let doc = doc_with_clocks();
    let d1 = day(2024, 3, 1);
    // Scope 10: its own clock, that of its child 11, and the one without task.
    assert_eq!(ids(&doc.day_clock(d1, Some(10))), vec![1, 3, 4]);
    // Scope 11, a leaf: the clock of its sibling-in-law 20 and of its parent stay out.
    assert_eq!(ids(&doc.day_clock(d1, Some(11))), vec![3, 4]);
    assert_eq!(ids(&doc.day_clock(d1, Some(20))), vec![2, 3]);
    assert_eq!(ids(&doc.day_clock(d1, Some(doc.root))), vec![1, 2, 3, 4]);
}

#[test]
fn range_clock_includes_both_ends() {
    let doc = doc_with_clocks();
    let d1 = day(2024, 3, 1);
    let d2 = day(2024, 3, 2);
    let d3 = day(2024, 3, 3);
    assert_eq!(ids(&doc.range_clock(d1, d3, None)), vec![1, 2, 3, 4, 5, 6]);
    assert_eq!(ids(&doc.range_clock(d2, d3, None)), vec![5, 6]);
    assert_eq!(ids(&doc.range_clock(d2, d2, None)), vec![5]);
    assert!(doc.range_clock(d3, d1, None).is_empty());
    assert_eq!(ids(&doc.range_clock(d1, d3, Some(11))), vec![3, 4, 6]);
}

#[test]
fn the_local_day_counts_not_the_moment() {
    let mut doc = Doc::new();
    let d1 = day(2024, 3, 1);
    // 23:30 on March 1 at two hours east of UTC is still March 1 there.
    let mut start = at(d1, 23, 30, 0);
    start.offset = 7200;
    doc.upsert_clock(clock_for(1, start, None));
    assert_eq!(ids(&doc.day_clock(d1, None)), vec![1]);
    assert!(doc.day_clock(day(2024, 3, 2), None).is_empty());
}

#[test]
fn duration_of_a_closed_and_of_an_open_clock() {
    let d = day(2024, 3, 1);
    let mut clock = Clock::started(1, at(d, 8, 0, 0));
    let now = at(d, 8, 45, 0);
    assert_eq!(clock.duration_at(now), Duration { secs: 2700, nanos: 0 });
    clock.set_end(at(day(2024, 3, 2), 8, 0, 1));
    assert_eq!(clock.duration_at(now), Duration { secs: 86_401, nanos: 0 });
    assert_eq!(clock.duration(), Duration { secs: 86_401, nanos: 0 });
}

#[test]
fn duration_counts_offsets_and_nanoseconds() {
    let d = day(2024, 3, 1);
    let mut start = at(d, 10, 0, 0);
    start.offset = 3600;
    start.time.nanos = 750_000_000;
    let mut end = at(d, 9, 0, 1);
    end.time.nanos = 250_000_000;
    // 10:00:00.75 at +01:00 is 09:00:00.75 UTC; the end is half a second later.
    assert_eq!(start.until(&end), Duration { secs: 0, nanos: 500_000_000 });
    assert_eq!(end.until(&start), Duration { secs: -1, nanos: 500_000_000 });
    assert!(start.is_before(&end));
    assert!(!end.is_before(&start));
}

#[test]
fn an_open_clock_runs_up_to_the_present() {
    let started = Clock::started(1, at(day(2000, 1, 1), 0, 0, 0));
    assert!(started.duration().secs > 700_000_000);
}

#[test]
fn clocks_compare_by_their_starts() {
    let d = day(2024, 3, 1);
    let early = clock_for(1, at(d, 8, 0, 0), Some(1));
    let late = clock_for(2, at(d, 9, 0, 0), None);
    let mut same = clock_for(3, at(d, 10, 0, 0), None);
    same.start.offset = 7200;
    assert!(early < late);
    assert!(late > early);
    assert!(early.starts_before(&late));
    assert!(!late.starts_before(&early));
    // 10:00 at +02:00 is 08:00 UTC.
    assert!(early == same);
    assert!(early != late);
    assert_eq!(early.partial_cmp(&same), Some(std::cmp::Ordering::Equal));
}

#[test]
fn sort_by_start_puts_the_earliest_first() {
    let d = day(2024, 3, 1);
    let clocks = vec![
        clock_for(1, at(d, 12, 0, 0), None),
        clock_for(2, at(d, 8, 0, 0), None),
        clock_for(3, at(day(2024, 2, 29), 23, 0, 0), None),
        clock_for(4, at(d, 8, 0, 0), None),
        clock_for(5, at(d, 9, 0, 0), None),
    ];
    let sorted: Vec<u128> = sort_by_start(&clocks).iter().map(|c| c.id).collect();
    assert_eq!(sorted, vec![3, 2, 4, 5, 1]);
    assert!(sort_by_start(&Vec::new()).is_empty());
}

#[test]
fn clock_edits_can_be_chained() {
    let d = day(2024, 3, 1);
    let mut clock = Clock::started(1, at(d, 8, 0, 0));
    clock.set_start(at(d, 7, 0, 0)).set_end(at(d, 9, 0, 0)).set_comment("c".to_string()).set_task_id(4);
    assert_eq!(clock.start, at(d, 7, 0, 0));
    assert_eq!(clock.end, Some(at(d, 9, 0, 0)));
    assert_eq!(clock.comment, Some("c".to_string()));
    assert_eq!(clock.task_id, Some(4));
    let copy = clock.clone();
    assert_eq!(copy.id, 1);
    assert_eq!(copy.comment, clock.comment);
}

#[test]
fn dates_are_ordered_by_their_days() {
    assert!(day(2024, 2, 29).is_on_or_before(&day(2024, 3, 1)));
    assert!(day(2024, 3, 1).is_on_or_before(&day(2024, 3, 1)));
    assert!(!day(2024, 3, 2).is_on_or_before(&day(2024, 3, 1)));
    assert_eq!(day(2024, 3, 1).days - day(2024, 2, 28).days, 2);
}
