use chrono::{Datelike, Local, NaiveDate};
use todoapp3::error::{CliError, CommandError, Error};
use todoapp3::helper::{
    assemble_report, finish_date, fold_strings, join_strings, parse_date, parse_time, print_span,
    read_date, ClockLine, DateRequest,
};
use todoapp3::text::{first_word, lines, split_all};
use todoapp3::time::{Date, Duration, LocalOffset, TimeOfDay, Timestamp};

fn strings(words: &[&str]) -> Vec<String> {
    words.iter().map(|w| w.to_string()).collect()
}

fn day(year: i32, month: u32, day: u32) -> Date {
    Date { days: NaiveDate::from_ymd_opt(year, month, day).unwrap().num_days_from_ce() }
}

#[test]
fn split_all_cuts_at_every_separator() {
    assert_eq!(split_all("a/b/c", '/'), strings(&["a", "b", "c"]));
    assert_eq!(split_all("/a//b/", '/'), strings(&["", "a", "", "b", ""]));
    assert_eq!(split_all("", '/'), strings(&[""]));
    assert_eq!(split_all("abc", '/'), strings(&["abc"]));
    assert_eq!(split_all("start 1 09:00", ' '), strings(&["start", "1", "09:00"]));
}

#[test]
fn first_word_ends_at_the_first_separator() {
    assert_eq!(first_word("start 1 09:00", ' '), "start");
    assert_eq!(first_word("ls", ' '), "ls");
    assert_eq!(first_word(" x", ' '), "");
    assert_eq!(first_word("", ' '), "");
}

#[test]
fn lines_drop_line_ends() {
    assert_eq!(lines("title\n\nbody\n"), strings(&["title", "", "body"]));
    assert_eq!(lines("a\r\nb\r"), strings(&["a", "b\r"]));
    assert_eq!(lines("a\rb\n"), strings(&["a\rb"]));
    assert_eq!(lines(""), Vec::<String>::new());
    assert_eq!(lines("\n"), strings(&[""]));
    assert_eq!(lines("one"), strings(&["one"]));
    for text in ["title\n\nbody\n", "a\r\nb\r", "\r\n\r\n", "x\n\ny", ""] {
        let expected: Vec<String> = text.lines().map(|l| l.to_string()).collect();
        assert_eq!(lines(text), expected);
    }
}

#[test]
fn join_strings_puts_the_separator_between() {
    assert_eq!(join_strings(&strings(&["a", "b", "c"]), " -> "), "a -> b -> c");
    assert_eq!(join_strings(&strings(&["a"]), " -> "), "a");
    assert_eq!(join_strings(&strings(&[]), " -> "), "");
    assert_eq!(join_strings(&strings(&["", ""]), ","), ",");
}

#[test]
fn fold_strings_separates_all_but_the_first() {
    let item = "item".to_string();
    assert_eq!(fold_strings(", ", "acc".to_string(), &item, 1), "accitem");
    assert_eq!(fold_strings(", ", "acc".to_string(), &item, 2), "acc, item");
    assert_eq!(fold_strings(", ", String::new(), &item, 0), "item");
}

#[test]
fn parse_time_reads_with_and_without_seconds() {
    assert_eq!(parse_time("09:00"), Ok(TimeOfDay { secs: 9 * 3600, nanos: 0 }));
    assert_eq!(parse_time("17:30:15"), Ok(TimeOfDay { secs: 17 * 3600 + 30 * 60 + 15, nanos: 0 }));
    assert_eq!(parse_time("00:00:00"), Ok(TimeOfDay { secs: 0, nanos: 0 }));
    assert!(parse_time("24:00").is_err());
    assert!(parse_time("9 o'clock").is_err());
    assert!(parse_time("").is_err());
}

#[test]
fn read_date_tells_days_ago_from_days() {
    assert!(matches!(read_date("-3"), DateRequest::DaysAgo(3)));
    assert!(matches!(read_date("-0"), DateRequest::DaysAgo(0)));
    assert!(matches!(read_date("--3"), DateRequest::DaysAgo(-3)));
    assert!(matches!(read_date("-x"), DateRequest::BadOffset { .. }));
    assert!(matches!(read_date("-"), DateRequest::BadOffset { .. }));
    match read_date("2024-03-01") {
        DateRequest::On(date) => assert_eq!(date, day(2024, 3, 1)),
        other => panic!("unexpected request: {:?}", other),
    }
    assert!(matches!(read_date("2024-02-30"), DateRequest::BadFormat));
    assert!(matches!(read_date("tomorrow"), DateRequest::BadFormat));
    assert!(matches!(read_date(""), DateRequest::BadFormat));
}

fn parse_error(r: Result<Date, CliError>) -> String {
    match r {
        Err(CliError::ParseError { msg }) => msg,
        other => panic!("unexpected answer: {:?}", other),
    }
}

#[test]
fn finish_date_counts_back_from_today() {
    let today = day(2024, 3, 1);
    let skipped = LocalOffset::Skipped;
    assert_eq!(finish_date(DateRequest::DaysAgo(1), today, skipped).unwrap(), day(2024, 2, 29));
    assert_eq!(finish_date(DateRequest::DaysAgo(0), today, skipped).unwrap(), today);
    assert_eq!(finish_date(DateRequest::DaysAgo(-1), today, skipped).unwrap(), day(2024, 3, 2));
    assert_eq!(
        parse_error(finish_date(DateRequest::DaysAgo(i64::MAX), today, skipped)),
        "Day is out of range"
    );
    assert_eq!(
        parse_error(finish_date(DateRequest::DaysAgo(i32::MAX as i64 * 2), today, skipped)),
        "Day is out of range"
    );
}

#[test]
fn finish_date_wants_a_midnight_for_a_day() {
    let today = day(2024, 3, 1);
    let on = || DateRequest::On(day(2023, 1, 2));
    assert_eq!(finish_date(on(), today, LocalOffset::Single(3600)).unwrap(), day(2023, 1, 2));
    assert_eq!(finish_date(on(), today, LocalOffset::Ambiguous(7200, 3600)).unwrap(), day(2023, 1, 2));
    assert_eq!(parse_error(finish_date(on(), today, LocalOffset::Skipped)), "Couldn't apply timezone");
    assert_eq!(
        parse_error(finish_date(DateRequest::BadFormat, today, LocalOffset::Single(0))),
        "Couldn't parse argument format"
    );
    assert_eq!(
        parse_error(finish_date(DateRequest::BadOffset { msg: "why".to_string() }, today, LocalOffset::Single(0))),
        "why"
    );
}

#[test]
fn local_offsets_choose_one() {
    assert_eq!(LocalOffset::Skipped.single(), None);
    assert_eq!(LocalOffset::Single(5).single(), Some(5));
    assert_eq!(LocalOffset::Ambiguous(5, 6).single(), None);
    assert_eq!(LocalOffset::Skipped.earliest(), None);
    assert_eq!(LocalOffset::Single(5).earliest(), Some(5));
    assert_eq!(LocalOffset::Ambiguous(5, 6).earliest(), Some(5));
}

#[test]
fn parse_date_reads_days_and_days_ago() {
    assert_eq!(parse_date("2024-03-01").unwrap(), day(2024, 3, 1));
    let before = Local::now().date_naive().num_days_from_ce();
    let ago = parse_date("-2").unwrap();
    let after = Local::now().date_naive().num_days_from_ce();
    assert!(before - 2 <= ago.days && ago.days <= after - 2);
    assert_eq!(parse_error(parse_date("soon")), "Couldn't parse argument format");
    assert_eq!(parse_error(parse_date("-soon")), "invalid digit found in string");
}

#[test]
fn print_span_writes_days_hours_minutes_seconds() {
    assert_eq!(print_span(0), "0d 0h 0m 0s");
    assert_eq!(print_span(59), "0d 0h 0m 59s");
    assert_eq!(print_span(90_061), "1d 1h 1m 1s");
    assert_eq!(print_span(86_399), "0d 23h 59m 59s");
    assert_eq!(print_span(-90_061), "-1d -1h -1m -1s");
    assert_eq!(print_span(-59), "0d 0h 0m -59s");
    assert_eq!(print_span(10 * 86_400 + 3 * 3600), "10d 3h 0m 0s");
}

#[test]
fn durations_print_their_whole_seconds() {
    assert_eq!(Duration { secs: 3_661, nanos: 999_999_999 }.print(), "0d 1h 1m 1s");
    assert_eq!(Duration { secs: -1, nanos: 500_000_000 }.print(), "0d 0h 0m 0s");
    assert_eq!(Duration { secs: -2, nanos: 500_000_000 }.print(), "0d 0h 0m -1s");
    assert_eq!(Duration { secs: -2, nanos: 0 }.print(), "0d 0h 0m -2s");
    assert_eq!(Duration::zero().print(), "0d 0h 0m 0s");
    for secs in [0i64, 59, 3_600, 90_061, -90_061, -1] {
        let span = chrono::Duration::seconds(secs);
        let expected = format!(
            "{}d {}h {}m {}s",
            span.num_days(),
            span.num_hours() % 24,
            span.num_minutes() % 60,
            span.num_seconds() % 60
        );
        assert_eq!(Duration { secs, nanos: 0 }.print(), expected);
    }
}

fn line(date: Date, heading: &str, text: &str, minutes: u32) -> ClockLine {
    let from = Timestamp { date, time: TimeOfDay { secs: 8 * 3600, nanos: 0 }, offset: 0 };
    let until = Timestamp { date, time: TimeOfDay { secs: 8 * 3600 + minutes * 60, nanos: 0 }, offset: 0 };
    ClockLine { day: date, heading: heading.to_string(), text: text.to_string(), from, until }
}

#[test]
fn report_sums_up_days_and_all() {
    let d1 = day(2024, 3, 1);
    let d2 = day(2024, 3, 2);
    let entries = vec![line(d1, "H1", "T1", 60), line(d1, "H1", "T2", 30), line(d2, "H2", "T3", 15)];
    assert_eq!(
        assemble_report(&entries),
        strings(&[
            "--- H1 ---",
            "T1",
            "T2",
            "--- H2 ---",
            "T3",
            "Day duration: 0d 1h 30m 0s",
            "",
            "Day duration: 0d 0h 15m 0s",
            "",
            "Overall duration in time range: 0d 1h 45m 0s",
        ])
    );
}

#[test]
fn report_on_nothing() {
    assert_eq!(
        assemble_report(&Vec::new()),
        strings(&["Day duration: 0d 0h 0m 0s", "", "Overall duration in time range: 0d 0h 0m 0s"])
    );
}

#[test]
fn report_adds_up_nanoseconds() {
    let d1 = day(2024, 3, 1);
    let mut a = line(d1, "H", "A", 0);
    a.until.time.nanos = 600_000_000;
    let mut b = line(d1, "H", "B", 0);
    b.until.time.nanos = 600_000_000;
    let report = assemble_report(&vec![a, b]);
    assert_eq!(report[3], "Day duration: 0d 0h 0m 1s");
    assert_eq!(report[5], "Overall duration in time range: 0d 0h 0m 1s");
}

#[test]
fn cli_error_messages() {
    assert_eq!(CliError::ParseError { msg: "x".to_string() }.message(), "Couldn't parse: x");
    assert_eq!(CliError::CommandNotFound { command: "x".to_string() }.message(), "Command not found: x");
    assert_eq!(CliError::Empty.message(), "Input is empty");
    assert_eq!(CliError::OtherError { msg: "x".to_string() }.message(), "Error: x");
    assert_eq!(CommandError::Core(Error::ClockNotFound).message(), "Clock could not be found");
    assert_eq!(CommandError::Cli(CliError::Empty).message(), "Input is empty");
    assert_eq!(CommandError::Other("plain".to_string()).message(), "plain");
}
