use chrono::{Datelike, NaiveDate};
use todoapp3::cli::{
    new_cli_with_callbacks, Cli, CliCallbackHolder, CliCallbacks, CliInputResult, CliStateCallback,
    Command, Func,
};
use todoapp3::clock::{Clock, ClockMod};
use todoapp3::clockeditcli::{ClockCallbacks, ClockEditCli, ExitAction};
use todoapp3::doc::Doc;
use todoapp3::error::{CliError, CommandError, Error};
use todoapp3::tasks::{Task, TaskMod};
use todoapp3::terminal::{Func as TerminalFunc, Terminal, TerminalCommand};
use todoapp3::time::{Date, TimeOfDay, Timestamp};

/// Callbacks that read from a script and keep what is printed.
struct Script {
    lines: Vec<String>,
    printed: Vec<String>,
    seen: Vec<String>,
    exit: bool,
}

impl Script {
    fn new(lines: &[&str]) -> Script {
        Script {
            lines: lines.iter().rev().map(|l| l.to_string()).collect(),
            printed: Vec::new(),
            seen: Vec::new(),
            exit: false,
        }
    }
}

impl CliStateCallback<u32> for Script {
    fn pre_exec(&mut self, _state: &mut u32, command: &str) {
        self.seen.push(format!("pre {}", command));
    }

    fn post_exec(&mut self, state: &mut u32, command: &str) {
        self.seen.push(format!("post {} {}", command, state));
    }
}

impl CliCallbacks<u32> for Script {
    fn print(&mut self, text: &str) {
        self.printed.push(text.to_string());
    }

    fn read_line(&mut self, _prompt: &str) -> CliInputResult {
        match self.lines.pop() {
            Some(line) => CliInputResult::Value(line),
            None => CliInputResult::Termination,
        }
    }

    fn edit_string(&mut self, text: String) -> String {
        format!("{}!", text)
    }

    fn exit(&mut self) {
        self.exit = true;
    }

    fn is_exit(&self) -> bool {
        self.exit
    }
}

struct Add(u32);

impl Command<u32, Script> for Add {
    fn run(&self, state: &mut u32, _line: &str, _callbacks: &mut Script) -> Result<(), CommandError> {
        *state += self.0;
        Ok(())
    }
}

struct Echo;

impl Command<u32, Script> for Echo {
    fn run(&self, _state: &mut u32, line: &str, callbacks: &mut Script) -> Result<(), CommandError> {
        callbacks.println(line);
        Ok(())
    }
}

struct Leave;

impl Command<u32, Script> for Leave {
    fn run(&self, _state: &mut u32, _line: &str, callbacks: &mut Script) -> Result<(), CommandError> {
        callbacks.exit();
        Ok(())
    }
}

struct Fail;

impl Command<u32, Script> for Fail {
    fn run(&self, _state: &mut u32, _line: &str, _callbacks: &mut Script) -> Result<(), CommandError> {
        Err(CommandError::Core(Error::ClockOutOfIndex))
    }
}

fn cli_with(lines: &[&str]) -> Cli<u32, Script> {
    let mut cli = Cli::new(0u32, Script::new(lines));
    cli.register_command("one", Func::new(Box::new(Add(1))));
    cli.register_command("ten", Func::new(Box::new(Add(10))));
    cli.register_command("echo", Func::new(Box::new(Echo)));
    cli.register_command("exit", Func::new(Box::new(Leave)));
    cli.register_command("fail", Func::new(Box::new(Fail)));
    cli
}

#[test]
fn run_command_dispatches_on_the_first_word() {
    let mut cli = cli_with(&[]);
    assert!(cli.run_command("  ten and more  ").is_ok());
    assert_eq!(cli.state, 10);
    assert!(cli.run_command("one").is_ok());
    assert_eq!(cli.state, 11);
    match cli.run_command("two") {
        Err(CommandError::Cli(CliError::CommandNotFound { command })) => assert_eq!(command, "two"),
        other => panic!("unexpected answer: {:?}", other),
    }
    match cli.run_command("") {
        Err(CommandError::Cli(CliError::CommandNotFound { command })) => assert_eq!(command, ""),
        other => panic!("unexpected answer: {:?}", other),
    }
    assert_eq!(cli.state, 11);
}

#[test]
fn dispatch_takes_the_text_as_it_is() {
    let mut cli = cli_with(&[]);
    assert!(cli.dispatch("ten for all").is_ok());
    assert_eq!(cli.state, 10);
    match cli.dispatch(" ten") {
        Err(CommandError::Cli(CliError::CommandNotFound { command })) => assert_eq!(command, ""),
        other => panic!("unexpected answer: {:?}", other),
    }
    cli.dispatch("echo  x ").unwrap();
    assert_eq!(cli.callbacks.printed, vec!["echo  x \n".to_string()]);
}

#[test]
fn commands_get_the_line_without_the_white_space_at_its_ends() {
    let mut cli = cli_with(&[]);
    cli.run_command("\t echo  a  b \n").unwrap();
    assert_eq!(cli.callbacks.printed, vec!["echo  a  b\n".to_string()]);
}

#[test]
fn register_command_replaces_and_remove_command_takes_out() {
    let mut cli = cli_with(&[]);
    cli.register_command("one", Func::new(Box::new(Add(100))));
    cli.run_command("one").unwrap();
    assert_eq!(cli.state, 100);
    assert_eq!(cli.commands.len(), 5);
    assert!(cli.remove_command("one").is_some());
    assert!(cli.remove_command("one").is_none());
    assert!(cli.run_command("one").is_err());
    assert_eq!(cli.commands.len(), 4);
    cli.run_command("ten").unwrap();
    assert_eq!(cli.state, 110);
}

#[test]
fn the_removed_command_is_the_one_that_was_registered() {
    let mut cli = cli_with(&[]);
    let removed = cli.remove_command("ten").unwrap();
    let mut state = 1u32;
    removed.0.run(&mut state, "ten", &mut cli.callbacks).unwrap();
    assert_eq!(state, 11);
}

#[test]
fn run_once_goes_round_until_the_input_ends() {
    let mut cli = cli_with(&["one", "nothing", "fail", "ten"]);
    let mut rounds = 0;
    while cli.run_once("> ") {
        rounds += 1;
    }
    assert_eq!(rounds, 4);
    assert_eq!(cli.state, 11);
    assert_eq!(
        cli.callbacks.printed,
        vec!["Error: Command not found: nothing\n".to_string(), "Error: Clock is out of index\n".to_string()]
    );
    assert_eq!(
        cli.callbacks.seen,
        vec!["pre one", "post one 1", "pre nothing", "post nothing 1", "pre fail", "post fail 1", "pre ten", "post ten 11"]
    );
}

#[test]
fn run_once_stops_after_exit() {
    let mut cli = cli_with(&["one", "exit", "ten"]);
    assert!(cli.run_once("> "));
    assert!(!cli.run_once("> "));
    assert_eq!(cli.state, 1);
    assert_eq!(cli.callbacks.lines, vec!["ten".to_string()]);
}

struct Quiet;

impl CliStateCallback<String> for Quiet {}

struct Shout;

impl<'a> Command<String, CliCallbackHolder<'a, u32, Script, String, Quiet>> for Shout {
    fn run(
        &self,
        state: &mut String,
        line: &str,
        callbacks: &mut CliCallbackHolder<'a, u32, Script, String, Quiet>,
    ) -> Result<(), CommandError> {
        state.push_str(line);
        callbacks.print(line);
        *state = callbacks.edit_string(state.clone());
        callbacks.exit();
        Ok(())
    }
}

#[test]
fn an_inner_command_line_talks_through_the_outer_callbacks() {
    let mut outer = cli_with(&["shout", "one"]);
    {
        let mut inner = outer.new_with_callbacks(String::new(), Quiet);
        inner.register_command("shout", Func::new(Box::new(Shout)));
        assert!(!inner.callbacks.is_exit());
        assert!(!inner.run_once("inner> "));
        assert!(inner.callbacks.is_exit());
        assert_eq!(inner.state, "shout!");
    }
    // Leaving the inner command line did not make the outer one leave.
    assert!(!outer.callbacks.is_exit());
    assert_eq!(outer.callbacks.printed, vec!["shout".to_string()]);
    assert!(outer.run_once("> "));
    assert_eq!(outer.state, 1);
}

struct Marker;

impl CliStateCallback<String> for Marker {
    fn pre_exec(&mut self, state: &mut String, command: &str) {
        state.push_str(&format!("<{}>", command));
    }

    fn post_exec(&mut self, state: &mut String, command: &str) {
        state.push_str(&format!("</{}>", command));
    }
}

struct Note;

impl<'a> Command<String, CliCallbackHolder<'a, u32, Script, String, Marker>> for Note {
    fn run(
        &self,
        state: &mut String,
        line: &str,
        callbacks: &mut CliCallbackHolder<'a, u32, Script, String, Marker>,
    ) -> Result<(), CommandError> {
        state.push_str(line);
        callbacks.println(line);
        Ok(())
    }
}

#[test]
fn an_inner_command_line_has_its_own_hooks() {
    let mut outer = cli_with(&[" note this ", "gone"]);
    {
        let mut inner = outer.new_with_callbacks(String::new(), Marker);
        inner.register_command("note", Func::new(Box::new(Note)));
        assert!(inner.run_once("inner> "));
        assert_eq!(inner.state, "< note this >note this</ note this >");
        assert!(inner.run_once("inner> "));
        assert_eq!(inner.state, "< note this >note this</ note this ><gone></gone>");
        assert!(!inner.run_once("inner> "));
    }
    // The hooks of the outer command line were not asked.
    assert!(outer.callbacks.seen.is_empty());
    assert_eq!(
        outer.callbacks.printed,
        vec!["note this\n".to_string(), "Error: Command not found: gone\n".to_string()]
    );
}

fn day(year: i32, month: u32, day: u32) -> Date {
    Date { days: NaiveDate::from_ymd_opt(year, month, day).unwrap().num_days_from_ce() }
}

fn at(date: Date, hour: u32, minute: u32) -> Timestamp {
    Timestamp { date, time: TimeOfDay { secs: hour * 3600 + minute * 60, nanos: 0 }, offset: 0 }
}

fn doc_with_day() -> Doc {
    let mut doc = Doc::new();
    let root = doc.root;
    let mut root_task = doc.get_root().unwrap();
    root_task.set_title("Top");
    doc.upsert(root_task);
    let mut task = Task::new();
    task.id = 7;
    task.set_title("Work");
    doc.add_subtask(task, &root).unwrap();
    let d = day(2024, 3, 1);
    let mut late = Clock::started(1, at(d, 12, 0));
    late.set_end(at(d, 17, 30)).set_task_id(7).set_comment("afternoon".to_string());
    doc.upsert_clock(late);
    doc.upsert_clock(Clock::started(2, at(d, 8, 0)));
    doc
}

fn run_session<'a>(doc: &'a Doc, lines: &[&str]) -> (ClockEditCli<'a>, Vec<String>) {
    let mut outer = Script::new(lines);
    let state = {
        let session = ClockEditCli::open(doc, day(2024, 3, 1));
        let mut cli = new_cli_with_callbacks::<u32, Script, _, _>(&mut outer, session, ClockCallbacks);
        ClockEditCli::apply_commands(&mut cli);
        assert_eq!(cli.commands.len(), 6);
        while cli.run_once("clockedit> ") {}
        cli.state
    };
    assert!(!outer.exit);
    (state, outer.printed)
}

#[test]
fn a_clock_edit_session_is_applied_on_apply() {
    let mut doc = doc_with_day();
    let (clocks, outcome) = {
        let (state, printed) = run_session(&doc, &["start 1 07:15", "end 2 18:00:30", "enddate 2 2024-03-02", "apply", "start 1 00:00"]);
        assert!(printed.is_empty());
        (state.clockedit, state.apply_result)
    };
    assert_eq!(outcome, ExitAction::Apply);
    let first = &clocks.clocks[0];
    let second = &clocks.clocks[1];
    assert_eq!((first.id, first.start.date, first.start.time.secs), (2, day(2024, 3, 1), 7 * 3600 + 15 * 60));
    let end = second.end.unwrap();
    assert_eq!((second.id, end.date, end.time.secs), (1, day(2024, 3, 2), 18 * 3600 + 30));
    // The document learns of it only now.
    assert_eq!(doc.clock(&2).unwrap().start, at(day(2024, 3, 1), 8, 0));
    doc.finish_clock_edit(clocks, outcome);
    assert_eq!(doc.clock(&2).unwrap().start.time.secs, 7 * 3600 + 15 * 60);
    assert_eq!(doc.clock(&1).unwrap().end.unwrap().date, day(2024, 3, 2));
}

#[test]
fn a_clock_edit_session_is_dropped_on_cancel() {
    let doc = doc_with_day();
    let (state, _) = run_session(&doc, &["start 1 07:15", "cancel"]);
    assert_eq!(state.apply_result, ExitAction::Cancel);
    let (state, _) = run_session(&doc, &["start 1 07:15"]);
    assert_eq!(state.apply_result, ExitAction::Cancel);
}

#[test]
fn clock_edit_commands_report_what_is_wrong() {
    let doc = doc_with_day();
    let (state, printed) = run_session(
        &doc,
        &["start", "start x 09:00", "start 3 09:00", "start 0 09:00", "start 1 noon", "end 1", "enddate 1 someday", "frob"],
    );
    assert_eq!(
        printed,
        vec![
            "Error: Not enough input provided\n",
            "Error: invalid digit found in string\n",
            "Error: Clock is out of index\n",
            "Error: Clock is out of index\n",
            "Error: input contains invalid characters\n",
            "Error: Couldn't parse: Couldn't parse argument format\n",
            "Error: Command not found: frob\n",
        ]
    );
    assert_eq!(state.clockedit.clocks[0].start, at(day(2024, 3, 1), 8, 0));
    assert_eq!(state.clockedit.clocks[1].end, Some(at(day(2024, 3, 1), 17, 30)));
}

#[test]
fn clock_edit_ls_shows_the_entries() {
    let doc = doc_with_day();
    let (_, printed) = run_session(&doc, &["ls"]);
    assert_eq!(
        printed,
        vec![
            "1: 2024-03-01 08:00:00 +00:00 - (none):\n Task: (none)\n Comment: (none)\n",
            "2: 2024-03-01 12:00:00 +00:00 - 2024-03-01 17:30:00 +00:00:\n Task: Work -> Top\n Comment: afternoon\n",
        ]
    );
}

struct Count;

impl TerminalCommand<u32> for Count {
    fn run(&self, state: &mut u32, line: &str) -> Result<bool, CommandError> {
        *state += line.len() as u32;
        Ok(*state > 5)
    }
}

struct Refuse;

impl TerminalCommand<u32> for Refuse {
    fn run(&self, _state: &mut u32, _line: &str) -> Result<bool, CommandError> {
        Err(CommandError::Other("refused".to_string()))
    }
}

#[test]
fn terminal_reports_what_came_of_a_line() {
    let mut terminal = Terminal::new(0u32);
    terminal.register_command("count", TerminalFunc(Box::new(Count)));
    terminal.register_command("refuse", TerminalFunc(Box::new(Refuse)));
    let report = terminal.run_command(" count ");
    assert_eq!((report.command.as_str(), report.result, report.failure), ("count", false, None));
    assert_eq!(*terminal.state(), 5);
    let report = terminal.run_command("count me");
    assert_eq!((report.command.as_str(), report.result), ("count", true));
    assert_eq!(*terminal.state(), 13);
    let report = terminal.run_command("refuse now");
    assert_eq!((report.command.as_str(), report.result, report.failure), ("refuse", false, Some("refused".to_string())));
    let report = terminal.run_command("other");
    assert_eq!((report.command.as_str(), report.result, report.failure), ("other", false, None));
    let report = terminal.dispatch(" count");
    assert_eq!((report.command.as_str(), report.result, report.failure), ("", false, None));
    assert!(terminal.remove_command("count").is_some());
    assert!(terminal.remove_command("count").is_none());
    assert!(!terminal.run_command("count me").result);
    assert_eq!(*terminal.state(), 13);
}
