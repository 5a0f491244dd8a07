use chrono::{Datelike, NaiveDate};
use todoapp3::cli::{Cli, CliCallbacks, CliInputResult, CliStateCallback};
use todoapp3::clock::{Clock, ClockMod};
use todoapp3::commands::second_word;
use todoapp3::doc::Doc;
use todoapp3::error::{CliError, CommandError, Error};
use todoapp3::helper::{clock_line, clock_report, task_trail};
use todoapp3::render::{rec_print, PAGE_FOOT, PAGE_HEAD};
use todoapp3::state::{Autosave, State};
use todoapp3::tasks::{Progress, Task, TaskMod};
use todoapp3::time::{Date, TimeOfDay, Timestamp};
use uuid::Uuid;

fn titled(id: u128, title: &str) -> Task {
    let mut task = Task::new();
    task.id = id;
    task.set_title(title);
    task
}

fn id_text(id: u128) -> String {
    Uuid::from_u128(id).to_string()
}

/// Root "Top" with the children 1 "Alpha one", 2 "Beta" and 3 "alpha two"; 1 has the child 11 "Gamma".
fn state() -> State {
    let mut doc = Doc::new();
    let root = doc.root;
    let mut top = doc.get_root().unwrap();
    top.set_title("Top").set_body("# Hi");
    doc.upsert(top);
    doc.add_subtask(titled(1, "Alpha one"), &root).unwrap();
    let mut beta = titled(2, "Beta");
    beta.set_progress(Progress::Done);
    doc.add_subtask(beta, &root).unwrap();
    doc.add_subtask(titled(3, "alpha two"), &root).unwrap();
    doc.add_subtask(titled(11, "Gamma"), &1).unwrap();
    State { wt: root, doc, parents: Vec::new(), path: "tasks.json".to_string(), autosave: Autosave::ManualOnly }
}

struct Screen {
    printed: Vec<String>,
    answers: Vec<String>,
    exit: bool,
}

impl Screen {
    fn new(answers: &[&str]) -> Screen {
        Screen { printed: Vec::new(), answers: answers.iter().rev().map(|a| a.to_string()).collect(), exit: false }
    }
}

impl CliStateCallback<State> for Screen {}

impl CliCallbacks<State> for Screen {
    fn print(&mut self, text: &str) {
        self.printed.push(text.to_string());
    }

    fn read_line(&mut self, _prompt: &str) -> CliInputResult {
        match self.answers.pop() {
            Some(line) => CliInputResult::Value(line),
            None => CliInputResult::Termination,
        }
    }

    fn edit_string(&mut self, _text: String) -> String {
        self.answers.pop().unwrap_or_default()
    }

    fn exit(&mut self) {
        self.exit = true;
    }

    fn is_exit(&self) -> bool {
        self.exit
    }
}

fn cli(answers: &[&str]) -> Cli<State, Screen> {
    let mut cli = Cli::new(state(), Screen::new(answers));
    State::apply_commands(&mut cli);
    cli
}

#[test]
fn paths_lead_through_the_tree() {
    let mut state = state();
    let root = state.doc.root;
    assert_eq!(state.uuid_for_path("/1"), Some(1));
    assert_eq!(state.uuid_for_path("1/1"), Some(11));
    assert_eq!(state.uuid_for_path("/2"), Some(2));
    assert_eq!(state.uuid_for_path("/4"), None);
    assert_eq!(state.uuid_for_path("/0"), None);
    assert_eq!(state.uuid_for_path("/4/1"), None);
    assert_eq!(state.uuid_for_path(""), Some(root));
    assert_eq!(state.uuid_for_path("/"), Some(root));
    assert_eq!(state.uuid_for_path("alpha"), Some(1));
    assert_eq!(state.uuid_for_path("Alpha T"), Some(3));
    assert_eq!(state.uuid_for_path("be/.."), Some(root));
    assert_eq!(state.uuid_for_path("/1/1/../.."), Some(root));
    assert_eq!(state.uuid_for_path(".."), None);
    assert_eq!(state.uuid_for_path("delta"), None);
    assert_eq!(state.uuid_for_path(&id_text(11)), Some(11));
    assert_eq!(state.uuid_for_path(&format!("1/{}/..", id_text(2))), Some(root));
    assert_eq!(state.uuid_for_path(&id_text(999)), Some(999));
    state.wt = 1;
    assert_eq!(state.uuid_for_path("1"), Some(11));
    assert_eq!(state.uuid_for_path("gam"), Some(11));
    assert_eq!(state.uuid_for_path("/1"), Some(1));
    assert_eq!(state.uuid_for_path("../2"), Some(2));
    assert_eq!(state.path_step(Some(1), "1"), Some(11));
    assert_eq!(state.path_step(None, "1"), None);
    assert_eq!(state.path_step(None, ".."), None);
    assert_eq!(state.path_step(None, ""), None);
    assert_eq!(state.path_step(None, "gam"), None);
}

#[test]
fn change_dir_goes_where_the_path_leads() {
    let mut state = state();
    let root = state.doc.root;
    state.parents = vec![5];
    assert!(state.change_dir(Some("1/1")).is_ok());
    assert_eq!(state.wt, 11);
    assert_eq!(state.parents, vec![5]);
    match state.change_dir(Some("nowhere")) {
        Err(CliError::ParseError { msg }) => assert_eq!(msg, "Couldn't resolve path"),
        other => panic!("unexpected answer: {:?}", other),
    }
    assert_eq!(state.wt, 11);
    assert!(state.change_dir(None).is_ok());
    assert_eq!(state.wt, root);
    assert!(state.parents.is_empty());
}

#[test]
fn set_progress_works_on_the_task_one_is_at() {
    let mut state = state();
    state.wt = 1;
    assert_eq!(state.set_progress(Progress::Work), Ok(()));
    assert_eq!(state.doc.get(&1).unwrap().progress, Some(Progress::Work));
    assert_eq!(state.doc.get(&1).unwrap().title, "Alpha one");
    state.wt = 404;
    assert_eq!(state.set_progress(Progress::Work), Err(Error::TaskUuidNotFound));
}

#[test]
fn reorder_moves_a_child() {
    let mut state = state();
    let root = state.doc.root;
    assert_eq!(state.reorder(1, 3), Ok(()));
    assert_eq!(state.doc.get(&root).unwrap().children, vec![2, 3, 1]);
    assert_eq!(state.reorder(3, 1), Ok(()));
    assert_eq!(state.doc.get(&root).unwrap().children, vec![1, 2, 3]);
    assert_eq!(state.reorder(2, 2), Ok(()));
    assert_eq!(state.doc.get(&root).unwrap().children, vec![1, 2, 3]);
    for (from, to) in [(0, 1), (1, 0), (4, 1), (1, 4)] {
        assert_eq!(state.reorder(from, to), Err(Error::ChildOutOfIndex));
    }
    assert_eq!(state.doc.get(&root).unwrap().children, vec![1, 2, 3]);
    state.wt = 404;
    assert_eq!(state.reorder(1, 1), Err(Error::TaskUuidNotFound));
}

#[test]
fn reorder_of_a_child_that_comes_twice() {
    let mut state = state();
    let root = state.doc.root;
    let mut top = state.doc.get(&root).unwrap();
    top.set_children(vec![1, 2, 1]);
    state.doc.upsert(top);
    // Without 1 one child is left, so the third place is beyond the list.
    assert_eq!(state.reorder(1, 3), Err(Error::ChildOutOfIndex));
    assert_eq!(state.doc.get(&root).unwrap().children, vec![1, 2, 1]);
    assert_eq!(state.reorder(1, 2), Ok(()));
    assert_eq!(state.doc.get(&root).unwrap().children, vec![2, 1]);
}

#[test]
fn remove_task_takes_out_of_the_parent() {
    let mut state = state();
    let root = state.doc.root;
    assert_eq!(state.remove_task("1/1"), Ok(()));
    assert!(state.doc.get(&1).unwrap().children.is_empty());
    assert!(state.doc.get(&11).is_ok());
    assert_eq!(state.remove_task("nowhere"), Ok(()));
    assert_eq!(state.remove_task("/"), Ok(()));
    assert_eq!(state.doc.get(&root).unwrap().children, vec![1, 2, 3]);
    assert_eq!(state.remove_task("/2"), Ok(()));
    assert_eq!(state.doc.get(&root).unwrap().children, vec![1, 3]);
}

#[test]
fn move_task_puts_below_another() {
    let mut state = state();
    let root = state.doc.root;
    assert!(state.move_task(11, 2).is_ok());
    assert!(state.doc.get(&1).unwrap().children.is_empty());
    assert_eq!(state.doc.get(&2).unwrap().children, vec![11]);
    assert_eq!(state.doc.find_parent(&11), Some(2));
    match state.move_task(root, 2) {
        Err(CommandError::Cli(CliError::OtherError { msg })) => assert_eq!(msg, "Couldn't find parent"),
        other => panic!("unexpected answer: {:?}", other),
    }
    // Where the target is not stored, the task stays taken out.
    match state.move_task(3, 404) {
        Err(CommandError::Core(Error::TaskUuidNotFound)) => {}
        other => panic!("unexpected answer: {:?}", other),
    }
    assert_eq!(state.doc.get(&root).unwrap().children, vec![1, 2]);
}

#[test]
fn listing_shows_the_task() {
    let mut state = state();
    assert_eq!(
        state.listing().unwrap(),
        vec!["Top  [1/1]", "", "# Hi", "--- Children: ", "1:  Alpha one", "2: DONE Beta", "3:  alpha two"]
    );
    state.wt = 11;
    assert_eq!(state.listing().unwrap(), vec!["Top -> Alpha one -> Gamma  [0/0]", "", "", "--- Children: "]);
    state.wt = 404;
    assert_eq!(state.listing(), Err(Error::TaskUuidNotFound));
    let root = state.doc.root;
    state.wt = root;
    let mut top = state.doc.get(&root).unwrap();
    top.add_child(404);
    state.doc.upsert(top);
    assert_eq!(state.listing(), Err(Error::TaskUuidNotFound));
}

#[test]
fn task_trail_goes_both_ways() {
    let state = state();
    assert_eq!(task_trail(&state.doc, &11, true), "Top -> Alpha one -> Gamma");
    assert_eq!(task_trail(&state.doc, &11, false), "Gamma -> Alpha one -> Top");
    assert_eq!(task_trail(&state.doc, &404, true), "");
}

#[test]
fn to_html_makes_the_page() {
    let state = state();
    let root = state.doc.root;
    let expected = format!(
        "{}<a href=\"{}.html\">Top</a>[1/1]<h1>Hi</h1><hr/><ul>\
         <li><a href=\"{}.html\"> Alpha one</a></li>\
         <li><a href=\"{}.html\">DONE Beta</a></li>\
         <li><a href=\"{}.html\"> alpha two</a></li></ul>{}",
        PAGE_HEAD,
        id_text(root),
        id_text(1),
        id_text(2),
        id_text(3),
        PAGE_FOOT
    );
    assert_eq!(state.doc.to_html(&root).unwrap(), expected);
    let leaf = state.doc.to_html(&11).unwrap();
    let crumbs = format!(
        "<a href=\"{}.html\">Top</a> -> <a href=\"{}.html\">Alpha one</a> -> <a href=\"{}.html\">Gamma</a>[0/0]<hr/><ul></ul>",
        id_text(root),
        id_text(1),
        id_text(11)
    );
    assert_eq!(leaf, format!("{}{}{}", PAGE_HEAD, crumbs, PAGE_FOOT));
    assert_eq!(state.doc.to_html(&404), Err(Error::TaskUuidNotFound));
    assert_eq!(state.doc.crumbs(&vec![404, 1]), format!(" -> <a href=\"{}.html\">Alpha one</a>", id_text(1)));
}

#[test]
fn to_html_wants_every_child() {
    let mut state = state();
    let mut two = state.doc.get(&2).unwrap();
    two.add_child(404);
    state.doc.upsert(two);
    assert_eq!(state.doc.to_html(&2), Err(Error::TaskUuidNotFound));
}

#[test]
fn rec_print_shows_the_outline() {
    let state = state();
    let root = state.doc.root;
    let mut screen = Screen::new(&[]);
    assert_eq!(rec_print(&state.doc, &root, 0, 1000, &mut screen), Ok(()));
    let shown = screen.printed.concat();
    let expected = format!(
        "* {} Top\n * {} Alpha one\n  * {} Gamma\n * {} Beta\n * {} alpha two\n",
        id_text(root),
        id_text(1),
        id_text(11),
        id_text(2),
        id_text(3)
    );
    assert_eq!(shown, expected);
    let mut screen = Screen::new(&[]);
    assert_eq!(rec_print(&state.doc, &root, 0, 1, &mut screen), Ok(()));
    assert_eq!(screen.printed.concat(), format!("* {} Top\n", id_text(root)));
    let mut screen = Screen::new(&[]);
    assert_eq!(rec_print(&state.doc, &root, 0, 0, &mut screen), Ok(()));
    assert!(screen.printed.is_empty());
    assert_eq!(rec_print(&state.doc, &404, 0, 5, &mut screen), Err(Error::TaskUuidNotFound));
    assert_eq!(rec_print(&state.doc, &404, 5, 5, &mut screen), Ok(()));
}

#[test]
fn edit_text_and_back() {
    let mut task = titled(1, "Title");
    task.set_body("line one\nline two");
    assert_eq!(task.edit_text(), "Title\n\nline one\nline two");
    assert!(task.apply_edit_text("New title\r\n\r\n  body one\nbody two \n\n"));
    assert_eq!(task.title, "New title");
    assert_eq!(task.body, "body one\nbody two");
    assert!(task.apply_edit_text("only"));
    assert_eq!((task.title.as_str(), task.body.as_str()), ("only", ""));
    assert!(!task.apply_edit_text(""));
    assert_eq!((task.title.as_str(), task.body.as_str()), ("only", ""));
    assert!(task.apply_edit_text("\nrest"));
    assert_eq!((task.title.as_str(), task.body.as_str()), ("", "rest"));
    assert_eq!(task.id, 1);
}

#[test]
fn second_word_is_the_argument() {
    assert_eq!(second_word("cd /1/2 more"), Some("/1/2".to_string()));
    assert_eq!(second_word("cd"), None);
    assert_eq!(second_word("cd "), Some(String::new()));
}

#[test]
fn commands_work_on_the_state() {
    let mut cli = cli(&["edited title\n\nedited body", "added\n\nwith body", "  a comment  "]);
    let root = cli.state.doc.root;
    cli.run_command("cd 1").unwrap();
    assert_eq!(cli.state.wt, 1);
    cli.run_command("work").unwrap();
    assert_eq!(cli.state.doc.get(&1).unwrap().progress, Some(Progress::Work));
    cli.run_command("done").unwrap();
    assert_eq!(cli.state.doc.get(&1).unwrap().progress, Some(Progress::Done));
    cli.run_command("todo").unwrap();
    assert_eq!(cli.state.doc.get(&1).unwrap().progress, Some(Progress::Todo));
    cli.run_command("ed").unwrap();
    assert_eq!(cli.state.doc.get(&1).unwrap().title, "edited title");
    assert_eq!(cli.state.doc.get(&1).unwrap().body, "edited body");
    cli.run_command("add").unwrap();
    let added = cli.state.doc.get(&1).unwrap().children[1];
    assert_eq!(cli.state.doc.get(&added).unwrap().title, "added");
    assert_eq!(cli.state.doc.get(&added).unwrap().body, "with body");
    cli.run_command("cd").unwrap();
    assert_eq!(cli.state.wt, root);
    cli.run_command("reorder 1 3").unwrap();
    assert_eq!(cli.state.doc.get(&root).unwrap().children, vec![2, 3, 1]);
    assert!(matches!(cli.run_command("reorder 1"), Err(CommandError::Core(Error::UnsufficientInput))));
    assert!(matches!(cli.run_command("reorder"), Err(CommandError::Core(Error::UnsufficientInput))));
    assert!(matches!(cli.run_command("reorder 1 x"), Err(CommandError::Other(_))));
    assert!(matches!(cli.run_command("reorder 1 9"), Err(CommandError::Core(Error::ChildOutOfIndex))));
    cli.run_command("mv /3/1 /1").unwrap();
    assert_eq!(cli.state.doc.get(&2).unwrap().children, vec![11]);
    assert!(matches!(cli.run_command("mv /3/1"), Err(CommandError::Cli(CliError::ParseError { .. }))));
    cli.run_command("rm /1/1").unwrap();
    assert!(cli.state.doc.get(&2).unwrap().children.is_empty());
    cli.run_command("rm").unwrap();
    cli.run_command("autosave").unwrap();
    assert_eq!(cli.state.autosave, Autosave::OnCommand);
    cli.run_command("noautosave").unwrap();
    assert_eq!(cli.state.autosave, Autosave::ManualOnly);
    cli.run_command("cli").unwrap();
    let first = cli.state.doc.current_clock.unwrap();
    assert_eq!(cli.state.doc.clock(&first).unwrap().task_id, Some(root));
    cli.run_command("cln").unwrap();
    let second = cli.state.doc.current_clock.unwrap();
    assert_ne!(first, second);
    assert!(cli.state.doc.clock(&first).unwrap().end.is_some());
    assert_eq!(cli.state.doc.clock(&second).unwrap().task_id, None);
    cli.run_command("cd /1").unwrap();
    cli.run_command("cla").unwrap();
    assert_eq!(cli.state.doc.clock(&second).unwrap().task_id, Some(2));
    cli.run_command("clc").unwrap();
    assert_eq!(cli.state.doc.clock(&second).unwrap().comment, Some("a comment".to_string()));
    // The editor has nothing more to give: there is no title.
    assert!(matches!(cli.run_command("ed"), Err(CommandError::Other(_))));
    assert!(matches!(cli.run_command("add"), Err(CommandError::Other(_))));
    assert_eq!(cli.state.doc.get(&2).unwrap().title, "Beta");
    cli.run_command("clo").unwrap();
    assert_eq!(cli.state.doc.current_clock, None);
    assert!(cli.state.doc.clock(&second).unwrap().end.is_some());
    assert!(cli.callbacks.printed.is_empty());
    assert!(!cli.callbacks.is_exit());
    cli.run_command("exit").unwrap();
    assert!(cli.callbacks.is_exit());
}

#[test]
fn apply_commands_gives_every_command_once() {
    let mut cli = cli(&[]);
    assert_eq!(cli.commands.len(), 24);
    State::apply_commands(&mut cli);
    assert_eq!(cli.commands.len(), 24);
    let mut names: Vec<&str> = cli.commands.iter().map(|(name, _)| name.as_str()).collect();
    names.sort();
    assert_eq!(
        names,
        vec![
            "add", "autosave", "cd", "cla", "clc", "cli", "cln", "clo", "dayclock", "done", "ed", "exit", "id",
            "ls", "mv", "noautosave", "outline", "parent", "rangeclock", "reorder", "rm", "taskclock", "todo",
            "work",
        ]
    );
}

#[test]
fn commands_show_the_state() {
    let mut cli = cli(&[]);
    let root = cli.state.doc.root;
    cli.run_command("id").unwrap();
    cli.run_command("parent").unwrap();
    cli.run_command("cd 1").unwrap();
    cli.run_command("parent").unwrap();
    cli.run_command("outline 1").unwrap();
    cli.run_command("ls").unwrap();
    assert_eq!(
        cli.callbacks.printed.concat(),
        format!(
            "Task ID: {}\nParent Task ID: {}\n* {} Alpha one\nTop -> Alpha one  [0/0]\n\n\n--- Children: \n1:  Gamma\n",
            id_text(root),
            id_text(root),
            id_text(1)
        )
    );
    cli.state.wt = 404;
    assert!(matches!(cli.run_command("ls"), Err(CommandError::Core(Error::TaskUuidNotFound))));
    assert!(matches!(cli.run_command("id"), Err(CommandError::Core(Error::TaskUuidNotFound))));
}

fn day(year: i32, month: u32, day: u32) -> Date {
    Date { days: NaiveDate::from_ymd_opt(year, month, day).unwrap().num_days_from_ce() }
}

fn at(date: Date, hour: u32, minute: u32) -> Timestamp {
    Timestamp { date, time: TimeOfDay { secs: hour * 3600 + minute * 60, nanos: 0 }, offset: 3600 }
}

#[test]
fn clock_line_shows_a_clock() {
    let state = state();
    let d = day(2024, 3, 1);
    let mut clock = Clock::started(1, at(d, 8, 0));
    let now = at(d, 9, 0);
    let line = clock_line(&state.doc, &clock, now);
    assert_eq!(line.heading, "2024-03-01+01:00");
    assert_eq!(line.text, "2024-03-01 08:00:00 +01:00 - (none):\n Task: (none)\n Comment: (none)");
    assert_eq!((line.day, line.from, line.until), (d, at(d, 8, 0), now));
    clock.set_end(at(d, 8, 30)).set_task_id(11).set_comment("c".to_string());
    let line = clock_line(&state.doc, &clock, now);
    assert_eq!(
        line.text,
        "2024-03-01 08:00:00 +01:00 - 2024-03-01 08:30:00 +01:00:\n Task: Top -> Alpha one -> Gamma\n Comment: c"
    );
    assert_eq!(line.until, at(d, 8, 30));
}

#[test]
fn clock_report_sorts_and_sums() {
    let state = state();
    let d1 = day(2024, 3, 1);
    let d2 = day(2024, 3, 2);
    let mut a = Clock::started(1, at(d2, 8, 0));
    a.set_end(at(d2, 8, 20));
    let mut b = Clock::started(2, at(d1, 8, 0));
    b.set_end(at(d1, 9, 0));
    let open = Clock::started(3, at(d1, 10, 0));
    let report = clock_report(&vec![a, b, open], &state.doc, at(d1, 10, 30));
    assert_eq!(
        report,
        vec![
            "--- 2024-03-01+01:00 ---",
            "2024-03-01 08:00:00 +01:00 - 2024-03-01 09:00:00 +01:00:\n Task: (none)\n Comment: (none)",
            "2024-03-01 10:00:00 +01:00 - (none):\n Task: (none)\n Comment: (none)",
            "--- 2024-03-02+01:00 ---",
            "2024-03-02 08:00:00 +01:00 - 2024-03-02 08:20:00 +01:00:\n Task: (none)\n Comment: (none)",
            "Day duration: 0d 1h 30m 0s",
            "",
            "Day duration: 0d 0h 20m 0s",
            "",
            "Overall duration in time range: 0d 1h 50m 0s",
        ]
    );
}

#[test]
fn clock_commands_show_reports() {
    let mut cli = cli(&[]);
    let root = cli.state.doc.root;
    let d1 = day(2024, 3, 1);
    let mut a = Clock::started(1, at(d1, 8, 0));
    a.set_end(at(d1, 9, 0)).set_task_id(1);
    cli.state.doc.upsert_clock(a);
    let mut b = Clock::started(2, at(d1, 10, 0));
    b.set_end(at(d1, 10, 30)).set_task_id(2);
    cli.state.doc.upsert_clock(b);
    cli.run_command("dayclock 2024-03-01").unwrap();
    assert_eq!(cli.callbacks.printed.len(), 6);
    assert_eq!(cli.callbacks.printed[0], "--- 2024-03-01+01:00 ---\n");
    assert_eq!(cli.callbacks.printed[3], "Day duration: 0d 1h 30m 0s\n");
    assert_eq!(cli.callbacks.printed[5], "Overall duration in time range: 0d 1h 30m 0s\n");
    cli.callbacks.printed.clear();
    cli.state.wt = 1;
    cli.run_command("dayclock 2024-03-01").unwrap();
    assert_eq!(cli.callbacks.printed.len(), 5);
    assert_eq!(cli.callbacks.printed[4], "Overall duration in time range: 0d 1h 0m 0s\n");
    cli.callbacks.printed.clear();
    cli.run_command("taskclock").unwrap();
    assert_eq!(cli.callbacks.printed.len(), 5);
    assert_eq!(cli.callbacks.printed[4], "Overall duration in time range: 0d 1h 0m 0s\n");
    cli.callbacks.printed.clear();
    cli.state.wt = root;
    cli.run_command("dayclock").unwrap();
    assert_eq!(cli.callbacks.printed, vec!["Day duration: 0d 0h 0m 0s\n", "\n", "Overall duration in time range: 0d 0h 0m 0s\n"]);
    cli.callbacks.printed.clear();
    cli.run_command("rangeclock 1000000").unwrap();
    assert_eq!(cli.callbacks.printed.len(), 6);
    assert_eq!(cli.callbacks.printed[5], "Overall duration in time range: 0d 1h 30m 0s\n");
    cli.callbacks.printed.clear();
    cli.run_command("rangeclock").unwrap();
    cli.run_command("rangeclock x").unwrap();
    assert!(cli.callbacks.printed.is_empty());
    assert!(matches!(cli.run_command("dayclock never"), Err(CommandError::Cli(CliError::ParseError { .. }))));
}
