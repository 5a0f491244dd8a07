//! The commands of a clock edit.

use crate::cli::{
    lemma_printed_more, printed, with_line_ends, Cli, CliCallbacks, CliStateCallback, Command, Func,
};
use crate::clock::{Clock, ClockView};
use crate::clockedit::{is_offset, numbered, ClockEdit};
use crate::doc::{Doc, DocView};
use crate::error::{CommandError, Error};
use crate::helper::{
    clock_text, is_date_answer, is_reading, parse_date, parse_time, time_shown, write_clock,
    DateRequest,
};
use crate::text::{
    decimal, decimal_of, describe_int_error, parse_usize, parsed_usize, split, split_all, texts,
};
use crate::time::{describe_parse_error, Date, LocalOffset};
use vstd::prelude::*;

verus! {

/// How a clock edit ends.
#[derive(Debug, Clone, Copy, PartialEq, Eq, Structural)]
pub enum ExitAction {
    Cancel,
    Apply,
}

/// The state of the command line of a clock edit: the working copy, how
/// the edit is to end, and the document that the copy was taken from.
#[derive(Debug)]
pub struct ClockEditCli<'a> {
    pub clockedit: ClockEdit,
    pub apply_result: ExitAction,
    pub doc: &'a Doc,
}

/// Nothing happens around the commands of a clock edit.
pub struct ClockCallbacks;

impl<'a> CliStateCallback<ClockEditCli<'a>> for ClockCallbacks {

}

/// Whether `answer` is what the words of `line` say of an entry: the second
/// word is its number, and the third, if there is one, a value for it.
pub open spec fn is_entry_request(
    line: Seq<char>,
    answer: Result<(usize, Option<String>), CommandError>,
) -> bool {
    let words = split(line, ' ');
    if words.len() < 2 {
        answer == Err::<(usize, Option<String>), CommandError>(
            CommandError::Core(Error::UnsufficientInput),
        )
    } else {
        match parsed_usize(words[1]) {
            None => answer matches Err(CommandError::Other(_)),
            Some(number) => answer matches Ok((n, value)) && n == number && if words.len() >= 3 {
                value matches Some(text) && text@ == words[2]
            } else {
                value is None
            },
        }
    }
}

/// What the words of `line` say of an entry: the second word is its
/// number, and the third, if there is one, a value for it.
pub fn entry_request(line: &str) -> (answer: Result<(usize, Option<String>), CommandError>)
    ensures
        is_entry_request(line@, answer),
{
    let mut words = split_all(line, ' ');
    if words.len() < 2 {
        return Err(CommandError::Core(Error::UnsufficientInput));
    }
    assert(texts(words@)[1] == words@[1]@);
    let number = match parse_usize(words[1].as_str()) {
        Ok(number) => number,
        Err(err) => {
            return Err(CommandError::Other(describe_int_error(&err)));
        },
    };
    if words.len() >= 3 {
        assert(texts(words@)[2] == words@[2]@);
        let value = words[2].clone();
        Ok((number, Some(value)))
    } else {
        Ok((number, None))
    }
}

/// Nothing of the session but its working copy differs.
pub open spec fn same_but_entries(before: ClockEditCli, after: ClockEditCli) -> bool {
    after.apply_result == before.apply_result && after.doc == before.doc
}

/// Nothing of the session differs.
pub open spec fn same_session(before: ClockEditCli, after: ClockEditCli) -> bool {
    same_but_entries(before, after) && after.clockedit@ == before.clockedit@
}

/// What became of a failure of the working copy.
pub open spec fn is_core_failure(answer: Result<(), CommandError>) -> bool {
    answer == Err::<(), CommandError>(CommandError::Core(Error::ClockOutOfIndex))
}

/// `cancel`: leave, and let the edit end as it stands.
pub struct CancelCommand;

/// `apply`: leave, and have the working copy applied.
pub struct ApplyCommand;

/// `start <number> <time>`: set the time of day of the start of an entry.
pub struct StartCommand;

/// `end <number> <time>`: set the time of day of the end of an entry.
pub struct EndCommand;

/// `enddate <number> <day>`: set the day of the end of an entry.
pub struct EndDateCommand;

/// `ls`: show the entries.
pub struct LsCommand;

/// What `start` may do: with a number and a time of day, the start of that
/// entry gets the time of day; with a number alone, nothing.
pub open spec fn is_start_outcome(
    before: ClockEditCli,
    line: Seq<char>,
    after: ClockEditCli,
    answer: Result<(), CommandError>,
) -> bool {
    let words = split(line, ' ');
    &&& same_but_entries(before, after)
    &&& if words.len() < 2 {
        answer == Err::<(), CommandError>(CommandError::Core(Error::UnsufficientInput))
            && after.clockedit@ == before.clockedit@
    } else if parsed_usize(words[1]) is None {
        answer matches Err(CommandError::Other(_)) && after.clockedit@ == before.clockedit@
    } else if words.len() < 3 {
        answer is Ok && after.clockedit@ == before.clockedit@
    } else if time_shown(words[2]) is None {
        answer matches Err(CommandError::Other(_)) && after.clockedit@ == before.clockedit@
    } else if !numbered(before.clockedit@, parsed_usize(words[1])->0 as int) {
        is_core_failure(answer) && after.clockedit@ == before.clockedit@
    } else {
        let i = parsed_usize(words[1])->0;
        answer is Ok && exists|offset: Option<i32>|
            is_offset(offset) && after.clockedit@ == before.clockedit@.update(
                i - 1,
                #[trigger] before.clockedit@[i - 1].start_time_set(time_shown(words[2])->0, offset),
            )
    }
}

/// What `end` may do: with a number and a time of day, the end of that
/// entry gets the time of day; with a number alone, nothing.
pub open spec fn is_end_outcome(
    before: ClockEditCli,
    line: Seq<char>,
    after: ClockEditCli,
    answer: Result<(), CommandError>,
) -> bool {
    let words = split(line, ' ');
    &&& same_but_entries(before, after)
    &&& if words.len() < 2 {
        answer == Err::<(), CommandError>(CommandError::Core(Error::UnsufficientInput))
            && after.clockedit@ == before.clockedit@
    } else if parsed_usize(words[1]) is None {
        answer matches Err(CommandError::Other(_)) && after.clockedit@ == before.clockedit@
    } else if words.len() < 3 {
        answer is Ok && after.clockedit@ == before.clockedit@
    } else if time_shown(words[2]) is None {
        answer matches Err(CommandError::Other(_)) && after.clockedit@ == before.clockedit@
    } else if !numbered(before.clockedit@, parsed_usize(words[1])->0 as int) {
        is_core_failure(answer) && after.clockedit@ == before.clockedit@
    } else {
        let i = parsed_usize(words[1])->0;
        answer is Ok && exists|offset: Option<i32>|
            is_offset(offset) && after.clockedit@ == before.clockedit@.update(
                i - 1,
                #[trigger] before.clockedit@[i - 1].end_time_set(time_shown(words[2])->0, offset),
            )
    }
}

/// What `enddate` may do: with a number and a day, the end of that entry
/// gets the day; with a number alone, nothing.
pub open spec fn is_end_date_outcome(
    before: ClockEditCli,
    line: Seq<char>,
    after: ClockEditCli,
    answer: Result<(), CommandError>,
) -> bool {
    let words = split(line, ' ');
    &&& same_but_entries(before, after)
    &&& if words.len() < 2 {
        answer == Err::<(), CommandError>(CommandError::Core(Error::UnsufficientInput))
            && after.clockedit@ == before.clockedit@
    } else if parsed_usize(words[1]) is None {
        answer matches Err(CommandError::Other(_)) && after.clockedit@ == before.clockedit@
    } else if words.len() < 3 {
        answer is Ok && after.clockedit@ == before.clockedit@
    } else {
        let i = parsed_usize(words[1])->0;
        exists|request: DateRequest, today: Date, midnight: LocalOffset, day: Result<Date, crate::error::CliError>|
            {
                &&& is_reading(words[2], request)
                &&& today.in_calendar()
                &&& midnight.wf()
                &&& #[trigger] is_date_answer(request, today, midnight, day)
                &&& match day {
                    Err(e) => answer == Err::<(), CommandError>(CommandError::Cli(e))
                        && after.clockedit@ == before.clockedit@,
                    Ok(date) => if numbered(before.clockedit@, i as int) {
                        answer is Ok && exists|offset: Option<i32>|
                            is_offset(offset) && after.clockedit@ == before.clockedit@.update(
                                i - 1,
                                #[trigger] before.clockedit@[i - 1].end_date_set(date, offset),
                            )
                    } else {
                        is_core_failure(answer) && after.clockedit@ == before.clockedit@
                    },
                }
            }
    }
}

impl<'a, C: CliCallbacks<ClockEditCli<'a>>> Command<ClockEditCli<'a>, C> for CancelCommand {
    open spec fn outcome(
        &self,
        before: ClockEditCli<'a>,
        line: Seq<char>,
        after: ClockEditCli<'a>,
        answer: Result<(), CommandError>,
    ) -> bool {
        after == before && answer is Ok
    }

    open spec fn talk(
        &self,
        state: ClockEditCli<'a>,
        line: Seq<char>,
        callbacks: C,
        after: C,
    ) -> bool {
        callbacks.leaves(&after)
    }

    fn run(&self, state: &mut ClockEditCli<'a>, line: &str, callbacks: &mut C) -> (answer: Result<
        (),
        CommandError,
    >) {
        callbacks.exit();
        Ok(())
    }
}

impl<'a, C: CliCallbacks<ClockEditCli<'a>>> Command<ClockEditCli<'a>, C> for ApplyCommand {
    open spec fn outcome(
        &self,
        before: ClockEditCli<'a>,
        line: Seq<char>,
        after: ClockEditCli<'a>,
        answer: Result<(), CommandError>,
    ) -> bool {
        &&& answer is Ok
        &&& after.apply_result == ExitAction::Apply
        &&& after.clockedit == before.clockedit
        &&& after.doc == before.doc
    }

    open spec fn talk(
        &self,
        state: ClockEditCli<'a>,
        line: Seq<char>,
        callbacks: C,
        after: C,
    ) -> bool {
        callbacks.leaves(&after)
    }

    fn run(&self, state: &mut ClockEditCli<'a>, line: &str, callbacks: &mut C) -> (answer: Result<
        (),
        CommandError,
    >) {
        state.apply_result = ExitAction::Apply;
        callbacks.exit();
        Ok(())
    }
}

impl<'a, C: CliCallbacks<ClockEditCli<'a>>> Command<ClockEditCli<'a>, C> for StartCommand {
    open spec fn outcome(
        &self,
        before: ClockEditCli<'a>,
        line: Seq<char>,
        after: ClockEditCli<'a>,
        answer: Result<(), CommandError>,
    ) -> bool {
        is_start_outcome(before, line, after, answer)
    }

    open spec fn talk(
        &self,
        state: ClockEditCli<'a>,
        line: Seq<char>,
        callbacks: C,
        after: C,
    ) -> bool {
        after == callbacks
    }

    fn run(&self, state: &mut ClockEditCli<'a>, line: &str, callbacks: &mut C) -> (answer: Result<
        (),
        CommandError,
    >) {
        let (i, value) = match entry_request(line) {
            Ok(request) => request,
            Err(e) => {
                return Err(e);
            },
        };
        let start_str = match value {
            Some(start_str) => start_str,
            None => {
                return Ok(());
            },
        };
        let time = match parse_time(start_str.as_str()) {
            Ok(time) => time,
            Err(e) => {
                return Err(CommandError::Other(describe_parse_error(&e)));
            },
        };
        match state.clockedit.set_start_time(i, time) {
            Ok(()) => Ok(()),
            Err(e) => Err(CommandError::Core(e)),
        }
    }
}

impl<'a, C: CliCallbacks<ClockEditCli<'a>>> Command<ClockEditCli<'a>, C> for EndCommand {
    open spec fn outcome(
        &self,
        before: ClockEditCli<'a>,
        line: Seq<char>,
        after: ClockEditCli<'a>,
        answer: Result<(), CommandError>,
    ) -> bool {
        is_end_outcome(before, line, after, answer)
    }

    open spec fn talk(
        &self,
        state: ClockEditCli<'a>,
        line: Seq<char>,
        callbacks: C,
        after: C,
    ) -> bool {
        after == callbacks
    }

    fn run(&self, state: &mut ClockEditCli<'a>, line: &str, callbacks: &mut C) -> (answer: Result<
        (),
        CommandError,
    >) {
        let (i, value) = match entry_request(line) {
            Ok(request) => request,
            Err(e) => {
                return Err(e);
            },
        };
        let end_str = match value {
            Some(end_str) => end_str,
            None => {
                return Ok(());
            },
        };
        let time = match parse_time(end_str.as_str()) {
            Ok(time) => time,
            Err(e) => {
                return Err(CommandError::Other(describe_parse_error(&e)));
            },
        };
        match state.clockedit.set_end_time(i, time) {
            Ok(()) => Ok(()),
            Err(e) => Err(CommandError::Core(e)),
        }
    }
}

impl<'a, C: CliCallbacks<ClockEditCli<'a>>> Command<ClockEditCli<'a>, C> for EndDateCommand {
    open spec fn outcome(
        &self,
        before: ClockEditCli<'a>,
        line: Seq<char>,
        after: ClockEditCli<'a>,
        answer: Result<(), CommandError>,
    ) -> bool {
        is_end_date_outcome(before, line, after, answer)
    }

    open spec fn talk(
        &self,
        state: ClockEditCli<'a>,
        line: Seq<char>,
        callbacks: C,
        after: C,
    ) -> bool {
        after == callbacks
    }

    fn run(&self, state: &mut ClockEditCli<'a>, line: &str, callbacks: &mut C) -> (answer: Result<
        (),
        CommandError,
    >) {
        let (i, value) = match entry_request(line) {
            Ok(request) => request,
            Err(e) => {
                return Err(e);
            },
        };
        let end_str = match value {
            Some(end_str) => end_str,
            None => {
                return Ok(());
            },
        };
        let date = match parse_date(end_str.as_str()) {
            Ok(date) => date,
            Err(e) => {
                return Err(CommandError::Cli(e));
            },
        };
        match state.clockedit.set_end_date(i, date) {
            Ok(()) => Ok(()),
            Err(e) => Err(CommandError::Core(e)),
        }
    }
}

/// Whether `line` shows the entry `clock` with the number `number`: the
/// number, and the text of the clock with its task by the titles from the
/// task up.
pub open spec fn is_entry_line(doc: DocView, clock: ClockView, number: int, line: Seq<char>) -> bool {
    exists|task: Seq<char>| #[trigger]
        doc.names_task(clock.task_id, false, task) && line == decimal_of(number) + ": "@
            + clock_text(clock, task)
}

/// Whether `lines` show the entries `entries`, one by one, by number.
pub open spec fn is_entry_lines(doc: DocView, entries: Seq<ClockView>, lines: Seq<Seq<char>>) -> bool {
    lines.len() == entries.len() && forall|i: int|
        0 <= i < lines.len() ==> is_entry_line(doc, entries[i], i + 1, #[trigger] lines[i])
}

/// The line that shows entry number `number`: the number, and the text of
/// the clock with its task by the titles from the task up.
pub fn entry_line(doc: &Doc, clock: &Clock, number: usize) -> (line: String)
    ensures
        is_entry_line(doc@, clock@, number as int, line@),
{
    let mut line = decimal(number);
    line.append(": ");
    let text = write_clock(doc, clock, false);
    line.append(text.as_str());
    line
}

impl<'a, C: CliCallbacks<ClockEditCli<'a>>> Command<ClockEditCli<'a>, C> for LsCommand {
    open spec fn outcome(
        &self,
        before: ClockEditCli<'a>,
        line: Seq<char>,
        after: ClockEditCli<'a>,
        answer: Result<(), CommandError>,
    ) -> bool {
        after == before && answer is Ok
    }

    open spec fn talk(
        &self,
        state: ClockEditCli<'a>,
        line: Seq<char>,
        callbacks: C,
        after: C,
    ) -> bool {
        exists|lines: Seq<Seq<char>>| #[trigger]
            is_entry_lines(state.doc@, state.clockedit@, lines) && printed::<ClockEditCli<'a>, C>(
                callbacks,
                with_line_ends(lines),
                after,
            )
    }

    fn run(&self, state: &mut ClockEditCli<'a>, line: &str, callbacks: &mut C) -> (answer: Result<
        (),
        CommandError,
    >) {
        let ghost mut lines: Seq<Seq<char>> = Seq::empty();
        let mut i: usize = 0;
        while i < state.clockedit.clocks.len()
            invariant
                *state == *old(state),
                i <= state.clockedit@.len(),
                lines.len() == i,
                forall|j: int|
                    0 <= j < i ==> is_entry_line(
                        state.doc@,
                        state.clockedit@[j],
                        j + 1,
                        #[trigger] lines[j],
                    ),
                printed::<ClockEditCli<'a>, C>(*old(callbacks), with_line_ends(lines), *callbacks),
            decreases state.clockedit.clocks@.len() - i,
        {
            let shown = entry_line(state.doc, &state.clockedit.clocks[i], i + 1);
            let ghost mid = *callbacks;
            callbacks.println(shown.as_str());
            proof {
                assert(state.clockedit@[i as int] == state.clockedit.clocks@[i as int]@);
                lemma_printed_more::<ClockEditCli<'a>, C>(
                    *old(callbacks),
                    with_line_ends(lines),
                    mid,
                    shown@ + "\n"@,
                    *callbacks,
                );
                assert(with_line_ends(lines.push(shown@)) =~= with_line_ends(lines).push(
                    shown@ + "\n"@,
                ));
                lines = lines.push(shown@);
            }
            i += 1;
        }
        proof {
            assert(is_entry_lines(state.doc@, state.clockedit@, lines));
        }
        Ok(())
    }
}

impl<'a> ClockEditCli<'a> {
    /// A session on the clocks of `doc` that start on the day `date`, which
    /// ends without effect unless it is told otherwise.
    pub fn open(doc: &'a Doc, date: Date) -> (session: ClockEditCli<'a>)
        ensures
            session.doc == doc,
            session.apply_result == ExitAction::Cancel,
            doc@.is_selection(session.clockedit@, date, date, None),
            crate::clock::sorted_by_start(session.clockedit@),
    {
        ClockEditCli { clockedit: doc.create_clock_edit(date), apply_result: ExitAction::Cancel, doc }
    }

    /// Gives a command line the commands of a clock edit: `cancel`,
    /// `start`, `end`, `enddate`, `apply` and `ls`.
    pub fn apply_commands<C: CliCallbacks<ClockEditCli<'a>>>(
        terminal: &mut Cli<ClockEditCli<'a>, C>,
    )
        ensures
            final(terminal).state == old(terminal).state,
            final(terminal).callbacks == old(terminal).callbacks,
            final(terminal).handlers().dom() == old(terminal).handlers().dom().insert(
                "cancel"@,
            ).insert("start"@).insert("end"@).insert("enddate"@).insert("apply"@).insert("ls"@),
            forall|name: Seq<char>|
                old(terminal).handlers().contains_key(name) && !is_session_command(name) ==> (
                #[trigger] final(terminal).handlers()[name]).same_as(old(terminal).handlers()[name]),
            forall|
                name: Seq<char>,
                before: ClockEditCli<'a>,
                line: Seq<char>,
                after: ClockEditCli<'a>,
                answer: Result<(), CommandError>,
            |
                is_session_command(name) ==> (#[trigger] final(terminal).handlers()[name].0.outcome(
                    before,
                    line,
                    after,
                    answer,
                ) <==> is_session_outcome(name, before, line, after, answer)),
            forall|
                name: Seq<char>,
                state: ClockEditCli<'a>,
                line: Seq<char>,
                callbacks: C,
                after: C,
            |
                is_session_command(name) ==> (#[trigger] final(terminal).handlers()[name].0.talk(
                    state,
                    line,
                    callbacks,
                    after,
                ) <==> is_session_talk::<C>(name, state, line, callbacks, after)),
    {
        proof {
            lemma_session_commands_differ();
        }
        terminal.register_command("cancel", Func(Box::new(CancelCommand)));
        terminal.register_command("start", Func(Box::new(StartCommand)));
        terminal.register_command("end", Func(Box::new(EndCommand)));
        terminal.register_command("enddate", Func(Box::new(EndDateCommand)));
        terminal.register_command("apply", Func(Box::new(ApplyCommand)));
        terminal.register_command("ls", Func(Box::new(LsCommand)));
    }
}

/// Whether `name` is the name of a command of a clock edit.
pub open spec fn is_session_command(name: Seq<char>) -> bool {
    name == "cancel"@ || name == "start"@ || name == "end"@ || name == "enddate"@ || name
        == "apply"@ || name == "ls"@
}

/// What the command `name` of a clock edit may do.
pub open spec fn is_session_outcome(
    name: Seq<char>,
    before: ClockEditCli,
    line: Seq<char>,
    after: ClockEditCli,
    answer: Result<(), CommandError>,
) -> bool {
    if name == "start"@ {
        is_start_outcome(before, line, after, answer)
    } else if name == "end"@ {
        is_end_outcome(before, line, after, answer)
    } else if name == "enddate"@ {
        is_end_date_outcome(before, line, after, answer)
    } else if name == "apply"@ {
        &&& answer is Ok
        &&& after.apply_result == ExitAction::Apply
        &&& after.clockedit == before.clockedit
        &&& after.doc == before.doc
    } else {
        after == before && answer is Ok
    }
}

/// What the command `name` of a clock edit may make of the callbacks:
/// `cancel` and `apply` ask to leave, `ls` prints the entries, and the
/// others leave them as they are.
pub open spec fn is_session_talk<'a, C: CliCallbacks<ClockEditCli<'a>>>(
    name: Seq<char>,
    state: ClockEditCli<'a>,
    line: Seq<char>,
    callbacks: C,
    after: C,
) -> bool {
    if name == "cancel"@ || name == "apply"@ {
        callbacks.leaves(&after)
    } else if name == "ls"@ {
        exists|lines: Seq<Seq<char>>| #[trigger]
            is_entry_lines(state.doc@, state.clockedit@, lines) && printed::<ClockEditCli<'a>, C>(
                callbacks,
                with_line_ends(lines),
                after,
            )
    } else {
        after == callbacks
    }
}

/// No two commands of a clock edit have one name.
pub proof fn lemma_session_commands_differ()
    ensures
        "cancel"@ != "start"@,
        "cancel"@ != "end"@,
        "cancel"@ != "enddate"@,
        "cancel"@ != "apply"@,
        "cancel"@ != "ls"@,
        "start"@ != "end"@,
        "start"@ != "enddate"@,
        "start"@ != "apply"@,
        "start"@ != "ls"@,
        "end"@ != "enddate"@,
        "end"@ != "apply"@,
        "end"@ != "ls"@,
        "enddate"@ != "apply"@,
        "enddate"@ != "ls"@,
        "apply"@ != "ls"@,
{
    reveal_strlit("cancel");
    reveal_strlit("start");
    reveal_strlit("end");
    reveal_strlit("enddate");
    reveal_strlit("apply");
    reveal_strlit("ls");
    assert("cancel"@.len() == 6);
    assert("start"@.len() == 5);
    assert("end"@.len() == 3);
    assert("enddate"@.len() == 7);
    assert("apply"@.len() == 5);
    assert("ls"@.len() == 2);
    assert("start"@[0] != "apply"@[0]);
}

impl Doc {
    /// Ends a clock edit: the working copy is applied where the session
    /// says so, and dropped where it does not.
    pub fn finish_clock_edit(&mut self, clockedit: ClockEdit, outcome: ExitAction)
        ensures
            final(self)@ == match outcome {
                ExitAction::Apply => old(self)@.upsert_clocks(clockedit@),
                ExitAction::Cancel => old(self)@,
            },
            old(self)@.wf() ==> final(self)@.wf(),
    {
        match outcome {
            ExitAction::Apply => self.apply_clock_edit(clockedit),
            ExitAction::Cancel => {},
        }
    }
}

} // verus!
