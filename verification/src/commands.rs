//! The commands of the task tracker: what each does to the state.

use crate::cli::{
    lemma_printed_more, printed, with_line_ends, Cli, CliCallbacks, CliInputResult, Command, Func,
};
use crate::clock::{clock_views, ClockView};
use crate::doc::{Doc, DocView};
use crate::error::{CliError, CommandError, Error};
use crate::helper::{
    days_before, display_clocks, is_parsed_date, parse_date, shows_clocks, task_trail,
};
use crate::ident::{format_id, id_text};
use crate::render::rec_print;
use crate::state::{Autosave, State};
use crate::tasks::{without, Progress, Task, TaskMod, TaskView};
use crate::text::{
    decimal, decimal_of, describe_int_error, parse_i64, parse_usize, split_all, texts, trim,
    trim_of,
};
use crate::time::{now, Date, Timestamp};
use vstd::prelude::*;
use vstd::std_specs::hash::*;

verus! {

/// The second word of `line`, if there is one.
pub fn second_word(line: &str) -> (word: Option<String>)
    ensures
        match word {
            Some(text) => crate::text::split(line@, ' ').len() >= 2 && text@ == crate::text::split(
                line@,
                ' ',
            )[1],
            None => crate::text::split(line@, ' ').len() < 2,
        },
{
    let words = split_all(line, ' ');
    if words.len() >= 2 {
        assert(crate::text::texts(words@)[1] == words@[1]@);
        Some(words[1].clone())
    } else {
        None
    }
}

impl DocView {
    /// The document after the child with the number `from` of the task
    /// `parent` was moved to the number `to`, both counted from 1.
    /// Unchanged where there is no such parent or no such number.
    pub open spec fn reorder(self, parent: u128, from: int, to: int) -> DocView {
        if self.tasks.contains_key(parent) && 1 <= from <= self.tasks[parent].children.len() && 1
            <= to <= self.tasks[parent].children.len() {
            self.insert_child(parent, self.tasks[parent].children[from - 1], to - 1)
        } else {
            self
        }
    }

    /// The document after the task `task` got the progress state
    /// `progress`. Unchanged where there is no such task.
    pub open spec fn set_progress(self, task: u128, progress: Progress) -> DocView {
        if self.tasks.contains_key(task) {
            self.upsert(self.tasks[task].with_progress(progress))
        } else {
            self
        }
    }

    /// The document after `child` was appended to the children of
    /// `parent`. Unchanged where there is no such parent.
    pub open spec fn adopt(self, parent: u128, child: u128) -> DocView {
        if self.tasks.contains_key(parent) {
            self.upsert(self.tasks[parent].with_child_added(child))
        } else {
            self
        }
    }
}

impl State {
    /// Nothing but the document differs.
    pub open spec fn same_but_doc(&self, before: &State) -> bool {
        &&& self.wt == before.wt
        &&& self.parents == before.parents
        &&& self.path == before.path
        &&& self.autosave == before.autosave
    }

    /// Gives the task one works on the progress state `progress`.
    pub fn set_progress(&mut self, progress: Progress) -> (r: Result<(), Error>)
        ensures
            final(self).same_but_doc(old(self)),
            final(self).doc@ == old(self).doc@.set_progress(old(self).wt, progress),
            match r {
                Ok(()) => old(self).doc@.tasks.contains_key(old(self).wt),
                Err(e) => e == Error::TaskUuidNotFound && !old(self).doc@.tasks.contains_key(
                    old(self).wt,
                ),
            },
    {
        let mut task = match self.doc.get(&self.wt) {
            Ok(task) => task,
            Err(e) => {
                return Err(e);
            },
        };
        task.set_progress(progress);
        self.doc.upsert(task);
        Ok(())
    }

    /// Whether `after` and `r` are what comes of going along `path` where
    /// it leads to `target`: one is at the target, or, where there is none,
    /// one stays where one is, with an error.
    pub open spec fn is_change(
        &self,
        path: Seq<char>,
        target: Option<u128>,
        after: &State,
        r: Result<(), CliError>,
    ) -> bool {
        &&& self.leads_to(path, target)
        &&& after.parents == self.parents
        &&& match target {
            Some(task) => r is Ok && after.wt == task,
            None => after.wt == self.wt && (r matches Err(CliError::ParseError { msg }) && msg@
                == "Couldn\'t resolve path"@),
        }
    }

    /// Goes to the task that `path` leads to, or to the root where there is
    /// no path. A path that leads nowhere is an error, and one stays where
    /// one is.
    pub fn change_dir(&mut self, path: Option<&str>) -> (r: Result<(), CliError>)
        ensures
            final(self).doc == old(self).doc,
            final(self).path == old(self).path,
            final(self).autosave == old(self).autosave,
            path is None ==> r is Ok && final(self).wt == old(self).doc.root
                && final(self).parents@.len() == 0,
            path is Some ==> exists|target: Option<u128>| #[trigger]
                old(self).is_change(path->0@, target, final(self), r),
    {
        match path {
            Some(path) => {
                let target = self.uuid_for_path(path);
                let r = match target {
                    Some(task) => {
                        self.wt = task;
                        Ok(())
                    },
                    None => Err(
                        CliError::ParseError { msg: "Couldn\'t resolve path".to_owned() },
                    ),
                };
                assert(old(self).is_change(path@, target, self, r));
                r
            },
            None => {
                self.wt = self.doc.root;
                self.parents = Vec::new();
                Ok(())
            },
        }
    }

    /// Whether `after` and `r` are what comes of moving the child with the
    /// number `from` of the task one works on to the number `to`, both
    /// counted from 1: the child is taken out and put in at that place of
    /// what is left. A number that the list does not have is an error, and
    /// so is a place beyond what is left.
    pub open spec fn is_reorder(&self, from: int, to: int, after: DocView, r: Result<(), Error>) -> bool {
        let doc = self.doc@;
        if !doc.tasks.contains_key(self.wt) {
            after == doc && r == Err::<(), Error>(Error::TaskUuidNotFound)
        } else {
            let children = doc.tasks[self.wt].children;
            if 1 <= from <= children.len() && 1 <= to <= children.len() && to <= without(
                children,
                children[from - 1],
            ).len() + 1 {
                after == doc.reorder(self.wt, from, to) && r is Ok
            } else {
                after == doc && r == Err::<(), Error>(Error::ChildOutOfIndex)
            }
        }
    }

    /// Moves the child with the number `idx_from` of the task one works on
    /// to the number `idx_to`, both counted from 1: the child is taken out
    /// and put in at that place of what is left.
    pub fn reorder(&mut self, idx_from: usize, idx_to: usize) -> (r: Result<(), Error>)
        ensures
            final(self).same_but_doc(old(self)),
            old(self).is_reorder(idx_from as int, idx_to as int, final(self).doc@, r),
    {
        let task = match self.doc.get(&self.wt) {
            Ok(task) => task,
            Err(e) => {
                return Err(e);
            },
        };
        if idx_from == 0 || idx_from > task.children.len() {
            return Err(Error::ChildOutOfIndex);
        }
        if idx_to == 0 || idx_to > task.children.len() {
            return Err(Error::ChildOutOfIndex);
        }
        let from_id: u128 = task.children[idx_from - 1];
        let wt: u128 = self.wt;
        self.doc.insert_child(&wt, &from_id, idx_to - 1)
    }

    /// Whether `after` and `r` are what comes of taking out the task that
    /// `path` leads to, where that is `target` and a search for its parent
    /// finds `parent`.
    pub open spec fn is_removal(
        &self,
        path: Seq<char>,
        target: Option<u128>,
        parent: Option<u128>,
        after: DocView,
        r: Result<(), Error>,
    ) -> bool {
        &&& self.leads_to(path, target)
        &&& match target {
            Some(task) => self.doc@.parent_found(task, parent),
            None => true,
        }
        &&& match (target, parent) {
            (Some(task), Some(parent)) => after == self.doc@.remove_child(parent, task) && match r {
                Ok(()) => self.doc@.tasks.contains_key(parent),
                Err(e) => e == Error::TaskUuidNotFound && !self.doc@.tasks.contains_key(parent),
            },
            _ => after == self.doc@ && r is Ok,
        }
    }

    /// Takes the task that `path` leads to out of the children of its
    /// parent. Nothing happens where the path leads nowhere or the task has
    /// no parent.
    pub fn remove_task(&mut self, path: &str) -> (r: Result<(), Error>)
        ensures
            final(self).same_but_doc(old(self)),
            exists|target: Option<u128>, parent: Option<u128>| #[trigger]
                old(self).is_removal(path@, target, parent, final(self).doc@, r),
    {
        let target = self.uuid_for_path(path);
        match target {
            Some(child_id) => {
                let found = self.doc.find_parent(&child_id);
                let r = match found {
                    Some(parent) => self.doc.remove_child(&parent, &child_id),
                    None => Ok(()),
                };
                assert(old(self).is_removal(path@, target, found, self.doc@, r));
                r
            },
            None => {
                assert(old(self).is_removal(path@, target, None, self.doc@, Ok(())));
                Ok(())
            },
        }
    }

    /// Whether `after` and `r` are what comes of moving the task `dest`
    /// below the task `to`, where a search for the parent of `dest` finds
    /// `parent`: without a parent nothing happens; else `dest` is taken out
    /// of the children of `parent` and appended to those of `to`. Where
    /// `to` is not stored, `dest` stays taken out.
    pub open spec fn is_move(
        &self,
        dest: u128,
        to: u128,
        parent: Option<u128>,
        after: DocView,
        r: Result<(), CommandError>,
    ) -> bool {
        let doc = self.doc@;
        &&& doc.parent_found(dest, parent)
        &&& match parent {
            None => after == doc && (r matches Err(CommandError::Cli(CliError::OtherError { msg }))
                && msg@ == "Couldn\'t find parent"@),
            Some(parent) => if !doc.tasks.contains_key(parent) {
                after == doc && r == Err::<(), CommandError>(
                    CommandError::Core(Error::TaskUuidNotFound),
                )
            } else {
                let taken = doc.remove_child(parent, dest);
                after == taken.adopt(to, dest) && if taken.tasks.contains_key(to) {
                    r is Ok
                } else {
                    r == Err::<(), CommandError>(CommandError::Core(Error::TaskUuidNotFound))
                }
            },
        }
    }

    /// Moves the task `dest_id` below the task `to_id`: it is taken out of
    /// the children of a parent of its, and appended to those of `to_id`.
    /// Where `to_id` is not stored, the task stays taken out.
    pub fn move_task(&mut self, dest_id: u128, to_id: u128) -> (r: Result<(), CommandError>)
        ensures
            final(self).same_but_doc(old(self)),
            exists|parent: Option<u128>| #[trigger]
                old(self).is_move(dest_id, to_id, parent, final(self).doc@, r),
    {
        let found = self.doc.find_parent(&dest_id);
        let parent_id = match found {
            Some(parent_id) => parent_id,
            None => {
                let r = Err(
                    CommandError::Cli(
                        CliError::OtherError { msg: "Couldn\'t find parent".to_owned() },
                    ),
                );
                assert(old(self).is_move(dest_id, to_id, found, self.doc@, r));
                return r;
            },
        };
        match self.doc.remove_child(&parent_id, &dest_id) {
            Ok(()) => {},
            Err(e) => {
                let r = Err(CommandError::Core(e));
                assert(old(self).is_move(dest_id, to_id, found, self.doc@, r));
                return r;
            },
        }
        let mut task = match self.doc.get(&to_id) {
            Ok(task) => task,
            Err(e) => {
                let r = Err(CommandError::Core(e));
                assert(old(self).is_move(dest_id, to_id, found, self.doc@, r));
                return r;
            },
        };
        task.add_child(dest_id);
        self.doc.upsert(task);
        assert(old(self).is_move(dest_id, to_id, found, self.doc@, Ok(())));
        Ok(())
    }

    /// Whether the task one works on can be shown: it is stored, and so
    /// are its children.
    pub open spec fn can_list(&self) -> bool {
        self.doc@.tasks.contains_key(self.wt) && self.doc@.all_stored(
            self.doc@.tasks[self.wt].children,
        )
    }

    /// Whether `lines` are what is shown of the task one works on, with the
    /// titles along some path from it to the top.
    pub open spec fn is_listing(&self, lines: Seq<Seq<char>>) -> bool {
        exists|path: Seq<u128>| #[trigger]
            self.doc@.is_path(self.wt, path) && lines == self.doc@.listing(
                self.wt,
                self.doc@.trail(path, true),
            )
    }

    /// What is shown of the task one works on: the titles from the top
    /// down to it with the count of its children that are done, its body,
    /// and its children by number.
    pub fn listing(&self) -> (r: Result<Vec<String>, Error>)
        ensures
            match r {
                Ok(lines) => self.can_list() && self.is_listing(texts(lines@)),
                Err(e) => e == Error::TaskUuidNotFound && !self.can_list(),
            },
    {
        let task = match self.doc.get(&self.wt) {
            Ok(task) => task,
            Err(e) => {
                return Err(e);
            },
        };
        let mut lines: Vec<String> = Vec::new();
        let mut top = task_trail(&self.doc, &self.wt, true);
        let ghost trail = top@;
        let (done, all_subtasks) = match self.doc.progress_summary(&self.wt) {
            Ok(counts) => counts,
            Err(e) => {
                return Err(e);
            },
        };
        top.append("  [");
        top.append(decimal(done).as_str());
        top.append("/");
        top.append(decimal(all_subtasks).as_str());
        top.append("]");
        let ghost head = self.doc@.listing_head(self.wt, trail);
        lines.push(top);
        lines.push(String::new());
        lines.push(task.body.clone());
        lines.push("--- Children: ".to_owned());
        assert(texts(lines@) =~= head);
        let mut i: usize = 0;
        while i < task.children.len()
            invariant
                i <= task.children@.len(),
                self.doc@.tasks.contains_key(self.wt),
                self.doc@.tasks[self.wt].children == task.children@,
                forall|j: int| 0 <= j < i ==> self.doc@.tasks.contains_key(#[trigger] task.children@[j]),
                texts(lines@) == head + self.doc@.child_lines(task.children@.take(i as int)),
            decreases task.children@.len() - i,
        {
            proof {
                let next = task.children@.take(i + 1);
                assert(next.drop_last() =~= task.children@.take(i as int));
                assert(next.last() == task.children@[i as int]);
            }
            let child = match self.doc.get(&task.children[i]) {
                Ok(child) => child,
                Err(e) => {
                    return Err(e);
                },
            };
            let progress_str = match child.progress {
                Some(progress) => progress.to_string(),
                None => String::new(),
            };
            let mut line = decimal(i + 1);
            line.append(": ");
            line.append(progress_str.as_str());
            line.append(" ");
            line.append(child.title.as_str());
            proof {
                let before = self.doc@.child_lines(task.children@.take(i as int));
                assert(texts(lines@.push(line)) =~= texts(lines@).push(line@));
                assert((head + before).push(line@) =~= head + before.push(line@));
                assert(line@ == child_line(i + 1, child@));
            }
            lines.push(line);
            i += 1;
        }
        proof {
            assert(task.children@.take(i as int) =~= task.children@);
        }
        Ok(lines)
    }
}

/// The line of the child with the number `number` in a listing.
pub open spec fn child_line(number: int, child: TaskView) -> Seq<char> {
    decimal_of(number) + ": "@ + match child.progress {
        Some(progress) => progress.label(),
        None => Seq::empty(),
    } + " "@ + child.title
}

impl DocView {
    /// The lines of the children `children` in a listing, by number.
    pub open spec fn child_lines(self, children: Seq<u128>) -> Seq<Seq<char>>
        decreases children.len(),
    {
        if children.len() == 0 {
            Seq::empty()
        } else {
            self.child_lines(children.drop_last()).push(
                child_line(children.len() as int, self.tasks[children.last()]),
            )
        }
    }

    /// With what the listing of the task `task` begins, where `trail` are
    /// the titles from the top down to it: the titles with the count of
    /// children that are done among those with any state, an empty line,
    /// the body, and the heading of the children.
    pub open spec fn listing_head(self, task: u128, trail: Seq<char>) -> Seq<Seq<char>> {
        let (done, all) = self.progress_of(self.tasks[task].children);
        seq![
            trail + "  ["@ + decimal_of(done as int) + "/"@ + decimal_of(all as int) + "]"@,
            Seq::empty(),
            self.tasks[task].body,
            "--- Children: "@,
        ]
    }

    /// The listing of the task `task`, where `trail` are the titles from
    /// the top down to it.
    pub open spec fn listing(self, task: u128, trail: Seq<char>) -> Seq<Seq<char>> {
        self.listing_head(task, trail) + self.child_lines(self.tasks[task].children)
    }
}

/// Prints `lines` one by one, each with a line feed after it.
pub fn print_lines<T, C: CliCallbacks<T>>(lines: &Vec<String>, callbacks: &mut C)
    ensures
        printed::<T, C>(*old(callbacks), with_line_ends(texts(lines@)), *final(callbacks)),
{
    let ghost all = with_line_ends(texts(lines@));
    let mut i: usize = 0;
    while i < lines.len()
        invariant
            i <= lines@.len(),
            all == with_line_ends(texts(lines@)),
            printed::<T, C>(*old(callbacks), all.take(i as int), *callbacks),
        decreases lines@.len() - i,
    {
        let ghost mid = *callbacks;
        callbacks.println(lines[i].as_str());
        proof {
            assert(all[i as int] == lines@[i as int]@ + "\n"@);
            lemma_printed_more::<T, C>(
                *old(callbacks),
                all.take(i as int),
                mid,
                all[i as int],
                *callbacks,
            );
            assert(all.take(i + 1) =~= all.take(i as int).push(all[i as int]));
        }
        i += 1;
    }
    proof {
        assert(all.take(i as int) =~= all);
    }
}

/// `exit`: leave.
pub struct ExitCommand;

/// `ls`: show the task one works on.
pub struct LsCommand;

/// `ed`: rework the task one works on in the editor.
pub struct EdCommand;

/// `add`: make a task in the editor and add it below the one one works on.
pub struct AddCommand;

/// `cd [path]`: go to another task.
pub struct CdCommand;

/// `todo`, `work`, `done`: give the task one works on a progress state.
pub struct ProgressCommand(pub Progress);

/// `id`: show the identifier of the task one works on.
pub struct IdCommand;

/// `parent`: show the identifier of the parent.
pub struct ParentCommand;

/// `rm <path>`: take a task out of the children of its parent.
pub struct RmCommand;

/// `mv <path> <path>`: move a task below another.
pub struct MvCommand;

/// `outline [depth]`: show the tasks below the one one works on.
pub struct OutlineCommand;

/// `reorder <from> <to>`: move a child to another place.
pub struct ReorderCommand;

/// `cli`: start a clock on the task one works on.
pub struct ClockInCommand;

/// `cln`: start a clock.
pub struct ClockNewCommand;

/// `cla`: give the running clock the task one works on.
pub struct ClockAssignCommand;

/// `clo`: stop the running clock.
pub struct ClockOutCommand;

/// `clc`: ask for a comment and give it to the running clock.
pub struct ClockCommentCommand;

/// `taskclock`: show the clocks of the task one works on.
pub struct TaskClockCommand;

/// `dayclock [day]`: show the clocks of a day, today's where none is named.
pub struct DayClockCommand;

/// `rangeclock <days>`: show the clocks of the last days.
pub struct RangeClockCommand;

/// `autosave`, `noautosave`: say when the document is written.
pub struct AutosaveCommand(pub Autosave);

/// Whether `after` is what becomes of the callbacks when the parent of the
/// task `id` is shown, where a search for it finds `found`: its identifier
/// is printed, and nothing where there is none.
pub open spec fn shows_parent<C: CliCallbacks<State>>(
    doc: DocView,
    id: u128,
    found: Option<u128>,
    callbacks: C,
    after: C,
) -> bool {
    doc.parent_found(id, found) && match found {
        Some(parent) => callbacks.prints("Parent Task ID: "@ + id_text(parent) + "\n"@, &after),
        None => after == callbacks,
    }
}

/// Whether `day` is what `dayclock` may make of `line`: the day that the
/// second word names, or today where there is none.
pub open spec fn is_day_asked(line: Seq<char>, day: Result<Date, CliError>) -> bool {
    let words = crate::text::split(line, ' ');
    if words.len() >= 2 {
        is_parsed_date(words[1], day)
    } else {
        day matches Ok(today) && today.in_calendar()
    }
}

/// Whether `after` is what becomes of the callbacks when `dayclock` runs on
/// `line`, where that asks for `day`: the report on the clocks of that day
/// within the task one works on is printed, and nothing where there is no
/// such day.
pub open spec fn shows_day<C: CliCallbacks<State>>(
    state: State,
    line: Seq<char>,
    day: Result<Date, CliError>,
    clocks: Seq<ClockView>,
    now: Timestamp,
    lines: Seq<Seq<char>>,
    callbacks: C,
    after: C,
) -> bool {
    is_day_asked(line, day) && match day {
        Ok(date) => state.doc@.is_selection(clocks, date, date, Some(state.wt)) && shows_clocks::<
            State,
            C,
        >(state.doc@, clocks, now, lines, callbacks, after),
        Err(_) => after == callbacks,
    }
}

/// Whether `after` is what becomes of the callbacks when `rangeclock` runs
/// for the last `days` days, where today is `end`: the report on the clocks
/// of those days within the task one works on is printed, and nothing where
/// the first of the days cannot be counted.
pub open spec fn shows_range<C: CliCallbacks<State>>(
    state: State,
    days: i64,
    end: Date,
    clocks: Seq<ClockView>,
    now: Timestamp,
    lines: Seq<Seq<char>>,
    callbacks: C,
    after: C,
) -> bool {
    end.in_calendar() && match days_before(end, days) {
        Some(start) => state.doc@.is_selection(clocks, start, end, Some(state.wt))
            && shows_clocks::<State, C>(state.doc@, clocks, now, lines, callbacks, after),
        None => after == callbacks,
    }
}

/// What became of a failure of the document.
pub fn answer_of(r: Result<(), Error>) -> (answer: Result<(), CommandError>)
    ensures
        answers(r, answer),
{
    match r {
        Ok(()) => Ok(()),
        Err(e) => Err(CommandError::Core(e)),
    }
}

impl<C: CliCallbacks<State>> Command<State, C> for ExitCommand {
    open spec fn outcome(
        &self,
        before: State,
        line: Seq<char>,
        after: State,
        answer: Result<(), CommandError>,
    ) -> bool {
        after == before && answer is Ok
    }

    open spec fn talk(&self, state: State, line: Seq<char>, callbacks: C, after: C) -> bool {
        callbacks.leaves(&after)
    }

    fn run(&self, state: &mut State, line: &str, callbacks: &mut C) -> (answer: Result<
        (),
        CommandError,
    >) {
        callbacks.exit();
        Ok(())
    }
}

impl<C: CliCallbacks<State>> Command<State, C> for LsCommand {
    open spec fn outcome(
        &self,
        before: State,
        line: Seq<char>,
        after: State,
        answer: Result<(), CommandError>,
    ) -> bool {
        after == before && answers(
            if before.can_list() {
                Ok(())
            } else {
                Err(Error::TaskUuidNotFound)
            },
            answer,
        )
    }

    open spec fn talk(&self, state: State, line: Seq<char>, callbacks: C, after: C) -> bool {
        if state.can_list() {
            exists|lines: Seq<Seq<char>>| #[trigger]
                state.is_listing(lines) && printed::<State, C>(
                    callbacks,
                    with_line_ends(lines),
                    after,
                )
        } else {
            after == callbacks
        }
    }

    fn run(&self, state: &mut State, line: &str, callbacks: &mut C) -> (answer: Result<
        (),
        CommandError,
    >) {
        match state.listing() {
            Ok(lines) => {
                print_lines(&lines, callbacks);
                Ok(())
            },
            Err(e) => Err(CommandError::Core(e)),
        }
    }
}

/// Whether `after` and `answer` are what comes of the editor returning
/// `content` for `task`: the task is stored with the title and the body
/// that the content shows. Content without a first line is an error.
pub open spec fn is_edit(
    doc: DocView,
    task: TaskView,
    content: Seq<char>,
    after: DocView,
    answer: Result<(), CommandError>,
) -> bool {
    match task.edited(content) {
        Some(edited) => after == doc.upsert(edited) && answer is Ok,
        None => after == doc && answer matches Err(CommandError::Other(_)),
    }
}

/// Whether `after` and `answer` are what comes of the editor returning
/// `content` for a new task `id` that is to stand below `parent`.
pub open spec fn is_addition(
    doc: DocView,
    parent: u128,
    id: u128,
    content: Seq<char>,
    after: DocView,
    answer: Result<(), CommandError>,
) -> bool {
    match TaskView::empty(id).edited(content) {
        Some(edited) => after == doc.add_subtask(edited, parent) && answers(
            if doc.tasks.contains_key(parent) {
                Ok(())
            } else {
                Err(Error::TaskUuidNotFound)
            },
            answer,
        ),
        None => after == doc && answer matches Err(CommandError::Other(_)),
    }
}

impl<C: CliCallbacks<State>> Command<State, C> for EdCommand {
    open spec fn outcome(
        &self,
        before: State,
        line: Seq<char>,
        after: State,
        answer: Result<(), CommandError>,
    ) -> bool {
        after.same_but_doc(&before) && if before.doc@.tasks.contains_key(before.wt) {
            exists|content: Seq<char>| #[trigger]
                is_edit(before.doc@, before.doc@.tasks[before.wt], content, after.doc@, answer)
        } else {
            after.doc@ == before.doc@ && answer == Err::<(), CommandError>(
                CommandError::Core(Error::TaskUuidNotFound),
            )
        }
    }

    open spec fn talk(&self, state: State, line: Seq<char>, callbacks: C, after: C) -> bool {
        if state.doc@.tasks.contains_key(state.wt) {
            exists|edited: Seq<char>| #[trigger]
                callbacks.edits(state.doc@.tasks[state.wt].edit_text(), &after, edited)
        } else {
            after == callbacks
        }
    }

    fn run(&self, state: &mut State, line: &str, callbacks: &mut C) -> (answer: Result<
        (),
        CommandError,
    >) {
        let mut task = match state.doc.get(&state.wt) {
            Ok(task) => task,
            Err(e) => {
                return Err(CommandError::Core(e));
            },
        };
        let content = callbacks.edit_string(task.edit_text());
        if !task.apply_edit_text(content.as_str()) {
            let answer = Err(CommandError::Other("Couldn\'t extract title".to_owned()));
            assert(is_edit(
                old(state).doc@,
                old(state).doc@.tasks[old(state).wt],
                content@,
                state.doc@,
                answer,
            ));
            return answer;
        }
        state.doc.upsert(task);
        assert(is_edit(
            old(state).doc@,
            old(state).doc@.tasks[old(state).wt],
            content@,
            state.doc@,
            Ok(()),
        ));
        Ok(())
    }
}

impl<C: CliCallbacks<State>> Command<State, C> for AddCommand {
    open spec fn outcome(
        &self,
        before: State,
        line: Seq<char>,
        after: State,
        answer: Result<(), CommandError>,
    ) -> bool {
        after.same_but_doc(&before) && exists|id: u128, content: Seq<char>| #[trigger]
            is_addition(before.doc@, before.wt, id, content, after.doc@, answer)
    }

    open spec fn talk(&self, state: State, line: Seq<char>, callbacks: C, after: C) -> bool {
        exists|id: u128, edited: Seq<char>| #[trigger]
            callbacks.edits(TaskView::empty(id).edit_text(), &after, edited)
    }

    fn run(&self, state: &mut State, line: &str, callbacks: &mut C) -> (answer: Result<
        (),
        CommandError,
    >) {
        let mut task = Task::new();
        let ghost id = task.id;
        let content = callbacks.edit_string(task.edit_text());
        if !task.apply_edit_text(content.as_str()) {
            let answer = Err(CommandError::Other("Couldn\'t extract title".to_owned()));
            assert(is_addition(old(state).doc@, old(state).wt, id, content@, state.doc@, answer));
            return answer;
        }
        let wt: u128 = state.wt;
        let answer = answer_of(state.doc.add_subtask(task, &wt));
        assert(is_addition(old(state).doc@, old(state).wt, id, content@, state.doc@, answer));
        answer
    }
}

/// What became of a failure of the document as the answer of a command.
pub open spec fn answers(r: Result<(), Error>, answer: Result<(), CommandError>) -> bool {
    match r {
        Ok(()) => answer is Ok,
        Err(e) => answer == Err::<(), CommandError>(CommandError::Core(e)),
    }
}

/// What `cd` may do: with a path one goes where it leads, without one to
/// the root.
pub open spec fn is_cd_outcome(
    before: State,
    line: Seq<char>,
    after: State,
    answer: Result<(), CommandError>,
) -> bool {
    let words = crate::text::split(line, ' ');
    &&& after.doc == before.doc
    &&& after.path == before.path
    &&& after.autosave == before.autosave
    &&& if words.len() >= 2 {
        exists|target: Option<u128>, r: Result<(), CliError>| #[trigger]
            before.is_change(words[1], target, &after, r) && match r {
                Ok(()) => answer is Ok,
                Err(e) => answer == Err::<(), CommandError>(CommandError::Cli(e)),
            }
    } else {
        answer is Ok && after.wt == before.doc.root && after.parents@.len() == 0
    }
}

/// What `rm` may do: with a path the task that it leads to is taken out of
/// the children of its parent, without one nothing happens.
pub open spec fn is_rm_outcome(
    before: State,
    line: Seq<char>,
    after: State,
    answer: Result<(), CommandError>,
) -> bool {
    let words = crate::text::split(line, ' ');
    if words.len() >= 2 {
        after.same_but_doc(&before) && exists|
            target: Option<u128>,
            parent: Option<u128>,
            r: Result<(), Error>,
        | #[trigger]
            before.is_removal(words[1], target, parent, after.doc@, r) && answers(r, answer)
    } else {
        after == before && answer is Ok
    }
}

/// What `reorder` may do: with two numbers the child with the first
/// number is moved to the second.
pub open spec fn is_reorder_outcome(
    before: State,
    line: Seq<char>,
    after: State,
    answer: Result<(), CommandError>,
) -> bool {
    let words = crate::text::split(line, ' ');
    if words.len() < 2 {
        after == before && answer == Err::<(), CommandError>(
            CommandError::Core(Error::UnsufficientInput),
        )
    } else if crate::text::parsed_usize(words[1]) is None {
        after == before && answer matches Err(CommandError::Other(_))
    } else if words.len() < 3 {
        after == before && answer == Err::<(), CommandError>(
            CommandError::Core(Error::UnsufficientInput),
        )
    } else if crate::text::parsed_usize(words[2]) is None {
        after == before && answer matches Err(CommandError::Other(_))
    } else {
        after.same_but_doc(&before) && exists|r: Result<(), Error>| #[trigger]
            before.is_reorder(
                crate::text::parsed_usize(words[1])->0 as int,
                crate::text::parsed_usize(words[2])->0 as int,
                after.doc@,
                r,
            ) && answers(r, answer)
    }
}

impl<C: CliCallbacks<State>> Command<State, C> for CdCommand {
    open spec fn outcome(
        &self,
        before: State,
        line: Seq<char>,
        after: State,
        answer: Result<(), CommandError>,
    ) -> bool {
        is_cd_outcome(before, line, after, answer)
    }

    open spec fn talk(&self, state: State, line: Seq<char>, callbacks: C, after: C) -> bool {
        after == callbacks
    }

    fn run(&self, state: &mut State, line: &str, callbacks: &mut C) -> (answer: Result<
        (),
        CommandError,
    >) {
        match second_word(line) {
            Some(path) => {
                let r = state.change_dir(Some(path.as_str()));
                proof {
                    let target = choose|target: Option<u128>| #[trigger]
                        old(state).is_change(path@, target, state, r);
                    assert(old(state).is_change(path@, target, state, r));
                }
                match r {
                    Ok(()) => Ok(()),
                    Err(e) => Err(CommandError::Cli(e)),
                }
            },
            None => match state.change_dir(None) {
                Ok(()) => Ok(()),
                Err(e) => Err(CommandError::Cli(e)),
            },
        }
    }
}

impl<C: CliCallbacks<State>> Command<State, C> for ProgressCommand {
    open spec fn outcome(
        &self,
        before: State,
        line: Seq<char>,
        after: State,
        answer: Result<(), CommandError>,
    ) -> bool {
        &&& after.same_but_doc(&before)
        &&& after.doc@ == before.doc@.set_progress(before.wt, self.0)
        &&& if before.doc@.tasks.contains_key(before.wt) {
            answer is Ok
        } else {
            answer == Err::<(), CommandError>(CommandError::Core(Error::TaskUuidNotFound))
        }
    }

    open spec fn talk(&self, state: State, line: Seq<char>, callbacks: C, after: C) -> bool {
        after == callbacks
    }

    fn run(&self, state: &mut State, line: &str, callbacks: &mut C) -> (answer: Result<
        (),
        CommandError,
    >) {
        answer_of(state.set_progress(self.0))
    }
}

impl<C: CliCallbacks<State>> Command<State, C> for IdCommand {
    open spec fn outcome(
        &self,
        before: State,
        line: Seq<char>,
        after: State,
        answer: Result<(), CommandError>,
    ) -> bool {
        after == before && answers(
            if before.doc@.tasks.contains_key(before.wt) {
                Ok(())
            } else {
                Err(Error::TaskUuidNotFound)
            },
            answer,
        )
    }

    open spec fn talk(&self, state: State, line: Seq<char>, callbacks: C, after: C) -> bool {
        if state.doc@.tasks.contains_key(state.wt) {
            callbacks.prints(
                "Task ID: "@ + id_text(state.doc@.tasks[state.wt].id) + "\n"@,
                &after,
            )
        } else {
            after == callbacks
        }
    }

    fn run(&self, state: &mut State, line: &str, callbacks: &mut C) -> (answer: Result<
        (),
        CommandError,
    >) {
        let task = match state.doc.get(&state.wt) {
            Ok(task) => task,
            Err(e) => {
                return Err(CommandError::Core(e));
            },
        };
        let mut text = "Task ID: ".to_owned();
        text.append(format_id(task.id).as_str());
        callbacks.println(text.as_str());
        Ok(())
    }
}

impl<C: CliCallbacks<State>> Command<State, C> for ParentCommand {
    open spec fn outcome(
        &self,
        before: State,
        line: Seq<char>,
        after: State,
        answer: Result<(), CommandError>,
    ) -> bool {
        after == before && answers(
            if before.doc@.tasks.contains_key(before.wt) {
                Ok(())
            } else {
                Err(Error::TaskUuidNotFound)
            },
            answer,
        )
    }

    open spec fn talk(&self, state: State, line: Seq<char>, callbacks: C, after: C) -> bool {
        if state.doc@.tasks.contains_key(state.wt) {
            exists|found: Option<u128>| #[trigger]
                shows_parent::<C>(
                    state.doc@,
                    state.doc@.tasks[state.wt].id,
                    found,
                    callbacks,
                    after,
                )
        } else {
            after == callbacks
        }
    }

    fn run(&self, state: &mut State, line: &str, callbacks: &mut C) -> (answer: Result<
        (),
        CommandError,
    >) {
        let task = match state.doc.get(&state.wt) {
            Ok(task) => task,
            Err(e) => {
                return Err(CommandError::Core(e));
            },
        };
        let found = state.doc.find_parent(&task.id);
        match found {
            Some(parent) => {
                let mut text = "Parent Task ID: ".to_owned();
                text.append(format_id(parent).as_str());
                callbacks.println(text.as_str());
            },
            None => {},
        }
        proof {
            assert(task.id == state.doc@.tasks[state.wt].id);
            assert(shows_parent::<C>(
                state.doc@,
                state.doc@.tasks[state.wt].id,
                found,
                *old(callbacks),
                *callbacks,
            ));
        }
        Ok(())
    }
}

impl<C: CliCallbacks<State>> Command<State, C> for RmCommand {
    open spec fn outcome(
        &self,
        before: State,
        line: Seq<char>,
        after: State,
        answer: Result<(), CommandError>,
    ) -> bool {
        is_rm_outcome(before, line, after, answer)
    }

    open spec fn talk(&self, state: State, line: Seq<char>, callbacks: C, after: C) -> bool {
        after == callbacks
    }

    fn run(&self, state: &mut State, line: &str, callbacks: &mut C) -> (answer: Result<
        (),
        CommandError,
    >) {
        match second_word(line) {
            Some(path) => {
                let r = state.remove_task(path.as_str());
                proof {
                    let (target, parent) = choose|target: Option<u128>, parent: Option<u128>| #[trigger]
                        old(state).is_removal(path@, target, parent, state.doc@, r);
                    assert(old(state).is_removal(path@, target, parent, state.doc@, r));
                }
                answer_of(r)
            },
            None => Ok(()),
        }
    }
}

/// What `mv` may do: with two paths the task that the first leads to is
/// moved below the task that the second leads to. A path that is missing
/// or leads nowhere is an error.
pub open spec fn is_mv_outcome(
    before: State,
    line: Seq<char>,
    after: State,
    answer: Result<(), CommandError>,
) -> bool {
    let words = crate::text::split(line, ' ');
    after.same_but_doc(&before) && exists|
        dest: Option<u128>,
        to: Option<u128>,
        parent: Option<u128>,
    | #[trigger]
        is_mv(before, words, dest, to, parent, after.doc@, answer)
}

/// Whether `after` and `answer` are what comes of `mv` with the words
/// `words`, where the two paths lead to `dest` and `to` and a search for the
/// parent of `dest` finds `parent`.
pub open spec fn is_mv(
    before: State,
    words: Seq<Seq<char>>,
    dest: Option<u128>,
    to: Option<u128>,
    parent: Option<u128>,
    after: DocView,
    answer: Result<(), CommandError>,
) -> bool {
    let wrong = answer matches Err(CommandError::Cli(CliError::ParseError { msg })) && msg@
        == "First path contains errors"@;
    &&& if words.len() >= 2 {
        before.leads_to(words[1], dest)
    } else {
        dest is None
    }
    &&& match dest {
        None => after == before.doc@ && wrong,
        Some(dest) => {
            &&& if words.len() >= 3 {
                before.leads_to(words[2], to)
            } else {
                to is None
            }
            &&& match to {
                None => after == before.doc@ && wrong,
                Some(to) => before.is_move(dest, to, parent, after, answer),
            }
        },
    }
}

impl<C: CliCallbacks<State>> Command<State, C> for MvCommand {
    open spec fn outcome(
        &self,
        before: State,
        line: Seq<char>,
        after: State,
        answer: Result<(), CommandError>,
    ) -> bool {
        is_mv_outcome(before, line, after, answer)
    }

    open spec fn talk(&self, state: State, line: Seq<char>, callbacks: C, after: C) -> bool {
        after == callbacks
    }

    fn run(&self, state: &mut State, line: &str, callbacks: &mut C) -> (answer: Result<
        (),
        CommandError,
    >) {
        let words = split_all(line, ' ');
        let ghost spoken = crate::text::split(line@, ' ');
        let dest = if words.len() >= 2 {
            assert(texts(words@)[1] == words@[1]@);
            state.uuid_for_path(words[1].as_str())
        } else {
            None
        };
        let dest_id = match dest {
            Some(dest_id) => dest_id,
            None => {
                let answer = Err(
                    CommandError::Cli(
                        CliError::ParseError { msg: "First path contains errors".to_owned() },
                    ),
                );
                assert(is_mv(*old(state), spoken, dest, None, None, state.doc@, answer));
                return answer;
            },
        };
        let to = if words.len() >= 3 {
            assert(texts(words@)[2] == words@[2]@);
            state.uuid_for_path(words[2].as_str())
        } else {
            None
        };
        let to_id = match to {
            Some(to_id) => to_id,
            None => {
                let answer = Err(
                    CommandError::Cli(
                        CliError::ParseError { msg: "First path contains errors".to_owned() },
                    ),
                );
                assert(is_mv(*old(state), spoken, dest, to, None, state.doc@, answer));
                return answer;
            },
        };
        let answer = state.move_task(dest_id, to_id);
        proof {
            let parent = choose|parent: Option<u128>| #[trigger]
                old(state).is_move(dest_id, to_id, parent, state.doc@, answer);
            assert(is_mv(*old(state), spoken, dest, to, parent, state.doc@, answer));
        }
        answer
    }
}

/// How deep `outline` is to go on `line`: as deep as the second word says,
/// and 1000 where there is none or it is no number.
pub open spec fn outline_depth(line: Seq<char>) -> nat {
    let words = crate::text::split(line, ' ');
    if words.len() >= 2 && crate::text::parsed_usize(words[1]) is Some {
        crate::text::parsed_usize(words[1])->0 as nat
    } else {
        1000
    }
}

impl<C: CliCallbacks<State>> Command<State, C> for OutlineCommand {
    open spec fn outcome(
        &self,
        before: State,
        line: Seq<char>,
        after: State,
        answer: Result<(), CommandError>,
    ) -> bool {
        after == before && answers(
            if before.doc@.can_outline(before.wt, 0, outline_depth(line)) {
                Ok(())
            } else {
                Err(Error::TaskUuidNotFound)
            },
            answer,
        )
    }

    open spec fn talk(&self, state: State, line: Seq<char>, callbacks: C, after: C) -> bool {
        printed::<State, C>(
            callbacks,
            state.doc@.outline(state.wt, 0, outline_depth(line)),
            after,
        )
    }

    fn run(&self, state: &mut State, line: &str, callbacks: &mut C) -> (answer: Result<
        (),
        CommandError,
    >) {
        let max_depth: usize = match second_word(line) {
            Some(depth_str) => match parse_usize(depth_str.as_str()) {
                Ok(max_depth) => max_depth,
                Err(_) => 1000,
            },
            None => 1000,
        };
        assert(max_depth as nat == outline_depth(line@));
        answer_of(rec_print(&state.doc, &state.wt, 0, max_depth, callbacks))
    }
}

impl<C: CliCallbacks<State>> Command<State, C> for ReorderCommand {
    open spec fn outcome(
        &self,
        before: State,
        line: Seq<char>,
        after: State,
        answer: Result<(), CommandError>,
    ) -> bool {
        is_reorder_outcome(before, line, after, answer)
    }

    open spec fn talk(&self, state: State, line: Seq<char>, callbacks: C, after: C) -> bool {
        after == callbacks
    }

    fn run(&self, state: &mut State, line: &str, callbacks: &mut C) -> (answer: Result<
        (),
        CommandError,
    >) {
        let words = split_all(line, ' ');
        if words.len() < 2 {
            return Err(CommandError::Core(Error::UnsufficientInput));
        }
        assert(crate::text::texts(words@)[1] == words@[1]@);
        let idx_from = match parse_usize(words[1].as_str()) {
            Ok(idx_from) => idx_from,
            Err(e) => {
                return Err(CommandError::Other(describe_int_error(&e)));
            },
        };
        if words.len() < 3 {
            return Err(CommandError::Core(Error::UnsufficientInput));
        }
        assert(crate::text::texts(words@)[2] == words@[2]@);
        let idx_to = match parse_usize(words[2].as_str()) {
            Ok(idx_to) => idx_to,
            Err(e) => {
                return Err(CommandError::Other(describe_int_error(&e)));
            },
        };
        let r = state.reorder(idx_from, idx_to);
        let answer = answer_of(r);
        proof {
            let spoken = crate::text::split(line@, ' ');
            assert(old(state).is_reorder(
                crate::text::parsed_usize(spoken[1])->0 as int,
                crate::text::parsed_usize(spoken[2])->0 as int,
                state.doc@,
                r,
            ));
        }
        answer
    }
}

impl<C: CliCallbacks<State>> Command<State, C> for ClockInCommand {
    open spec fn outcome(
        &self,
        before: State,
        line: Seq<char>,
        after: State,
        answer: Result<(), CommandError>,
    ) -> bool {
        after.same_but_doc(&before) && exists|id: u128, ended: Timestamp, started: Timestamp|
            match (#[trigger] before.doc@.clock_new(id, ended, started)).1 {
                Ok(_) => after.doc@ == before.doc@.clock_new(id, ended, started).0.clock_assign(
                    before.wt,
                ).0 && answers(
                    before.doc@.clock_new(id, ended, started).0.clock_assign(before.wt).1,
                    answer,
                ),
                Err(e) => after.doc@ == before.doc@ && answer == Err::<(), CommandError>(
                    CommandError::Core(e),
                ),
            }
    }

    open spec fn talk(&self, state: State, line: Seq<char>, callbacks: C, after: C) -> bool {
        after == callbacks
    }

    fn run(&self, state: &mut State, line: &str, callbacks: &mut C) -> (answer: Result<
        (),
        CommandError,
    >) {
        match state.doc.clock_new() {
            Ok(_) => {},
            Err(e) => {
                return Err(CommandError::Core(e));
            },
        }
        let wt: u128 = state.wt;
        answer_of(state.doc.clock_assign(wt))
    }
}

impl<C: CliCallbacks<State>> Command<State, C> for ClockNewCommand {
    open spec fn outcome(
        &self,
        before: State,
        line: Seq<char>,
        after: State,
        answer: Result<(), CommandError>,
    ) -> bool {
        after.same_but_doc(&before) && exists|id: u128, ended: Timestamp, started: Timestamp|
            after.doc@ == (#[trigger] before.doc@.clock_new(id, ended, started)).0 && match before.doc@.clock_new(
                id,
                ended,
                started,
            ).1 {
                Ok(_) => answer is Ok,
                Err(e) => answer == Err::<(), CommandError>(CommandError::Core(e)),
            }
    }

    open spec fn talk(&self, state: State, line: Seq<char>, callbacks: C, after: C) -> bool {
        after == callbacks
    }

    fn run(&self, state: &mut State, line: &str, callbacks: &mut C) -> (answer: Result<
        (),
        CommandError,
    >) {
        match state.doc.clock_new() {
            Ok(_) => Ok(()),
            Err(e) => Err(CommandError::Core(e)),
        }
    }
}

impl<C: CliCallbacks<State>> Command<State, C> for ClockAssignCommand {
    open spec fn outcome(
        &self,
        before: State,
        line: Seq<char>,
        after: State,
        answer: Result<(), CommandError>,
    ) -> bool {
        &&& after.same_but_doc(&before)
        &&& after.doc@ == before.doc@.clock_assign(before.wt).0
        &&& match before.doc@.clock_assign(before.wt).1 {
            Ok(()) => answer is Ok,
            Err(e) => answer == Err::<(), CommandError>(CommandError::Core(e)),
        }
    }

    open spec fn talk(&self, state: State, line: Seq<char>, callbacks: C, after: C) -> bool {
        after == callbacks
    }

    fn run(&self, state: &mut State, line: &str, callbacks: &mut C) -> (answer: Result<
        (),
        CommandError,
    >) {
        let wt: u128 = state.wt;
        answer_of(state.doc.clock_assign(wt))
    }
}

impl<C: CliCallbacks<State>> Command<State, C> for ClockOutCommand {
    open spec fn outcome(
        &self,
        before: State,
        line: Seq<char>,
        after: State,
        answer: Result<(), CommandError>,
    ) -> bool {
        after.same_but_doc(&before) && exists|now: Timestamp|
            after.doc@ == (#[trigger] before.doc@.clock_out(now)).0 && match before.doc@.clock_out(
                now,
            ).1 {
                Ok(_) => answer is Ok,
                Err(e) => answer == Err::<(), CommandError>(CommandError::Core(e)),
            }
    }

    open spec fn talk(&self, state: State, line: Seq<char>, callbacks: C, after: C) -> bool {
        after == callbacks
    }

    fn run(&self, state: &mut State, line: &str, callbacks: &mut C) -> (answer: Result<
        (),
        CommandError,
    >) {
        match state.doc.clock_out() {
            Ok(_) => Ok(()),
            Err(e) => Err(CommandError::Core(e)),
        }
    }
}

/// Whether `after` and `answer` are what comes of giving the running clock
/// the comment `comment`.
pub open spec fn is_comment(
    doc: DocView,
    comment: Seq<char>,
    after: DocView,
    answer: Result<(), CommandError>,
) -> bool {
    after == doc.clock_comment(comment).0 && answers(doc.clock_comment(comment).1, answer)
}

impl<C: CliCallbacks<State>> Command<State, C> for ClockCommentCommand {
    open spec fn outcome(
        &self,
        before: State,
        line: Seq<char>,
        after: State,
        answer: Result<(), CommandError>,
    ) -> bool {
        after.same_but_doc(&before) && exists|comment: Seq<char>| #[trigger]
            is_comment(before.doc@, comment, after.doc@, answer)
    }

    open spec fn talk(&self, state: State, line: Seq<char>, callbacks: C, after: C) -> bool {
        exists|input: CliInputResult| #[trigger]
            callbacks.reads("Clock comment> "@, &after, input)
    }

    fn run(&self, state: &mut State, line: &str, callbacks: &mut C) -> (answer: Result<
        (),
        CommandError,
    >) {
        let said = match callbacks.read_line("Clock comment> ") {
            CliInputResult::Value(comment) => comment,
            CliInputResult::Termination => String::new(),
        };
        let comment = trim(said.as_str());
        let answer = answer_of(state.doc.clock_comment(comment));
        assert(is_comment(old(state).doc@, comment@, state.doc@, answer));
        answer
    }
}

impl<C: CliCallbacks<State>> Command<State, C> for TaskClockCommand {
    open spec fn outcome(
        &self,
        before: State,
        line: Seq<char>,
        after: State,
        answer: Result<(), CommandError>,
    ) -> bool {
        after == before && answer is Ok
    }

    open spec fn talk(&self, state: State, line: Seq<char>, callbacks: C, after: C) -> bool {
        exists|clocks: Seq<ClockView>, now: Timestamp, lines: Seq<Seq<char>>|
            state.doc@.is_task_selection(clocks, state.wt) && #[trigger] shows_clocks::<State, C>(
                state.doc@,
                clocks,
                now,
                lines,
                callbacks,
                after,
            )
    }

    fn run(&self, state: &mut State, line: &str, callbacks: &mut C) -> (answer: Result<
        (),
        CommandError,
    >) {
        let clocks = state.doc.task_clock(&state.wt);
        display_clocks(&clocks, &state.doc, callbacks);
        Ok(())
    }
}

impl<C: CliCallbacks<State>> Command<State, C> for DayClockCommand {
    open spec fn outcome(
        &self,
        before: State,
        line: Seq<char>,
        after: State,
        answer: Result<(), CommandError>,
    ) -> bool {
        after == before && exists|day: Result<Date, CliError>| #[trigger]
            is_day_asked(line, day) && match day {
                Ok(_) => answer is Ok,
                Err(e) => answer == Err::<(), CommandError>(CommandError::Cli(e)),
            }
    }

    open spec fn talk(&self, state: State, line: Seq<char>, callbacks: C, after: C) -> bool {
        exists|
            day: Result<Date, CliError>,
            clocks: Seq<ClockView>,
            now: Timestamp,
            lines: Seq<Seq<char>>,
        | #[trigger]
            shows_day::<C>(state, line, day, clocks, now, lines, callbacks, after)
    }

    fn run(&self, state: &mut State, line: &str, callbacks: &mut C) -> (answer: Result<
        (),
        CommandError,
    >) {
        let day = match second_word(line) {
            Some(param) => parse_date(param.as_str()),
            None => Ok(now().date),
        };
        assert(is_day_asked(line@, day));
        let date = match day {
            Ok(date) => date,
            Err(e) => {
                proof {
                    assert(shows_day::<C>(
                        *state,
                        line@,
                        day,
                        Seq::empty(),
                        arbitrary(),
                        Seq::empty(),
                        *old(callbacks),
                        *callbacks,
                    ));
                }
                return Err(CommandError::Cli(e));
            },
        };
        let clocks = state.doc.day_clock(date, Some(state.wt));
        display_clocks(&clocks, &state.doc, callbacks);
        proof {
            let (now, lines) = choose|now: Timestamp, lines: Seq<Seq<char>>| #[trigger]
                shows_clocks::<State, C>(
                    state.doc@,
                    clock_views(clocks@),
                    now,
                    lines,
                    *old(callbacks),
                    *callbacks,
                );
            assert(shows_day::<C>(
                *state,
                line@,
                day,
                clock_views(clocks@),
                now,
                lines,
                *old(callbacks),
                *callbacks,
            ));
        }
        Ok(())
    }
}

impl<C: CliCallbacks<State>> Command<State, C> for RangeClockCommand {
    open spec fn outcome(
        &self,
        before: State,
        line: Seq<char>,
        after: State,
        answer: Result<(), CommandError>,
    ) -> bool {
        after == before && answer is Ok
    }

    open spec fn talk(&self, state: State, line: Seq<char>, callbacks: C, after: C) -> bool {
        let words = crate::text::split(line, ' ');
        if words.len() >= 2 && crate::text::parsed_i64(words[1]) is Some {
            exists|end: Date, clocks: Seq<ClockView>, now: Timestamp, lines: Seq<Seq<char>>| #[trigger]
                shows_range::<C>(
                    state,
                    crate::text::parsed_i64(words[1])->0,
                    end,
                    clocks,
                    now,
                    lines,
                    callbacks,
                    after,
                )
        } else {
            after == callbacks
        }
    }

    fn run(&self, state: &mut State, line: &str, callbacks: &mut C) -> (answer: Result<
        (),
        CommandError,
    >) {
        let index_str = match second_word(line) {
            Some(index_str) => index_str,
            None => {
                return Ok(());
            },
        };
        let days = match parse_i64(index_str.as_str()) {
            Ok(days) => days,
            Err(_) => {
                return Ok(());
            },
        };
        let end = now().date;
        match crate::helper::finish_date(
            crate::helper::DateRequest::DaysAgo(days),
            end,
            crate::time::LocalOffset::Skipped,
        ) {
            Ok(start) => {
                let clocks = state.doc.range_clock(start, end, Some(state.wt));
                display_clocks(&clocks, &state.doc, callbacks);
                proof {
                    let (now, lines) = choose|now: Timestamp, lines: Seq<Seq<char>>| #[trigger]
                        shows_clocks::<State, C>(
                            state.doc@,
                            clock_views(clocks@),
                            now,
                            lines,
                            *old(callbacks),
                            *callbacks,
                        );
                    let spoken = crate::text::split(line@, ' ');
                    assert(shows_range::<C>(
                        *state,
                        crate::text::parsed_i64(spoken[1])->0,
                        end,
                        clock_views(clocks@),
                        now,
                        lines,
                        *old(callbacks),
                        *callbacks,
                    ));
                }
            },
            Err(_) => {
                proof {
                    let spoken = crate::text::split(line@, ' ');
                    assert(shows_range::<C>(
                        *state,
                        crate::text::parsed_i64(spoken[1])->0,
                        end,
                        Seq::empty(),
                        arbitrary(),
                        Seq::empty(),
                        *old(callbacks),
                        *callbacks,
                    ));
                }
            },
        }
        Ok(())
    }
}

impl<C: CliCallbacks<State>> Command<State, C> for AutosaveCommand {
    open spec fn outcome(
        &self,
        before: State,
        line: Seq<char>,
        after: State,
        answer: Result<(), CommandError>,
    ) -> bool {
        &&& answer is Ok
        &&& after.autosave == self.0
        &&& after.doc == before.doc
        &&& after.wt == before.wt
        &&& after.parents == before.parents
        &&& after.path == before.path
    }

    open spec fn talk(&self, state: State, line: Seq<char>, callbacks: C, after: C) -> bool {
        after == callbacks
    }

    fn run(&self, state: &mut State, line: &str, callbacks: &mut C) -> (answer: Result<
        (),
        CommandError,
    >) {
        state.autosave = self.0;
        Ok(())
    }
}

/// Whether `name` is the name of one of the commands that
/// [`State::apply_commands`] gives.
pub open spec fn is_state_command(name: Seq<char>) -> bool {
    name == "exit"@
        || name == "ls"@
        || name == "ed"@
        || name == "add"@
        || name == "cd"@
        || name == "todo"@
        || name == "work"@
        || name == "done"@
        || name == "id"@
        || name == "parent"@
        || name == "rm"@
        || name == "mv"@
        || name == "outline"@
        || name == "reorder"@
        || name == "cli"@
        || name == "cln"@
        || name == "cla"@
        || name == "clo"@
        || name == "clc"@
        || name == "taskclock"@
        || name == "dayclock"@
        || name == "rangeclock"@
        || name == "autosave"@
        || name == "noautosave"@
}

/// What the command `name` of those that [`State::apply_commands`] gives
/// may do.
pub open spec fn is_state_outcome<C: CliCallbacks<State>>(
    name: Seq<char>,
    before: State,
    line: Seq<char>,
    after: State,
    answer: Result<(), CommandError>,
) -> bool {
    if name == "exit"@ {
        Command::<State, C>::outcome(&ExitCommand, before, line, after, answer)
    } else if name == "ls"@ {
        Command::<State, C>::outcome(&LsCommand, before, line, after, answer)
    } else if name == "ed"@ {
        Command::<State, C>::outcome(&EdCommand, before, line, after, answer)
    } else if name == "add"@ {
        Command::<State, C>::outcome(&AddCommand, before, line, after, answer)
    } else if name == "cd"@ {
        Command::<State, C>::outcome(&CdCommand, before, line, after, answer)
    } else if name == "todo"@ {
        Command::<State, C>::outcome(&ProgressCommand(Progress::Todo), before, line, after, answer)
    } else if name == "work"@ {
        Command::<State, C>::outcome(&ProgressCommand(Progress::Work), before, line, after, answer)
    } else if name == "done"@ {
        Command::<State, C>::outcome(&ProgressCommand(Progress::Done), before, line, after, answer)
    } else if name == "id"@ {
        Command::<State, C>::outcome(&IdCommand, before, line, after, answer)
    } else if name == "parent"@ {
        Command::<State, C>::outcome(&ParentCommand, before, line, after, answer)
    } else if name == "rm"@ {
        Command::<State, C>::outcome(&RmCommand, before, line, after, answer)
    } else if name == "mv"@ {
        Command::<State, C>::outcome(&MvCommand, before, line, after, answer)
    } else if name == "outline"@ {
        Command::<State, C>::outcome(&OutlineCommand, before, line, after, answer)
    } else if name == "reorder"@ {
        Command::<State, C>::outcome(&ReorderCommand, before, line, after, answer)
    } else if name == "cli"@ {
        Command::<State, C>::outcome(&ClockInCommand, before, line, after, answer)
    } else if name == "cln"@ {
        Command::<State, C>::outcome(&ClockNewCommand, before, line, after, answer)
    } else if name == "cla"@ {
        Command::<State, C>::outcome(&ClockAssignCommand, before, line, after, answer)
    } else if name == "clo"@ {
        Command::<State, C>::outcome(&ClockOutCommand, before, line, after, answer)
    } else if name == "clc"@ {
        Command::<State, C>::outcome(&ClockCommentCommand, before, line, after, answer)
    } else if name == "taskclock"@ {
        Command::<State, C>::outcome(&TaskClockCommand, before, line, after, answer)
    } else if name == "dayclock"@ {
        Command::<State, C>::outcome(&DayClockCommand, before, line, after, answer)
    } else if name == "rangeclock"@ {
        Command::<State, C>::outcome(&RangeClockCommand, before, line, after, answer)
    } else if name == "autosave"@ {
        Command::<State, C>::outcome(&AutosaveCommand(Autosave::OnCommand), before, line, after, answer)
    } else {
        Command::<State, C>::outcome(&AutosaveCommand(Autosave::ManualOnly), before, line, after, answer)
    }
}

/// What the command `name` of those that [`State::apply_commands`] gives
/// may make of the callbacks.
pub open spec fn is_state_talk<C: CliCallbacks<State>>(
    name: Seq<char>,
    state: State,
    line: Seq<char>,
    callbacks: C,
    after: C,
) -> bool {
    if name == "exit"@ {
        Command::<State, C>::talk(&ExitCommand, state, line, callbacks, after)
    } else if name == "ls"@ {
        Command::<State, C>::talk(&LsCommand, state, line, callbacks, after)
    } else if name == "ed"@ {
        Command::<State, C>::talk(&EdCommand, state, line, callbacks, after)
    } else if name == "add"@ {
        Command::<State, C>::talk(&AddCommand, state, line, callbacks, after)
    } else if name == "cd"@ {
        Command::<State, C>::talk(&CdCommand, state, line, callbacks, after)
    } else if name == "todo"@ {
        Command::<State, C>::talk(&ProgressCommand(Progress::Todo), state, line, callbacks, after)
    } else if name == "work"@ {
        Command::<State, C>::talk(&ProgressCommand(Progress::Work), state, line, callbacks, after)
    } else if name == "done"@ {
        Command::<State, C>::talk(&ProgressCommand(Progress::Done), state, line, callbacks, after)
    } else if name == "id"@ {
        Command::<State, C>::talk(&IdCommand, state, line, callbacks, after)
    } else if name == "parent"@ {
        Command::<State, C>::talk(&ParentCommand, state, line, callbacks, after)
    } else if name == "rm"@ {
        Command::<State, C>::talk(&RmCommand, state, line, callbacks, after)
    } else if name == "mv"@ {
        Command::<State, C>::talk(&MvCommand, state, line, callbacks, after)
    } else if name == "outline"@ {
        Command::<State, C>::talk(&OutlineCommand, state, line, callbacks, after)
    } else if name == "reorder"@ {
        Command::<State, C>::talk(&ReorderCommand, state, line, callbacks, after)
    } else if name == "cli"@ {
        Command::<State, C>::talk(&ClockInCommand, state, line, callbacks, after)
    } else if name == "cln"@ {
        Command::<State, C>::talk(&ClockNewCommand, state, line, callbacks, after)
    } else if name == "cla"@ {
        Command::<State, C>::talk(&ClockAssignCommand, state, line, callbacks, after)
    } else if name == "clo"@ {
        Command::<State, C>::talk(&ClockOutCommand, state, line, callbacks, after)
    } else if name == "clc"@ {
        Command::<State, C>::talk(&ClockCommentCommand, state, line, callbacks, after)
    } else if name == "taskclock"@ {
        Command::<State, C>::talk(&TaskClockCommand, state, line, callbacks, after)
    } else if name == "dayclock"@ {
        Command::<State, C>::talk(&DayClockCommand, state, line, callbacks, after)
    } else if name == "rangeclock"@ {
        Command::<State, C>::talk(&RangeClockCommand, state, line, callbacks, after)
    } else if name == "autosave"@ {
        Command::<State, C>::talk(&AutosaveCommand(Autosave::OnCommand), state, line, callbacks, after)
    } else {
        Command::<State, C>::talk(&AutosaveCommand(Autosave::ManualOnly), state, line, callbacks, after)
    }
}

impl State {
    /// Gives a command line the commands of the task tracker that work on
    /// the document and talk through the callbacks alone.
    pub fn apply_commands<C: CliCallbacks<State>>(terminal: &mut Cli<State, C>)
        ensures
            final(terminal).state == old(terminal).state,
            final(terminal).callbacks == old(terminal).callbacks,
            final(terminal).handlers().dom() == old(terminal).handlers().dom()
                .insert("exit"@)
                .insert("ls"@)
                .insert("ed"@)
                .insert("add"@)
                .insert("cd"@)
                .insert("todo"@)
                .insert("work"@)
                .insert("done"@)
                .insert("id"@)
                .insert("parent"@)
                .insert("rm"@)
                .insert("mv"@)
                .insert("outline"@)
                .insert("reorder"@)
                .insert("cli"@)
                .insert("cln"@)
                .insert("cla"@)
                .insert("clo"@)
                .insert("clc"@)
                .insert("taskclock"@)
                .insert("dayclock"@)
                .insert("rangeclock"@)
                .insert("autosave"@)
                .insert("noautosave"@),
            forall|name: Seq<char>|
                old(terminal).handlers().contains_key(name) && !is_state_command(name) ==> (
                #[trigger] final(terminal).handlers()[name]).same_as(old(terminal).handlers()[name]),
            forall|
                name: Seq<char>,
                before: State,
                line: Seq<char>,
                after: State,
                answer: Result<(), CommandError>,
            |
                is_state_command(name) ==> (#[trigger] final(terminal).handlers()[name].0.outcome(
                    before,
                    line,
                    after,
                    answer,
                ) <==> is_state_outcome::<C>(name, before, line, after, answer)),
            forall|name: Seq<char>, state: State, line: Seq<char>, callbacks: C, after: C|
                is_state_command(name) ==> (#[trigger] final(terminal).handlers()[name].0.talk(
                    state,
                    line,
                    callbacks,
                    after,
                ) <==> is_state_talk::<C>(name, state, line, callbacks, after)),
    {
        proof {
            reveal_strlit("exit");
            assert("exit"@.len() == 4);
            assert("exit"@[0] == 'e');
            reveal_strlit("ls");
            assert("ls"@.len() == 2);
            assert("ls"@[0] == 'l');
            reveal_strlit("ed");
            assert("ed"@.len() == 2);
            assert("ed"@[0] == 'e');
            reveal_strlit("add");
            assert("add"@.len() == 3);
            assert("add"@[0] == 'a');
            assert("add"@[2] == 'd');
            reveal_strlit("cd");
            assert("cd"@.len() == 2);
            assert("cd"@[0] == 'c');
            reveal_strlit("todo");
            assert("todo"@.len() == 4);
            assert("todo"@[0] == 't');
            reveal_strlit("work");
            assert("work"@.len() == 4);
            assert("work"@[0] == 'w');
            reveal_strlit("done");
            assert("done"@.len() == 4);
            assert("done"@[0] == 'd');
            reveal_strlit("id");
            assert("id"@.len() == 2);
            assert("id"@[0] == 'i');
            reveal_strlit("parent");
            assert("parent"@.len() == 6);
            assert("parent"@[0] == 'p');
            reveal_strlit("rm");
            assert("rm"@.len() == 2);
            assert("rm"@[0] == 'r');
            reveal_strlit("mv");
            assert("mv"@.len() == 2);
            assert("mv"@[0] == 'm');
            reveal_strlit("outline");
            assert("outline"@.len() == 7);
            assert("outline"@[0] == 'o');
            reveal_strlit("reorder");
            assert("reorder"@.len() == 7);
            assert("reorder"@[0] == 'r');
            reveal_strlit("cli");
            assert("cli"@.len() == 3);
            assert("cli"@[0] == 'c');
            assert("cli"@[2] == 'i');
            reveal_strlit("cln");
            assert("cln"@.len() == 3);
            assert("cln"@[0] == 'c');
            assert("cln"@[2] == 'n');
            reveal_strlit("cla");
            assert("cla"@.len() == 3);
            assert("cla"@[0] == 'c');
            assert("cla"@[2] == 'a');
            reveal_strlit("clo");
            assert("clo"@.len() == 3);
            assert("clo"@[0] == 'c');
            assert("clo"@[2] == 'o');
            reveal_strlit("clc");
            assert("clc"@.len() == 3);
            assert("clc"@[0] == 'c');
            assert("clc"@[2] == 'c');
            reveal_strlit("taskclock");
            assert("taskclock"@.len() == 9);
            assert("taskclock"@[0] == 't');
            reveal_strlit("dayclock");
            assert("dayclock"@.len() == 8);
            assert("dayclock"@[0] == 'd');
            reveal_strlit("rangeclock");
            assert("rangeclock"@.len() == 10);
            assert("rangeclock"@[0] == 'r');
            reveal_strlit("autosave");
            assert("autosave"@.len() == 8);
            assert("autosave"@[0] == 'a');
            reveal_strlit("noautosave");
            assert("noautosave"@.len() == 10);
            assert("noautosave"@[0] == 'n');
        }
        terminal.register_command("exit", Func(Box::new(ExitCommand)));
        terminal.register_command("ls", Func(Box::new(LsCommand)));
        terminal.register_command("ed", Func(Box::new(EdCommand)));
        terminal.register_command("add", Func(Box::new(AddCommand)));
        terminal.register_command("cd", Func(Box::new(CdCommand)));
        terminal.register_command("todo", Func(Box::new(ProgressCommand(Progress::Todo))));
        terminal.register_command("work", Func(Box::new(ProgressCommand(Progress::Work))));
        terminal.register_command("done", Func(Box::new(ProgressCommand(Progress::Done))));
        terminal.register_command("id", Func(Box::new(IdCommand)));
        terminal.register_command("parent", Func(Box::new(ParentCommand)));
        terminal.register_command("rm", Func(Box::new(RmCommand)));
        terminal.register_command("mv", Func(Box::new(MvCommand)));
        terminal.register_command("outline", Func(Box::new(OutlineCommand)));
        terminal.register_command("reorder", Func(Box::new(ReorderCommand)));
        terminal.register_command("cli", Func(Box::new(ClockInCommand)));
        terminal.register_command("cln", Func(Box::new(ClockNewCommand)));
        terminal.register_command("cla", Func(Box::new(ClockAssignCommand)));
        terminal.register_command("clo", Func(Box::new(ClockOutCommand)));
        terminal.register_command("clc", Func(Box::new(ClockCommentCommand)));
        terminal.register_command("taskclock", Func(Box::new(TaskClockCommand)));
        terminal.register_command("dayclock", Func(Box::new(DayClockCommand)));
        terminal.register_command("rangeclock", Func(Box::new(RangeClockCommand)));
        terminal.register_command("autosave", Func(Box::new(AutosaveCommand(Autosave::OnCommand))));
        terminal.register_command("noautosave", Func(Box::new(AutosaveCommand(Autosave::ManualOnly))));
    }
}

} // verus!
