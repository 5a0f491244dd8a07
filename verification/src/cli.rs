//! A line-oriented command dispatcher.
//!
//! A [`Cli`] holds a state, the commands by name, and the callbacks through
//! which it talks to whoever sits in front of it. A line is dispatched to
//! the command that its first word names.

use crate::error::{CliError, CommandError};
use crate::text::{first_part, first_word, trim, trim_of};
use std::marker::PhantomData;
use vstd::prelude::*;

verus! {

/// What reading a line gave.
pub enum CliInputResult {
    Value(String),
    Termination,
}

/// What is to happen around each command. Unless callbacks say otherwise,
/// nothing happens.
pub trait CliStateCallback<T> {
    /// What `pre_exec` may make of the callbacks and of the state before
    /// the command line `command` runs, where it does anything.
    open spec fn before_command(&self, state: T, command: Seq<char>, after: &Self, after_state: T) -> bool {
        true
    }

    /// What `post_exec` may make of the callbacks and of the state after
    /// the command line `command` has run, where it does anything.
    open spec fn after_command(&self, state: T, command: Seq<char>, after: &Self, after_state: T) -> bool {
        true
    }

    fn pre_exec(&mut self, state: &mut T, command: &str)
        ensures
            old(self).before_command(*old(state), command@, final(self), *final(state)) || (
            &*final(self) == &*old(self) && *final(state) == *old(state)),
    {
    }

    fn post_exec(&mut self, state: &mut T, command: &str)
        ensures
            old(self).after_command(*old(state), command@, final(self), *final(state)) || (
            &*final(self) == &*old(self) && *final(state) == *old(state)),
    {
    }
}

/// How a command line talks to whoever sits in front of it. Each method
/// does what the relation of its name says; callbacks that say nothing of
/// themselves may do anything.
pub trait CliCallbacks<T>: CliStateCallback<T> {
    /// What becomes of the callbacks when `text` is printed.
    open spec fn prints(&self, text: Seq<char>, after: &Self) -> bool {
        true
    }

    /// What becomes of the callbacks when a line is asked for with
    /// `prompt`, and what may be read.
    open spec fn reads(&self, prompt: Seq<char>, after: &Self, input: CliInputResult) -> bool {
        true
    }

    /// What becomes of the callbacks when `text` is handed to an editor,
    /// and what may come back.
    open spec fn edits(&self, text: Seq<char>, after: &Self, edited: Seq<char>) -> bool {
        true
    }

    /// What becomes of the callbacks when they are asked to leave.
    open spec fn leaves(&self, after: &Self) -> bool {
        true
    }

    /// Whether the callbacks may say `answer` when asked whether to leave.
    open spec fn says_exit(&self, answer: bool) -> bool {
        true
    }

    fn print(&mut self, text: &str)
        ensures
            old(self).prints(text@, final(self)),
    ;

    fn println(&mut self, text: &str)
        ensures
            old(self).prints(text@ + "\n"@, final(self)),
    {
        let mut line = text.to_owned();
        line.append("\n");
        self.print(line.as_str());
    }

    fn read_line(&mut self, prompt: &str) -> (input: CliInputResult)
        ensures
            old(self).reads(prompt@, final(self), input),
    ;

    fn edit_string(&mut self, text: String) -> (edited: String)
        ensures
            old(self).edits(text@, final(self), edited@),
    ;

    fn exit(&mut self)
        ensures
            old(self).leaves(final(self)),
    ;

    fn is_exit(&self) -> (answer: bool)
        ensures
            self.says_exit(answer),
    ;
}

/// A command: what runs when a line begins with its name.
pub trait Command<T, C> {
    /// What the command may make of the state on `line`, and what it may
    /// answer. A command that says nothing of itself may do anything.
    open spec fn outcome(
        &self,
        before: T,
        line: Seq<char>,
        after: T,
        answer: Result<(), CommandError>,
    ) -> bool {
        true
    }

    /// What the command may make of the callbacks when it runs on `line`
    /// in the state `state`: what it prints, reads or asks for. A command
    /// that says nothing of itself may do anything.
    open spec fn talk(&self, state: T, line: Seq<char>, callbacks: C, after: C) -> bool {
        true
    }

    fn run(&self, state: &mut T, line: &str, callbacks: &mut C) -> (answer: Result<
        (),
        CommandError,
    >)
        ensures
            self.outcome(*old(state), line@, *final(state), answer),
            self.talk(*old(state), line@, *old(callbacks), *final(callbacks)),
    ;
}

/// Whether `after` is what becomes of the callbacks `before` when `texts`
/// are printed one after the other.
pub open spec fn printed<T, C: CliCallbacks<T>>(before: C, texts: Seq<Seq<char>>, after: C) -> bool
    decreases texts.len(),
{
    if texts.len() == 0 {
        after == before
    } else {
        exists|mid: C|
            printed::<T, C>(before, texts.drop_last(), mid) && #[trigger] mid.prints(
                texts.last(),
                &after,
            )
    }
}

/// `lines`, each with a line feed after it.
pub open spec fn with_line_ends(lines: Seq<Seq<char>>) -> Seq<Seq<char>> {
    lines.map_values(|line: Seq<char>| line + "\n"@)
}

/// Printing one more text after others is printing all of them.
pub proof fn lemma_printed_more<T, C: CliCallbacks<T>>(
    before: C,
    texts: Seq<Seq<char>>,
    mid: C,
    text: Seq<char>,
    after: C,
)
    requires
        printed::<T, C>(before, texts, mid),
        mid.prints(text, &after),
    ensures
        printed::<T, C>(before, texts.push(text), after),
{
    let all = texts.push(text);
    assert(all.drop_last() =~= texts);
    assert(all.last() == text);
    assert(printed::<T, C>(before, all.drop_last(), mid) && mid.prints(all.last(), &after));
}

/// Printing texts and then more texts is printing all of them in a row.
pub proof fn lemma_printed_then<T, C: CliCallbacks<T>>(
    before: C,
    first: Seq<Seq<char>>,
    mid: C,
    second: Seq<Seq<char>>,
    after: C,
)
    requires
        printed::<T, C>(before, first, mid),
        printed::<T, C>(mid, second, after),
    ensures
        printed::<T, C>(before, first + second, after),
    decreases second.len(),
{
    if second.len() == 0 {
        assert(first + second =~= first);
    } else {
        let last = choose|last: C|
            printed::<T, C>(mid, second.drop_last(), last) && #[trigger] last.prints(
                second.last(),
                &after,
            );
        lemma_printed_then::<T, C>(before, first, mid, second.drop_last(), last);
        assert((first + second).drop_last() =~= first + second.drop_last());
        assert((first + second).last() == second.last());
    }
}

/// A command of any kind.
#[verifier::reject_recursive_types(T)]
#[verifier::reject_recursive_types(C)]
pub struct Func<T, C>(pub Box<dyn Command<T, C>>);

impl<T, C> Func<T, C> {
    /// Both commands may do the same.
    pub open spec fn same_as(self, other: Func<T, C>) -> bool {
        &&& forall|before: T, line: Seq<char>, after: T, answer: Result<(), CommandError>|
            #[trigger] self.0.outcome(before, line, after, answer) == other.0.outcome(
                before,
                line,
                after,
                answer,
            )
        &&& forall|state: T, line: Seq<char>, callbacks: C, after: C|
            #[trigger] self.0.talk(state, line, callbacks, after) == other.0.talk(
                state,
                line,
                callbacks,
                after,
            )
    }

    /// `command` as a command of any kind.
    pub fn new(command: Box<dyn Command<T, C>>) -> (func: Func<T, C>)
        ensures
            func == Func(command),
    {
        Func(command)
    }
}

/// The callbacks of a command line that runs inside another one: what is
/// printed and read goes through the outer callbacks, while leaving is the
/// inner command line's own affair.
pub struct CliCallbackHolder<'a, T, C: CliCallbacks<T>, T2, C2: CliStateCallback<T2>> {
    callbacks: &'a mut C,
    state_callbacks: C2,
    exit: bool,
    t: PhantomData<T>,
    t2: PhantomData<T2>,
}

impl<'a, T, C: CliCallbacks<T>, T2, C2: CliStateCallback<T2>> CliCallbackHolder<'a, T, C, T2, C2> {
    /// Whether the inner command line was asked to leave.
    pub closed spec fn exit_requested(&self) -> bool {
        self.exit
    }

    /// The outer callbacks as they are.
    pub closed spec fn outer(&self) -> C {
        *self.callbacks
    }

    /// What is to happen around each command of the inner command line.
    pub closed spec fn inner(&self) -> C2 {
        self.state_callbacks
    }

    /// Nothing but the outer callbacks differs.
    pub open spec fn same_but_outer(&self, after: &Self) -> bool {
        after.inner() == self.inner() && after.exit_requested() == self.exit_requested()
    }

    /// Nothing but what is to happen around each command differs.
    pub open spec fn same_but_inner(&self, after: &Self) -> bool {
        after.outer() == self.outer() && after.exit_requested() == self.exit_requested()
    }

    pub fn new(callbacks: &'a mut C, state_callbacks: C2) -> (holder: Self)
        ensures
            !holder.exit_requested(),
            holder.outer() == *old(callbacks),
            holder.inner() == state_callbacks,
    {
        CliCallbackHolder { callbacks, state_callbacks, exit: false, t: PhantomData, t2: PhantomData }
    }
}

impl<'a, T, C: CliCallbacks<T>, T2, C2: CliStateCallback<T2>> CliStateCallback<
    T2,
> for CliCallbackHolder<'a, T, C, T2, C2> {
    open spec fn before_command(
        &self,
        state: T2,
        command: Seq<char>,
        after: &Self,
        after_state: T2,
    ) -> bool {
        self.same_but_inner(after) && (self.inner().before_command(
            state,
            command,
            &after.inner(),
            after_state,
        ) || (after.inner() == self.inner() && after_state == state))
    }

    open spec fn after_command(
        &self,
        state: T2,
        command: Seq<char>,
        after: &Self,
        after_state: T2,
    ) -> bool {
        self.same_but_inner(after) && (self.inner().after_command(
            state,
            command,
            &after.inner(),
            after_state,
        ) || (after.inner() == self.inner() && after_state == state))
    }

    /// Hands the state and the command on to what is to happen before each
    /// command of the inner command line; the outer callbacks are left
    /// alone.
    fn pre_exec(&mut self, state: &mut T2, command: &str)
        ensures
            old(self).before_command(*old(state), command@, final(self), *final(state)),
    {
        self.state_callbacks.pre_exec(state, command)
    }

    /// Hands the state and the command on to what is to happen after each
    /// command of the inner command line; the outer callbacks are left
    /// alone.
    fn post_exec(&mut self, state: &mut T2, command: &str)
        ensures
            old(self).after_command(*old(state), command@, final(self), *final(state)),
    {
        self.state_callbacks.post_exec(state, command)
    }
}

impl<'a, T, C: CliCallbacks<T>, T2, C2: CliStateCallback<T2>> CliCallbacks<
    T2,
> for CliCallbackHolder<'a, T, C, T2, C2> {
    open spec fn prints(&self, text: Seq<char>, after: &Self) -> bool {
        self.outer().prints(text, &after.outer()) && self.same_but_outer(after)
    }

    open spec fn reads(&self, prompt: Seq<char>, after: &Self, input: CliInputResult) -> bool {
        self.outer().reads(prompt, &after.outer(), input) && self.same_but_outer(after)
    }

    open spec fn edits(&self, text: Seq<char>, after: &Self, edited: Seq<char>) -> bool {
        self.outer().edits(text, &after.outer(), edited) && self.same_but_outer(after)
    }

    open spec fn leaves(&self, after: &Self) -> bool {
        after.exit_requested() && after.outer() == self.outer() && after.inner() == self.inner()
    }

    open spec fn says_exit(&self, answer: bool) -> bool {
        answer == self.exit_requested()
    }

    fn print(&mut self, text: &str) {
        self.callbacks.print(text)
    }

    fn println(&mut self, text: &str) {
        self.callbacks.println(text)
    }

    fn read_line(&mut self, prompt: &str) -> (input: CliInputResult) {
        self.callbacks.read_line(prompt)
    }

    fn edit_string(&mut self, text: String) -> (edited: String) {
        self.callbacks.edit_string(text)
    }

    fn exit(&mut self)
        ensures
            final(self).exit_requested(),
    {
        self.exit = true;
    }

    fn is_exit(&self) -> (answer: bool)
        ensures
            answer == self.exit_requested(),
    {
        self.exit
    }
}

/// The commands of `entries` by name. Where a name comes twice, the
/// earlier entry counts.
pub open spec fn table<H>(entries: Seq<(String, H)>) -> Map<Seq<char>, H>
    decreases entries.len(),
{
    if entries.len() == 0 {
        Map::empty()
    } else {
        table(entries.drop_first()).insert(entries[0].0@, entries[0].1)
    }
}

/// The first entry with a name is what the table has under that name.
pub proof fn lemma_table_first<H>(entries: Seq<(String, H)>, name: Seq<char>, i: int)
    requires
        0 <= i < entries.len(),
        entries[i].0@ == name,
        forall|j: int| 0 <= j < i ==> (#[trigger] entries[j]).0@ != name,
    ensures
        table(entries).contains_key(name),
        table(entries)[name] == entries[i].1,
    decreases i,
{
    if i > 0 {
        let rest = entries.drop_first();
        assert forall|j: int| 0 <= j < i - 1 implies (#[trigger] rest[j]).0@ != name by {
            assert(rest[j] == entries[j + 1]);
        }
        lemma_table_first(rest, name, i - 1);
        assert(entries[0].0@ != name);
    }
}

/// A name that no entry has is not in the table.
pub proof fn lemma_table_none<H>(entries: Seq<(String, H)>, name: Seq<char>)
    requires
        forall|j: int| 0 <= j < entries.len() ==> (#[trigger] entries[j]).0@ != name,
    ensures
        !table(entries).contains_key(name),
    decreases entries.len(),
{
    if entries.len() > 0 {
        let rest = entries.drop_first();
        assert forall|j: int| 0 <= j < rest.len() implies (#[trigger] rest[j]).0@ != name by {
            assert(rest[j] == entries[j + 1]);
        }
        lemma_table_none(rest, name);
        assert(entries[0].0@ != name);
    }
}

/// Replacing the first entry with a name replaces what the table has
/// under that name.
pub proof fn lemma_table_update<H>(entries: Seq<(String, H)>, i: int, entry: (String, H))
    requires
        0 <= i < entries.len(),
        entries[i].0@ == entry.0@,
        forall|j: int| 0 <= j < i ==> (#[trigger] entries[j]).0@ != entry.0@,
    ensures
        table(entries.update(i, entry)) == table(entries).insert(entry.0@, entry.1),
    decreases i,
{
    let rest = entries.drop_first();
    if i > 0 {
        assert forall|j: int| 0 <= j < i - 1 implies (#[trigger] rest[j]).0@ != entry.0@ by {
            assert(rest[j] == entries[j + 1]);
        }
        lemma_table_update(rest, i - 1, entry);
        assert(entries.update(i, entry).drop_first() =~= rest.update(i - 1, entry));
        assert(entries[0].0@ != entry.0@);
        assert(table(entries.update(i, entry)) =~= table(entries).insert(entry.0@, entry.1));
    } else {
        assert(entries.update(i, entry).drop_first() =~= rest);
        assert(table(entries.update(i, entry)) =~= table(entries).insert(entry.0@, entry.1));
    }
}

/// Appending an entry with a name that no entry has adds it to the table.
pub proof fn lemma_table_push<H>(entries: Seq<(String, H)>, entry: (String, H))
    requires
        forall|j: int| 0 <= j < entries.len() ==> (#[trigger] entries[j]).0@ != entry.0@,
    ensures
        table(entries.push(entry)) == table(entries).insert(entry.0@, entry.1),
    decreases entries.len(),
{
    if entries.len() > 0 {
        let rest = entries.drop_first();
        assert forall|j: int| 0 <= j < rest.len() implies (#[trigger] rest[j]).0@ != entry.0@ by {
            assert(rest[j] == entries[j + 1]);
        }
        lemma_table_push(rest, entry);
        assert(entries.push(entry).drop_first() =~= rest.push(entry));
        assert(entries[0].0@ != entry.0@);
        assert(table(entries.push(entry)) =~= table(entries).insert(entry.0@, entry.1));
    } else {
        assert(entries.push(entry).drop_first() =~= entries);
        assert(table(entries.push(entry)) =~= table(entries).insert(entry.0@, entry.1));
    }
}

/// Taking out an entry changes the table under the name of that entry
/// only.
pub proof fn lemma_table_remove<H>(entries: Seq<(String, H)>, i: int)
    requires
        0 <= i < entries.len(),
    ensures
        table(entries.remove(i)).remove(entries[i].0@) == table(entries).remove(entries[i].0@),
    decreases i,
{
    let rest = entries.drop_first();
    if i > 0 {
        let name = entries[i].0@;
        lemma_table_remove(rest, i - 1);
        assert(rest[i - 1] == entries[i]);
        assert(entries.remove(i).drop_first() =~= rest.remove(i - 1));
        assert(entries.remove(i)[0] == entries[0]);
        let shorter = table(rest.remove(i - 1));
        let longer = table(rest);
        assert forall|k: Seq<char>|
            #![trigger shorter.contains_key(k)]
            #![trigger longer.contains_key(k)]
            k != name implies (shorter.contains_key(k) <==> longer.contains_key(k)) && (
        shorter.contains_key(k) ==> shorter[k] == longer[k]) by {
            assert(shorter.remove(name).contains_key(k) <==> longer.remove(name).contains_key(k));
            assert(shorter.remove(name)[k] == longer.remove(name)[k]);
        }
        assert(table(entries.remove(i)) == shorter.insert(entries[0].0@, entries[0].1));
        assert(table(entries) == longer.insert(entries[0].0@, entries[0].1));
        let left = table(entries.remove(i)).remove(name);
        let right = table(entries).remove(name);
        assert forall|k: Seq<char>| left.dom().contains(k) <==> right.dom().contains(k) by {
            if k != name && k != entries[0].0@ {
                assert(shorter.contains_key(k) <==> longer.contains_key(k));
            }
        }
        assert forall|k: Seq<char>| left.dom().contains(k) implies left[k] == right[k] by {
            if k != name && k != entries[0].0@ {
                assert(shorter.contains_key(k) ==> shorter[k] == longer[k]);
            }
        }
        assert(left =~= right);
    } else {
        assert(entries.remove(i) =~= rest);
        assert(table(entries.remove(i)).remove(entries[i].0@) =~= table(entries).remove(
            entries[i].0@,
        ));
    }
}

/// The position of the first of `entries` with the name `name`.
pub fn position<H>(entries: &Vec<(String, H)>, name: &str) -> (r: Option<usize>)
    ensures
        match r {
            Some(i) => i < entries@.len() && entries@[i as int].0@ == name@ && forall|j: int|
                0 <= j < i ==> (#[trigger] entries@[j]).0@ != name@,
            None => forall|j: int| 0 <= j < entries@.len() ==> (#[trigger] entries@[j]).0@ != name@,
        },
{
    let wanted = name.to_owned();
    let mut i: usize = 0;
    while i < entries.len()
        invariant
            i <= entries@.len(),
            wanted@ == name@,
            forall|j: int| 0 <= j < i ==> (#[trigger] entries@[j]).0@ != name@,
        decreases entries@.len() - i,
    {
        if entries[i].0 == wanted {
            return Some(i);
        }
        i += 1;
    }
    None
}

/// A command line: a state, the commands by name, and the callbacks.
#[verifier::reject_recursive_types(T)]
#[verifier::reject_recursive_types(C)]
pub struct Cli<T, C: CliCallbacks<T>> {
    pub state: T,
    pub commands: Vec<(String, Func<T, C>)>,
    pub callbacks: C,
}

/// A command line with the state `initial_state` and no commands, which
/// talks through `callbacks` and does around each command what
/// `state_callbacks` says.
pub fn new_cli_with_callbacks<'a, T, C: CliCallbacks<T>, T2, C2: CliStateCallback<T2>>(
    callbacks: &'a mut C,
    initial_state: T2,
    state_callbacks: C2,
) -> (cli: Cli<T2, CliCallbackHolder<'a, T, C, T2, C2>>)
    ensures
        cli.state == initial_state,
        cli.handlers() == Map::<Seq<char>, Func<T2, CliCallbackHolder<'a, T, C, T2, C2>>>::empty(),
        cli.handlers().dom() == Set::<Seq<char>>::empty(),
        !cli.callbacks.exit_requested(),
        cli.callbacks.outer() == *old(callbacks),
        cli.callbacks.inner() == state_callbacks,
{
    Cli {
        state: initial_state,
        commands: Vec::new(),
        callbacks: CliCallbackHolder::new(callbacks, state_callbacks),
    }
}

impl<T, C: CliCallbacks<T>> Cli<T, C> {
    /// The commands by name.
    pub open spec fn handlers(&self) -> Map<Seq<char>, Func<T, C>> {
        table(self.commands@)
    }

    /// A command line with the state `initial_state` and no commands.
    pub fn new(initial_state: T, callbacks: C) -> (cli: Cli<T, C>)
        ensures
            cli.state == initial_state,
            cli.callbacks == callbacks,
            cli.handlers() == Map::<Seq<char>, Func<T, C>>::empty(),
            cli.handlers().dom() == Set::<Seq<char>>::empty(),
    {
        Cli { state: initial_state, commands: Vec::new(), callbacks }
    }

    /// A command line inside this one, with a state of its own and no
    /// commands, which talks through the callbacks of this one.
    pub fn new_with_callbacks<'a, T2, C2: CliStateCallback<T2>>(
        &'a mut self,
        initial_state: T2,
        state_callbacks: C2,
    ) -> (cli: Cli<T2, CliCallbackHolder<'a, T, C, T2, C2>>)
        ensures
            cli.state == initial_state,
            cli.handlers() == Map::<
                Seq<char>,
                Func<T2, CliCallbackHolder<'a, T, C, T2, C2>>,
            >::empty(),
            cli.handlers().dom() == Set::<Seq<char>>::empty(),
            !cli.callbacks.exit_requested(),
            cli.callbacks.outer() == old(self).callbacks,
            cli.callbacks.inner() == state_callbacks,
    {
        Cli {
            state: initial_state,
            commands: Vec::new(),
            callbacks: CliCallbackHolder::new(&mut self.callbacks, state_callbacks),
        }
    }

    /// Hands `text` to the command that its first word names, and answers
    /// what the command answers. A first word that names no command is an
    /// error.
    pub fn dispatch(&mut self, text: &str) -> (answer: Result<(), CommandError>)
        ensures
            final(self).commands == old(self).commands,
            ({
                let word = first_part(text@, ' ');
                if old(self).handlers().contains_key(word) {
                    &&& old(self).handlers()[word].0.outcome(
                        old(self).state,
                        text@,
                        final(self).state,
                        answer,
                    )
                    &&& old(self).handlers()[word].0.talk(
                        old(self).state,
                        text@,
                        old(self).callbacks,
                        final(self).callbacks,
                    )
                } else {
                    &&& answer matches Err(CommandError::Cli(CliError::CommandNotFound { command }))
                    &&& command@ == word
                    &&& final(self).state == old(self).state
                    &&& final(self).callbacks == old(self).callbacks
                }
            }),
    {
        let command = first_word(text, ' ');
        match position(&self.commands, command) {
            Some(i) => {
                proof {
                    lemma_table_first(self.commands@, command@, i as int);
                }
                self.commands[i].1.0.run(&mut self.state, text, &mut self.callbacks)
            },
            None => {
                proof {
                    lemma_table_none(self.commands@, command@);
                }
                Err(CommandError::Cli(CliError::CommandNotFound { command: command.to_owned() }))
            },
        }
    }

    /// Hands `line`, without the white space at its ends, to the command
    /// that its first word names, and answers what the command answers.
    /// A first word that names no command is an error.
    pub fn run_command(&mut self, line: &str) -> (answer: Result<(), CommandError>)
        ensures
            final(self).commands == old(self).commands,
            ({
                let text = trim_of(line@);
                let word = first_part(text, ' ');
                if old(self).handlers().contains_key(word) {
                    &&& old(self).handlers()[word].0.outcome(
                        old(self).state,
                        text,
                        final(self).state,
                        answer,
                    )
                    &&& old(self).handlers()[word].0.talk(
                        old(self).state,
                        text,
                        old(self).callbacks,
                        final(self).callbacks,
                    )
                } else {
                    &&& answer matches Err(CommandError::Cli(CliError::CommandNotFound { command }))
                    &&& command@ == word
                    &&& final(self).state == old(self).state
                    &&& final(self).callbacks == old(self).callbacks
                }
            }),
    {
        self.dispatch(trim(line))
    }

    /// Whether `after_state`, `after` and `answer` are what comes of
    /// handing `text` to the command that its first word names, in the
    /// state `state` and with the callbacks `callbacks`. A first word that
    /// names no command is an error, and nothing changes.
    pub open spec fn dispatches(
        &self,
        state: T,
        callbacks: C,
        text: Seq<char>,
        after_state: T,
        after: C,
        answer: Result<(), CommandError>,
    ) -> bool {
        let word = first_part(text, ' ');
        if self.handlers().contains_key(word) {
            &&& self.handlers()[word].0.outcome(state, text, after_state, answer)
            &&& self.handlers()[word].0.talk(state, text, callbacks, after)
        } else {
            &&& answer matches Err(CommandError::Cli(CliError::CommandNotFound { command }))
            &&& command@ == word
            &&& after_state == state
            &&& after == callbacks
        }
    }

    /// Whether `after_state` and `told` are what comes of running the line
    /// `line` in the state `state` and with the callbacks `callbacks`: the
    /// line, without the white space at its ends, is handed to its command,
    /// and where that fails, the failure is printed after `Error: `.
    pub open spec fn runs_line(
        &self,
        state: T,
        callbacks: C,
        line: Seq<char>,
        after_state: T,
        told: C,
    ) -> bool {
        exists|ran: C, answer: Result<(), CommandError>| #[trigger]
            self.dispatches(state, callbacks, trim_of(line), after_state, ran, answer) && match answer {
                Ok(()) => told == ran,
                Err(e) => ran.prints("Error: "@ + e.message_text() + "\n"@, &told),
            }
    }

    /// Whether `again` is what a round answers, where the callbacks become
    /// `asked` on reading `input`. Where the input has ended, nothing else
    /// happens and there is no other round. Else the line is run between
    /// what is to happen before and after each command, which may be
    /// nothing, and there is another round unless the callbacks say that
    /// one is to leave.
    pub open spec fn is_round(
        &self,
        prompt: Seq<char>,
        input: CliInputResult,
        asked: C,
        after_state: T,
        after: C,
        again: bool,
    ) -> bool {
        &&& self.callbacks.reads(prompt, &asked, input)
        &&& match input {
            CliInputResult::Termination => !again && after_state == self.state && after == asked,
            CliInputResult::Value(line) => after.says_exit(!again) && exists|
                state: T,
                callbacks: C,
                ran_state: T,
                told: C,
            |
                {
                    &&& asked.before_command(self.state, line@, &callbacks, state) || (callbacks
                        == asked && state == self.state)
                    &&& #[trigger] self.runs_line(state, callbacks, line@, ran_state, told)
                    &&& told.after_command(ran_state, line@, &after, after_state) || (after == told
                        && after_state == ran_state)
                },
        }
    }

    /// One round of the command line: reads a line, and unless the input
    /// has ended, runs it between what is to happen before and after each
    /// command, and prints the error if it fails. The answer is whether
    /// there is to be another round: not after the input has ended, and
    /// not after a command asked to leave.
    pub fn run_once(&mut self, prompt: &str) -> (again: bool)
        ensures
            final(self).commands == old(self).commands,
            exists|input: CliInputResult, asked: C| #[trigger]
                old(self).is_round(
                    prompt@,
                    input,
                    asked,
                    final(self).state,
                    final(self).callbacks,
                    again,
                ),
    {
        let input = self.callbacks.read_line(prompt);
        let ghost asked = self.callbacks;
        match &input {
            CliInputResult::Value(line) => {
                self.callbacks.pre_exec(&mut self.state, line.as_str());
                let ghost state = self.state;
                let ghost callbacks = self.callbacks;
                let answer = self.run_command(line.as_str());
                let ghost ran = self.callbacks;
                let ghost ran_state = self.state;
                match &answer {
                    Ok(()) => {},
                    Err(err) => {
                        let report = "Error: ".to_owned().concat(err.message().as_str());
                        self.callbacks.println(report.as_str());
                    },
                }
                proof {
                    assert(old(self).dispatches(
                        state,
                        callbacks,
                        trim_of(line@),
                        ran_state,
                        ran,
                        answer,
                    ));
                    assert(old(self).runs_line(state, callbacks, line@, ran_state, self.callbacks));
                }
                let ghost told = self.callbacks;
                self.callbacks.post_exec(&mut self.state, line.as_str());
                let again = !self.callbacks.is_exit();
                proof {
                    assert(old(self).is_round(
                        prompt@,
                        input,
                        asked,
                        self.state,
                        self.callbacks,
                        again,
                    ));
                }
                again
            },
            CliInputResult::Termination => {
                proof {
                    assert(old(self).is_round(
                        prompt@,
                        input,
                        asked,
                        self.state,
                        self.callbacks,
                        false,
                    ));
                }
                false
            },
        }
    }

    /// Puts `func` under the name `command`, in place of what was there.
    pub fn register_command(&mut self, command: &str, func: Func<T, C>)
        ensures
            final(self).handlers() == old(self).handlers().insert(command@, func),
            final(self).handlers().dom() == old(self).handlers().dom().insert(command@),
            final(self).handlers()[command@].same_as(func),
            forall|name: Seq<char>|
                name != command@ && old(self).handlers().contains_key(name)
                    ==> (#[trigger] final(self).handlers()[name]).same_as(old(self).handlers()[name]),
            final(self).state == old(self).state,
            final(self).callbacks == old(self).callbacks,
    {
        let entry = (command.to_owned(), func);
        match position(&self.commands, command) {
            Some(i) => {
                proof {
                    lemma_table_update(self.commands@, i as int, entry);
                }
                self.commands.set(i, entry);
            },
            None => {
                proof {
                    lemma_table_push(self.commands@, entry);
                }
                self.commands.push(entry);
            },
        }

    }

    /// Takes the command `command` out and returns it, if there was one.
    pub fn remove_command(&mut self, command: &str) -> (removed: Option<Func<T, C>>)
        ensures
            final(self).handlers() == old(self).handlers().remove(command@),
            removed == if old(self).handlers().contains_key(command@) {
                Some(old(self).handlers()[command@])
            } else {
                None
            },
            final(self).handlers().dom() == old(self).handlers().dom().remove(command@),
            removed is Some <==> old(self).handlers().contains_key(command@),
            removed matches Some(func) ==> func.same_as(old(self).handlers()[command@]),
            forall|name: Seq<char>|
                name != command@ && old(self).handlers().contains_key(name)
                    ==> (#[trigger] final(self).handlers()[name]).same_as(old(self).handlers()[name]),
            final(self).state == old(self).state,
            final(self).callbacks == old(self).callbacks,
    {
        remove_entries(&mut self.commands, command)
    }
}

/// Takes every entry with the name `name` out of `entries` and returns the
/// command of the first, if there was one.
pub fn remove_entries<H>(entries: &mut Vec<(String, H)>, name: &str) -> (removed: Option<H>)
    ensures
        table(final(entries)@) == table(old(entries)@).remove(name@),
        removed == if table(old(entries)@).contains_key(name@) {
            Some(table(old(entries)@)[name@])
        } else {
            None
        },
{
    let wanted = name.to_owned();
    let mut removed: Option<H> = None;
    let mut i: usize = 0;
    while i < entries.len()
        invariant
            i <= entries@.len(),
            wanted@ == name@,
            forall|j: int| 0 <= j < i ==> (#[trigger] entries@[j]).0@ != name@,
            table(entries@).remove(name@) == table(old(entries)@).remove(name@),
            removed is None ==> entries@ == old(entries)@,
            removed matches Some(f) ==> table(old(entries)@).contains_key(name@) && table(
                old(entries)@,
            )[name@] == f,
        decreases entries@.len() - i,
    {
        if entries[i].0 == wanted {
            proof {
                lemma_table_remove(entries@, i as int);
                if removed is None {
                    lemma_table_first(entries@, name@, i as int);
                }
            }
            let ghost before = entries@;
            let entry = entries.remove(i);
            proof {
                assert forall|j: int| 0 <= j < i implies (#[trigger] entries@[j]).0@ != name@ by {
                    assert(entries@[j] == before[j]);
                }
            }
            if removed.is_none() {
                removed = Some(entry.1);
            }
        } else {
            i += 1;
        }
    }
    proof {
        lemma_table_none(entries@, name@);
        assert(table(entries@).remove(name@) =~= table(entries@));
        if removed is None {
            lemma_table_none(old(entries)@, name@);
        }
    }
    removed
}

} // verus!
