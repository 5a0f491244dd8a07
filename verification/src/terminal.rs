//! A plain command dispatcher: a state and commands by name, without
//! callbacks.

use crate::cli::{lemma_table_first, lemma_table_none, lemma_table_push, lemma_table_update, position, remove_entries, table};
use crate::error::CommandError;
use crate::text::{first_part, first_word, trim, trim_of};
use vstd::prelude::*;

verus! {

/// A command of a [`Terminal`].
pub trait TerminalCommand<T> {
    /// What the command may make of the state on `line`, and what it may
    /// answer. A command that says nothing of itself may do anything.
    open spec fn outcome(
        &self,
        before: T,
        line: Seq<char>,
        after: T,
        answer: Result<bool, CommandError>,
    ) -> bool {
        true
    }

    fn run(&self, state: &mut T, line: &str) -> (answer: Result<bool, CommandError>)
        ensures
            self.outcome(*old(state), line@, *final(state), answer),
    ;
}

/// A command of any kind.
#[verifier::reject_recursive_types(T)]
pub struct Func<T>(pub Box<dyn TerminalCommand<T>>);

impl<T> Func<T> {
    /// Both commands may do the same.
    pub open spec fn same_as(self, other: Func<T>) -> bool {
        forall|before: T, line: Seq<char>, after: T, answer: Result<bool, CommandError>|
            #[trigger] self.0.outcome(before, line, after, answer) == other.0.outcome(
                before,
                line,
                after,
                answer,
            )
    }
}

/// What running a line came to: the command that was named, its answer
/// (`false` where there was no such command or it failed), and the message
/// of the failure.
#[derive(Debug)]
pub struct Report {
    pub command: String,
    pub result: bool,
    pub failure: Option<String>,
}

/// A state and the commands that work on it.
#[verifier::reject_recursive_types(T)]
pub struct Terminal<T> {
    state: T,
    commands: Vec<(String, Func<T>)>,
}

impl<T> Terminal<T> {
    /// The commands by name.
    pub closed spec fn handlers(&self) -> Map<Seq<char>, Func<T>> {
        table(self.commands@)
    }

    /// The state as a value.
    pub closed spec fn state_value(&self) -> T {
        self.state
    }

    /// A terminal with the state `initial_state` and no commands.
    pub fn new(initial_state: T) -> (terminal: Terminal<T>)
        ensures
            terminal.state_value() == initial_state,
            terminal.handlers() == Map::<Seq<char>, Func<T>>::empty(),
            terminal.handlers().dom() == Set::<Seq<char>>::empty(),
    {
        Terminal { state: initial_state, commands: Vec::new() }
    }

    /// The state.
    pub fn state(&self) -> (state: &T)
        ensures
            *state == self.state_value(),
    {
        &self.state
    }

    /// Hands `text` to the command that its first word names, and reports
    /// what came of it.
    pub fn dispatch(&mut self, text: &str) -> (report: Report)
        ensures
            final(self).handlers() == old(self).handlers(),
            report.command@ == first_part(text@, ' '),
            ({
                let word = first_part(text@, ' ');
                if old(self).handlers().contains_key(word) {
                    exists|answer: Result<bool, CommandError>|
                        {
                            &&& #[trigger] old(self).handlers()[word].0.outcome(
                                old(self).state_value(),
                                text@,
                                final(self).state_value(),
                                answer,
                            )
                            &&& match answer {
                                Ok(result) => report.result == result && report.failure is None,
                                Err(e) => !report.result && (report.failure matches Some(said)
                                    && said@ == e.message_text()),
                            }
                        }
                } else {
                    &&& !report.result
                    &&& report.failure is None
                    &&& final(self).state_value() == old(self).state_value()
                }
            }),
    {
        let command = first_word(text, ' ');
        match position(&self.commands, command) {
            Some(i) => {
                proof {
                    lemma_table_first(self.commands@, command@, i as int);
                }
                let answer = self.commands[i].1.0.run(&mut self.state, text);
                proof {
                    assert(old(self).handlers()[command@].0.outcome(
                        old(self).state_value(),
                        text@,
                        self.state_value(),
                        answer,
                    ));
                }
                match &answer {
                    Ok(result) => Report {
                        command: command.to_owned(),
                        result: *result,
                        failure: None,
                    },
                    Err(err) => Report {
                        command: command.to_owned(),
                        result: false,
                        failure: Some(err.message()),
                    },
                }
            },
            None => {
                proof {
                    lemma_table_none(self.commands@, command@);
                }
                Report { command: command.to_owned(), result: false, failure: None }
            },
        }
    }

    /// Hands `line`, without the white space at its ends, to the command
    /// that its first word names, and reports what came of it.
    pub fn run_command(&mut self, line: &str) -> (report: Report)
        ensures
            final(self).handlers() == old(self).handlers(),
            report.command@ == first_part(trim_of(line@), ' '),
            ({
                let text = trim_of(line@);
                let word = first_part(text, ' ');
                if old(self).handlers().contains_key(word) {
                    exists|answer: Result<bool, CommandError>|
                        {
                            &&& #[trigger] old(self).handlers()[word].0.outcome(
                                old(self).state_value(),
                                text,
                                final(self).state_value(),
                                answer,
                            )
                            &&& match answer {
                                Ok(result) => report.result == result && report.failure is None,
                                Err(e) => !report.result && (report.failure matches Some(said)
                                    && said@ == e.message_text()),
                            }
                        }
                } else {
                    &&& !report.result
                    &&& report.failure is None
                    &&& final(self).state_value() == old(self).state_value()
                }
            }),
    {
        self.dispatch(trim(line))
    }

    /// Puts `func` under the name `command`, in place of what was there.
    pub fn register_command(&mut self, command: &str, func: Func<T>)
        ensures
            final(self).handlers() == old(self).handlers().insert(command@, func),
            final(self).handlers().dom() == old(self).handlers().dom().insert(command@),
            final(self).handlers()[command@].same_as(func),
            forall|name: Seq<char>|
                name != command@ && old(self).handlers().contains_key(name)
                    ==> (#[trigger] final(self).handlers()[name]).same_as(old(self).handlers()[name]),
            final(self).state_value() == old(self).state_value(),
    {
        let entry = (command.to_owned(), func);
        match position(&self.commands, command) {
            Some(i) => {
                proof {
                    lemma_table_update(self.commands@, i as int, entry);
                }
                self.commands.set(i, entry);
            },
            None => {
                proof {
                    lemma_table_push(self.commands@, entry);
                }
                self.commands.push(entry);
            },
        }
    }

    /// Takes the command `command` out and returns it, if there was one.
    pub fn remove_command(&mut self, command: &str) -> (removed: Option<Func<T>>)
        ensures
            final(self).handlers() == old(self).handlers().remove(command@),
            removed == if old(self).handlers().contains_key(command@) {
                Some(old(self).handlers()[command@])
            } else {
                None
            },
            final(self).handlers().dom() == old(self).handlers().dom().remove(command@),
            removed is Some <==> old(self).handlers().contains_key(command@),
            removed matches Some(func) ==> func.same_as(old(self).handlers()[command@]),
            forall|name: Seq<char>|
                name != command@ && old(self).handlers().contains_key(name)
                    ==> (#[trigger] final(self).handlers()[name]).same_as(old(self).handlers()[name]),
            final(self).state_value() == old(self).state_value(),
    {
        remove_entries(&mut self.commands, command)
    }
}

} // verus!
