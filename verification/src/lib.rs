//! A hierarchical task tracker with integrated time clocking.
//!
//! The [`doc::Doc`] holds a tree of tasks, addressed by identifier, and the
//! clocks that track time against them. At most one clock runs at a time.
//! The clocks of a task, of a day or of a range of days can be asked for,
//! and the clocks of a day can be edited on a working copy
//! ([`clockedit::ClockEdit`]) that is applied or dropped as a whole.
//!
//! Around that core stand a line-oriented command dispatcher ([`cli::Cli`]),
//! the commands of the tracker ([`commands`]) and of a clock edit
//! ([`clockeditcli`]), and what shows tasks and clocks as text ([`render`],
//! [`helper`]).
//!
//! Every operation says in its contract what it returns and changes, over
//! the mathematical content of the data ([`doc::DocView`] and its like), and
//! [`laws`] states what holds across operations. Identifiers, the present
//! moment, the machine's time zone, and the reading and writing of numbers,
//! days and times come from outside: each through one small function whose
//! comment says what is taken on trust.

pub mod cli;
pub mod clock;
pub mod clockedit;
pub mod clockeditcli;
pub mod clocking;
pub mod commands;
pub mod doc;
pub mod error;
pub mod helper;
pub mod ident;
pub mod laws;
pub mod order;
pub mod render;
pub mod state;
pub mod tasks;
pub mod terminal;
pub mod text;
pub mod time;

pub use crate::clock::{Clock, ClockMod};
pub use crate::doc::Doc;
pub use crate::error::{CliError, CommandError, Error};
pub use crate::state::{Autosave, State};
pub use crate::tasks::{Progress, Task, TaskMod};
