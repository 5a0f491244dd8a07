//! The state of the command line: the document and where in it one is.

use crate::doc::{Doc, DocView};
use crate::ident::{parse_id, parsed_id};
use crate::text::{parse_usize, parsed_usize, split, split_all, starts_with, texts};
use vstd::prelude::*;

verus! {

/// When the document is written to disk.
#[derive(Clone, Copy, Debug, PartialEq, Eq, Structural)]
pub enum Autosave {
    ManualOnly,
    OnCommand,
}

/// The document, the task one works on, and how the document is kept.
#[derive(Debug)]
pub struct State {
    pub doc: Doc,
    pub wt: u128,
    pub parents: Vec<u128>,
    pub path: String,
    pub autosave: Autosave,
}

/// Whether `next` is where one part of a path may lead from `current`. A
/// number leads to the child with that number, counted from 1; an
/// identifier to the task it names; `..` to a parent; nothing stays where
/// it is; anything else leads to the first child whose title begins with
/// it.
pub open spec fn is_path_step(
    doc: DocView,
    current: Option<u128>,
    part: Seq<char>,
    next: Option<u128>,
) -> bool {
    if parsed_usize(part) is Some {
        next == match current {
            Some(task) => doc.child_at(task, parsed_usize(part)->0 - 1),
            None => None,
        }
    } else if parsed_id(part) is Some {
        next == parsed_id(part)
    } else if part == ".."@ {
        match current {
            Some(task) => doc.parent_found(task, next),
            None => next is None,
        }
    } else if part.len() == 0 {
        next == current
    } else {
        next == match current {
            Some(task) => if doc.tasks.contains_key(task) {
                doc.child_named(doc.tasks[task].children, crate::doc::common_form(part))
            } else {
                None
            },
            None => None,
        }
    }
}

/// Whether `trail` is a way along `parts`: it begins at `start`, and each
/// part leads from one entry to the next.
pub open spec fn is_trail(
    doc: DocView,
    start: u128,
    parts: Seq<Seq<char>>,
    trail: Seq<Option<u128>>,
) -> bool {
    &&& trail.len() == parts.len() + 1
    &&& trail[0] == Some(start)
    &&& forall|i: int|
        0 <= i < parts.len() ==> is_path_step(doc, trail[i], #[trigger] parts[i], trail[i + 1])
}

impl State {
    /// Where a path begins: at the root where it begins with `/`, else at
    /// the task one works on.
    pub open spec fn path_start(&self, path: Seq<char>) -> u128 {
        if "/"@.is_prefix_of(path) {
            self.doc.root
        } else {
            self.wt
        }
    }

    /// Where one part of a path leads from `current`.
    pub fn path_step(&self, current: Option<u128>, part: &str) -> (next: Option<u128>)
        ensures
            is_path_step(self.doc@, current, part@, next),
    {
        match parse_usize(part) {
            Ok(i) => {
                return match current {
                    Some(task) => self.doc.child_by_ordinal(&task, i),
                    None => None,
                };
            },
            Err(_) => {},
        }
        match parse_id(part) {
            Some(id) => {
                return Some(id);
            },
            None => {},
        }
        if part.to_owned() == "..".to_owned() {
            match current {
                Some(task) => self.doc.find_parent(&task),
                None => None,
            }
        } else if part.is_empty() {
            current
        } else {
            match current {
                Some(task) => self.doc.task_child_prefix(&task, part),
                None => None,
            }
        }
    }

    /// Whether `target` is where `path` may lead: its parts, cut at `/`,
    /// are followed one after the other.
    pub open spec fn leads_to(&self, path: Seq<char>, target: Option<u128>) -> bool {
        exists|trail: Seq<Option<u128>>| #[trigger]
            is_trail(self.doc@, self.path_start(path), split(path, '/'), trail) && target
                == trail.last()
    }

    /// The task that `path` leads to: its parts, cut at `/`, are followed
    /// one after the other.
    pub fn uuid_for_path(&self, path: &str) -> (r: Option<u128>)
        ensures
            self.leads_to(path@, r),
    {
        let start: u128 = if starts_with(path, "/") {
            self.doc.root
        } else {
            self.wt
        };
        let mut current_task: Option<u128> = Some(start);
        let parts = split_all(path, '/');
        let ghost mut trail: Seq<Option<u128>> = seq![current_task];
        let mut i: usize = 0;
        while i < parts.len()
            invariant
                i <= parts@.len(),
                texts(parts@) == split(path@, '/'),
                trail.len() == i + 1,
                trail[0] == Some(start),
                trail.last() == current_task,
                forall|j: int|
                    0 <= j < i ==> is_path_step(
                        self.doc@,
                        trail[j],
                        #[trigger] texts(parts@)[j],
                        trail[j + 1],
                    ),
            decreases parts@.len() - i,
        {
            let next = self.path_step(current_task, parts[i].as_str());
            proof {
                let longer = trail.push(next);
                assert forall|j: int| 0 <= j < i + 1 implies is_path_step(
                    self.doc@,
                    longer[j],
                    #[trigger] texts(parts@)[j],
                    longer[j + 1],
                ) by {
                    if j < i {
                        assert(longer[j] == trail[j]);
                        assert(longer[j + 1] == trail[j + 1]);
                    }
                }
                trail = longer;
            }
            current_task = next;
            i += 1;
        }
        proof {
            assert(is_trail(self.doc@, self.path_start(path@), split(path@, '/'), trail));
        }
        current_task
    }
}

} // verus!
