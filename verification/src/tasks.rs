//! Tasks and their progress state.

use crate::ident::{is_random_id, new_id};
use vstd::prelude::*;

verus! {

/// How far the work on a task has come.
#[derive(Clone, Copy, Debug, PartialEq, Eq, Structural)]
pub enum Progress {
    Todo,
    Work,
    Done,
}

impl Progress {
    /// Whether the task is finished.
    pub open spec fn is_done(self) -> bool {
        self == Progress::Done
    }

    /// How the state is written.
    pub open spec fn label(self) -> Seq<char> {
        match self {
            Progress::Todo => "TODO"@,
            Progress::Work => "WORK"@,
            Progress::Done => "DONE"@,
        }
    }

    /// How the state is written.
    pub fn to_string(&self) -> (text: String)
        ensures
            text@ == self.label(),
    {
        match self {
            Progress::Todo => "TODO".to_owned(),
            Progress::Work => "WORK".to_owned(),
            Progress::Done => "DONE".to_owned(),
        }
    }

    /// Whether the task is finished.
    pub fn done(self) -> (b: bool)
        ensures
            b == self.is_done(),
    {
        match self {
            Progress::Todo => false,
            Progress::Work => false,
            Progress::Done => true,
        }
    }
}

/// A node of the task tree.
///
/// `children` holds the identifiers of the child tasks in display order.
#[derive(Debug, PartialEq, Eq)]
pub struct Task {
    pub id: u128,
    pub title: String,
    pub body: String,
    pub children: Vec<u128>,
    pub progress: Option<Progress>,
}

/// The mathematical content of a [`Task`].
pub struct TaskView {
    pub id: u128,
    pub title: Seq<char>,
    pub body: Seq<char>,
    pub children: Seq<u128>,
    pub progress: Option<Progress>,
}

impl TaskView {
    /// A task with the given identifier and nothing else.
    pub open spec fn empty(id: u128) -> TaskView {
        TaskView { id, title: Seq::empty(), body: Seq::empty(), children: Seq::empty(), progress: None }
    }

    pub open spec fn with_title(self, title: Seq<char>) -> TaskView {
        TaskView { title, ..self }
    }

    pub open spec fn with_body(self, body: Seq<char>) -> TaskView {
        TaskView { body, ..self }
    }

    pub open spec fn with_children(self, children: Seq<u128>) -> TaskView {
        TaskView { children, ..self }
    }

    pub open spec fn with_progress(self, progress: Progress) -> TaskView {
        TaskView { progress: Some(progress), ..self }
    }

    /// The task with `child` appended to its children.
    pub open spec fn with_child_added(self, child: u128) -> TaskView {
        self.with_children(self.children.push(child))
    }

    /// The task with `child` put at position `index` of its children.
    pub open spec fn with_child_inserted(self, child: u128, index: int) -> TaskView
        recommends
            0 <= index <= self.children.len(),
    {
        self.with_children(self.children.insert(index, child))
    }

    /// The task without any occurrence of `child` among its children; the
    /// others keep their order.
    pub open spec fn without_child(self, child: u128) -> TaskView {
        self.with_children(without(self.children, child))
    }
}

/// `ids` without any occurrence of `id`, the rest in their order.
pub open spec fn without(ids: Seq<u128>, id: u128) -> Seq<u128> {
    ids.filter(other_than(id))
}

/// The test that tells every identifier but `id`.
pub open spec fn other_than(id: u128) -> spec_fn(u128) -> bool {
    |c: u128| c != id
}

impl View for Task {
    type V = TaskView;

    open spec fn view(&self) -> TaskView {
        TaskView {
            id: self.id,
            title: self.title@,
            body: self.body@,
            children: self.children@,
            progress: self.progress,
        }
    }
}

impl Clone for Task {
    fn clone(&self) -> (r: Self)
        ensures
            r@ == self@,
    {
        Task {
            id: self.id,
            title: self.title.clone(),
            body: self.body.clone(),
            children: self.children.clone(),
            progress: self.progress,
        }
    }
}

impl Task {
    /// A task with a fresh random identifier and nothing else.
    pub fn new() -> (t: Task)
        ensures
            t@ == TaskView::empty(t.id),
            is_random_id(t.id),
    {
        Task {
            id: new_id(),
            title: String::new(),
            body: String::new(),
            children: Vec::new(),
            progress: None,
        }
    }
}

/// Appending one more identifier before dropping `id` is dropping it first
/// and appending afterwards, unless the new one is `id` itself.
pub proof fn lemma_without_push(ids: Seq<u128>, x: u128, id: u128)
    ensures
        without(ids.push(x), id) == if x != id {
            without(ids, id).push(x)
        } else {
            without(ids, id)
        },
{
    ids.lemma_filter_push(x, other_than(id));
}

/// Nothing is left of `id` once it is dropped, and every other identifier
/// stays.
pub proof fn lemma_without_contains(ids: Seq<u128>, id: u128, x: u128)
    ensures
        without(ids, id).contains(x) <==> (ids.contains(x) && x != id),
    decreases ids.len(),
{
    if ids.len() > 0 {
        let rest = ids.drop_last();
        lemma_without_contains(rest, id, x);
        assert(ids =~= rest.push(ids.last()));
        lemma_without_push(rest, ids.last(), id);
        if ids.contains(x) {
            let i = choose|i: int| 0 <= i < ids.len() && ids[i] == x;
            if i < rest.len() {
                assert(rest[i] == x);
            }
        }
        if without(ids, id).contains(x) && ids.last() != id {
            let w = without(rest, id);
            let j = choose|j: int| 0 <= j < w.push(ids.last()).len() && w.push(ids.last())[j] == x;
            if j < w.len() {
                assert(w[j] == x);
            } else {
                assert(ids[ids.len() - 1] == x);
            }
        }
        if rest.contains(x) {
            let i = choose|i: int| 0 <= i < rest.len() && rest[i] == x;
            assert(ids[i] == x);
        }
        if without(rest, id).contains(x) && ids.last() != id {
            let w = without(rest, id);
            let j = choose|j: int| 0 <= j < w.len() && w[j] == x;
            assert(w.push(ids.last())[j] == x);
        }
        if x == ids.last() && x != id {
            let w = without(rest, id);
            assert(w.push(x)[w.len() as int] == x);
        }
    }
}

/// Dropping an identifier that does not occur changes nothing.
pub proof fn lemma_without_absent(ids: Seq<u128>, id: u128)
    requires
        !ids.contains(id),
    ensures
        without(ids, id) == ids,
    decreases ids.len(),
{
    if ids.len() > 0 {
        let rest = ids.drop_last();
        assert(ids =~= rest.push(ids.last()));
        assert(ids[ids.len() - 1] != id);
        assert forall|i: int| 0 <= i < rest.len() implies rest[i] != id by {
            assert(ids[i] == rest[i]);
        }
        lemma_without_absent(rest, id);
        lemma_without_push(rest, ids.last(), id);
    } else {
        assert(without(ids, id) =~= ids);
    }
}

/// The edits of a task. Each one returns the task itself, so that edits can
/// be chained.
pub trait TaskMod {
    /// How many children the task has.
    spec fn child_count(&self) -> nat;

    fn set_title(&mut self, title: &str) -> &mut Self;

    fn set_body(&mut self, body: &str) -> &mut Self;

    fn set_children(&mut self, children: Vec<u128>) -> &mut Self;

    fn add_child(&mut self, child: u128) -> &mut Self;

    /// Puts `child` at position `index`, which may be the length of the
    /// list and no more.
    fn insert_child(&mut self, child: u128, index: usize) -> &mut Self
        requires
            index <= old(self).child_count(),
    ;

    fn remove_child(&mut self, child: &u128) -> &mut Self;

    fn set_progress(&mut self, progress: Progress) -> &mut Self;
}

impl TaskMod for Task {
    open spec fn child_count(&self) -> nat {
        self.children@.len()
    }

    fn set_title(&mut self, title: &str) -> (r: &mut Self)
        ensures
            r@ == old(self)@.with_title(title@),
            *final(self) == *final(r),
    {
        self.title = title.to_owned();
        self
    }

    fn set_body(&mut self, body: &str) -> (r: &mut Self)
        ensures
            r@ == old(self)@.with_body(body@),
            *final(self) == *final(r),
    {
        self.body = body.to_owned();
        self
    }

    fn set_children(&mut self, children: Vec<u128>) -> (r: &mut Self)
        ensures
            r@ == old(self)@.with_children(children@),
            *final(self) == *final(r),
    {
        self.children = children;
        self
    }

    fn add_child(&mut self, child: u128) -> (r: &mut Self)
        ensures
            r@ == old(self)@.with_child_added(child),
            *final(self) == *final(r),
    {
        self.children.push(child);
        self
    }

    fn insert_child(&mut self, child: u128, index: usize) -> (r: &mut Self)
        ensures
            r@ == old(self)@.with_child_inserted(child, index as int),
            *final(self) == *final(r),
    {
        self.children.insert(index, child);
        self
    }

    fn remove_child(&mut self, child: &u128) -> (r: &mut Self)
        ensures
            r@ == old(self)@.without_child(*child),
            *final(self) == *final(r),
    {
        let mut kept: Vec<u128> = Vec::new();
        let mut i: usize = 0;
        while i < self.children.len()
            invariant
                i <= self.children@.len(),
                *self == *old(self),
                kept@ == without(self.children@.take(i as int), *child),
            decreases self.children@.len() - i,
        {
            let c: u128 = self.children[i];
            proof {
                assert(self.children@.take(i + 1) =~= self.children@.take(i as int).push(c));
                lemma_without_push(self.children@.take(i as int), c, *child);
            }
            if c != *child {
                kept.push(c);
            }
            i += 1;
        }
        proof {
            assert(self.children@.take(i as int) =~= self.children@);
        }
        self.children = kept;
        self
    }

    fn set_progress(&mut self, progress: Progress) -> (r: &mut Self)
        ensures
            r@ == old(self)@.with_progress(progress),
            *final(self) == *final(r),
    {
        self.progress = Some(progress);
        self
    }
}

impl Default for Task {
    fn default() -> (t: Task)
        ensures
            t@ == TaskView::empty(t.id),
            is_random_id(t.id),
    {
        Task::new()
    }
}

} // verus!
