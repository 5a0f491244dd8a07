//! The document: the store of tasks, the store of clocks, and the root.

use crate::clock::{Clock, ClockView};
use crate::error::Error;
use crate::ident::is_random_id;
use crate::laws::lemma_upsert_keeps_wf;
use crate::tasks::{without, Progress, Task, TaskMod, TaskView};
use crate::text::{lowercase_of, replace, replaced, starts_with, to_lowercase};
use std::collections::HashMap;
use vstd::prelude::*;
use vstd::std_specs::hash::*;
use vstd::std_specs::iter::IteratorSpec;

verus! {

/// Everything that is kept: the tasks and the clocks by identifier, the
/// clock that is running, and the root of the task tree.
#[derive(Debug)]
pub struct Doc {
    pub map: HashMap<u128, Task>,
    pub clocks: HashMap<u128, Clock>,
    pub current_clock: Option<u128>,
    pub root: u128,
}

/// The mathematical content of a [`Doc`].
pub struct DocView {
    pub tasks: Map<u128, TaskView>,
    pub clocks: Map<u128, ClockView>,
    pub current_clock: Option<u128>,
    pub root: u128,
}

impl View for Doc {
    type V = DocView;

    open spec fn view(&self) -> DocView {
        DocView {
            tasks: self.map@.map_values(|t: Task| t@),
            clocks: self.clocks@.map_values(|c: Clock| c@),
            current_clock: self.current_clock,
            root: self.root,
        }
    }
}

impl Clone for Doc {
    fn clone(&self) -> (r: Self)
        ensures
            r@ == self@,
    {
        let r = Doc {
            map: self.map.clone(),
            clocks: self.clocks.clone(),
            current_clock: self.current_clock,
            root: self.root,
        };
        assert(r@.tasks =~= self@.tasks);
        assert(r@.clocks =~= self@.clocks);
        r
    }
}

impl DocView {
    /// The document with `task` stored under its identifier, in place of
    /// what was there.
    pub open spec fn upsert(self, task: TaskView) -> DocView {
        DocView { tasks: self.tasks.insert(task.id, task), ..self }
    }

    /// Whether a task with identifier `parent` lists `child` among its
    /// children.
    pub open spec fn is_parent(self, parent: u128, child: u128) -> bool {
        exists|k: u128|
            #![trigger self.tasks.contains_key(k)]
            self.tasks.contains_key(k) && self.tasks[k].id == parent && self.tasks[k].children.contains(child)
    }

    /// Whether any task lists `child` among its children.
    pub open spec fn has_parent(self, child: u128) -> bool {
        exists|p: u128| self.is_parent(p, child)
    }

    /// What a search for the parent of `child` may answer: a task that
    /// lists it, whichever is met first, and `None` only where there is none.
    pub open spec fn parent_found(self, child: u128, found: Option<u128>) -> bool {
        match found {
            Some(parent) => self.is_parent(parent, child),
            None => !self.has_parent(child),
        }
    }

    /// The root resolves, every task and every clock is stored under its
    /// own identifier, the running clock is in the store, and the stores
    /// are finite.
    pub open spec fn wf(self) -> bool {
        &&& self.tasks.contains_key(self.root)
        &&& self.tasks.dom().finite()
        &&& self.clocks.dom().finite()
        &&& forall|k: u128| #[trigger] self.tasks.contains_key(k) ==> self.tasks[k].id == k
        &&& forall|k: u128| #[trigger] self.clocks.contains_key(k) ==> self.clocks[k].id == k
        &&& self.current_clock matches Some(id) ==> self.clocks.contains_key(id)
    }

    /// A fresh document: the root task alone, empty, and no clock.
    pub open spec fn fresh(root: u128) -> DocView {
        DocView {
            tasks: Map::empty().insert(root, TaskView::empty(root)),
            clocks: Map::empty(),
            current_clock: None,
            root,
        }
    }

    /// The document after `task` was added below `parent`: the parent
    /// lists it last, and the task itself is stored. Unchanged where there
    /// is no such parent.
    pub open spec fn add_subtask(self, task: TaskView, parent: u128) -> DocView {
        if self.tasks.contains_key(parent) {
            self.upsert(self.tasks[parent].with_child_added(task.id)).upsert(task)
        } else {
            self
        }
    }

    /// The document after `child` was taken out of the children of
    /// `parent`. Unchanged where there is no such parent.
    pub open spec fn remove_child(self, parent: u128, child: u128) -> DocView {
        if self.tasks.contains_key(parent) {
            self.upsert(self.tasks[parent].without_child(child))
        } else {
            self
        }
    }

    /// The document after `child` was moved to position `index` among the
    /// children of `parent`: taken out first, then put in. Unchanged where
    /// there is no such parent or the position is beyond the list.
    pub open spec fn insert_child(self, parent: u128, child: u128, index: int) -> DocView {
        if self.tasks.contains_key(parent) && 0 <= index <= without(
            self.tasks[parent].children,
            child,
        ).len() {
            self.upsert(self.tasks[parent].without_child(child).with_child_inserted(child, index))
        } else {
            self
        }
    }

    /// Each entry but the first is a parent of the one before it.
    pub open spec fn is_chain(self, walk: Seq<u128>) -> bool {
        forall|i: int| 1 <= i < walk.len() ==> self.is_parent(#[trigger] walk[i], walk[i - 1])
    }

    /// `walk` climbs from `start` parent by parent.
    pub open spec fn is_walk(self, start: u128, walk: Seq<u128>) -> bool {
        walk.len() >= 1 && walk[0] == start && self.is_chain(walk)
    }

    /// What [`Doc::path`] may answer for `start`: a climb from `start` that
    /// ends at a task without parent. Only where the climb has more entries
    /// than there are tasks, which takes a cycle, it is cut off there.
    pub open spec fn is_path(self, start: u128, path: Seq<u128>) -> bool {
        self.is_walk(start, path) && (!self.has_parent(path.last()) || path.len()
            == self.tasks.len() + 1)
    }

    /// What [`Doc::is_in_hierarchy_of`] may answer. `true`: some climb from
    /// `child` of at most 200 entries ends at `ancestor`. `false`: some
    /// climb from `child` does not meet `ancestor` and either ends at a
    /// task without parent or has 200 entries.
    pub open spec fn hierarchy_answer(self, child: u128, ancestor: u128, answer: bool) -> bool {
        exists|walk: Seq<u128>|
            #![trigger self.is_walk(child, walk)]
            self.is_walk(child, walk) && walk.len() <= HOPS && if answer {
                walk.last() == ancestor
            } else {
                !walk.contains(ancestor) && (walk.len() == HOPS || !self.has_parent(walk.last()))
            }
    }

    /// The child at position `index`, counted from 0, of the task `parent`.
    pub open spec fn child_at(self, parent: u128, index: int) -> Option<u128> {
        if self.tasks.contains_key(parent) && 0 <= index < self.tasks[parent].children.len() {
            Some(self.tasks[parent].children[index])
        } else {
            None
        }
    }

    /// The first of `children` whose title begins with `prefix` once it is
    /// brought to the common form. The search ends with `None` at a child
    /// that is not stored.
    pub open spec fn child_named(self, children: Seq<u128>, prefix: Seq<char>) -> Option<u128>
        decreases children.len(),
    {
        if children.len() == 0 {
            None
        } else if !self.tasks.contains_key(children[0]) {
            None
        } else if prefix.is_prefix_of(common_form(self.tasks[children[0]].title)) {
            Some(children[0])
        } else {
            self.child_named(children.drop_first(), prefix)
        }
    }

    /// Whether `id` is a stored task with some progress state.
    pub open spec fn has_progress(self, id: u128) -> bool {
        self.tasks.contains_key(id) && self.tasks[id].progress is Some
    }

    /// Whether `id` is a stored task that is done.
    pub open spec fn is_finished(self, id: u128) -> bool {
        self.tasks.contains_key(id) && self.tasks[id].progress == Some(Progress::Done)
    }

    /// How many of `children` are done, and how many have any progress
    /// state.
    pub open spec fn progress_of(self, children: Seq<u128>) -> (nat, nat) {
        (
            children.filter(|c: u128| self.is_finished(c)).len(),
            children.filter(|c: u128| self.has_progress(c)).len(),
        )
    }
}

/// The form in which titles and prefixes are compared: lower case, with
/// an underscore for every space.
pub open spec fn common_form(text: Seq<char>) -> Seq<char> {
    replaced(lowercase_of(text), ' ', "_"@)
}

/// The form in which titles and prefixes are compared.
pub fn to_common_form(text: &str) -> (r: String)
    ensures
        r@ == common_form(text@),
{
    let lower = to_lowercase(text);
    replace(lower.as_str(), ' ', "_")
}

/// How many tasks a climb through the hierarchy looks at before it gives
/// up.
pub const HOPS: usize = 200;

/// The identifiers under which a store holds something, each once, in no
/// order that could be named.
pub fn stored_ids<V>(store: &HashMap<u128, V>) -> (ids: Vec<u128>)
    ensures
        ids@.no_duplicates(),
        ids@.to_set() == store@.dom(),
{
    broadcast use group_hash_axioms;

    let mut ids: Vec<u128> = Vec::new();
    for id in walk: store.keys()
        invariant
            ids@.len() == walk.index(),
            forall|i: int| 0 <= i < ids@.len() ==> ids@[i] == *walk.seq()[i],
            walk.seq() == spec_keys_iter(store).remaining(),
    {
        ids.push(*id);
    }
    proof {
        let all = spec_keys_iter(store).remaining();
        assert(ids@ =~= all.unref());
        assert forall|i: int, j: int| 0 <= i < j < ids@.len() implies ids@[i] != ids@[j] by {
            assert(all[i] != all[j]);
        }
    }
    ids
}

impl Doc {
    /// A fresh document: one empty root task with a random identifier.
    pub fn new() -> (doc: Doc)
        ensures
            doc@ == DocView::fresh(doc.root),
            doc@.wf(),
            is_random_id(doc.root),
    {
        broadcast use group_hash_axioms;

        let root = Task::new();
        let root_id: u128 = root.id;
        let mut map: HashMap<u128, Task> = HashMap::new();
        map.insert(root_id, root);
        let doc = Doc { map, clocks: HashMap::new(), current_clock: None, root: root_id };
        assert(doc@.tasks =~= DocView::fresh(root_id).tasks);
        assert(doc@.clocks =~= DocView::fresh(root_id).clocks);
        doc
    }

    /// The root task, as it is now.
    pub fn get_root(&self) -> (r: Result<Task, Error>)
        ensures
            match r {
                Ok(task) => self@.tasks.contains_key(self.root) && task@ == self@.tasks[self.root],
                Err(e) => e == Error::TaskUuidNotFound && !self@.tasks.contains_key(self.root),
            },
    {
        self.get(&self.root)
    }

    /// The task stored under `id`, as it is now.
    pub fn get(&self, id: &u128) -> (r: Result<Task, Error>)
        ensures
            match r {
                Ok(task) => self@.tasks.contains_key(*id) && task@ == self@.tasks[*id],
                Err(e) => e == Error::TaskUuidNotFound && !self@.tasks.contains_key(*id),
            },
    {
        broadcast use group_hash_axioms;

        match self.map.get(id) {
            Some(task) => Ok(task.clone()),
            None => Err(Error::TaskUuidNotFound),
        }
    }

    /// Stores `task` under its identifier, in place of what was there.
    pub fn upsert(&mut self, task: Task)
        ensures
            final(self)@ == old(self)@.upsert(task@),
            old(self)@.wf() ==> final(self)@.wf(),
    {
        broadcast use group_hash_axioms;

        proof {
            if self@.wf() {
                lemma_upsert_keeps_wf(self@, task@);
            }
        }
        self.map.insert(task.id, task);
        assert(final(self)@.tasks =~= old(self)@.tasks.insert(task.id, task@));
    }

    /// Lets `func` rework the task stored under `id` and stores what it
    /// returns. Where `func` fails, its error is handed on and nothing is
    /// stored.
    pub fn modify_task<F>(&mut self, id: &u128, func: F) -> (r: Result<(), Error>) where
        F: FnOnce(Task) -> Result<Task, Error>,

        requires
            forall|t: Task|
                old(self)@.tasks.contains_key(*id) && t@ == old(self)@.tasks[*id]
                    ==> #[trigger] call_requires(func, (t,)),
        ensures
            old(self)@.wf() ==> final(self)@.wf(),
            match r {
                Ok(()) => old(self)@.tasks.contains_key(*id) && exists|before: Task, after: Task|
                    before@ == old(self)@.tasks[*id] && #[trigger] call_ensures(
                        func,
                        (before,),
                        Ok(after),
                    ) && final(self)@ == old(self)@.upsert(after@),
                Err(e) => final(self)@ == old(self)@ && if old(self)@.tasks.contains_key(*id) {
                    exists|before: Task|
                        before@ == old(self)@.tasks[*id] && #[trigger] call_ensures(
                            func,
                            (before,),
                            Err(e),
                        )
                } else {
                    e == Error::TaskUuidNotFound
                },
            },
    {
        let task = match self.get(id) {
            Ok(task) => task,
            Err(e) => {
                return Err(e);
            },
        };
        match func(task) {
            Ok(after) => {
                self.upsert(after);
                Ok(())
            },
            Err(e) => Err(e),
        }
    }

    /// Adds `task` below the task `parent_ref`: the parent lists it last,
    /// and the task itself is stored.
    pub fn add_subtask(&mut self, task: Task, parent_ref: &u128) -> (r: Result<(), Error>)
        ensures
            final(self)@ == old(self)@.add_subtask(task@, *parent_ref),
            old(self)@.wf() ==> final(self)@.wf(),
            match r {
                Ok(()) => old(self)@.tasks.contains_key(*parent_ref),
                Err(e) => e == Error::TaskUuidNotFound && !old(self)@.tasks.contains_key(
                    *parent_ref,
                ),
            },
    {
        let mut parent = match self.get(parent_ref) {
            Ok(parent) => parent,
            Err(e) => {
                return Err(e);
            },
        };
        parent.add_child(task.id);
        self.upsert(parent);
        self.upsert(task);
        Ok(())
    }

    /// Takes `child_id` out of the children of the task `parent_id`; the
    /// other children keep their order.
    pub fn remove_child(&mut self, parent_id: &u128, child_id: &u128) -> (r: Result<(), Error>)
        ensures
            final(self)@ == old(self)@.remove_child(*parent_id, *child_id),
            old(self)@.wf() ==> final(self)@.wf(),
            match r {
                Ok(()) => old(self)@.tasks.contains_key(*parent_id),
                Err(e) => e == Error::TaskUuidNotFound && !old(self)@.tasks.contains_key(
                    *parent_id,
                ),
            },
    {
        let mut parent = match self.get(parent_id) {
            Ok(parent) => parent,
            Err(e) => {
                return Err(e);
            },
        };
        parent.remove_child(child_id);
        self.upsert(parent);
        Ok(())
    }

    /// Moves `child_id` to position `index`, counted from 0, among the
    /// children of the task `parent_id`: it is taken out where it was and
    /// put in at `index` of what is left. A position beyond the end of what
    /// is left is an error, and nothing changes.
    pub fn insert_child(&mut self, parent_id: &u128, child_id: &u128, index: usize) -> (r: Result<
        (),
        Error,
    >)
        ensures
            final(self)@ == old(self)@.insert_child(*parent_id, *child_id, index as int),
            old(self)@.wf() ==> final(self)@.wf(),
            match r {
                Ok(()) => old(self)@.tasks.contains_key(*parent_id) && index <= without(
                    old(self)@.tasks[*parent_id].children,
                    *child_id,
                ).len(),
                Err(e) => if old(self)@.tasks.contains_key(*parent_id) {
                    e == Error::ChildOutOfIndex && index > without(
                        old(self)@.tasks[*parent_id].children,
                        *child_id,
                    ).len()
                } else {
                    e == Error::TaskUuidNotFound
                },
            },
    {
        let mut parent = match self.get(parent_id) {
            Ok(parent) => parent,
            Err(e) => {
                return Err(e);
            },
        };
        parent.remove_child(child_id);
        if index > parent.children.len() {
            return Err(Error::ChildOutOfIndex);
        }
        parent.insert_child(*child_id, index);
        self.upsert(parent);
        Ok(())
    }

    /// Whether `parent_task` is met on the climb from `child_task` through
    /// its parents, `child_task` itself included. The climb looks at 200
    /// tasks and then gives up with `false`.
    pub fn is_in_hierarchy_of(&self, child_task: &u128, parent_task: &u128) -> (r: bool)
        ensures
            self@.hierarchy_answer(*child_task, *parent_task, r),
    {
        let mut tmp_task: u128 = *child_task;
        let mut counter: usize = 0;
        let ghost mut walk: Seq<u128> = seq![tmp_task];
        loop
            invariant
                counter <= HOPS,
                walk.len() == counter + 1,
                walk.last() == tmp_task,
                self@.is_walk(*child_task, walk),
                !walk.drop_last().contains(*parent_task),
            decreases HOPS - counter,
        {
            if counter == HOPS {
                proof {
                    let seen = walk.drop_last();
                    assert forall|i: int| 1 <= i < seen.len() implies self@.is_parent(
                        #[trigger] seen[i],
                        seen[i - 1],
                    ) by {
                        assert(seen[i] == walk[i]);
                    }
                    assert(self@.is_walk(*child_task, seen));
                }
                return false;
            }
            counter += 1;
            if tmp_task == *parent_task {
                return true;
            }
            match self.find_parent(&tmp_task) {
                Some(new_parent) => {
                    proof {
                        let longer = walk.push(new_parent);
                        assert forall|i: int| 1 <= i < longer.len() implies self@.is_parent(
                            #[trigger] longer[i],
                            longer[i - 1],
                        ) by {
                            if i < walk.len() {
                                assert(longer[i] == walk[i]);
                            }
                        }
                        assert(longer.drop_last() =~= walk);
                        assert forall|i: int| 0 <= i < walk.len() implies walk[i]
                            != *parent_task by {
                            if i < walk.len() - 1 {
                                assert(walk.drop_last()[i] == walk[i]);
                            }
                        }
                        walk = longer;
                    }
                    tmp_task = new_parent;
                },
                None => {
                    proof {
                        assert forall|i: int| 0 <= i < walk.len() implies walk[i]
                            != *parent_task by {
                            if i < walk.len() - 1 {
                                assert(walk.drop_last()[i] == walk[i]);
                            }
                        }
                    }
                    return false;
                },
            }
        }
    }

    /// The child at position `i`, counted from 0, of the task `task_id`;
    /// `None` where there is no such task or no such position.
    pub fn task_child(&self, task_id: &u128, i: usize) -> (r: Option<u128>)
        ensures
            r == self@.child_at(*task_id, i as int),
    {
        broadcast use group_hash_axioms;

        match self.map.get(task_id) {
            Some(task) => {
                if i < task.children.len() {
                    Some(task.children[i])
                } else {
                    None
                }
            },
            None => None,
        }
    }

    /// The child with number `ordinal`, counted from 1, of the task
    /// `parent_id`; `None` where there is no such task or no such number.
    pub fn child_by_ordinal(&self, parent_id: &u128, ordinal: usize) -> (r: Option<u128>)
        ensures
            r == self@.child_at(*parent_id, ordinal - 1),
    {
        if ordinal == 0 {
            None
        } else {
            self.task_child(parent_id, ordinal - 1)
        }
    }

    /// The first child of the task `task_id` whose title begins with
    /// `prefix`. Case does not count, and a space is as good as an
    /// underscore. `None` where there is no such task or no such child, and
    /// where a child that comes before is not stored.
    pub fn task_child_prefix(&self, task_id: &u128, prefix: &str) -> (r: Option<u128>)
        ensures
            r == if self@.tasks.contains_key(*task_id) {
                self@.child_named(self@.tasks[*task_id].children, common_form(prefix@))
            } else {
                None
            },
    {
        broadcast use group_hash_axioms;

        let task = match self.map.get(task_id) {
            Some(task) => task,
            None => {
                return None;
            },
        };
        let wanted = to_common_form(prefix);
        assert(task.children@.skip(0) =~= task.children@);
        let mut i: usize = 0;
        while i < task.children.len()
            invariant
                i <= task.children@.len(),
                wanted@ == common_form(prefix@),
                self@.tasks.contains_key(*task_id),
                self@.tasks[*task_id].children == task.children@,
                self@.child_named(task.children@, wanted@) == self@.child_named(
                    task.children@.skip(i as int),
                    wanted@,
                ),
            decreases task.children@.len() - i,
        {
            let child: u128 = task.children[i];
            proof {
                let rest = task.children@.skip(i as int);
                assert(rest[0] == child);
                assert(rest.drop_first() =~= task.children@.skip(i + 1));
            }
            let child_task = match self.map.get(&child) {
                Some(child_task) => child_task,
                None => {
                    assert(!self@.tasks.contains_key(child));
                    return None;
                },
            };
            assert(self@.tasks.contains_key(child) && self@.tasks[child].title == child_task.title@);
            let title = to_common_form(child_task.title.as_str());
            if starts_with(title.as_str(), wanted.as_str()) {
                return Some(child);
            }
            i += 1;
        }
        assert(task.children@.skip(i as int).len() == 0);
        None
    }

    /// The tasks from `task_ref` up through its parents, `task_ref` first.
    pub fn path(&self, task_ref: &u128) -> (res: Vec<u128>)
        ensures
            self@.is_path(*task_ref, res@),
    {
        broadcast use group_hash_axioms;

        let limit: usize = self.map.len();
        let mut res: Vec<u128> = Vec::new();
        let mut current: u128 = *task_ref;
        res.push(current);
        assert(self@.tasks.dom() =~= self.map@.dom());
        while res.len() <= limit
            invariant
                limit == self@.tasks.len(),
                res@.len() <= limit + 1,
                res@.last() == current,
                self@.is_walk(*task_ref, res@),
            decreases limit + 1 - res@.len(),
        {
            match self.find_parent(&current) {
                Some(parent) => {
                    proof {
                        let longer = res@.push(parent);
                        assert forall|i: int| 1 <= i < longer.len() implies self@.is_parent(
                            #[trigger] longer[i],
                            longer[i - 1],
                        ) by {
                            if i < res@.len() {
                                assert(longer[i] == res@[i]);
                            }
                        }
                    }
                    res.push(parent);
                    current = parent;
                },
                None => {
                    return res;
                },
            }
        }
        res
    }

    /// How many children of the task `task_ref` are done, and how many
    /// have any progress state. A child that is not stored counts for
    /// neither.
    pub fn progress_summary(&self, task_ref: &u128) -> (r: Result<(usize, usize), Error>)
        ensures
            match r {
                Ok((done, all)) => self@.tasks.contains_key(*task_ref) && (done as nat, all as nat)
                    == self@.progress_of(self@.tasks[*task_ref].children),
                Err(e) => e == Error::TaskUuidNotFound && !self@.tasks.contains_key(*task_ref),
            },
    {
        broadcast use group_hash_axioms;

        let task = match self.map.get(task_ref) {
            Some(task) => task,
            None => {
                return Err(Error::TaskUuidNotFound);
            },
        };
        let ghost finished = |c: u128| self@.is_finished(c);
        let ghost rated = |c: u128| self@.has_progress(c);
        let mut done: usize = 0;
        let mut all: usize = 0;
        let mut i: usize = 0;
        while i < task.children.len()
            invariant
                i <= task.children@.len(),
                finished == (|c: u128| self@.is_finished(c)),
                rated == (|c: u128| self@.has_progress(c)),
                done == task.children@.take(i as int).filter(finished).len(),
                all == task.children@.take(i as int).filter(rated).len(),
                done <= i,
                all <= i,
            decreases task.children@.len() - i,
        {
            let child: u128 = task.children[i];
            proof {
                let seen = task.children@.take(i as int);
                assert(task.children@.take(i + 1) =~= seen.push(child));
                seen.lemma_filter_push(child, finished);
                seen.lemma_filter_push(child, rated);
            }
            match self.map.get(&child) {
                Some(child_task) => {
                    match child_task.progress {
                        Some(progress) => {
                            if progress.done() {
                                done += 1;
                            }
                            all += 1;
                        },
                        None => {},
                    }
                },
                None => {},
            }
            i += 1;
        }
        proof {
            assert(task.children@.take(i as int) =~= task.children@);
        }
        Ok((done, all))
    }

    /// The identifier of a task that lists `task_ref` among its children:
    /// the first one met, in no order that could be named.
    pub fn find_parent(&self, task_ref: &u128) -> (found: Option<u128>)
        ensures
            self@.parent_found(*task_ref, found),
    {
        broadcast use group_hash_axioms;

        let ids = stored_ids(&self.map);
        let mut i: usize = 0;
        while i < ids.len()
            invariant
                i <= ids@.len(),
                ids@.to_set() == self.map@.dom(),
                forall|j: int|
                    0 <= j < i ==> !(#[trigger] self@.tasks[ids@[j]]).children.contains(*task_ref),
            decreases ids@.len() - i,
        {
            let key: u128 = ids[i];
            assert(ids@.to_set().contains(key));
            match self.map.get(&key) {
                Some(task) => {
                    if holds(&task.children, task_ref) {
                        assert(self@.tasks.contains_key(key));
                        return Some(task.id);
                    }
                },
                None => {},
            }
            i += 1;
        }
        proof {
            assert forall|p: u128| !self@.is_parent(p, *task_ref) by {
                assert forall|k: u128| self@.tasks.contains_key(k) implies !self@.tasks[k].children.contains(*task_ref) by {
                    assert(ids@.to_set().contains(k));
                    let j = choose|j: int| 0 <= j < ids@.len() && ids@[j] == k;
                    assert(!self@.tasks[ids@[j]].children.contains(*task_ref));
                }
            }
        }
        None
    }
}

/// Whether `id` occurs in `ids`.
pub fn holds(ids: &Vec<u128>, id: &u128) -> (b: bool)
    ensures
        b == ids@.contains(*id),
{
    let mut i: usize = 0;
    while i < ids.len()
        invariant
            i <= ids@.len(),
            forall|j: int| 0 <= j < i ==> ids@[j] != *id,
        decreases ids@.len() - i,
    {
        if ids[i] == *id {
            return true;
        }
        i += 1;
    }
    false
}

} // verus!
