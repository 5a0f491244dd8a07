//! What holds of the document across its operations.

use crate::clock::ClockView;
use crate::doc::{DocView, HOPS};
use vstd::set_lib::lemma_len_subset;
use crate::tasks::{lemma_without_absent, lemma_without_contains, without, TaskView};
use crate::time::Timestamp;
use vstd::prelude::*;

verus! {

impl DocView {
    /// None of `tasks` is listed by two tasks.
    pub open spec fn sole_parents(self, tasks: Seq<u128>) -> bool {
        forall|i: int, p: u128, q: u128|
            0 <= i < tasks.len() && #[trigger] self.is_parent(p, tasks[i]) && #[trigger] self.is_parent(
                q,
                tasks[i],
            ) ==> p == q
    }

    /// Some climb from `child` ends at `ancestor`.
    pub open spec fn reaches(self, child: u128, ancestor: u128) -> bool {
        exists|walk: Seq<u128>| #[trigger]
            self.is_walk(child, walk) && walk.last() == ancestor
    }
}

/// In a well-formed document a task is a parent of `child` exactly where it
/// is stored and lists `child`.
pub proof fn lemma_parent_is_stored(doc: DocView, parent: u128, child: u128)
    requires
        doc.wf(),
    ensures
        doc.is_parent(parent, child) <==> doc.tasks.contains_key(parent)
            && doc.tasks[parent].children.contains(child),
{
    if doc.tasks.contains_key(parent) && doc.tasks[parent].children.contains(child) {
        assert(doc.tasks[parent].id == parent);
    }
}

/// After `task` was added below `parent`, the parent lists it, and a search
/// for the parent of `task` finds `parent` and nothing else. This holds
/// where no other task lists `task` afterwards: no third task does, and
/// `task` lists itself only where it is its own parent.
pub proof fn lemma_added_task_finds_parent(
    doc: DocView,
    task: TaskView,
    parent: u128,
    found: Option<u128>,
)
    requires
        doc.wf(),
        doc.tasks.contains_key(parent),
        forall|k: u128|
            k != parent && k != task.id && #[trigger] doc.tasks.contains_key(k)
                ==> !doc.tasks[k].children.contains(task.id),
        task.children.contains(task.id) <==> parent == task.id,
        doc.add_subtask(task, parent).parent_found(task.id, found),
    ensures
        doc.add_subtask(task, parent).is_parent(parent, task.id),
        found == Some(parent),
{
    let after = doc.add_subtask(task, parent);
    let listed = doc.tasks[parent].with_child_added(task.id);
    assert(doc.tasks[parent].id == parent);
    assert(listed.children[listed.children.len() - 1] == task.id);
    assert(after.tasks.contains_key(parent));
    assert(after.tasks[parent].id == parent && after.tasks[parent].children.contains(task.id));
    assert(after.is_parent(parent, task.id));
    assert forall|q: u128| after.is_parent(q, task.id) implies q == parent by {
        let k = choose|k: u128|
            #![trigger after.tasks.contains_key(k)]
            after.tasks.contains_key(k) && after.tasks[k].id == q && after.tasks[k].children.contains(
                task.id,
            );
        if k != parent && k != task.id {
            assert(doc.tasks.contains_key(k));
        }
    }
}

/// A task is always in its own hierarchy.
pub proof fn lemma_in_own_hierarchy(doc: DocView, task: u128, answer: bool)
    requires
        doc.hierarchy_answer(task, task, answer),
    ensures
        answer,
{
    if !answer {
        let walk = choose|walk: Seq<u128>|
            #![trigger doc.is_walk(task, walk)]
            doc.is_walk(task, walk) && walk.len() <= HOPS && !walk.contains(task);
        assert(walk[0] == task);
    }
}

/// A task that stands below `ancestor`, directly or through other tasks,
/// is in its hierarchy. This holds where the climb to `ancestor` looks at
/// no more than 200 tasks, none of which has a second parent.
pub proof fn lemma_descendant_in_hierarchy(
    doc: DocView,
    child: u128,
    ancestor: u128,
    climb: Seq<u128>,
    answer: bool,
)
    requires
        doc.is_walk(child, climb),
        climb.last() == ancestor,
        climb.len() <= HOPS,
        doc.sole_parents(climb.drop_last()),
        doc.hierarchy_answer(child, ancestor, answer),
    ensures
        answer,
{
    if !answer {
        let walk = choose|walk: Seq<u128>|
            #![trigger doc.is_walk(child, walk)]
            doc.is_walk(child, walk) && walk.len() <= HOPS && !walk.contains(ancestor) && (
            walk.len() == HOPS || !doc.has_parent(walk.last()));
        let last = climb.len() - 1;
        lemma_sole_parents_climb(doc, child, climb, walk, if walk.len() >= climb.len() {
            last
        } else {
            walk.len() - 1
        });
        if walk.len() >= climb.len() {
            assert(walk[last] == ancestor);
        } else {
            let end = walk.len() - 1;
            assert(doc.is_parent(climb[end + 1], climb[end]));
        }
    }
}

/// A climb whose tasks, but for the last, have no second parent is met by
/// every other climb from the same task, as far as both go.
pub proof fn lemma_sole_parents_climb(
    doc: DocView,
    start: u128,
    climb: Seq<u128>,
    walk: Seq<u128>,
    i: int,
)
    requires
        doc.is_walk(start, climb),
        doc.is_walk(start, walk),
        doc.sole_parents(climb.drop_last()),
        0 <= i < climb.len(),
        i < walk.len(),
    ensures
        climb[i] == walk[i],
    decreases i,
{
    if i > 0 {
        lemma_sole_parents_climb(doc, start, climb, walk, i - 1);
        assert(doc.is_parent(walk[i], walk[i - 1]));
        assert(doc.is_parent(climb[i], climb[i - 1]));
        assert(climb.drop_last()[i - 1] == climb[i - 1]);
    }
}

/// A task from which no climb leads to `ancestor` is not in its
/// hierarchy.
pub proof fn lemma_unrelated_not_in_hierarchy(
    doc: DocView,
    child: u128,
    ancestor: u128,
    answer: bool,
)
    requires
        !doc.reaches(child, ancestor),
        doc.hierarchy_answer(child, ancestor, answer),
    ensures
        !answer,
{
    if answer {
        let walk = choose|walk: Seq<u128>|
            #![trigger doc.is_walk(child, walk)]
            doc.is_walk(child, walk) && walk.len() <= HOPS && walk.last() == ancestor;
        assert(doc.reaches(child, ancestor));
    }
}

/// After two clocks were started one after the other, the first has its
/// end, the second is the running one, and it alone is open. This holds
/// where the two have different identifiers and, before, no clock but the
/// running one was open.
pub proof fn lemma_second_clock_stops_first(
    doc: DocView,
    first: u128,
    first_ended: Timestamp,
    first_started: Timestamp,
    second: u128,
    second_ended: Timestamp,
    second_started: Timestamp,
)
    requires
        doc.wf(),
        doc.one_running(),
        first != second,
    ensures
        ({
            let (once, one) = doc.clock_new(first, first_ended, first_started);
            let (twice, two) = once.clock_new(second, second_ended, second_started);
            &&& one is Ok
            &&& two is Ok
            &&& twice.wf()
            &&& twice.clocks.contains_key(first)
            &&& twice.clocks[first].end == Some(second_ended)
            &&& twice.current_clock == Some(second)
            &&& forall|k: u128| #[trigger]
                twice.clocks.contains_key(k) ==> (twice.clocks[k].is_open() <==> k == second)
        }),
{
    let (once, one) = doc.clock_new(first, first_ended, first_started);
    lemma_clock_new_keeps_order(doc, first, first_ended, first_started);
    lemma_clock_new_keeps_order(once, second, second_ended, second_started);
}

/// Starting a clock keeps a well-formed document well-formed, and keeps
/// the running clock the only open one.
pub proof fn lemma_clock_new_keeps_order(doc: DocView, id: u128, ended: Timestamp, started: Timestamp)
    requires
        doc.wf(),
    ensures
        doc.clock_new(id, ended, started).1 is Ok,
        doc.clock_new(id, ended, started).0.wf(),
        doc.clock_new(id, ended, started).0.current_clock == Some(id),
        doc.one_running() ==> doc.clock_new(id, ended, started).0.one_running(),
        doc.one_running() ==> forall|k: u128| #[trigger]
            doc.clock_new(id, ended, started).0.clocks.contains_key(k) ==> (doc.clock_new(
                id,
                ended,
                started,
            ).0.clocks[k].is_open() <==> k == id),
{
    let (stopped, answer) = doc.clock_out(ended);
    match doc.current_clock {
        Some(running) => {
            assert(doc.clocks.contains_key(running));
            assert(doc.clocks[running].id == running);
        },
        None => {},
    }
    let after = doc.clock_new(id, ended, started).0;
    assert forall|k: u128| #[trigger] after.clocks.contains_key(k) implies after.clocks[k].id
        == k by {
        if k != id {
            assert(stopped.clocks.contains_key(k));
            if doc.current_clock != Some(k) {
                assert(doc.clocks.contains_key(k));
            }
        }
    }
    if doc.one_running() {
        assert forall|k: u128| #[trigger] after.clocks.contains_key(k) implies (
        after.clocks[k].is_open() <==> k == id) by {
            if k != id {
                assert(stopped.clocks.contains_key(k));
                if doc.current_clock != Some(k) {
                    assert(doc.clocks.contains_key(k));
                }
            }
        }
    }
}

/// Putting a child back in at `index` after it was taken out is a
/// reordering: the child stands at `index`, and the others stand in the
/// order they had.
pub proof fn lemma_reinserted_child(children: Seq<u128>, child: u128, index: int)
    requires
        0 <= index <= without(children, child).len(),
    ensures
        ({
            let moved = without(children, child).insert(index, child);
            &&& moved.len() == without(children, child).len() + 1
            &&& moved[index] == child
            &&& without(moved, child) == without(children, child)
            &&& forall|x: u128| moved.contains(x) <==> x == child || children.contains(x)
        }),
{
    let rest = without(children, child);
    let moved = rest.insert(index, child);
    rest.insert_ensures(index, child);
    lemma_without_contains(children, child, child);
    lemma_without_absent(rest, child);
    lemma_without_of_inserted(rest, child, index);
    assert forall|x: u128| moved.contains(x) <==> x == child || children.contains(x) by {
        lemma_without_contains(children, child, x);
        lemma_inserted_contains(rest, index, child, x);
    }
}

/// A list with `x` put in holds `x` and what it held before.
pub proof fn lemma_inserted_contains(ids: Seq<u128>, index: int, x: u128, y: u128)
    requires
        0 <= index <= ids.len(),
    ensures
        ids.insert(index, x).contains(y) <==> y == x || ids.contains(y),
{
    let more = ids.insert(index, x);
    ids.insert_ensures(index, x);
    if more.contains(y) {
        let i = choose|i: int| 0 <= i < more.len() && more[i] == y;
        if i < index {
            assert(ids[i] == y);
        } else if i > index {
            assert(more[(i - 1) + 1] == ids[i - 1]);
            assert(ids[i - 1] == y);
        }
    }
    if y == x {
        assert(more[index] == y);
    } else if ids.contains(y) {
        let i = choose|i: int| 0 <= i < ids.len() && ids[i] == y;
        if i < index {
            assert(more[i] == y);
        } else {
            assert(more[i + 1] == y);
        }
    }
}

/// A list with `id` put in somewhere is, without `id`, the list without
/// `id`.
pub proof fn lemma_without_of_inserted(ids: Seq<u128>, id: u128, index: int)
    requires
        0 <= index <= ids.len(),
    ensures
        without(ids.insert(index, id), id) == without(ids, id),
    decreases ids.len() - index,
{
    if index == ids.len() {
        assert(ids.insert(index, id) =~= ids.push(id));
        crate::tasks::lemma_without_push(ids, id, id);
    } else {
        let front = ids.drop_last();
        assert(ids =~= front.push(ids.last()));
        assert(ids.insert(index, id) =~= front.insert(index, id).push(ids.last()));
        lemma_without_of_inserted_front(front, ids.last(), id, index);
    }
}

/// The step of [`lemma_without_of_inserted`] for a position before the
/// last entry.
pub proof fn lemma_without_of_inserted_front(front: Seq<u128>, last: u128, id: u128, index: int)
    requires
        0 <= index <= front.len(),
    ensures
        without(front.insert(index, id).push(last), id) == without(front.push(last), id),
    decreases front.len(),
{
    crate::tasks::lemma_without_push(front.insert(index, id), last, id);
    crate::tasks::lemma_without_push(front, last, id);
    if index == front.len() {
        assert(front.insert(index, id) =~= front.push(id));
        crate::tasks::lemma_without_push(front, id, id);
    } else {
        let shorter = front.drop_last();
        assert(front =~= shorter.push(front.last()));
        assert(front.insert(index, id) =~= shorter.insert(index, id).push(front.last()));
        lemma_without_of_inserted_front(shorter, front.last(), id, index);
    }
}

/// A child that is put in at the end of what is left without it is
/// appended.
pub proof fn lemma_reinserted_at_end(children: Seq<u128>, child: u128)
    ensures
        without(children, child).insert(without(children, child).len() as int, child) == without(
            children,
            child,
        ).push(child),
{
    let rest = without(children, child);
    assert(rest.insert(rest.len() as int, child) =~= rest.push(child));
}

/// Moving a child to a position of what is left without it comes to the
/// same whether or not it was taken out of the list by hand before.
pub proof fn lemma_insert_after_remove(doc: DocView, parent: u128, child: u128, index: int)
    requires
        doc.wf(),
        doc.tasks.contains_key(parent),
        0 <= index <= without(doc.tasks[parent].children, child).len(),
    ensures
        doc.remove_child(parent, child).insert_child(parent, child, index) == doc.insert_child(
            parent,
            child,
            index,
        ),
{
    let rest = without(doc.tasks[parent].children, child);
    lemma_without_contains(doc.tasks[parent].children, child, child);
    lemma_without_absent(rest, child);
    let removed = doc.remove_child(parent, child);
    assert(doc.tasks[parent].id == parent);
    assert(removed.tasks[parent].children == rest);
    assert(removed.insert_child(parent, child, index).tasks =~= doc.insert_child(
        parent,
        child,
        index,
    ).tasks);
}

/// Storing a task keeps a well-formed document well-formed.
pub proof fn lemma_upsert_keeps_wf(doc: DocView, task: TaskView)
    requires
        doc.wf(),
    ensures
        doc.upsert(task).wf(),
{
    let after = doc.upsert(task);
    assert(after.tasks.dom() =~= doc.tasks.dom().insert(task.id));
    assert forall|k: u128| #[trigger] after.tasks.contains_key(k) implies after.tasks[k].id == k by {
        if k != task.id {
            assert(doc.tasks.contains_key(k));
        }
    }
}

/// Adding a task below another, taking a child out and moving a child
/// keep a well-formed document well-formed.
pub proof fn lemma_tree_edits_keep_wf(
    doc: DocView,
    task: TaskView,
    parent: u128,
    child: u128,
    index: int,
)
    requires
        doc.wf(),
    ensures
        doc.add_subtask(task, parent).wf(),
        doc.remove_child(parent, child).wf(),
        doc.insert_child(parent, child, index).wf(),
{
    if doc.tasks.contains_key(parent) {
        assert(doc.tasks[parent].id == parent);
        lemma_upsert_keeps_wf(doc, doc.tasks[parent].with_child_added(task.id));
        lemma_upsert_keeps_wf(doc.upsert(doc.tasks[parent].with_child_added(task.id)), task);
        lemma_upsert_keeps_wf(doc, doc.tasks[parent].without_child(child));
        lemma_upsert_keeps_wf(
            doc,
            doc.tasks[parent].without_child(child).with_child_inserted(child, index),
        );
    }
}

/// Storing a clock keeps a well-formed document well-formed.
pub proof fn lemma_upsert_clock_keeps_wf(doc: DocView, clock: ClockView)
    requires
        doc.wf(),
    ensures
        doc.upsert_clock(clock).wf(),
{
    let after = doc.upsert_clock(clock);
    assert(after.clocks.dom() =~= doc.clocks.dom().insert(clock.id));
    assert forall|k: u128| #[trigger] after.clocks.contains_key(k) implies after.clocks[k].id
        == k by {
        if k != clock.id {
            assert(doc.clocks.contains_key(k));
        }
    }
}

/// Storing clocks one after the other keeps a well-formed document
/// well-formed.
pub proof fn lemma_upsert_clocks_keeps_wf(doc: DocView, clocks: Seq<ClockView>)
    requires
        doc.wf(),
    ensures
        doc.upsert_clocks(clocks).wf(),
    decreases clocks.len(),
{
    if clocks.len() > 0 {
        lemma_upsert_clocks_keeps_wf(doc, clocks.drop_last());
        lemma_upsert_clock_keeps_wf(doc.upsert_clocks(clocks.drop_last()), clocks.last());
    }
}

/// Stopping the running clock keeps a well-formed document well-formed and
/// never fails on one. Afterwards no clock runs, and where the running
/// clock was the only open one, none is open.
pub proof fn lemma_clock_out_keeps_wf(doc: DocView, now: Timestamp)
    requires
        doc.wf(),
    ensures
        doc.clock_out(now).0.wf(),
        doc.clock_out(now).1 == Ok::<bool, crate::error::Error>(doc.current_clock is Some),
        doc.clock_out(now).0.current_clock is None,
        doc.one_running() ==> forall|k: u128| #[trigger]
            doc.clock_out(now).0.clocks.contains_key(k) ==> !doc.clock_out(now).0.clocks[k].is_open(),
{
    match doc.current_clock {
        Some(running) => {
            assert(doc.clocks.contains_key(running));
            assert(doc.clocks[running].id == running);
            lemma_upsert_clock_keeps_wf(doc, doc.clocks[running].with_end(now));
            let after = doc.clock_out(now).0;
            if doc.one_running() {
                assert forall|k: u128| #[trigger] after.clocks.contains_key(k) implies !after.clocks[k].is_open() by {
                    if k != running {
                        assert(doc.clocks.contains_key(k));
                    }
                }
            }
        },
        None => {
            if doc.one_running() {
                assert forall|k: u128| #[trigger] doc.clocks.contains_key(k) implies !doc.clocks[k].is_open() by {}
            }
        },
    }
}

/// Giving the running clock a task or a comment keeps a well-formed
/// document well-formed, never fails on one, and opens or closes no clock.
pub proof fn lemma_clock_notes_keep_wf(doc: DocView, task: u128, comment: Seq<char>)
    requires
        doc.wf(),
    ensures
        doc.clock_assign(task).0.wf(),
        doc.clock_assign(task).1 is Ok,
        doc.clock_comment(comment).0.wf(),
        doc.clock_comment(comment).1 is Ok,
        doc.one_running() ==> doc.clock_assign(task).0.one_running() && doc.clock_comment(
            comment,
        ).0.one_running(),
{
    match doc.current_clock {
        Some(running) => {
            assert(doc.clocks.contains_key(running));
            assert(doc.clocks[running].id == running);
            lemma_upsert_clock_keeps_wf(doc, doc.clocks[running].with_task_id(task));
            lemma_upsert_clock_keeps_wf(doc, doc.clocks[running].with_comment(comment));
            let assigned = doc.clock_assign(task).0;
            let noted = doc.clock_comment(comment).0;
            if doc.one_running() {
                assert forall|k: u128|
                    #![trigger assigned.clocks.contains_key(k)]
                    assigned.clocks.contains_key(k) && assigned.clocks[k].is_open()
                        implies assigned.current_clock == Some(k) by {
                    if k != running {
                        assert(doc.clocks.contains_key(k));
                    }
                }
                assert forall|k: u128|
                    #![trigger noted.clocks.contains_key(k)]
                    noted.clocks.contains_key(k) && noted.clocks[k].is_open()
                        implies noted.current_clock == Some(k) by {
                    if k != running {
                        assert(doc.clocks.contains_key(k));
                    }
                }
            }
        },
        None => {},
    }
}

/// A climb through a well-formed document that has more entries than
/// there are tasks, the first not counted, comes to some task twice: the
/// document has a cycle. So a path is cut off, if ever, on a cycle only.
pub proof fn lemma_long_climb_repeats(doc: DocView, start: u128, walk: Seq<u128>)
    requires
        doc.wf(),
        doc.is_walk(start, walk),
        walk.len() > doc.tasks.len() + 1,
    ensures
        exists|i: int, j: int| 1 <= i < j < walk.len() && walk[i] == walk[j],
{
    let parents = walk.drop_first();
    if parents.no_duplicates() {
        parents.unique_seq_to_set();
        assert forall|p: u128| parents.to_set().contains(p) implies doc.tasks.dom().contains(p) by {
            let i = choose|i: int| 0 <= i < parents.len() && parents[i] == p;
            assert(walk[i + 1] == p);
            assert(doc.is_parent(walk[i + 1], walk[i + 1 - 1]));
            lemma_parent_is_stored(doc, p, walk[i]);
        }
        lemma_len_subset(parents.to_set(), doc.tasks.dom());
        assert(false);
    } else {
        let (i, j) = choose|i: int, j: int|
            0 <= i < parents.len() && 0 <= j < parents.len() && i != j && parents[i] == parents[j];
        if i < j {
            assert(walk[i + 1] == walk[j + 1]);
        } else {
            assert(walk[j + 1] == walk[i + 1]);
        }
    }
}

/// Nothing is ever deleted: whatever is done to the tree or to the clocks,
/// every task and every clock that was stored stays stored.
pub proof fn lemma_nothing_is_deleted(
    doc: DocView,
    task: TaskView,
    parent: u128,
    child: u128,
    index: int,
    clock: ClockView,
    id: u128,
    ended: Timestamp,
    started: Timestamp,
    comment: Seq<char>,
)
    ensures
        doc.tasks.dom().subset_of(doc.upsert(task).tasks.dom()),
        doc.tasks.dom().subset_of(doc.add_subtask(task, parent).tasks.dom()),
        doc.tasks.dom().subset_of(doc.remove_child(parent, child).tasks.dom()),
        doc.tasks.dom().subset_of(doc.insert_child(parent, child, index).tasks.dom()),
        doc.clocks.dom().subset_of(doc.upsert_clock(clock).clocks.dom()),
        doc.clocks.dom().subset_of(doc.clock_out(ended).0.clocks.dom()),
        doc.clocks.dom().subset_of(doc.clock_new(id, ended, started).0.clocks.dom()),
        doc.clocks.dom().subset_of(doc.clock_assign(child).0.clocks.dom()),
        doc.clocks.dom().subset_of(doc.clock_comment(comment).0.clocks.dom()),
{
}

} // verus!
