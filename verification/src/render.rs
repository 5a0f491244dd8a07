//! How tasks are shown: as a page, as an outline, and as the text that an
//! editor works on.

use crate::cli::{lemma_printed_more, lemma_printed_then, printed, CliCallbacks};
use crate::doc::{Doc, DocView};
use crate::error::Error;
use crate::ident::{format_id, id_text};
use crate::tasks::{Task, TaskMod, TaskView};
use crate::text::{decimal, decimal_of, lines, lines_of, texts, trim, trim_of};
use vstd::prelude::*;
use vstd::std_specs::hash::*;

verus! {

/// The page that `markdown` is turned into.
pub uninterp spec fn markdown_html(markdown: Seq<char>) -> Seq<char>;

/// Turns markdown into a page with `markdown::to_html`.
///
/// Not proved: that the page is a function of the text alone, named
/// [`markdown_html`].
#[verifier::external_body]
pub(crate) fn markdown_to_html(text: &str) -> (html: String)
    ensures
        html@ == markdown_html(text@),
{
    markdown::to_html(text)
}

/// With what a page begins.
pub const PAGE_HEAD: &'static str =
    "<!doctype html><html><head><link rel=\"stylesheet\" href=\"https://stackpath.bootstrapcdn.com/bootstrap/4.3.1/css/bootstrap.min.css\" integrity=\"sha384-ggOyR0iXCbMQv3Xipma34MD+dH/1fQ784/j6cY/iJTQUOhcWr7x9JvoRxT2MZw1T\" crossorigin=\"anonymous\"></head><body><div class=\"container\">";

/// With what a page ends.
pub const PAGE_FOOT: &'static str = "</div></body></html>";

/// `acc` followed by the link to the task `id` with the title `title`,
/// after an arrow unless it is the first of its row.
pub open spec fn with_crumb(acc: Seq<char>, first: bool, id: u128, title: Seq<char>) -> Seq<char> {
    let start = if first {
        acc
    } else {
        acc + " -> "@
    };
    start + "<a href=\""@ + id_text(id) + ".html\">"@ + title + "</a>"@
}

/// `acc` followed by the list item of the child `id`, which is stored as
/// `child`.
pub open spec fn with_item(acc: Seq<char>, id: u128, child: TaskView) -> Seq<char> {
    let state = match child.progress {
        Some(progress) => progress.label(),
        None => Seq::empty(),
    };
    acc + "<li><a href=\""@ + id_text(id) + ".html\">"@ + state + " "@ + child.title
        + "</a></li>"@
}

impl DocView {
    /// The links to the tasks `ids`, in a row. A task that is not stored
    /// has no link, but counts as one of the row.
    pub open spec fn crumbs(self, ids: Seq<u128>) -> Seq<char>
        decreases ids.len(),
    {
        if ids.len() == 0 {
            Seq::empty()
        } else {
            let before = self.crumbs(ids.drop_last());
            if self.tasks.contains_key(ids.last()) {
                with_crumb(before, ids.len() == 1, ids.last(), self.tasks[ids.last()].title)
            } else {
                before
            }
        }
    }

    /// The list items of the tasks `children`, in a row.
    pub open spec fn items(self, children: Seq<u128>) -> Seq<char>
        decreases children.len(),
    {
        if children.len() == 0 {
            Seq::empty()
        } else {
            with_item(
                self.items(children.drop_last()),
                children.last(),
                self.tasks[children.last()],
            )
        }
    }

    /// Whether every one of `ids` is stored.
    pub open spec fn all_stored(self, ids: Seq<u128>) -> bool {
        forall|i: int| 0 <= i < ids.len() ==> self.tasks.contains_key(#[trigger] ids[i])
    }

    /// The page of the task `id`, where `path` leads from it to the top:
    /// the links along the path from the top down, the count of children
    /// that are done among those with any state, the body, and the list of
    /// the children.
    pub open spec fn page(self, id: u128, path: Seq<u128>) -> Seq<char> {
        let task = self.tasks[id];
        let (done, all) = self.progress_of(task.children);
        PAGE_HEAD@ + self.crumbs(path.reverse()) + "["@ + decimal_of(done as int) + "/"@
            + decimal_of(all as int) + "]"@ + markdown_html(task.body) + "<hr/>"@ + "<ul>"@
            + self.items(task.children) + "</ul>"@ + PAGE_FOOT@
    }

    /// Whether the outline of the task `id` can be shown from the level
    /// `level` down to, and without, the level `max_depth`: every task that
    /// it comes to is stored.
    pub open spec fn can_outline(self, id: u128, level: nat, max_depth: nat) -> bool
        decreases max_depth - level,
    {
        if level >= max_depth {
            true
        } else {
            self.tasks.contains_key(id) && forall|i: int|
                0 <= i < self.tasks[id].children.len() ==> self.can_outline(
                    #[trigger] self.tasks[id].children[i],
                    level + 1,
                    max_depth,
                )
        }
    }
}

impl DocView {
    /// What is printed for the task `id` itself in an outline, at the depth
    /// `level`: a blank for each level, a star, and the line with its
    /// identifier and its title.
    pub open spec fn outline_head(self, id: u128, level: nat) -> Seq<Seq<char>> {
        Seq::new(level, |i: int| " "@).push("* "@).push(
            id_text(self.tasks[id].id) + " "@ + self.tasks[id].title + "\n"@,
        )
    }

    /// Whether the outline of every one of `children` can be shown.
    pub open spec fn can_outline_all(self, children: Seq<u128>, level: nat, max_depth: nat) -> bool {
        forall|i: int|
            0 <= i < children.len() ==> self.can_outline(#[trigger] children[i], level, max_depth)
    }

    /// What is printed for the outline of the task `id` from the depth
    /// `level` down to, and without, the depth `max_depth`: the task itself
    /// and, below it, its children one after the other. Nothing is printed
    /// for a task that is not stored, and nothing after it.
    pub open spec fn outline(self, id: u128, level: nat, max_depth: nat) -> Seq<Seq<char>>
        decreases max_depth - level, 0nat,
    {
        if level >= max_depth || !self.tasks.contains_key(id) {
            Seq::empty()
        } else {
            self.outline_head(id, level) + self.outline_below(
                self.tasks[id].children,
                level + 1,
                max_depth,
            )
        }
    }

    /// What is printed for the outlines of `children`, one after the other,
    /// up to and with the first that cannot be shown.
    pub open spec fn outline_below(self, children: Seq<u128>, level: nat, max_depth: nat) -> Seq<
        Seq<char>,
    >
        decreases max_depth - level, children.len(),
    {
        if children.len() == 0 || level > max_depth {
            Seq::empty()
        } else {
            let before = self.outline_below(children.drop_last(), level, max_depth);
            if self.can_outline_all(children.drop_last(), level, max_depth) {
                before + self.outline(children.last(), level, max_depth)
            } else {
                before
            }
        }
    }
}

/// Nothing is printed for the children that come after one whose outline
/// cannot be shown.
pub proof fn lemma_outline_stops(
    doc: DocView,
    children: Seq<u128>,
    i: int,
    level: nat,
    max_depth: nat,
)
    requires
        0 <= i < children.len(),
        level <= max_depth,
        !doc.can_outline(children[i], level, max_depth),
    ensures
        doc.outline_below(children, level, max_depth) == doc.outline_below(
            children.take(i + 1),
            level,
            max_depth,
        ),
    decreases children.len(),
{
    if children.len() == i + 1 {
        assert(children.take(i + 1) =~= children);
    } else {
        let shorter = children.drop_last();
        assert(shorter[i] == children[i]);
        lemma_outline_stops(doc, shorter, i, level, max_depth);
        assert(shorter.take(i + 1) =~= children.take(i + 1));
    }
}

impl Doc {
    /// The links to the tasks `ids`, in a row.
    pub fn crumbs(&self, ids: &Vec<u128>) -> (html: String)
        ensures
            html@ == self@.crumbs(ids@),
    {
        broadcast use group_hash_axioms;

        let mut html = String::new();
        let mut i: usize = 0;
        while i < ids.len()
            invariant
                i <= ids@.len(),
                html@ == self@.crumbs(ids@.take(i as int)),
            decreases ids@.len() - i,
        {
            proof {
                let next = ids@.take(i + 1);
                assert(next.drop_last() =~= ids@.take(i as int));
                assert(next.last() == ids@[i as int]);
            }
            match self.map.get(&ids[i]) {
                Some(task) => {
                    if i > 0 {
                        html.append(" -> ");
                    }
                    html.append("<a href=\"");
                    html.append(format_id(ids[i]).as_str());
                    html.append(".html\">");
                    html.append(task.title.as_str());
                    html.append("</a>");
                },
                None => {},
            }
            i += 1;
        }
        proof {
            assert(ids@.take(i as int) =~= ids@);
        }
        html
    }

    /// The page of the task `task_ref`. It cannot be made where the task or
    /// one of its children is not stored.
    pub fn to_html(&self, task_ref: &u128) -> (r: Result<String, Error>)
        ensures
            match r {
                Ok(html) => {
                    &&& self@.tasks.contains_key(*task_ref)
                    &&& self@.all_stored(self@.tasks[*task_ref].children)
                    &&& exists|path: Seq<u128>| #[trigger]
                        self@.is_path(*task_ref, path) && html@ == self@.page(*task_ref, path)
                },
                Err(e) => e == Error::TaskUuidNotFound && !(self@.tasks.contains_key(*task_ref)
                    && self@.all_stored(self@.tasks[*task_ref].children)),
            },
    {
        broadcast use group_hash_axioms;

        let task = match self.map.get(task_ref) {
            Some(task) => task,
            None => {
                return Err(Error::TaskUuidNotFound);
            },
        };
        let mut html = PAGE_HEAD.to_owned();
        let path = self.path(task_ref);
        let mut down: Vec<u128> = Vec::new();
        let mut k: usize = path.len();
        while k > 0
            invariant
                k <= path@.len(),
                down@.len() == path@.len() - k,
                forall|j: int| 0 <= j < down@.len() ==> down@[j] == path@[path@.len() - 1 - j],
            decreases k,
        {
            k -= 1;
            down.push(path[k]);
        }
        assert(down@ =~= path@.reverse());
        html.append(self.crumbs(&down).as_str());
        let (done, all) = match self.progress_summary(task_ref) {
            Ok(counts) => counts,
            Err(e) => {
                return Err(e);
            },
        };
        html.append("[");
        html.append(decimal(done).as_str());
        html.append("/");
        html.append(decimal(all).as_str());
        html.append("]");
        html.append(markdown_to_html(task.body.as_str()).as_str());
        html.append("<hr/>");
        html.append("<ul>");
        let mut list = String::new();
        let mut i: usize = 0;
        while i < task.children.len()
            invariant
                i <= task.children@.len(),
                self@.tasks.contains_key(*task_ref),
                self@.tasks[*task_ref].children == task.children@,
                self@.all_stored(task.children@.take(i as int)),
                list@ == self@.items(task.children@.take(i as int)),
            decreases task.children@.len() - i,
        {
            let child: u128 = task.children[i];
            proof {
                let next = task.children@.take(i + 1);
                assert(next.drop_last() =~= task.children@.take(i as int));
                assert(next.last() == child);
            }
            let child_task = match self.map.get(&child) {
                Some(child_task) => child_task,
                None => {
                    assert(!self@.tasks.contains_key(task.children@[i as int]));
                    return Err(Error::TaskUuidNotFound);
                },
            };
            assert(self@.tasks.contains_key(child) && self@.tasks[child] == child_task@);
            list.append("<li><a href=\"");
            list.append(format_id(child).as_str());
            list.append(".html\">");
            let state = match child_task.progress {
                Some(progress) => progress.to_string(),
                None => String::new(),
            };
            list.append(state.as_str());
            list.append(" ");
            list.append(child_task.title.as_str());
            list.append("</a></li>");
            proof {
                assert forall|j: int| 0 <= j < i + 1 implies self@.tasks.contains_key(
                    #[trigger] task.children@.take(i + 1)[j],
                ) by {
                    if j < i {
                        assert(task.children@.take(i as int)[j] == task.children@.take(i + 1)[j]);
                    }
                }
            }
            i += 1;
        }
        proof {
            assert(task.children@.take(i as int) =~= task.children@);
        }
        html.append(list.as_str());
        html.append("</ul>");
        html.append(PAGE_FOOT);
        Ok(html)
    }
}

/// Prints the outline of the task `task_id`: the task itself at the depth
/// `level`, and below it its children, down to, and without, the depth
/// `max_depth`. It ends with an error at the first task that is not
/// stored.
pub fn rec_print<T, C: CliCallbacks<T>>(
    doc: &Doc,
    task_id: &u128,
    level: usize,
    max_depth: usize,
    callbacks: &mut C,
) -> (r: Result<(), Error>)
    ensures
        match r {
            Ok(()) => doc@.can_outline(*task_id, level as nat, max_depth as nat),
            Err(e) => e == Error::TaskUuidNotFound && !doc@.can_outline(
                *task_id,
                level as nat,
                max_depth as nat,
            ),
        },
        printed::<T, C>(
            *old(callbacks),
            doc@.outline(*task_id, level as nat, max_depth as nat),
            *final(callbacks),
        ),
    decreases max_depth - level,
{
    broadcast use group_hash_axioms;

    if level >= max_depth {
        return Ok(());
    }
    let task = match doc.map.get(task_id) {
        Some(task) => task,
        None => {
            return Err(Error::TaskUuidNotFound);
        },
    };
    let ghost blanks = |i: int| " "@;
    let mut n: usize = 0;
    while n < level
        invariant
            n <= level,
            blanks == (|i: int| " "@),
            printed::<T, C>(*old(callbacks), Seq::new(n as nat, blanks), *callbacks),
        decreases level - n,
    {
        let ghost mid = *callbacks;
        callbacks.print(" ");
        proof {
            lemma_printed_more::<T, C>(
                *old(callbacks),
                Seq::new(n as nat, blanks),
                mid,
                " "@,
                *callbacks,
            );
            assert(Seq::new(n as nat, blanks).push(" "@) =~= Seq::new((n + 1) as nat, blanks));
        }
        n += 1;
    }
    let ghost spaced = *callbacks;
    callbacks.print("* ");
    let ghost starred = *callbacks;
    let mut line = format_id(task.id);
    line.append(" ");
    line.append(task.title.as_str());
    callbacks.println(line.as_str());
    let ghost head = doc@.outline_head(*task_id, level as nat);
    proof {
        let blank = Seq::new(level as nat, blanks);
        lemma_printed_more::<T, C>(*old(callbacks), blank, spaced, "* "@, starred);
        lemma_printed_more::<T, C>(
            *old(callbacks),
            blank.push("* "@),
            starred,
            line@ + "\n"@,
            *callbacks,
        );
        assert(doc@.tasks[*task_id] == task@);
        assert(head == blank.push("* "@).push(line@ + "\n"@));
        assert(head + Seq::<Seq<char>>::empty() =~= head);
    }
    let mut i: usize = 0;
    while i < task.children.len()
        invariant
            i <= task.children@.len(),
            level < max_depth,
            doc@.tasks.contains_key(*task_id),
            doc@.tasks[*task_id].children == task.children@,
            head == doc@.outline_head(*task_id, level as nat),
            doc@.can_outline_all(
                task.children@.take(i as int),
                (level + 1) as nat,
                max_depth as nat,
            ),
            printed::<T, C>(
                *old(callbacks),
                head + doc@.outline_below(
                    task.children@.take(i as int),
                    (level + 1) as nat,
                    max_depth as nat,
                ),
                *callbacks,
            ),
        decreases task.children@.len() - i,
    {
        let ghost mid = *callbacks;
        let ghost seen = task.children@.take(i as int);
        let ghost next = task.children@.take(i + 1);
        let below = rec_print(doc, &task.children[i], level + 1, max_depth, callbacks);
        proof {
            let deeper = (level + 1) as nat;
            let most = max_depth as nat;
            assert(next.drop_last() =~= seen);
            assert(next.last() == task.children@[i as int]);
            lemma_printed_then::<T, C>(
                *old(callbacks),
                head + doc@.outline_below(seen, deeper, most),
                mid,
                doc@.outline(task.children@[i as int], deeper, most),
                *callbacks,
            );
            assert((head + doc@.outline_below(seen, deeper, most)) + doc@.outline(
                task.children@[i as int],
                deeper,
                most,
            ) =~= head + doc@.outline_below(next, deeper, most));
        }
        match below {
            Ok(()) => {},
            Err(e) => {
                proof {
                    lemma_outline_stops(
                        doc@,
                        task.children@,
                        i as int,
                        (level + 1) as nat,
                        max_depth as nat,
                    );
                    assert(!doc@.can_outline_all(
                        task.children@,
                        (level + 1) as nat,
                        max_depth as nat,
                    ));
                }
                return Err(e);
            },
        }
        proof {
            assert forall|j: int| 0 <= j < next.len() implies doc@.can_outline(
                #[trigger] next[j],
                (level + 1) as nat,
                max_depth as nat,
            ) by {
                if j < i {
                    assert(seen[j] == next[j]);
                }
            }
        }
        i += 1;
    }
    proof {
        assert(task.children@.take(i as int) =~= task.children@);
    }
    Ok(())
}

/// The lines after the first, each with a line feed after it.
pub open spec fn body_of(lines: Seq<Seq<char>>) -> Seq<char>
    decreases lines.len(),
{
    if lines.len() <= 1 {
        Seq::empty()
    } else {
        body_of(lines.drop_last()) + lines.last() + "\n"@
    }
}

impl TaskView {
    /// The text that an editor works on: the title, an empty line, and the
    /// body.
    pub open spec fn edit_text(self) -> Seq<char> {
        self.title + "\n\n"@ + self.body
    }

    /// The task after an editor returned `content`: the first line is its
    /// title, and the rest, without the white space at its two ends, its
    /// body. `None` where there is no first line.
    pub open spec fn edited(self, content: Seq<char>) -> Option<TaskView> {
        let lines = lines_of(content);
        if lines.len() == 0 {
            None
        } else {
            Some(self.with_title(lines[0]).with_body(trim_of(body_of(lines))))
        }
    }
}

impl Task {
    /// The text that an editor works on: the title, an empty line, and the
    /// body.
    pub fn edit_text(&self) -> (text: String)
        ensures
            text@ == self@.edit_text(),
    {
        let mut text = self.title.clone();
        text.append("\n\n");
        text.append(self.body.as_str());
        text
    }

    /// Takes title and body from what an editor returned: the first line
    /// is the title, and the rest, without the white space at its two ends,
    /// the body. Without a first line the task stays as it is, and the
    /// answer is `false`.
    pub fn apply_edit_text(&mut self, content: &str) -> (done: bool)
        ensures
            match old(self)@.edited(content@) {
                Some(task) => done && final(self)@ == task,
                None => !done && final(self)@ == old(self)@,
            },
    {
        let lines = lines(content);
        if lines.len() == 0 {
            return false;
        }
        assert(texts(lines@)[0] == lines@[0]@);
        let mut body = String::new();
        let mut i: usize = 1;
        while i < lines.len()
            invariant
                1 <= i <= lines@.len(),
                body@ == body_of(texts(lines@).take(i as int)),
            decreases lines@.len() - i,
        {
            proof {
                let next = texts(lines@).take(i + 1);
                assert(next.drop_last() =~= texts(lines@).take(i as int));
                assert(next.last() == lines@[i as int]@);
            }
            body.append(lines[i].as_str());
            body.append("\n");
            i += 1;
        }
        proof {
            assert(texts(lines@).take(i as int) =~= texts(lines@));
        }
        self.set_title(lines[0].as_str()).set_body(trim(body.as_str()));
        true
    }
}

} // verus!
