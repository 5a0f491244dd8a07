//! Clocks: intervals of tracked time.

use crate::time::{now, Date, Duration, TimeOfDay, Timestamp};
use vstd::prelude::*;

verus! {

/// An interval of tracked time, open while `end` is `None`.
#[derive(Debug)]
pub struct Clock {
    pub id: u128,
    pub start: Timestamp,
    pub end: Option<Timestamp>,
    pub comment: Option<String>,
    pub task_id: Option<u128>,
}

/// The mathematical content of a [`Clock`].
pub struct ClockView {
    pub id: u128,
    pub start: Timestamp,
    pub end: Option<Timestamp>,
    pub comment: Option<Seq<char>>,
    pub task_id: Option<u128>,
}

impl ClockView {
    /// A clock that was just started: open, without comment or task.
    pub open spec fn started(id: u128, start: Timestamp) -> ClockView {
        ClockView { id, start, end: None, comment: None, task_id: None }
    }

    pub open spec fn with_start(self, start: Timestamp) -> ClockView {
        ClockView { start, ..self }
    }

    pub open spec fn with_end(self, end: Timestamp) -> ClockView {
        ClockView { end: Some(end), ..self }
    }

    pub open spec fn with_comment(self, comment: Seq<char>) -> ClockView {
        ClockView { comment: Some(comment), ..self }
    }

    pub open spec fn with_task_id(self, task_id: u128) -> ClockView {
        ClockView { task_id: Some(task_id), ..self }
    }

    /// The clock with the time of day of its start replaced, the day kept.
    /// `offset` is what the time zone gives for that day and time; without
    /// one the clock stays as it is.
    pub open spec fn start_time_set(self, time: TimeOfDay, offset: Option<i32>) -> ClockView {
        match offset {
            Some(offset) => self.with_start(self.start.at_time(time, offset)),
            None => self,
        }
    }

    /// The clock with the time of day of its end replaced, the day kept.
    /// An open clock stays as it is, and so does any clock without an
    /// `offset`.
    pub open spec fn end_time_set(self, time: TimeOfDay, offset: Option<i32>) -> ClockView {
        match (self.end, offset) {
            (Some(end), Some(offset)) => self.with_end(end.at_time(time, offset)),
            _ => self,
        }
    }

    /// The clock with the day of its end replaced, the time of day kept.
    /// An open clock stays as it is, and so does any clock without an
    /// `offset`.
    pub open spec fn end_date_set(self, date: Date, offset: Option<i32>) -> ClockView {
        match (self.end, offset) {
            (Some(end), Some(offset)) => self.with_end(end.on_date(date, offset)),
            _ => self,
        }
    }

    /// The clock with its end set to the moment `duration` after its
    /// start. `offset` is what the time zone gives for that moment; without
    /// one the clock stays as it is, and so it does where the day of that
    /// moment cannot be counted.
    pub open spec fn duration_set(self, duration: Duration, offset: Option<i32>) -> ClockView {
        match offset {
            Some(offset) => match self.start.shifted(duration, offset) {
                Some(end) => self.with_end(end),
                None => self,
            },
            None => self,
        }
    }

    /// The moment up to which the clock has run when read at `now`: its
    /// end, or `now` while it is open.
    pub open spec fn end_or(self, now: Timestamp) -> Timestamp {
        match self.end {
            Some(end) => end,
            None => now,
        }
    }

    /// Whether the clock is still running.
    pub open spec fn is_open(self) -> bool {
        self.end is None
    }
}

/// The contents of a list of clocks, one by one.
pub open spec fn clock_views(clocks: Seq<Clock>) -> Seq<ClockView> {
    clocks.map_values(|c: Clock| c@)
}

/// No entry starts before one that stands earlier in the list.
pub open spec fn sorted_by_start(clocks: Seq<ClockView>) -> bool {
    forall|i: int, j: int|
        0 <= i < j < clocks.len() ==> !(#[trigger] clocks[j]).start.precedes(
            (#[trigger] clocks[i]).start,
        )
}

/// `to` holds the entries of `from` in another order: entry `i` of `to` is
/// entry `order[i]` of `from`, and `order` names every position once.
pub open spec fn is_rearrangement(order: Seq<int>, from: Seq<ClockView>, to: Seq<ClockView>) -> bool {
    &&& order.len() == from.len()
    &&& to.len() == from.len()
    &&& order.no_duplicates()
    &&& forall|i: int|
        0 <= i < order.len() ==> 0 <= #[trigger] order[i] < from.len() && to[i] == from[order[i]]
    &&& forall|j: int| 0 <= j < from.len() ==> order.contains(j)
}

impl View for Clock {
    type V = ClockView;

    open spec fn view(&self) -> ClockView {
        ClockView {
            id: self.id,
            start: self.start,
            end: self.end,
            comment: match self.comment {
                Some(text) => Some(text@),
                None => None,
            },
            task_id: self.task_id,
        }
    }
}

impl Clone for Clock {
    fn clone(&self) -> (r: Self)
        ensures
            r@ == self@,
    {
        Clock {
            id: self.id,
            start: self.start,
            end: self.end,
            comment: match &self.comment {
                Some(text) => Some(text.clone()),
                None => None,
            },
            task_id: self.task_id,
        }
    }
}

impl Clock {
    /// A clock that starts at `start`: open, without comment or task.
    pub fn started(id: u128, start: Timestamp) -> (c: Clock)
        ensures
            c@ == ClockView::started(id, start),
    {
        Clock { id, start, end: None, comment: None, task_id: None }
    }

    /// How long the clock has run when read at `now`: up to its end, or up
    /// to `now` while it is open.
    pub fn duration_at(&self, now: Timestamp) -> (d: Duration)
        ensures
            d.wf(),
            d.total_nanos() == self@.end_or(now).utc_nanos() - self.start.utc_nanos(),
    {
        match self.end {
            Some(end) => self.start.until(&end),
            None => self.start.until(&now),
        }
    }

    /// How long the clock has run: up to its end, or up to the present
    /// moment while it is open.
    pub fn duration(&self) -> (d: Duration)
        ensures
            d.wf(),
            self.end matches Some(end) ==> d.total_nanos() == end.utc_nanos()
                - self.start.utc_nanos(),
            self.end is None ==> exists|now: Timestamp|
                now.wf() && d.total_nanos() == #[trigger] now.utc_nanos() - self.start.utc_nanos(),
    {
        match self.end {
            Some(end) => self.start.until(&end),
            None => {
                let present = now();
                self.start.until(&present)
            },
        }
    }

    /// Whether this clock started strictly before `other`.
    pub fn starts_before(&self, other: &Clock) -> (b: bool)
        ensures
            b == self.start.precedes(other.start),
    {
        self.start.is_before(&other.start)
    }
}

/// The clocks of `clocks` in the order of their starts, earliest first.
pub fn sort_by_start(clocks: &Vec<Clock>) -> (sorted: Vec<Clock>)
    ensures
        sorted_by_start(clock_views(sorted@)),
        exists|order: Seq<int>|
            #[trigger] is_rearrangement(order, clock_views(clocks@), clock_views(sorted@)),
{
    let mut sorted: Vec<Clock> = Vec::new();
    let ghost mut order: Seq<int> = Seq::empty();
    let mut i: usize = 0;
    while i < clocks.len()
        invariant
            i <= clocks@.len(),
            sorted@.len() == i,
            order.len() == i,
            order.no_duplicates(),
            sorted_by_start(clock_views(sorted@)),
            forall|m: int|
                0 <= m < i ==> 0 <= #[trigger] order[m] < i && sorted@[m]@ == clocks@[order[m]]@,
            forall|j: int| 0 <= j < i ==> order.contains(j),
        decreases clocks@.len() - i,
    {
        let clock = clocks[i].clone();
        let mut pos: usize = 0;
        while pos < sorted.len() && !clock.starts_before(&sorted[pos])
            invariant
                pos <= sorted@.len(),
                forall|m: int| 0 <= m < pos ==> !clock.start.precedes(sorted@[m].start),
            decreases sorted@.len() - pos,
        {
            pos += 1;
        }
        proof {
            let before = sorted@;
            let after = before.insert(pos as int, clock);
            let longer = order.insert(pos as int, i as int);
            assert forall|a: int, b: int| 0 <= a < b < after.len() implies !(
            #[trigger] clock_views(after)[b]).start.precedes((#[trigger] clock_views(after)[a]).start) by {
                let x = if a < pos { a } else { a - 1 };
                let y = if b < pos { b } else { b - 1 };
                if a != pos && b != pos {
                    assert(after[a] == before[x]);
                    assert(after[b] == before[y]);
                    assert(!clock_views(before)[y].start.precedes(clock_views(before)[x].start));
                } else if a == pos {
                    assert(after[b] == before[y]);
                    assert(after[a] == clock);
                    if y > pos {
                        assert(!clock_views(before)[y].start.precedes(
                            clock_views(before)[pos as int].start,
                        ));
                    }
                } else {
                    assert(after[a] == before[x]);
                    assert(after[b] == clock);
                }
            }
            assert forall|a: int, b: int| 0 <= a < longer.len() && 0 <= b < longer.len() && a
                != b implies longer[a] != longer[b] by {
                let x = if a < pos { a } else { a - 1 };
                let y = if b < pos { b } else { b - 1 };
                if a != pos && b != pos {
                    assert(longer[a] == order[x]);
                    assert(longer[b] == order[y]);
                } else if a == pos {
                    assert(longer[b] == order[y]);
                } else {
                    assert(longer[a] == order[x]);
                }
            }
            assert forall|m: int| 0 <= m < i + 1 implies 0 <= #[trigger] longer[m] < i + 1
                && after[m]@ == clocks@[longer[m]]@ by {
                let x = if m < pos { m } else { m - 1 };
                if m != pos {
                    assert(longer[m] == order[x]);
                    assert(after[m] == before[x]);
                }
            }
            assert forall|j: int| 0 <= j < i + 1 implies longer.contains(j) by {
                if j < i {
                    assert(order.contains(j));
                    let m = choose|m: int| 0 <= m < order.len() && order[m] == j;
                    let n = if m < pos { m } else { m + 1 };
                    assert(longer[n] == j);
                } else {
                    assert(longer[pos as int] == j);
                }
            }
            order = longer;
        }
        sorted.insert(pos, clock);
        i += 1;
    }
    proof {
        assert(is_rearrangement(order, clock_views(clocks@), clock_views(sorted@)));
    }
    sorted
}

/// The edits of a clock. Each one returns the clock itself, so that edits
/// can be chained.
pub trait ClockMod {
    fn set_start(&mut self, start: Timestamp) -> &mut Self;

    fn set_end(&mut self, end: Timestamp) -> &mut Self;

    fn set_comment(&mut self, comment: String) -> &mut Self;

    fn set_task_id(&mut self, task_id: u128) -> &mut Self;
}

impl ClockMod for Clock {
    fn set_start(&mut self, start: Timestamp) -> (r: &mut Self)
        ensures
            r@ == old(self)@.with_start(start),
            *final(self) == *final(r),
    {
        self.start = start;
        self
    }

    fn set_end(&mut self, end: Timestamp) -> (r: &mut Self)
        ensures
            r@ == old(self)@.with_end(end),
            *final(self) == *final(r),
    {
        self.end = Some(end);
        self
    }

    fn set_comment(&mut self, comment: String) -> (r: &mut Self)
        ensures
            r@ == old(self)@.with_comment(comment@),
            *final(self) == *final(r),
    {
        self.comment = Some(comment);
        self
    }

    fn set_task_id(&mut self, task_id: u128) -> (r: &mut Self)
        ensures
            r@ == old(self)@.with_task_id(task_id),
            *final(self) == *final(r),
    {
        self.task_id = Some(task_id);
        self
    }
}

} // verus!
