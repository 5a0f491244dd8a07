//! Time tracking on the document: the running clock, and the clocks of a
//! task, of a day or of a range of days.

use crate::clock::{clock_views, Clock, ClockMod, ClockView};
use crate::doc::{stored_ids, Doc, DocView};
use crate::error::Error;
use crate::ident::{is_random_id, new_id};
use crate::laws::{
    lemma_clock_new_keeps_order, lemma_clock_notes_keep_wf, lemma_clock_out_keeps_wf,
    lemma_upsert_clock_keeps_wf,
};
use crate::time::{now, Date, Timestamp};
use vstd::prelude::*;
use vstd::std_specs::hash::*;

verus! {

impl DocView {
    /// The document with `clock` stored under its identifier, in place of
    /// what was there.
    pub open spec fn upsert_clock(self, clock: ClockView) -> DocView {
        DocView { clocks: self.clocks.insert(clock.id, clock), ..self }
    }

    /// Every clock in the store that is still open is the running one.
    pub open spec fn one_running(self) -> bool {
        forall|k: u128|
            #![trigger self.clocks.contains_key(k)]
            self.clocks.contains_key(k) && self.clocks[k].is_open() ==> self.current_clock == Some(
                k,
            )
    }

    /// Stopping the running clock at `now`: the document afterwards and
    /// the answer. Without a running clock nothing changes and the answer
    /// is `false`; a running clock that is not in the store is an error.
    pub open spec fn clock_out(self, now: Timestamp) -> (DocView, Result<bool, Error>) {
        match self.current_clock {
            None => (self, Ok(false)),
            Some(id) => if self.clocks.contains_key(id) {
                (
                    DocView {
                        current_clock: None,
                        ..self.upsert_clock(self.clocks[id].with_end(now))
                    },
                    Ok(true),
                )
            } else {
                (self, Err(Error::ClockNotFound))
            },
        }
    }

    /// Starting a clock `id` at `started`, after the running one, if any,
    /// was stopped at `ended`: the document afterwards and the new clock.
    pub open spec fn clock_new(self, id: u128, ended: Timestamp, started: Timestamp) -> (
        DocView,
        Result<ClockView, Error>,
    ) {
        let (stopped, answer) = self.clock_out(ended);
        match answer {
            Err(e) => (self, Err(e)),
            Ok(_) => {
                let clock = ClockView::started(id, started);
                (DocView { current_clock: Some(id), ..stopped.upsert_clock(clock) }, Ok(clock))
            },
        }
    }

    /// Reworking the running clock with `edit`: the document afterwards
    /// and the answer. Without a running clock nothing changes.
    pub open spec fn edit_running(self, edit: spec_fn(ClockView) -> ClockView) -> (
        DocView,
        Result<(), Error>,
    ) {
        match self.current_clock {
            None => (self, Ok(())),
            Some(id) => if self.clocks.contains_key(id) {
                (self.upsert_clock(edit(self.clocks[id])), Ok(()))
            } else {
                (self, Err(Error::ClockNotFound))
            },
        }
    }

    /// Giving the running clock the task `task`.
    pub open spec fn clock_assign(self, task: u128) -> (DocView, Result<(), Error>) {
        self.edit_running(|c: ClockView| c.with_task_id(task))
    }

    /// Giving the running clock the comment `comment`.
    pub open spec fn clock_comment(self, comment: Seq<char>) -> (DocView, Result<(), Error>) {
        self.edit_running(|c: ClockView| c.with_comment(comment))
    }

    /// `found` are the clocks stored under `keys`, in that order, and no
    /// key comes twice.
    pub open spec fn selects(self, keys: Seq<u128>, found: Seq<ClockView>) -> bool {
        &&& keys.no_duplicates()
        &&& keys.len() == found.len()
        &&& forall|i: int|
            0 <= i < keys.len() ==> self.clocks.contains_key(#[trigger] keys[i]) && found[i]
                == self.clocks[keys[i]]
    }

    /// What a test of `clock` against the scope `scope` may answer: `true`
    /// without a scope and for a clock without task; else what the climb
    /// from the clock's task to the scope may answer.
    pub open spec fn scope_answer(self, clock: ClockView, scope: Option<u128>, answer: bool) -> bool {
        match (clock.task_id, scope) {
            (Some(task), Some(main_task)) => self.hierarchy_answer(task, main_task, answer),
            _ => answer,
        }
    }

    /// Whether a query for the days `first` to `last` within `scope` may
    /// return `clock`.
    pub open spec fn may_pick(self, clock: ClockView, first: Date, last: Date, scope: Option<u128>) -> bool {
        starts_within(clock, first, last) && self.scope_answer(clock, scope, true)
    }

    /// Whether a query for the days `first` to `last` within `scope` may
    /// leave `clock` out.
    pub open spec fn may_skip(self, clock: ClockView, first: Date, last: Date, scope: Option<u128>) -> bool {
        !starts_within(clock, first, last) || self.scope_answer(clock, scope, false)
    }

    /// What a query for the days `first` to `last` within `scope` may
    /// return: stored clocks, each at most once, in any order, that leave
    /// out no clock but those that may be left out.
    pub open spec fn is_selection(
        self,
        found: Seq<ClockView>,
        first: Date,
        last: Date,
        scope: Option<u128>,
    ) -> bool {
        exists|keys: Seq<u128>|
            #![trigger self.selects(keys, found)]
            self.selects(keys, found) && forall|k: u128|
                #![trigger self.clocks.contains_key(k)]
                self.clocks.contains_key(k) ==> if keys.contains(k) {
                    self.may_pick(self.clocks[k], first, last, scope)
                } else {
                    self.may_skip(self.clocks[k], first, last, scope)
                }
    }

    /// What a query for the clocks of `task` may return: the stored clocks
    /// with that task, each once, in any order.
    pub open spec fn is_task_selection(self, found: Seq<ClockView>, task: u128) -> bool {
        exists|keys: Seq<u128>|
            #![trigger self.selects(keys, found)]
            self.selects(keys, found) && forall|k: u128|
                #![trigger self.clocks.contains_key(k)]
                self.clocks.contains_key(k) ==> (keys.contains(k) <==> self.clocks[k].task_id
                    == Some(task))
    }
}

/// Whether `clock` starts on one of the days `first` to `last`, both
/// included, by the local day of its start.
pub open spec fn starts_within(clock: ClockView, first: Date, last: Date) -> bool {
    first.on_or_before(clock.start.date) && clock.start.date.on_or_before(last)
}

impl Doc {
    /// The clock stored under `clock_ref`, as it is now.
    pub fn clock(&self, clock_ref: &u128) -> (r: Result<Clock, Error>)
        ensures
            match r {
                Ok(clock) => self@.clocks.contains_key(*clock_ref) && clock@
                    == self@.clocks[*clock_ref],
                Err(e) => e == Error::ClockNotFound && !self@.clocks.contains_key(*clock_ref),
            },
    {
        broadcast use group_hash_axioms;

        match self.clocks.get(clock_ref) {
            Some(clock) => Ok(clock.clone()),
            None => Err(Error::ClockNotFound),
        }
    }

    /// Stores `clock` under its identifier, in place of what was there.
    pub fn upsert_clock(&mut self, clock: Clock)
        ensures
            final(self)@ == old(self)@.upsert_clock(clock@),
            old(self)@.wf() ==> final(self)@.wf(),
    {
        broadcast use group_hash_axioms;

        proof {
            if self@.wf() {
                lemma_upsert_clock_keeps_wf(self@, clock@);
            }
        }

        self.clocks.insert(clock.id, clock);
        assert(final(self)@.clocks =~= old(self)@.clocks.insert(clock.id, clock@));
    }

    /// Stops the running clock at `now`. `false` where no clock is
    /// running.
    pub fn clock_out_at(&mut self, now: Timestamp) -> (r: Result<bool, Error>)
        ensures
            (final(self)@, r) == old(self)@.clock_out(now),
            old(self)@.wf() ==> final(self)@.wf() && r is Ok,
    {
        proof {
            if self@.wf() {
                lemma_clock_out_keeps_wf(self@, now);
            }
        }
        match self.current_clock {
            Some(clock_ref) => {
                let mut clock = match self.clock(&clock_ref) {
                    Ok(clock) => clock,
                    Err(e) => {
                        return Err(e);
                    },
                };
                clock.set_end(now);
                self.upsert_clock(clock);
                self.current_clock = None;
                Ok(true)
            },
            None => Ok(false),
        }
    }

    /// Stops the running clock at the present moment. `false` where no
    /// clock is running.
    pub fn clock_out(&mut self) -> (r: Result<bool, Error>)
        ensures
            exists|now: Timestamp|
                now.wf() && #[trigger] old(self)@.clock_out(now) == (final(self)@, r),
            old(self)@.wf() ==> final(self)@.wf() && r is Ok,
    {
        let present = now();
        self.clock_out_at(present)
    }

    /// Stops the running clock, if any, at `ended`, then starts the clock
    /// `id` at `started` and makes it the running one.
    pub fn clock_new_with(&mut self, id: u128, ended: Timestamp, started: Timestamp) -> (r: Result<
        Clock,
        Error,
    >)
        ensures
            final(self)@ == old(self)@.clock_new(id, ended, started).0,
            old(self)@.wf() ==> final(self)@.wf() && r is Ok,
            match r {
                Ok(clock) => old(self)@.clock_new(id, ended, started).1 == Ok::<ClockView, Error>(
                    clock@,
                ),
                Err(e) => old(self)@.clock_new(id, ended, started).1 == Err::<ClockView, Error>(e),
            },
    {
        proof {
            if self@.wf() {
                lemma_clock_new_keeps_order(self@, id, ended, started);
            }
        }
        match self.clock_out_at(ended) {
            Ok(_) => {},
            Err(e) => {
                return Err(e);
            },
        }
        let clock = Clock::started(id, started);
        self.upsert_clock(clock.clone());
        self.current_clock = Some(id);
        Ok(clock)
    }

    /// Stops the running clock, if any, then starts a clock with a fresh
    /// identifier at the present moment and makes it the running one.
    pub fn clock_new(&mut self) -> (r: Result<Clock, Error>)
        ensures
            old(self)@.wf() ==> final(self)@.wf() && r is Ok,
            exists|id: u128, ended: Timestamp, started: Timestamp|
                {
                    &&& is_random_id(id)
                    &&& ended.wf()
                    &&& started.wf()
                    &&& final(self)@ == (#[trigger] old(self)@.clock_new(id, ended, started)).0
                    &&& match r {
                        Ok(clock) => old(self)@.clock_new(id, ended, started).1 == Ok::<
                            ClockView,
                            Error,
                        >(clock@),
                        Err(e) => old(self)@.clock_new(id, ended, started).1 == Err::<
                            ClockView,
                            Error,
                        >(e),
                    }
                },
    {
        let ended = now();
        let id: u128 = new_id();
        let started = now();
        self.clock_new_with(id, ended, started)
    }

    /// Gives the running clock the task `task_ref`. Nothing happens where
    /// no clock is running.
    pub fn clock_assign(&mut self, task_ref: u128) -> (r: Result<(), Error>)
        ensures
            (final(self)@, r) == old(self)@.clock_assign(task_ref),
            old(self)@.wf() ==> final(self)@.wf() && r is Ok,
    {
        proof {
            if self@.wf() {
                lemma_clock_notes_keep_wf(self@, task_ref, Seq::empty());
            }
        }
        match self.current_clock {
            Some(clock_ref) => {
                let mut clock = match self.clock(&clock_ref) {
                    Ok(clock) => clock,
                    Err(e) => {
                        return Err(e);
                    },
                };
                clock.set_task_id(task_ref);
                self.upsert_clock(clock);
                Ok(())
            },
            None => Ok(()),
        }
    }

    /// Gives the running clock the comment `comment`. Nothing happens
    /// where no clock is running.
    pub fn clock_comment(&mut self, comment: &str) -> (r: Result<(), Error>)
        ensures
            (final(self)@, r) == old(self)@.clock_comment(comment@),
            old(self)@.wf() ==> final(self)@.wf() && r is Ok,
    {
        proof {
            if self@.wf() {
                lemma_clock_notes_keep_wf(self@, 0, comment@);
            }
        }
        match self.current_clock {
            Some(clock_ref) => {
                let mut clock = match self.clock(&clock_ref) {
                    Ok(clock) => clock,
                    Err(e) => {
                        return Err(e);
                    },
                };
                clock.set_comment(comment.to_owned());
                self.upsert_clock(clock);
                Ok(())
            },
            None => Ok(()),
        }
    }

    /// The clocks that start on the day `date` and, where `main_task` is
    /// given, either have no task or have one in the hierarchy of
    /// `main_task`; in no order that could be named.
    pub fn day_clock(&self, date: Date, main_task: Option<u128>) -> (found: Vec<Clock>)
        ensures
            self@.is_selection(clock_views(found@), date, date, main_task),
    {
        self.range_clock(date, date, main_task)
    }

    /// The clocks that start on one of the days `start` to `end`, both
    /// included, and, where `main_task` is given, either have no task or
    /// have one in the hierarchy of `main_task`; in no order that could be
    /// named.
    pub fn range_clock(&self, start: Date, end: Date, main_task: Option<u128>) -> (found: Vec<
        Clock,
    >)
        ensures
            self@.is_selection(clock_views(found@), start, end, main_task),
    {
        broadcast use group_hash_axioms;

        let ids = stored_ids(&self.clocks);
        let mut found: Vec<Clock> = Vec::new();
        let ghost mut keys: Seq<u128> = Seq::empty();
        let mut i: usize = 0;
        while i < ids.len()
            invariant
                i <= ids@.len(),
                ids@.no_duplicates(),
                ids@.to_set() == self.clocks@.dom(),
                self@.selects(keys, clock_views(found@)),
                forall|k: u128| keys.contains(k) ==> ids@.take(i as int).contains(k),
                forall|j: int|
                    0 <= j < i ==> if keys.contains(#[trigger] ids@[j]) {
                        self@.may_pick(self@.clocks[ids@[j]], start, end, main_task)
                    } else {
                        self@.may_skip(self@.clocks[ids@[j]], start, end, main_task)
                    },
            decreases ids@.len() - i,
        {
            let key: u128 = ids[i];
            assert(ids@.to_set().contains(key));
            proof {
                lemma_next_key(ids@, i as int, keys);
            }
            match self.clocks.get(&key) {
                Some(clock) => {
                    let in_days = start.is_on_or_before(&clock.start.date)
                        && clock.start.date.is_on_or_before(&end);
                    let picked = in_days && match (clock.task_id, main_task) {
                        (Some(clock_task), Some(scope)) => self.is_in_hierarchy_of(
                            &clock_task,
                            &scope,
                        ),
                        _ => true,
                    };
                    if picked {
                        proof {
                            lemma_pick(self@, keys, clock_views(found@), key);
                            assert(clock_views(found@.push(*clock)) =~= clock_views(found@).push(
                                clock@,
                            ));
                            keys = keys.push(key);
                        }
                        let copy = clock.clone();
                        assert(clock_views(found@.push(copy)) =~= clock_views(found@.push(*clock)));
                        found.push(copy);
                    }
                },
                None => {},
            }
            i += 1;
        }
        proof {
            assert(ids@.take(i as int) =~= ids@);
            assert forall|k: u128| #[trigger] self@.clocks.contains_key(k) implies if keys.contains(
                k,
            ) {
                self@.may_pick(self@.clocks[k], start, end, main_task)
            } else {
                self@.may_skip(self@.clocks[k], start, end, main_task)
            } by {
                assert(ids@.to_set().contains(k));
                let j = choose|j: int| 0 <= j < ids@.len() && ids@[j] == k;
                assert(keys.contains(ids@[j]) || !keys.contains(ids@[j]));
            }
        }
        found
    }

    /// The clocks that are assigned to the task `task_ref`, in no order
    /// that could be named.
    pub fn task_clock(&self, task_ref: &u128) -> (found: Vec<Clock>)
        ensures
            self@.is_task_selection(clock_views(found@), *task_ref),
    {
        broadcast use group_hash_axioms;

        let ids = stored_ids(&self.clocks);
        let mut found: Vec<Clock> = Vec::new();
        let ghost mut keys: Seq<u128> = Seq::empty();
        let mut i: usize = 0;
        while i < ids.len()
            invariant
                i <= ids@.len(),
                ids@.no_duplicates(),
                ids@.to_set() == self.clocks@.dom(),
                self@.selects(keys, clock_views(found@)),
                forall|k: u128| keys.contains(k) ==> ids@.take(i as int).contains(k),
                forall|j: int|
                    0 <= j < i ==> (keys.contains(#[trigger] ids@[j]) <==> self@.clocks[ids@[j]].task_id
                        == Some(*task_ref)),
            decreases ids@.len() - i,
        {
            let key: u128 = ids[i];
            assert(ids@.to_set().contains(key));
            proof {
                lemma_next_key(ids@, i as int, keys);
            }
            match self.clocks.get(&key) {
                Some(clock) => {
                    if clock.task_id == Some(*task_ref) {
                        proof {
                            lemma_pick(self@, keys, clock_views(found@), key);
                            assert(clock_views(found@.push(*clock)) =~= clock_views(found@).push(
                                clock@,
                            ));
                            keys = keys.push(key);
                        }
                        let copy = clock.clone();
                        assert(clock_views(found@.push(copy)) =~= clock_views(found@.push(*clock)));
                        found.push(copy);
                    }
                },
                None => {},
            }
            i += 1;
        }
        proof {
            assert(ids@.take(i as int) =~= ids@);
            assert forall|k: u128| #[trigger] self@.clocks.contains_key(k) implies (keys.contains(k)
                <==> self@.clocks[k].task_id == Some(*task_ref)) by {
                assert(ids@.to_set().contains(k));
                let j = choose|j: int| 0 <= j < ids@.len() && ids@[j] == k;
                assert(keys.contains(ids@[j]) <==> self@.clocks[ids@[j]].task_id == Some(*task_ref));
            }
        }
        found
    }
}

/// The key at position `i` of a list without repetitions is none of those
/// that were taken from before it, and taking it or not leaves the others
/// as they are.
pub proof fn lemma_next_key(ids: Seq<u128>, i: int, keys: Seq<u128>)
    requires
        0 <= i < ids.len(),
        ids.no_duplicates(),
        forall|k: u128| keys.contains(k) ==> ids.take(i).contains(k),
    ensures
        !keys.contains(ids[i]),
        forall|k: u128| keys.contains(k) ==> ids.take(i + 1).contains(k),
        forall|k: u128| keys.push(ids[i]).contains(k) ==> ids.take(i + 1).contains(k),
        forall|j: int| 0 <= j < i ==> (keys.push(ids[i]).contains(#[trigger] ids[j]) <==> keys.contains(ids[j])),
        keys.push(ids[i]).contains(ids[i]),
{
    if keys.contains(ids[i]) {
        let j = choose|j: int| 0 <= j < ids.take(i).len() && ids.take(i)[j] == ids[i];
        assert(ids[j] == ids[i]);
    }
    assert forall|k: u128| keys.contains(k) implies ids.take(i + 1).contains(k) by {
        let j = choose|j: int| 0 <= j < ids.take(i).len() && ids.take(i)[j] == k;
        assert(ids.take(i + 1)[j] == k);
    }
    assert forall|k: u128| keys.push(ids[i]).contains(k) implies ids.take(i + 1).contains(k) by {
        let j = choose|j: int| 0 <= j < keys.push(ids[i]).len() && keys.push(ids[i])[j] == k;
        if j < keys.len() {
            assert(keys[j] == k);
            assert(keys.contains(k));
        } else {
            assert(ids.take(i + 1)[i] == k);
        }
    }
    assert forall|j: int| 0 <= j < i implies (keys.push(ids[i]).contains(#[trigger] ids[j])
        <==> keys.contains(ids[j])) by {
        if keys.push(ids[i]).contains(ids[j]) {
            let m = choose|m: int| 0 <= m < keys.push(ids[i]).len() && keys.push(ids[i])[m] == ids[j];
            if m < keys.len() {
                assert(keys[m] == ids[j]);
            }
        }
        if keys.contains(ids[j]) {
            let m = choose|m: int| 0 <= m < keys.len() && keys[m] == ids[j];
            assert(keys.push(ids[i])[m] == ids[j]);
        }
    }
    assert(keys.push(ids[i])[keys.len() as int] == ids[i]);
}

/// A selection stays one when a stored clock under a key that it does not
/// hold yet is added at its end.
pub proof fn lemma_pick(doc: DocView, keys: Seq<u128>, found: Seq<ClockView>, key: u128)
    requires
        doc.selects(keys, found),
        doc.clocks.contains_key(key),
        !keys.contains(key),
    ensures
        doc.selects(keys.push(key), found.push(doc.clocks[key])),
{
    let more = keys.push(key);
    assert forall|i: int, j: int| 0 <= i < more.len() && 0 <= j < more.len() && i != j implies more[i]
        != more[j] by {
        if i < keys.len() && j < keys.len() {
        } else if i < keys.len() {
            assert(keys.contains(keys[i]));
        } else {
            assert(keys.contains(keys[j]));
        }
    }
}

} // verus!
