//! Editing the clocks of one day.
//!
//! A clock edit is a working copy of the clocks that start on one day, in
//! the order of their starts. Edits change the copy only; the document
//! learns of them when the copy is applied.

use crate::clock::{
    clock_views, is_rearrangement, sort_by_start, sorted_by_start, Clock, ClockMod, ClockView,
};
use crate::doc::{Doc, DocView};
use crate::error::Error;
use crate::time::{
    local_offset_at, local_offsets, Date, Duration, TimeOfDay, Timestamp, EPOCH_SECONDS,
};
use vstd::prelude::*;

verus! {

/// The working copy of a day's clocks.
#[derive(Debug)]
pub struct ClockEdit {
    pub clocks: Vec<Clock>,
}

impl View for ClockEdit {
    type V = Seq<ClockView>;

    open spec fn view(&self) -> Seq<ClockView> {
        clock_views(self.clocks@)
    }
}

/// Whether `entries` has an entry with the number `number`, counted from 1.
pub open spec fn numbered(entries: Seq<ClockView>, number: int) -> bool {
    1 <= number <= entries.len()
}

/// Whether `offset` can be the offset of a time zone.
pub open spec fn is_offset(offset: Option<i32>) -> bool {
    offset matches Some(seconds) ==> -86_400 < seconds < 86_400
}

impl Clone for ClockEdit {
    fn clone(&self) -> (r: Self)
        ensures
            r@ == self@,
    {
        let mut clocks: Vec<Clock> = Vec::new();
        let mut i: usize = 0;
        while i < self.clocks.len()
            invariant
                i <= self.clocks@.len(),
                clocks@.len() == i,
                forall|j: int| 0 <= j < i ==> clocks@[j]@ == self.clocks@[j]@,
            decreases self.clocks@.len() - i,
        {
            clocks.push(self.clocks[i].clone());
            i += 1;
        }
        let r = ClockEdit { clocks };
        assert(r@ =~= self@);
        r
    }
}

impl ClockEdit {
    /// The entry at position `i`, counted from 0.
    pub fn get_clock(&self, i: usize) -> (r: Result<Clock, Error>)
        ensures
            match r {
                Ok(clock) => i < self@.len() && clock@ == self@[i as int],
                Err(e) => e == Error::ClockOutOfIndex && i >= self@.len(),
            },
    {
        if i < self.clocks.len() {
            Ok(self.clocks[i].clone())
        } else {
            Err(Error::ClockOutOfIndex)
        }
    }

    /// Puts `clock` in place of the entry at position `i`, counted from 0.
    pub fn update_clock(&mut self, i: usize, clock: Clock) -> (r: Result<(), Error>)
        ensures
            match r {
                Ok(()) => i < old(self)@.len() && final(self)@ == old(self)@.update(
                    i as int,
                    clock@,
                ),
                Err(e) => e == Error::ClockOutOfIndex && i >= old(self)@.len() && final(self)@
                    == old(self)@,
            },
    {
        if i < self.clocks.len() {
            self.clocks.set(i, clock);
            assert(final(self)@ =~= old(self)@.update(i as int, clock@));
            Ok(())
        } else {
            Err(Error::ClockOutOfIndex)
        }
    }

    /// Lets `func` rework the entry at position `i`, counted from 0.
    pub fn modify_clock<F>(&mut self, i: usize, func: F) -> (r: Result<(), Error>) where
        F: FnOnce(Clock) -> Clock,

        requires
            forall|c: Clock|
                i < old(self)@.len() && c@ == old(self)@[i as int] ==> #[trigger] call_requires(
                    func,
                    (c,),
                ),
        ensures
            match r {
                Ok(()) => i < old(self)@.len() && exists|before: Clock, after: Clock|
                    before@ == old(self)@[i as int] && #[trigger] call_ensures(
                        func,
                        (before,),
                        after,
                    ) && final(self)@ == old(self)@.update(i as int, after@),
                Err(e) => e == Error::ClockOutOfIndex && i >= old(self)@.len() && final(self)@
                    == old(self)@,
            },
    {
        let clock = match self.get_clock(i) {
            Ok(clock) => clock,
            Err(e) => {
                return Err(e);
            },
        };
        let after = func(clock);
        self.update_clock(i, after)
    }

    /// Sets the end of entry number `i`, counted from 1, to the moment
    /// `duration` after its start. `offset` is the offset that the time zone
    /// gives for that moment; without one the entry stays as it is, and so
    /// it does where the day of that moment cannot be counted.
    pub fn set_duration_with(&mut self, i: usize, duration: Duration, offset: Option<i32>) -> (r:
        Result<(), Error>)
        ensures
            match r {
                Ok(()) => numbered(old(self)@, i as int) && final(self)@ == old(self)@.update(
                    i - 1,
                    old(self)@[i - 1].duration_set(duration, offset),
                ),
                Err(e) => e == Error::ClockOutOfIndex && !numbered(old(self)@, i as int)
                    && final(self)@ == old(self)@,
            },
    {
        if i == 0 {
            return Err(Error::ClockOutOfIndex);
        }
        let mut clock = match self.get_clock(i - 1) {
            Ok(clock) => clock,
            Err(e) => {
                return Err(e);
            },
        };
        match offset {
            Some(offset) => match clock.start.plus(&duration, offset) {
                Some(end) => {
                    clock.set_end(end);
                },
                None => {},
            },
            None => {},
        }
        self.update_clock(i - 1, clock)
    }

    /// Sets the end of entry number `i`, counted from 1, to the moment
    /// `duration` after its start. The machine's time zone says which
    /// offset the end has; where it has none, or the day of the end cannot
    /// be counted, the entry stays as it is.
    pub fn set_duration(&mut self, i: usize, duration: Duration) -> (r: Result<(), Error>)
        ensures
            match r {
                Ok(()) => numbered(old(self)@, i as int) && exists|offset: Option<i32>|
                    is_offset(offset) && final(self)@ == old(self)@.update(
                        i - 1,
                        #[trigger] old(self)@[i - 1].duration_set(duration, offset),
                    ),
                Err(e) => e == Error::ClockOutOfIndex && !numbered(old(self)@, i as int)
                    && final(self)@ == old(self)@,
            },
    {
        if i == 0 || i > self.clocks.len() {
            return Err(Error::ClockOutOfIndex);
        }
        let offset = match self.clocks[i - 1].start.instant_after(&duration) {
            Some((secs, _)) => local_offset_at(secs - EPOCH_SECONDS),
            None => None,
        };
        self.set_duration_with(i, duration, offset)
    }

    /// Sets the start of entry number `i`, counted from 1.
    pub fn set_start(&mut self, i: usize, start: Timestamp) -> (r: Result<(), Error>)
        ensures
            match r {
                Ok(()) => numbered(old(self)@, i as int) && final(self)@ == old(self)@.update(
                    i - 1,
                    old(self)@[i - 1].with_start(start),
                ),
                Err(e) => e == Error::ClockOutOfIndex && !numbered(old(self)@, i as int)
                    && final(self)@ == old(self)@,
            },
    {
        if i == 0 {
            return Err(Error::ClockOutOfIndex);
        }
        let mut clock = match self.get_clock(i - 1) {
            Ok(clock) => clock,
            Err(e) => {
                return Err(e);
            },
        };
        clock.set_start(start);
        self.update_clock(i - 1, clock)
    }

    /// Sets the end of entry number `i`, counted from 1.
    pub fn set_end(&mut self, i: usize, end: Timestamp) -> (r: Result<(), Error>)
        ensures
            match r {
                Ok(()) => numbered(old(self)@, i as int) && final(self)@ == old(self)@.update(
                    i - 1,
                    old(self)@[i - 1].with_end(end),
                ),
                Err(e) => e == Error::ClockOutOfIndex && !numbered(old(self)@, i as int)
                    && final(self)@ == old(self)@,
            },
    {
        if i == 0 {
            return Err(Error::ClockOutOfIndex);
        }
        let mut clock = match self.get_clock(i - 1) {
            Ok(clock) => clock,
            Err(e) => {
                return Err(e);
            },
        };
        clock.set_end(end);
        self.update_clock(i - 1, clock)
    }

    /// Replaces the time of day of the start of entry number `i`, counted
    /// from 1, and keeps its day. `offset` is the offset that the time zone
    /// gives for that day and time; without one the entry stays as it is.
    pub fn set_start_time_with(&mut self, i: usize, start: TimeOfDay, offset: Option<i32>) -> (r:
        Result<(), Error>)
        ensures
            match r {
                Ok(()) => numbered(old(self)@, i as int) && final(self)@ == old(self)@.update(
                    i - 1,
                    old(self)@[i - 1].start_time_set(start, offset),
                ),
                Err(e) => e == Error::ClockOutOfIndex && !numbered(old(self)@, i as int)
                    && final(self)@ == old(self)@,
            },
    {
        if i == 0 {
            return Err(Error::ClockOutOfIndex);
        }
        let mut clock = match self.get_clock(i - 1) {
            Ok(clock) => clock,
            Err(e) => {
                return Err(e);
            },
        };
        match offset {
            Some(offset) => {
                let new_start = clock.start.with_time(start, offset);
                clock.set_start(new_start);
            },
            None => {},
        }
        self.update_clock(i - 1, clock)
    }

    /// Replaces the time of day of the start of entry number `i`, counted
    /// from 1, and keeps its day. The machine's time zone says which offset
    /// the new start has; where it has none for that day and time, the
    /// entry stays as it is.
    pub fn set_start_time(&mut self, i: usize, start: TimeOfDay) -> (r: Result<(), Error>)
        ensures
            match r {
                Ok(()) => numbered(old(self)@, i as int) && exists|offset: Option<i32>|
                    is_offset(offset) && final(self)@ == old(self)@.update(
                        i - 1,
                        #[trigger] old(self)@[i - 1].start_time_set(start, offset),
                    ),
                Err(e) => e == Error::ClockOutOfIndex && !numbered(old(self)@, i as int)
                    && final(self)@ == old(self)@,
            },
    {
        if i == 0 || i > self.clocks.len() {
            return Err(Error::ClockOutOfIndex);
        }
        let offset = local_offsets(self.clocks[i - 1].start.date, start).single();
        self.set_start_time_with(i, start, offset)
    }

    /// Replaces the time of day of the end of entry number `i`, counted
    /// from 1, and keeps its day. `offset` is the offset that the time zone
    /// gives for that day and time. An entry without end stays as it is,
    /// and so does any entry where there is no offset.
    pub fn set_end_time_with(&mut self, i: usize, end: TimeOfDay, offset: Option<i32>) -> (r:
        Result<(), Error>)
        ensures
            match r {
                Ok(()) => numbered(old(self)@, i as int) && final(self)@ == old(self)@.update(
                    i - 1,
                    old(self)@[i - 1].end_time_set(end, offset),
                ),
                Err(e) => e == Error::ClockOutOfIndex && !numbered(old(self)@, i as int)
                    && final(self)@ == old(self)@,
            },
    {
        if i == 0 {
            return Err(Error::ClockOutOfIndex);
        }
        let mut clock = match self.get_clock(i - 1) {
            Ok(clock) => clock,
            Err(e) => {
                return Err(e);
            },
        };
        match (clock.end, offset) {
            (Some(old_end), Some(offset)) => {
                let new_end = old_end.with_time(end, offset);
                clock.set_end(new_end);
            },
            _ => {},
        }
        self.update_clock(i - 1, clock)
    }

    /// Replaces the time of day of the end of entry number `i`, counted
    /// from 1, and keeps its day. An entry without end stays as it is. The
    /// machine's time zone says which offset the new end has; where it has
    /// none for that day and time, the entry stays as it is.
    pub fn set_end_time(&mut self, i: usize, end: TimeOfDay) -> (r: Result<(), Error>)
        ensures
            match r {
                Ok(()) => numbered(old(self)@, i as int) && exists|offset: Option<i32>|
                    is_offset(offset) && final(self)@ == old(self)@.update(
                        i - 1,
                        #[trigger] old(self)@[i - 1].end_time_set(end, offset),
                    ),
                Err(e) => e == Error::ClockOutOfIndex && !numbered(old(self)@, i as int)
                    && final(self)@ == old(self)@,
            },
    {
        if i == 0 || i > self.clocks.len() {
            return Err(Error::ClockOutOfIndex);
        }
        let offset = match self.clocks[i - 1].end {
            Some(old_end) => local_offsets(old_end.date, end).single(),
            None => None,
        };
        self.set_end_time_with(i, end, offset)
    }

    /// Replaces the day of the end of entry number `i`, counted from 1,
    /// and keeps its time of day. `offset` is the offset that the time zone
    /// gives for that day and time. An entry without end stays as it is,
    /// and so does any entry where there is no offset.
    pub fn set_end_date_with(&mut self, i: usize, new_end: Date, offset: Option<i32>) -> (r:
        Result<(), Error>)
        ensures
            match r {
                Ok(()) => numbered(old(self)@, i as int) && final(self)@ == old(self)@.update(
                    i - 1,
                    old(self)@[i - 1].end_date_set(new_end, offset),
                ),
                Err(e) => e == Error::ClockOutOfIndex && !numbered(old(self)@, i as int)
                    && final(self)@ == old(self)@,
            },
    {
        if i == 0 {
            return Err(Error::ClockOutOfIndex);
        }
        let mut clock = match self.get_clock(i - 1) {
            Ok(clock) => clock,
            Err(e) => {
                return Err(e);
            },
        };
        match (clock.end, offset) {
            (Some(old_end), Some(offset)) => {
                let moved = old_end.with_date(new_end, offset);
                clock.set_end(moved);
            },
            _ => {},
        }
        self.update_clock(i - 1, clock)
    }

    /// Replaces the day of the end of entry number `i`, counted from 1,
    /// and keeps its time of day. An entry without end stays as it is. The
    /// machine's time zone says which offset the new end has; where it has
    /// none for that day and time, the entry stays as it is.
    pub fn set_end_date(&mut self, i: usize, new_end: Date) -> (r: Result<(), Error>)
        ensures
            match r {
                Ok(()) => numbered(old(self)@, i as int) && exists|offset: Option<i32>|
                    is_offset(offset) && final(self)@ == old(self)@.update(
                        i - 1,
                        #[trigger] old(self)@[i - 1].end_date_set(new_end, offset),
                    ),
                Err(e) => e == Error::ClockOutOfIndex && !numbered(old(self)@, i as int)
                    && final(self)@ == old(self)@,
            },
    {
        if i == 0 || i > self.clocks.len() {
            return Err(Error::ClockOutOfIndex);
        }
        let offset = match self.clocks[i - 1].end {
            Some(old_end) => local_offsets(new_end, old_end.time).single(),
            None => None,
        };
        self.set_end_date_with(i, new_end, offset)
    }
}

impl DocView {
    /// The document with each of `clocks` stored under its identifier, one
    /// after the other.
    pub open spec fn upsert_clocks(self, clocks: Seq<ClockView>) -> DocView
        decreases clocks.len(),
    {
        if clocks.len() == 0 {
            self
        } else {
            self.upsert_clocks(clocks.drop_last()).upsert_clock(clocks.last())
        }
    }
}

/// The clocks of a selection are one in any other order too.
pub proof fn lemma_rearranged_selection(
    doc: DocView,
    order: Seq<int>,
    from: Seq<ClockView>,
    to: Seq<ClockView>,
    first: Date,
    last: Date,
    scope: Option<u128>,
)
    requires
        doc.is_selection(from, first, last, scope),
        is_rearrangement(order, from, to),
    ensures
        doc.is_selection(to, first, last, scope),
{
    let keys = choose|keys: Seq<u128>|
        #![trigger doc.selects(keys, from)]
        doc.selects(keys, from) && forall|k: u128|
            #![trigger doc.clocks.contains_key(k)]
            doc.clocks.contains_key(k) ==> if keys.contains(k) {
                doc.may_pick(doc.clocks[k], first, last, scope)
            } else {
                doc.may_skip(doc.clocks[k], first, last, scope)
            };
    let moved = Seq::new(keys.len(), |i: int| keys[order[i]]);
    assert forall|k: u128| moved.contains(k) <==> keys.contains(k) by {
        if moved.contains(k) {
            let i = choose|i: int| 0 <= i < moved.len() && moved[i] == k;
            assert(keys[order[i]] == k);
        }
        if keys.contains(k) {
            let j = choose|j: int| 0 <= j < keys.len() && keys[j] == k;
            assert(order.contains(j));
            let i = choose|i: int| 0 <= i < order.len() && order[i] == j;
            assert(moved[i] == k);
        }
    }
    assert(doc.selects(moved, to)) by {
        assert forall|i: int, j: int| 0 <= i < moved.len() && 0 <= j < moved.len() && i
            != j implies moved[i] != moved[j] by {
            assert(order[i] != order[j]);
        }
        assert forall|i: int| 0 <= i < moved.len() implies doc.clocks.contains_key(
            #[trigger] moved[i],
        ) && to[i] == doc.clocks[moved[i]] by {
            assert(moved[i] == keys[order[i]]);
        }
    }
}

impl Doc {
    /// A working copy of the clocks that start on the day `date`, in the
    /// order of their starts. The document stays as it is.
    pub fn create_clock_edit(&self, date: Date) -> (edit: ClockEdit)
        ensures
            self@.is_selection(edit@, date, date, None),
            sorted_by_start(edit@),
    {
        let day = self.day_clock(date, None);
        let clocks = sort_by_start(&day);
        proof {
            let order = choose|order: Seq<int>|
                #[trigger] is_rearrangement(order, clock_views(day@), clock_views(clocks@));
            lemma_rearranged_selection(
                self@,
                order,
                clock_views(day@),
                clock_views(clocks@),
                date,
                date,
                None,
            );
        }
        ClockEdit { clocks }
    }

    /// Stores every entry of the working copy under its identifier, in
    /// place of what was there.
    pub fn apply_clock_edit(&mut self, clock_edit: ClockEdit)
        ensures
            final(self)@ == old(self)@.upsert_clocks(clock_edit@),
            old(self)@.wf() ==> final(self)@.wf(),
    {
        proof {
            if self@.wf() {
                crate::laws::lemma_upsert_clocks_keeps_wf(self@, clock_edit@);
            }
        }
        let mut i: usize = 0;
        while i < clock_edit.clocks.len()
            invariant
                i <= clock_edit.clocks@.len(),
                self@ == old(self)@.upsert_clocks(clock_edit@.take(i as int)),
            decreases clock_edit.clocks@.len() - i,
        {
            proof {
                let next = clock_edit@.take(i + 1);
                assert(next.drop_last() =~= clock_edit@.take(i as int));
                assert(next.last() == clock_edit.clocks@[i as int]@);
            }
            self.upsert_clock(clock_edit.clocks[i].clone());
            i += 1;
        }
        proof {
            assert(clock_edit@.take(i as int) =~= clock_edit@);
        }
    }
}

} // verus!
