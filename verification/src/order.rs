//! The order of clocks: by their starts alone.

use crate::clock::Clock;
use std::cmp::Ordering;
use vstd::prelude::*;

verus! {

impl PartialEq for Clock {
    /// Two clocks are equal where they start at one moment.
    fn eq(&self, other: &Self) -> (r: bool) {
        self.start.is_same_instant(&other.start)
    }
}

impl vstd::std_specs::cmp::PartialEqSpecImpl for Clock {
    open spec fn obeys_eq_spec() -> bool {
        true
    }

    open spec fn eq_spec(&self, other: &Self) -> bool {
        self.start.same_instant(other.start)
    }
}

impl Eq for Clock {

}

impl PartialOrd for Clock {
    /// The clock that starts earlier is the lesser one.
    fn partial_cmp(&self, other: &Self) -> (r: Option<Ordering>) {
        if self.start.is_before(&other.start) {
            Some(Ordering::Less)
        } else if other.start.is_before(&self.start) {
            Some(Ordering::Greater)
        } else {
            Some(Ordering::Equal)
        }
    }
}

impl vstd::std_specs::cmp::PartialOrdSpecImpl for Clock {
    open spec fn obeys_partial_cmp_spec() -> bool {
        true
    }

    open spec fn partial_cmp_spec(&self, other: &Self) -> Option<Ordering> {
        if self.start.precedes(other.start) {
            Some(Ordering::Less)
        } else if other.start.precedes(self.start) {
            Some(Ordering::Greater)
        } else {
            Some(Ordering::Equal)
        }
    }
}

} // verus!
