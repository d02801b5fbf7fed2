//! A participant's selection of dates.

use std::collections::HashSet;
use vstd::prelude::*;

verus! {

/// What a selection of dates is collected for.
#[derive(Clone, Copy, Debug, PartialEq, Eq, Structural)]
pub enum ResponseType {
    /// The dates on which a participant is available.
    Normal,
    /// The dates that the owner takes out of the poll.
    Blackout,
}

/// A set of dates, each held as its day number.
#[derive(Debug)]
pub struct Response {
    pub dates: HashSet<i32>,
}

impl View for Response {
    type V = Set<i32>;

    open spec fn view(&self) -> Set<i32> {
        self.dates@
    }
}

impl Default for Response {
    fn default() -> (response: Response)
        ensures
            response@ == Set::<i32>::empty(),
    {
        Response { dates: HashSet::new() }
    }
}

impl From<HashSet<i32>> for Response {
    fn from(dates: HashSet<i32>) -> (response: Response) {
        Response { dates }
    }
}

impl vstd::std_specs::convert::FromSpecImpl<HashSet<i32>> for Response {
    open spec fn obeys_from_spec() -> bool {
        true
    }

    open spec fn from_spec(dates: HashSet<i32>) -> Response {
        Response { dates }
    }
}

/// A set with the dates of `dates`.
pub fn copy_dates(dates: &HashSet<i32>) -> (copy: HashSet<i32>)
    ensures
        copy@ == dates@,
{
    broadcast use vstd::std_specs::hash::group_hash_axioms;

    let mut copy: HashSet<i32> = HashSet::new();
    for day in it: dates.iter()
        invariant
            it.seq().unref().to_set() == dates@,
            forall|d: i32|
                copy@.contains(d) <==> exists|j: int|
                    0 <= j < it.index() && it.seq().unref()[j] == d,
    {
        copy.insert(*day);
    }
    assert(copy@ =~= dates@);
    copy
}

impl Response {
    /// The selection without any date.
    pub fn new() -> (response: Response)
        ensures
            response@ == Set::<i32>::empty(),
    {
        Response { dates: HashSet::new() }
    }

    /// The selection of exactly the dates of `days`.
    pub fn from_days(days: &Vec<i32>) -> (response: Response)
        ensures
            response@ == days@.to_set(),
    {
        broadcast use vstd::std_specs::hash::group_hash_axioms;

        let mut dates: HashSet<i32> = HashSet::new();
        let mut i: usize = 0;
        while i < days.len()
            invariant
                i <= days.len(),
                dates@ == days@.take(i as int).to_set(),
            decreases days.len() - i,
        {
            dates.insert(days[i]);
            assert(days@.take(i + 1) =~= days@.take(i as int).push(days@[i as int]));
            assert(days@.take(i + 1).to_set() =~= days@.take(i as int).to_set().insert(
                days@[i as int],
            )) by {
                let longer = days@.take(i + 1);
                let shorter = days@.take(i as int);
                assert forall|d: i32| longer.to_set().contains(d) <==> shorter.to_set().insert(
                    days@[i as int],
                ).contains(d) by {
                    if longer.contains(d) {
                        let j = choose|j: int| 0 <= j < longer.len() && longer[j] == d;
                        if j < i {
                            assert(shorter[j] == d);
                        }
                    }
                    if shorter.contains(d) {
                        let j = choose|j: int| 0 <= j < shorter.len() && shorter[j] == d;
                        assert(longer[j] == d);
                    }
                    assert(longer[i as int] == days@[i as int]);
                }
            }
            i = i + 1;
        }
        assert(days@.take(i as int) =~= days@);
        Response { dates }
    }

    /// A selection of the same dates.
    pub fn duplicate(&self) -> (copy: Response)
        ensures
            copy@ == self@,
    {
        Response { dates: copy_dates(&self.dates) }
    }

    /// Whether `day` is selected.
    pub fn contains(&self, day: i32) -> (found: bool)
        ensures
            found == self@.contains(day),
    {
        broadcast use vstd::std_specs::hash::group_hash_axioms;

        self.dates.contains(&day)
    }

    /// The number of selected dates.
    pub fn len(&self) -> (n: usize)
        ensures
            n == self@.len(),
    {
        broadcast use vstd::std_specs::hash::group_hash_axioms;

        self.dates.len()
    }
}

} // verus!
