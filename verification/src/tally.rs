//! Counts by name.

use vstd::prelude::*;

use crate::roll::Roll;

verus! {

/// How often each name was counted.
pub struct Tally {
    counts: Roll<u64>,
}

/// The counts with one more for a name.
pub open spec fn bumped(counts: Map<Seq<char>, u64>, name: Seq<char>) -> Map<Seq<char>, u64> {
    counts.insert(
        name,
        if counts.dom().contains(name) {
            (counts[name] + 1) as u64
        } else {
            1
        },
    )
}

/// Whether no name was counted more often than `most` times.
pub open spec fn at_most(counts: Map<Seq<char>, u64>, most: u64) -> bool {
    forall|name: Seq<char>| #[trigger] counts.dom().contains(name) ==> counts[name] <= most
}

impl View for Tally {
    type V = Map<Seq<char>, u64>;

    closed spec fn view(&self) -> Map<Seq<char>, u64> {
        self.counts@
    }
}

impl Tally {
    /// Nothing counted.
    pub fn new() -> (tally: Tally)
        ensures
            tally@ == Map::<Seq<char>, u64>::empty(),
    {
        Tally { counts: Roll::new() }
    }

    /// Counts a name once more.
    pub fn bump(&mut self, name: &str)
        requires
            old(self)@.dom().contains(name@) ==> old(self)@[name@] < u64::MAX,
        ensures
            final(self)@ == bumped(old(self)@, name@),
    {
        match self.counts.find(name) {
            Some(at) => {
                let count: u64 = *self.counts.value(at);
                self.counts.replace(at, count + 1);
            },
            None => {
                self.counts.enrol(name.to_owned(), 1);
            },
        }
    }

    /// How often a name was counted.
    pub fn count(&self, name: &str) -> (count: u64)
        ensures
            count == if self@.dom().contains(name@) {
                self@[name@]
            } else {
                0
            },
    {
        match self.counts.get(name) {
            Some(count) => *count,
            None => 0,
        }
    }

    /// How many names were counted.
    pub fn len(&self) -> (n: usize)
        ensures
            n == self.order().len(),
    {
        self.counts.len()
    }

    /// The names, in the order in which they were first counted.
    pub closed spec fn order(self) -> Seq<Seq<char>> {
        self.counts.order()
    }

    /// The name at `i`.
    pub fn name(&self, i: usize) -> (name: &String)
        requires
            i < self.order().len(),
        ensures
            name@ == self.order()[i as int],
            self@.dom().contains(name@),
    {
        self.counts.name(i)
    }
}

/// What all counts come to.
pub open spec fn total(counts: Map<Seq<char>, u64>) -> int
    decreases counts.dom().len(),
    when counts.dom().finite()
{
    if counts.dom().len() == 0 {
        0
    } else {
        let name = counts.dom().choose();
        counts[name] + total(counts.remove(name))
    }
}

/// The total is that of the others and any one count.
pub proof fn total_with_one(counts: Map<Seq<char>, u64>, name: Seq<char>)
    requires
        counts.dom().finite(),
        counts.dom().contains(name),
    ensures
        total(counts) == counts[name] + total(counts.remove(name)),
    decreases counts.dom().len(),
{
    let first = counts.dom().choose();
    assert(counts.dom().len() > 0);
    if first != name {
        total_with_one(counts.remove(first), name);
        total_with_one(counts.remove(name), first);
        assert(counts.remove(first).remove(name) =~= counts.remove(name).remove(first));
    }
}

/// Counting a name once more adds one to the total.
pub proof fn a_bump_adds_one(counts: Map<Seq<char>, u64>, name: Seq<char>)
    requires
        counts.dom().finite(),
        counts.dom().contains(name) ==> counts[name] < u64::MAX,
    ensures
        bumped(counts, name).dom().finite(),
        total(bumped(counts, name)) == total(counts) + 1,
{
    let after = bumped(counts, name);
    total_with_one(after, name);
    if counts.dom().contains(name) {
        total_with_one(counts, name);
        assert(after.remove(name) =~= counts.remove(name));
    } else {
        assert(after.remove(name) =~= counts);
    }
}

} // verus!
