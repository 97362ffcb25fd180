//! A roll: values under names, in the order in which the names came.

use vstd::prelude::*;

use crate::text::same_text;

verus! {

/// Values under names. No name is on the roll twice.
pub struct Roll<V> {
    names: Vec<String>,
    values: Vec<V>,
}

/// The names, each by its view.
pub open spec fn names_view(names: Seq<String>) -> Seq<Seq<char>> {
    Seq::new(names.len(), |i: int| names[i]@)
}

/// The map of a row of names to a row of values.
pub open spec fn map_of<V>(names: Seq<Seq<char>>, values: Seq<V>) -> Map<Seq<char>, V> {
    Map::new(|name: Seq<char>| names.contains(name), |name: Seq<char>| values[names.index_of(name)])
}

impl<V> View for Roll<V> {
    type V = Map<Seq<char>, V>;

    open spec fn view(&self) -> Map<Seq<char>, V> {
        map_of(self.order(), self.row())
    }
}

/// The map of names that are told apart gives each name its own value.
pub proof fn found_at<V>(names: Seq<Seq<char>>, values: Seq<V>, i: int)
    requires
        names.no_duplicates(),
        names.len() == values.len(),
        0 <= i < names.len(),
    ensures
        names.index_of(names[i]) == i,
        map_of(names, values).dom().contains(names[i]),
        map_of(names, values)[names[i]] == values[i],
{
    assert(names.contains(names[i]));
}

/// A map of names that are told apart has as many entries as there are names.
pub proof fn as_many_as_names<V>(names: Seq<Seq<char>>, values: Seq<V>)
    requires
        names.no_duplicates(),
        names.len() == values.len(),
    ensures
        map_of(names, values).dom().finite(),
        map_of(names, values).dom().len() == names.len(),
{
    names.unique_seq_to_set();
    assert(map_of(names, values).dom() =~= names.to_set());
}

impl<V> Roll<V> {
    /// Whether each value has a name, and no two have the same.
    #[verifier::type_invariant]
    pub open spec fn told_apart(self) -> bool {
        self.order().len() == self.row().len() && self.order().no_duplicates()
    }

    /// The names, in their order.
    pub closed spec fn order(self) -> Seq<Seq<char>> {
        names_view(self.names@)
    }

    /// The values, in the order of their names.
    pub closed spec fn row(self) -> Seq<V> {
        self.values@
    }

    /// An empty roll.
    pub fn new() -> (roll: Roll<V>)
        ensures
            roll@ == Map::<Seq<char>, V>::empty(),
            roll.order() == Seq::<Seq<char>>::empty(),
            roll.row() == Seq::<V>::empty(),
    {
        let roll = Roll { names: Vec::new(), values: Vec::new() };
        assert(roll.order() =~= Seq::<Seq<char>>::empty());
        assert(roll@ =~= Map::<Seq<char>, V>::empty());
        roll
    }

    /// How many names there are.
    pub fn len(&self) -> (n: usize)
        ensures
            n == self.order().len(),
            n == self.row().len(),
            self.order().no_duplicates(),
    {
        proof {
            use_type_invariant(self);
        }
        self.names.len()
    }

    /// The name at `i`.
    pub fn name(&self, i: usize) -> (name: &String)
        requires
            i < self.order().len(),
        ensures
            name@ == self.order()[i as int],
            self@.dom().contains(name@),
    {
        proof {
            use_type_invariant(self);
            found_at(self.order(), self.row(), i as int);
        }
        &self.names[i]
    }

    /// The value at `i`.
    pub fn value(&self, i: usize) -> (value: &V)
        requires
            i < self.order().len(),
        ensures
            *value == self.row()[i as int],
            self@.dom().contains(self.order()[i as int]),
            self@[self.order()[i as int]] == *value,
    {
        proof {
            use_type_invariant(self);
            found_at(self.order(), self.row(), i as int);
        }
        &self.values[i]
    }

    /// Where a name is on the roll.
    pub fn find(&self, name: &str) -> (at: Option<usize>)
        ensures
            at is Some == self@.dom().contains(name@),
            at is Some ==> at->0 < self.order().len() && self.order()[at->0 as int] == name@
                && self.row()[at->0 as int] == self@[name@],
            self.order().len() == self.row().len(),
            self.order().no_duplicates(),
    {
        proof {
            use_type_invariant(self);
        }
        let mut i: usize = 0;
        while i < self.names.len()
            invariant
                i <= self.names.len(),
                self.order() == names_view(self.names@),
                self.order().len() == self.row().len(),
                self.order().no_duplicates(),
                forall|k: int| 0 <= k < i ==> self.order()[k] != name@,
            decreases self.names.len() - i,
        {
            if same_text(self.names[i].as_str(), name) {
                proof {
                    found_at(self.order(), self.row(), i as int);
                }
                return Some(i);
            }
            i += 1;
        }
        None
    }

    /// Whether a name is on the roll.
    pub fn contains(&self, name: &str) -> (found: bool)
        ensures
            found == self@.dom().contains(name@),
    {
        self.find(name).is_some()
    }

    /// The value under a name.
    pub fn get(&self, name: &str) -> (value: Option<&V>)
        ensures
            value is Some == self@.dom().contains(name@),
            value is Some ==> *value->0 == self@[name@],
    {
        match self.find(name) {
            Some(at) => {
                proof {
                    use_type_invariant(self);
                }
                Some(&self.values[at])
            },
            None => None,
        }
    }

    /// Puts a name that is not on the roll at its end.
    pub fn enrol(&mut self, name: String, value: V)
        requires
            !old(self)@.dom().contains(name@),
        ensures
            final(self)@ == old(self)@.insert(name@, value),
            final(self).order() == old(self).order().push(name@),
            final(self).row() == old(self).row().push(value),
            final(self).order().no_duplicates(),
            final(self).order().len() == final(self).row().len(),
    {
        proof {
            use_type_invariant(&*self);
        }
        let ghost order = self.order();
        let ghost row = self.row();
        let ghost before = self@;
        let mut held = Roll::new();
        std::mem::swap(self, &mut held);
        let Roll { mut names, mut values } = held;
        let ghost added = name@;
        let ghost worth = value;
        names.push(name);
        values.push(value);
        proof {
            assert(names_view(names@) =~= order.push(added));
            let now = order.push(added);
            assert(now.no_duplicates()) by {
                assert forall|i: int, j: int|
                    0 <= i < now.len() && 0 <= j < now.len() && i != j implies now[i] != now[j] by {
                    if i == order.len() {
                        assert(order.contains(order[j]));
                    } else if j == order.len() {
                        assert(order.contains(order[i]));
                    }
                }
            }
            assert forall|other: Seq<char>| #[trigger] now.contains(other) implies map_of(
                now,
                row.push(worth),
            )[other] == before.insert(added, worth)[other] by {
                let k = choose|k: int| 0 <= k < now.len() && now[k] == other;
                found_at(now, row.push(worth), k);
                if k < order.len() {
                    found_at(order, row, k);
                }
            }
            assert forall|other: Seq<char>| now.contains(other) == (order.contains(other) || other
                == added) by {
                if order.contains(other) {
                    let k = choose|k: int| 0 <= k < order.len() && order[k] == other;
                    assert(now[k] == other);
                }
                if other == added {
                    assert(now[order.len() as int] == other);
                }
            }
            assert(map_of(now, row.push(worth)) =~= before.insert(added, worth));
        }
        *self = Roll { names, values };
    }

    /// Puts another value under a name, and hands the one before it out.
    pub fn replace(&mut self, at: usize, value: V) -> (before: V)
        requires
            at < old(self).order().len(),
        ensures
            before == old(self).row()[at as int],
            before == old(self)@[old(self).order()[at as int]],
            final(self)@ == old(self)@.insert(old(self).order()[at as int], value),
            final(self).order() == old(self).order(),
            final(self).row() == old(self).row().update(at as int, value),
            final(self).order().no_duplicates(),
            final(self).order().len() == final(self).row().len(),
    {
        proof {
            use_type_invariant(&*self);
        }
        let ghost order = self.order();
        let ghost row = self.row();
        let ghost before_map = self@;
        let mut held = Roll::new();
        std::mem::swap(self, &mut held);
        let Roll { names, mut values } = held;
        let ghost worth = value;
        let mut taken = value;
        std::mem::swap(&mut values[at], &mut taken);
        proof {
            assert(values@ =~= row.update(at as int, worth));
            found_at(order, row, at as int);
            assert forall|other: Seq<char>| #[trigger] order.contains(other) implies map_of(
                order,
                row.update(at as int, worth),
            )[other] == before_map.insert(order[at as int], worth)[other] by {
                let k = choose|k: int| 0 <= k < order.len() && order[k] == other;
                found_at(order, row, k);
            }
            assert(map_of(order, row.update(at as int, worth)) =~= before_map.insert(
                order[at as int],
                worth,
            ));
        }
        *self = Roll { names, values };
        taken
    }

    /// The value at `at`, to be changed in place.
    pub fn value_mut(&mut self, at: usize) -> (value: &mut V)
        requires
            at < old(self).order().len(),
        ensures
            *value == old(self).row()[at as int],
            *value == old(self)@[old(self).order()[at as int]],
            final(self)@ == old(self)@.insert(old(self).order()[at as int], *final(value)),
            final(self).order() == old(self).order(),
            final(self).row() == old(self).row().update(at as int, *final(value)),
    {
        proof {
            use_type_invariant(&*self);
        }
        &mut self.values[at]
    }

    /// Takes a name off the roll, and hands its value out.
    pub fn remove(&mut self, name: &str) -> (taken: Option<V>)
        ensures
            taken is Some == old(self)@.dom().contains(name@),
            taken is Some ==> taken->0 == old(self)@[name@],
            final(self)@ == old(self)@.remove(name@),
            taken is None ==> final(self).order() == old(self).order() && final(self).row()
                == old(self).row(),
    {
        match self.find(name) {
            None => {
                assert(self@ =~= old(self)@.remove(name@));
                None
            },
            Some(at) => {
                let (_, value) = self.take_at(at);
                Some(value)
            },
        }
    }

    /// Takes the name at `at` off the roll, and hands it out with its value.
    pub fn take_at(&mut self, at: usize) -> (taken: (String, V))
        requires
            at < old(self).order().len(),
        ensures
            taken.0@ == old(self).order()[at as int],
            taken.1 == old(self).row()[at as int],
            taken.1 == old(self)@[taken.0@],
            old(self)@.dom().contains(taken.0@),
            final(self)@ == old(self)@.remove(taken.0@),
            final(self).order() == old(self).order().remove(at as int),
            final(self).row() == old(self).row().remove(at as int),
            final(self).order().no_duplicates(),
            final(self).order().len() == final(self).row().len(),
    {
        proof {
            use_type_invariant(&*self);
        }
        let ghost order = self.order();
        let ghost row = self.row();
        let ghost before_map = self@;
        let mut held = Roll::new();
        std::mem::swap(self, &mut held);
        let Roll { mut names, mut values } = held;
        let name = names.remove(at);
        let value = values.remove(at);
        proof {
            let now = order.remove(at as int);
            let rest = row.remove(at as int);
            found_at(order, row, at as int);
            assert(names_view(names@) =~= now);
            assert(now.no_duplicates()) by {
                assert forall|i: int, j: int|
                    0 <= i < now.len() && 0 <= j < now.len() && i != j implies now[i] != now[j] by {
                    let from = if i < at {
                        i
                    } else {
                        i + 1
                    };
                    let to = if j < at {
                        j
                    } else {
                        j + 1
                    };
                    assert(order[from] != order[to]);
                }
            }
            assert forall|other: Seq<char>| now.contains(other) == (order.contains(other) && other
                != order[at as int]) by {
                if now.contains(other) {
                    let k = choose|k: int| 0 <= k < now.len() && now[k] == other;
                    let from = if k < at {
                        k
                    } else {
                        k + 1
                    };
                    assert(order[from] == other);
                }
                if order.contains(other) && other != order[at as int] {
                    let k = choose|k: int| 0 <= k < order.len() && order[k] == other;
                    let to = if k < at {
                        k
                    } else {
                        k - 1
                    };
                    assert(now[to] == other);
                }
            }
            assert forall|other: Seq<char>| #[trigger] now.contains(other) implies map_of(
                now,
                rest,
            )[other] == before_map[other] by {
                let k = choose|k: int| 0 <= k < now.len() && now[k] == other;
                found_at(now, rest, k);
                let from = if k < at {
                    k
                } else {
                    k + 1
                };
                found_at(order, row, from);
            }
            assert(map_of(now, rest) =~= before_map.remove(name@));
        }
        *self = Roll { names, values };
        (name, value)
    }
}

} // verus!
