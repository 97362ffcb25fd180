//! Texts in order, and lists of names without repeats.

use vstd::prelude::*;

use crate::roll::names_view;
use crate::text::chars_of;
use crate::text::same_text;

verus! {

/// Whether a text comes before another: at the first place where they differ
/// it has the lesser character, or it ends there.
pub open spec fn before(a: Seq<char>, b: Seq<char>) -> bool
    decreases a.len(),
{
    if b.len() == 0 {
        false
    } else if a.len() == 0 {
        true
    } else if a[0] != b[0] {
        (a[0] as int) < (b[0] as int)
    } else {
        before(a.drop_first(), b.drop_first())
    }
}

/// Whether each name comes before all that follow it.
pub open spec fn ascending(names: Seq<Seq<char>>) -> bool {
    forall|i: int, j: int| 0 <= i < j < names.len() ==> before(#[trigger] names[i], #[trigger] names[j])
}

/// Whether a text comes before another.
pub fn is_before(a: &str, b: &str) -> (answer: bool)
    ensures
        answer == before(a@, b@),
{
    let left = chars_of(a);
    let right = chars_of(b);
    let mut i: usize = 0;
    assert(a@.skip(0) =~= a@);
    assert(b@.skip(0) =~= b@);
    loop
        invariant
            left@ == a@,
            right@ == b@,
            i <= left.len(),
            i <= right.len(),
            before(a@, b@) == before(a@.skip(i as int), b@.skip(i as int)),
        decreases left.len() - i,
    {
        if i == right.len() {
            return false;
        }
        if i == left.len() {
            return true;
        }
        if left[i] != right[i] {
            return left[i] < right[i];
        }
        assert(a@.skip(i as int).drop_first() =~= a@.skip(i + 1));
        assert(b@.skip(i as int).drop_first() =~= b@.skip(i + 1));
        i += 1;
    }
}

/// Of two texts that differ, one comes before the other and not the other way
/// round.
pub proof fn texts_are_ordered(a: Seq<char>, b: Seq<char>)
    ensures
        !(before(a, b) && before(b, a)),
        !before(a, a),
        a != b ==> before(a, b) || before(b, a),
    decreases a.len(),
{
    if a.len() > 0 && b.len() > 0 {
        texts_are_ordered(a.drop_first(), b.drop_first());
        if a != b && a[0] == b[0] && a.drop_first() == b.drop_first() {
            assert(a =~= seq![a[0]] + a.drop_first());
            assert(b =~= seq![b[0]] + b.drop_first());
        }
    } else if a.len() > 0 {
        texts_are_ordered(a.drop_first(), a.drop_first());
    } else if b.len() == 0 {
        assert(a =~= b);
    }
}

/// What comes before a text comes before all that the text comes before.
pub proof fn order_carries_on(a: Seq<char>, b: Seq<char>, c: Seq<char>)
    requires
        before(a, b),
        before(b, c),
    ensures
        before(a, c),
    decreases a.len(),
{
    if a.len() > 0 && b.len() > 0 && c.len() > 0 && a[0] == b[0] && b[0] == c[0] {
        order_carries_on(a.drop_first(), b.drop_first(), c.drop_first());
    }
}

/// Puts a name into an ascending list, where it is not there yet.
pub fn put_in_order(names: &mut Vec<String>, name: &str)
    requires
        ascending(names_view(old(names)@)),
    ensures
        ascending(names_view(final(names)@)),
        forall|other: Seq<char>| #[trigger]
            names_view(final(names)@).contains(other) == (names_view(old(names)@).contains(other)
                || other == name@),
{
    let ghost held = names_view(names@);
    let mut at: usize = 0;
    while at < names.len() && is_before(names[at].as_str(), name)
        invariant
            at <= names.len(),
            names_view(names@) == held,
            forall|i: int| 0 <= i < at ==> before(#[trigger] held[i], name@),
        decreases names.len() - at,
    {
        at += 1;
    }
    if at < names.len() && same_text(names[at].as_str(), name) {
        assert(held[at as int] == name@);
        assert(held.contains(name@));
        return;
    }
    names.insert(at, name.to_owned());
    proof {
        let now = names_view(names@);
        assert(now =~= held.insert(at as int, name@));
        assert forall|i: int, j: int| 0 <= i < j < now.len() implies before(
            #[trigger] now[i],
            #[trigger] now[j],
        ) by {
            if i == at {
                texts_are_ordered(held[at as int], name@);
                if j > at + 1 {
                    assert(now[j] == held[j - 1]);
                    order_carries_on(name@, held[at as int], held[j - 1]);
                }
            } else if j == at {
                assert(now[i] == held[i]);
            } else {
                let from = if i < at {
                    i
                } else {
                    i - 1
                };
                let to = if j < at {
                    j
                } else {
                    j - 1
                };
                assert(now[i] == held[from] && now[j] == held[to]);
            }
        }
        assert forall|other: Seq<char>| #[trigger]
            now.contains(other) == (held.contains(other) || other == name@) by {
            if held.contains(other) {
                let k = choose|k: int| 0 <= k < held.len() && held[k] == other;
                assert(now[if k < at {
                    k
                } else {
                    k + 1
                }] == other);
            }
            if other == name@ {
                assert(now[at as int] == other);
            }
            if now.contains(other) {
                let k = choose|k: int| 0 <= k < now.len() && now[k] == other;
                if k < at {
                    assert(held[k] == other);
                } else if k > at {
                    assert(held[k - 1] == other);
                }
            }
        }
    }
}

/// An ascending list is known by what it holds: two that hold the same names
/// are the same list.
pub proof fn an_ascending_list_is_known_by_its_names(a: Seq<Seq<char>>, b: Seq<Seq<char>>)
    requires
        ascending(a),
        ascending(b),
        forall|name: Seq<char>| #[trigger] a.contains(name) == b.contains(name),
    ensures
        a == b,
    decreases a.len(),
{
    if a.len() == 0 {
        if b.len() > 0 {
            assert(b.contains(b[0]));
            assert(a.contains(b[0]));
        }
        assert(a =~= b);
    } else {
        assert(a.contains(a.last()));
        assert(b.contains(a.last()));
        assert(b.contains(b.last()));
        assert(a.contains(b.last()));
        let i = choose|i: int| 0 <= i < b.len() && b[i] == a.last();
        let j = choose|j: int| 0 <= j < a.len() && a[j] == b.last();
        assert(a.last() == b.last()) by {
            texts_are_ordered(a.last(), b.last());
            assert(i == b.len() - 1 || before(b[i], b[b.len() - 1]));
            assert(j == a.len() - 1 || before(a[j], a[a.len() - 1]));
        }
        let one = a.drop_last();
        let other = b.drop_last();
        assert forall|name: Seq<char>| #[trigger] one.contains(name) == other.contains(name) by {
            if one.contains(name) {
                let k = choose|k: int| 0 <= k < one.len() && one[k] == name;
                assert(a[k] == name);
                assert(a.contains(name));
                texts_are_ordered(name, a.last());
                let m = choose|m: int| 0 <= m < b.len() && b[m] == name;
                assert(before(a[k], a[a.len() - 1]));
                assert(m < b.len() - 1);
                assert(other[m] == name);
            }
            if other.contains(name) {
                let k = choose|k: int| 0 <= k < other.len() && other[k] == name;
                assert(b[k] == name);
                assert(b.contains(name));
                assert(a.contains(name));
                texts_are_ordered(name, b.last());
                let m = choose|m: int| 0 <= m < a.len() && a[m] == name;
                assert(before(b[k], b[b.len() - 1]));
                assert(m < a.len() - 1);
                assert(one[m] == name);
            }
        }
        an_ascending_list_is_known_by_its_names(one, other);
        assert(a =~= one.push(a.last()));
        assert(b =~= other.push(b.last()));
    }
}

/// The names one after the other, with something between each two.
pub open spec fn joined(names: Seq<Seq<char>>, between: Seq<char>) -> Seq<char>
    decreases names.len(),
{
    if names.len() == 0 {
        Seq::empty()
    } else if names.len() == 1 {
        names[0]
    } else {
        joined(names.drop_last(), between) + between + names.last()
    }
}

/// Writes the names, with something between each two.
pub fn push_joined(out: &mut String, names: &Vec<String>, between: &str)
    ensures
        final(out)@ == old(out)@ + joined(names_view(names@), between@),
{
    let ghost start = out@;
    let ghost all = names_view(names@);
    let mut i: usize = 0;
    assert(out@ =~= start + joined(all.take(0), between@));
    while i < names.len()
        invariant
            i <= names.len(),
            all == names_view(names@),
            out@ == start + joined(all.take(i as int), between@),
        decreases names.len() - i,
    {
        proof {
            assert(all.take(i + 1).drop_last() =~= all.take(i as int));
            assert(all.take(i + 1).last() == names[i as int]@);
        }
        if i > 0 {
            out.append(between);
        }
        out.append(names[i].as_str());
        assert(out@ =~= start + joined(all.take(i + 1), between@));
        i += 1;
    }
    assert(all.take(i as int) =~= all);
}

} // verus!
