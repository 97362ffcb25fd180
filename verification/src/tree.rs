//! Configuration documents as trees of named values.

use vstd::prelude::*;

use crate::ranked::an_ascending_list_is_known_by_its_names;
use crate::ranked::joined;
use crate::ranked::ascending;
use crate::ranked::put_in_order;
use crate::roll::names_view;
use crate::text::chars_of;
use crate::text::same_text;

verus! {

/// What a value of a document is. A value that is neither a text, a list nor a
/// table is known by how it is written out.
pub enum Tree {
    Text(Seq<char>),
    List(Seq<Tree>),
    Table(Map<Seq<char>, Tree>),
    Other(Seq<char>),
}

/// `toml::Value`.
#[verifier::external_type_specification]
#[verifier::external_body]
pub struct ExValue(toml::Value);

/// `toml::map::Map`, which `toml::Table` is an instance of.
#[verifier::external_type_specification]
#[verifier::external_body]
#[verifier::reject_recursive_types(K)]
#[verifier::reject_recursive_types(V)]
pub struct ExTable<K, V>(toml::map::Map<K, V>);

/// The tree that a value holds.
pub uninterp spec fn tree_of(value: toml::Value) -> Tree;

/// What a table holds under each of its keys.
pub uninterp spec fn contents(table: toml::Table) -> Map<Seq<char>, Tree>;

/// What reading a document gives: the entries of its outermost table, or what
/// is wrong with the text.
pub uninterp spec fn parsed_document(text: Seq<char>) -> Result<Map<Seq<char>, Tree>, Seq<char>>;

/// `toml::from_str`, asked for a `toml::Table`: what it gives depends on the
/// text alone, its error being taken by its `Display` form.
#[verifier::external_body]
pub(crate) fn parse_document(text: &str) -> (parsed: Result<toml::Table, String>)
    ensures
        match parsed {
            Ok(table) => parsed_document(text@) == Ok::<_, Seq<char>>(contents(table)),
            Err(fault) => parsed_document(text@) == Err::<Map<Seq<char>, Tree>, _>(fault@),
        },
{
    toml::from_str::<toml::Table>(text).map_err(|error| error.to_string())
}

/// A table's contents when it has none.
pub open spec fn no_entries() -> Map<Seq<char>, Tree> {
    Map::empty()
}

/// `toml::map::Map::new`: a table with nothing in it.
#[verifier::external_body]
pub(crate) fn empty_table() -> (table: toml::Table)
    ensures
        contents(table) == no_entries(),
{
    toml::Table::new()
}

/// `toml::map::Map::keys`: every key of the table once, in the order of the
/// texts, which is the order of the `BTreeMap` behind the table.
#[verifier::external_body]
pub(crate) fn keys_of(table: &toml::Table) -> (keys: Vec<String>)
    ensures
        ascending(names_view(keys@)),
        forall|key: Seq<char>| #[trigger]
            names_view(keys@).contains(key) == contents(*table).contains_key(key),
{
    table.keys().cloned().collect()
}

/// `toml::map::Map::get`: the value under a key, or `None` where there is none.
#[verifier::external_body]
pub(crate) fn value_at<'a>(table: &'a toml::Table, key: &str) -> (value: Option<&'a toml::Value>)
    ensures
        match value {
            Some(found) => contents(*table).contains_key(key@) && tree_of(*found)
                == contents(*table)[key@],
            None => !contents(*table).contains_key(key@),
        },
{
    table.get(key)
}

/// `toml::map::Map::remove`: takes a key and its value out of the table; where
/// the key is not there the table stays as it is.
#[verifier::external_body]
pub(crate) fn take_out(table: &mut toml::Table, key: &str) -> (value: Option<toml::Value>)
    ensures
        contents(*final(table)) == contents(*old(table)).remove(key@),
        match value {
            Some(taken) => contents(*old(table)).contains_key(key@) && tree_of(taken)
                == contents(*old(table))[key@],
            None => !contents(*old(table)).contains_key(key@),
        },
{
    table.remove(key)
}

/// `toml::map::Map::insert`: puts a value under a key, in place of the one that
/// is there.
#[verifier::external_body]
pub(crate) fn put_under(table: &mut toml::Table, key: String, value: toml::Value)
    ensures
        contents(*final(table)) == contents(*old(table)).insert(key@, tree_of(value)),
{
    table.insert(key, value);
}

/// `toml::Value::as_str`: the text, where the value is one.
#[verifier::external_body]
pub(crate) fn text_in<'a>(value: &'a toml::Value) -> (text: Option<&'a str>)
    ensures
        match text {
            Some(found) => tree_of(*value) == Tree::Text(found@),
            None => !(tree_of(*value) is Text),
        },
{
    value.as_str()
}

/// `toml::Value::as_table`: the table, where the value is one.
#[verifier::external_body]
pub(crate) fn table_in<'a>(value: &'a toml::Value) -> (table: Option<&'a toml::Table>)
    ensures
        match table {
            Some(found) => tree_of(*value) == Tree::Table(contents(*found)),
            None => !(tree_of(*value) is Table),
        },
{
    value.as_table()
}

/// What the values of a list are.
pub open spec fn trees_of(values: Seq<toml::Value>) -> Seq<Tree> {
    Seq::new(values.len(), |i: int| tree_of(values[i]))
}

/// `toml::Value::as_array`: the list, where the value is one.
#[verifier::external_body]
pub(crate) fn list_in<'a>(value: &'a toml::Value) -> (list: Option<&'a Vec<toml::Value>>)
    ensures
        match list {
            Some(found) => tree_of(*value) == Tree::List(trees_of(found@)),
            None => !(tree_of(*value) is List),
        },
{
    value.as_array()
}

/// The variant `toml::Value::Table`: a table as a value.
#[verifier::external_body]
pub(crate) fn table_value(table: toml::Table) -> (value: toml::Value)
    ensures
        tree_of(value) == Tree::Table(contents(table)),
{
    toml::Value::Table(table)
}

/// `toml::Value`'s `clone`: a value that holds the same.
#[verifier::external_body]
pub(crate) fn copy_value(value: &toml::Value) -> (copy: toml::Value)
    ensures
        tree_of(copy) == tree_of(*value),
{
    value.clone()
}

/// `toml::map::Map`'s `clone`: a table that holds the same.
#[verifier::external_body]
pub(crate) fn copy_table(table: &toml::Table) -> (copy: toml::Table)
    ensures
        contents(copy) == contents(*table),
{
    table.clone()
}

/// The keys of a table in their order.
pub open spec fn listed(table: Map<Seq<char>, Tree>) -> Seq<Seq<char>> {
    choose|keys: Seq<Seq<char>>| is_listing(keys, table)
}

/// Whether these are the keys of a table, each once, in their order.
pub open spec fn is_listing(keys: Seq<Seq<char>>, table: Map<Seq<char>, Tree>) -> bool {
    &&& ascending(keys)
    &&& forall|key: Seq<char>| #[trigger] keys.contains(key) == table.contains_key(key)
}

/// A table has one listing.
pub proof fn a_table_has_one_listing(keys: Seq<Seq<char>>, table: Map<Seq<char>, Tree>)
    requires
        is_listing(keys, table),
    ensures
        keys == listed(table),
{
    let other = listed(table);
    assert(is_listing(other, table));
    assert forall|key: Seq<char>| #[trigger] keys.contains(key) == other.contains(key) by {
        assert(keys.contains(key) == table.contains_key(key));
    }
    an_ascending_list_is_known_by_its_names(keys, other);
}

/// The keys of a table in their order.
pub(crate) fn listing(table: &toml::Table) -> (keys: Vec<String>)
    ensures
        names_view(keys@) == listed(contents(*table)),
        is_listing(names_view(keys@), contents(*table)),
        contents(*table).dom().finite(),
{
    let keys = keys_of(table);
    proof {
        let names = names_view(keys@);
        a_table_has_one_listing(names, contents(*table));
        assert(contents(*table).dom() =~= names.to_set()) by {
            assert forall|key: Seq<char>| contents(*table).dom().contains(key)
                == names.to_set().contains(key) by {
                assert(names.contains(key) == contents(*table).contains_key(key));
            }
        }
        vstd::seq_lib::seq_to_set_is_finite(names);
    }
    keys
}

/// The parts of a path, between its dots.
pub open spec fn parts_of(path: Seq<char>) -> Seq<Seq<char>>
    decreases path.len(),
{
    if path.len() == 0 {
        seq![Seq::<char>::empty()]
    } else {
        let before = parts_of(path.drop_last());
        if path.last() == '.' {
            before.push(Seq::<char>::empty())
        } else {
            before.drop_last().push(before.last().push(path.last()))
        }
    }
}

/// The parts of a path, between its dots.
pub fn split_path(path: &str) -> (parts: Vec<String>)
    ensures
        names_view(parts@) == parts_of(path@),
        parts.len() > 0,
{
    let chars = chars_of(path);
    let mut parts: Vec<String> = Vec::new();
    let mut part = String::new();
    let mut i: usize = 0;
    assert(names_view(parts@).push(part@) =~= parts_of(path@.take(0)));
    while i < chars.len()
        invariant
            chars@ == path@,
            i <= chars.len(),
            names_view(parts@).push(part@) == parts_of(path@.take(i as int)),
        decreases chars.len() - i,
    {
        let ghost held = names_view(parts@).push(part@);
        assert(path@.take(i + 1).drop_last() =~= path@.take(i as int));
        assert(held.drop_last() =~= names_view(parts@));
        if chars[i] == '.' {
            parts.push(part);
            part = String::new();
            assert(names_view(parts@) =~= held);
        } else {
            part.push(chars[i]);
        }
        i += 1;
    }
    let ghost held = names_view(parts@).push(part@);
    assert(path@.take(i as int) =~= path@);
    parts.push(part);
    assert(names_view(parts@) =~= held);
    parts
}

/// A table with the value at the end of a path of keys replaced, where the path
/// leads through tables to a key that is there.
pub open spec fn replaced(
    table: Map<Seq<char>, Tree>,
    parts: Seq<Seq<char>>,
    value: Tree,
) -> Option<Map<Seq<char>, Tree>>
    decreases parts.len(),
{
    if parts.len() == 0 || !table.contains_key(parts[0]) {
        None
    } else if parts.len() == 1 {
        Some(table.insert(parts[0], value))
    } else {
        match table[parts[0]] {
            Tree::Table(child) => match replaced(child, parts.drop_first(), value) {
                Some(changed) => Some(table.insert(parts[0], Tree::Table(changed))),
                None => None,
            },
            _ => None,
        }
    }
}

fn replace_from(
    table: &mut toml::Table,
    parts: &Vec<String>,
    from: usize,
    value: toml::Value,
) -> (done: bool)
    requires
        from < parts.len(),
    ensures
        match replaced(
            contents(*old(table)),
            names_view(parts@).skip(from as int),
            tree_of(value),
        ) {
            Some(changed) => done && contents(*final(table)) == changed,
            None => !done && contents(*final(table)) == contents(*old(table)),
        },
    decreases parts.len() - from,
{
    let ghost held = contents(*table);
    let ghost rest = names_view(parts@).skip(from as int);
    let key = parts[from].as_str();
    assert(rest[0] == key@);
    assert(rest.drop_first() =~= names_view(parts@).skip(from + 1));
    let there = match take_out(table, key) {
        Some(there) => there,
        None => {
            assert(held.remove(key@) =~= held);
            return false;
        },
    };
    if from + 1 == parts.len() {
        put_under(table, key.to_owned(), value);
        assert(contents(*table) =~= held.insert(key@, tree_of(value)));
        return true;
    }
    let mut child = match table_in(&there) {
        Some(child) => copy_table(child),
        None => {
            put_under(table, key.to_owned(), there);
            assert(contents(*table) =~= held);
            return false;
        },
    };
    let done = replace_from(&mut child, parts, from + 1, value);
    let ghost changed = contents(child);
    put_under(table, key.to_owned(), table_value(child));
    assert(contents(*table) =~= held.insert(key@, Tree::Table(changed)));
    assert(!done ==> contents(*table) =~= held);
    done
}

/// Replaces the value at a dotted path; where the path leads nowhere the table
/// stays as it is.
pub fn replace_dotted(table: &mut toml::Table, path: &str, value: toml::Value) -> (done: bool)
    ensures
        match replaced(contents(*old(table)), parts_of(path@), tree_of(value)) {
            Some(changed) => done && contents(*final(table)) == changed,
            None => !done && contents(*final(table)) == contents(*old(table)),
        },
{
    let parts = split_path(path);
    assert(names_view(parts@).skip(0) =~= names_view(parts@));
    replace_from(table, &parts, 0, value)
}

/// Whether a key steers how a table is made up, and is no knob of it.
pub open spec fn steers(key: Seq<char>) -> bool {
    key == "preset"@ || key == "override"@
}

/// The path of a key below a prefix.
pub open spec fn below(prefix: Seq<char>, key: Seq<char>) -> Seq<char> {
    if prefix.len() == 0 {
        key
    } else {
        prefix + seq!['.'] + key
    }
}

/// Whether a path, below a prefix, is that of a knob of a table: of a value
/// that is no table itself and is reached past no steering key.
pub open spec fn is_knob(
    table: Map<Seq<char>, Tree>,
    prefix: Seq<char>,
    path: Seq<char>,
) -> bool
    decreases table,
{
    exists|key: Seq<char>| #[trigger]
        table.dom().contains(key) && table.dom().finite() && !steers(key) && match table[key] {
            Tree::Table(child) => is_knob(child, below(prefix, key), path),
            _ => path == below(prefix, key),
        }
}

/// Adds the paths of a table's knobs to a list, in order.
pub(crate) fn flatten_knobs(prefix: &str, table: &toml::Table, paths: &mut Vec<String>)
    requires
        ascending(names_view(old(paths)@)),
    ensures
        ascending(names_view(final(paths)@)),
        forall|path: Seq<char>| #[trigger]
            names_view(final(paths)@).contains(path) == (names_view(old(paths)@).contains(path)
                || is_knob(contents(*table), prefix@, path)),
    decreases contents(*table),
{
    let ghost all = contents(*table);
    let ghost start = names_view(paths@);
    let keys = listing(table);
    let ghost names = names_view(keys@);
    let mut i: usize = 0;
    while i < keys.len()
        invariant
            i <= keys.len(),
            all == contents(*table),
            all.dom().finite(),
            names == names_view(keys@),
            is_listing(names, all),
            ascending(names_view(paths@)),
            forall|path: Seq<char>| #[trigger]
                names_view(paths@).contains(path) == (start.contains(path) || knob_among(
                    all,
                    prefix@,
                    path,
                    names.take(i as int),
                )),
        decreases keys.len() - i,
    {
        let ghost held = names_view(paths@);
        let key = keys[i].as_str();
        assert(names[i as int] == key@);
        assert(names.contains(key@));
        assert(all.contains_key(key@));
        if !same_text(key, "preset") && !same_text(key, "override") {
            let mut path = prefix.to_owned();
            if path.as_str().unicode_len() > 0 {
                path.push('.');
            }
            path.append(key);
            assert(path@ =~= below(prefix@, key@));
            if let Some(value) = value_at(table, key) {
                match table_in(value) {
                    Some(child) => {
                        assert(all[key@] == Tree::Table(contents(*child)));
                        assert(decreases_to!(all => all[key@]));
                        assert(decreases_to!(all[key@] => all[key@]->Table_0));
                        assert(decreases_to!(all => contents(*child)));
                        flatten_knobs(path.as_str(), child, paths);
                    },
                    None => {
                        put_in_order(paths, path.as_str());
                    },
                }
            }
        }
        proof {
            assert(names.take(i + 1) =~= names.take(i as int).push(key@));
            assert forall|path: Seq<char>| #[trigger]
                names_view(paths@).contains(path) == (start.contains(path) || knob_among(
                    all,
                    prefix@,
                    path,
                    names.take(i + 1),
                )) by {
                assert(held.contains(path) == (start.contains(path) || knob_among(
                    all,
                    prefix@,
                    path,
                    names.take(i as int),
                )));
                one_more_key(all, prefix@, path, names.take(i as int), key@);
            }
        }
        i += 1;
    }
    proof {
        assert(names.take(i as int) =~= names);
        assert forall|path: Seq<char>| #[trigger]
            names_view(paths@).contains(path) == (start.contains(path) || is_knob(
                all,
                prefix@,
                path,
            )) by {
            all_keys(all, prefix@, path, names);
        }
    }
}

/// Whether a path is that of the knob, or of one of the knobs, under a key.
spec fn knob_under(
    table: Map<Seq<char>, Tree>,
    prefix: Seq<char>,
    path: Seq<char>,
    key: Seq<char>,
) -> bool {
    !steers(key) && match table[key] {
        Tree::Table(child) => is_knob(child, below(prefix, key), path),
        _ => path == below(prefix, key),
    }
}

spec fn knob_among(
    table: Map<Seq<char>, Tree>,
    prefix: Seq<char>,
    path: Seq<char>,
    keys: Seq<Seq<char>>,
) -> bool {
    exists|i: int| 0 <= i < keys.len() && knob_under(table, prefix, path, #[trigger] keys[i])
}

proof fn one_more_key(
    table: Map<Seq<char>, Tree>,
    prefix: Seq<char>,
    path: Seq<char>,
    keys: Seq<Seq<char>>,
    key: Seq<char>,
)
    ensures
        knob_among(table, prefix, path, keys.push(key)) == (knob_among(table, prefix, path, keys)
            || knob_under(table, prefix, path, key)),
{
    let more = keys.push(key);
    if knob_among(table, prefix, path, keys) {
        let i = choose|i: int|
            0 <= i < keys.len() && knob_under(table, prefix, path, #[trigger] keys[i]);
        assert(more[i] == keys[i]);
    }
    if knob_under(table, prefix, path, key) {
        assert(more[keys.len() as int] == key);
    }
    if knob_among(table, prefix, path, more) {
        let i = choose|i: int|
            0 <= i < more.len() && knob_under(table, prefix, path, #[trigger] more[i]);
        if i < keys.len() {
            assert(more[i] == keys[i]);
        }
    }
}

proof fn all_keys(
    table: Map<Seq<char>, Tree>,
    prefix: Seq<char>,
    path: Seq<char>,
    keys: Seq<Seq<char>>,
)
    requires
        is_listing(keys, table),
        table.dom().finite(),
    ensures
        knob_among(table, prefix, path, keys) == is_knob(table, prefix, path),
{
    if knob_among(table, prefix, path, keys) {
        let i = choose|i: int|
            0 <= i < keys.len() && knob_under(table, prefix, path, #[trigger] keys[i]);
        assert(keys.contains(keys[i]));
        assert(table.dom().contains(keys[i]));
    }
    if is_knob(table, prefix, path) {
        let key = choose|key: Seq<char>| #[trigger]
            table.dom().contains(key) && table.dom().finite() && !steers(key) && match table[key] {
                Tree::Table(child) => is_knob(child, below(prefix, key), path),
                _ => path == below(prefix, key),
            };
        assert(table.contains_key(key));
        assert(keys.contains(key));
        let i = choose|i: int| 0 <= i < keys.len() && keys[i] == key;
        assert(knob_under(table, prefix, path, keys[i]));
    }
}

/// The table under a key, where there is one.
pub open spec fn table_at(table: Map<Seq<char>, Tree>, key: Seq<char>) -> Option<
    Map<Seq<char>, Tree>,
> {
    if table.contains_key(key) {
        match table[key] {
            Tree::Table(child) => Some(child),
            _ => None,
        }
    } else {
        None
    }
}

/// The table under a key, where there is one.
pub(crate) fn table_under<'a>(table: &'a toml::Table, key: &str) -> (child: Option<&'a toml::Table>)
    ensures
        match child {
            Some(found) => table_at(contents(*table), key@) == Some(contents(*found)),
            None => table_at(contents(*table), key@) is None,
        },
{
    match value_at(table, key) {
        Some(value) => table_in(value),
        None => None,
    }
}

/// Puts everything that one table holds into another, in place of what is there
/// under the same keys.
pub(crate) fn pour(into: &mut toml::Table, from: &toml::Table)
    ensures
        contents(*final(into)) == contents(*old(into)).union_prefer_right(contents(*from)),
{
    let ghost base = contents(*into);
    let ghost more = contents(*from);
    let keys = listing(from);
    let ghost names = names_view(keys@);
    let mut i: usize = 0;
    while i < keys.len()
        invariant
            i <= keys.len(),
            more == contents(*from),
            names == names_view(keys@),
            is_listing(names, more),
            forall|key: Seq<char>| #[trigger]
                contents(*into).contains_key(key) == (base.contains_key(key) || names.take(
                    i as int,
                ).contains(key)),
            forall|key: Seq<char>| #[trigger]
                contents(*into).contains_key(key) ==> contents(*into)[key] == (if names.take(
                    i as int,
                ).contains(key) {
                    more[key]
                } else {
                    base[key]
                }),
        decreases keys.len() - i,
    {
        let key = keys[i].as_str();
        let ghost held = contents(*into);
        assert(names[i as int] == key@);
        assert(names.contains(key@));
        assert(more.contains_key(key@));
        if let Some(value) = value_at(from, key) {
            put_under(into, key.to_owned(), copy_value(value));
        }
        proof {
            let was = names.take(i as int);
            let now = names.take(i + 1);
            assert(now =~= was.push(key@));
            assert forall|other: Seq<char>| #[trigger]
                now.contains(other) == (was.contains(other) || other == key@) by {
                if was.contains(other) {
                    let k = choose|k: int| 0 <= k < was.len() && was[k] == other;
                    assert(now[k] == other);
                }
                assert(now[i as int] == key@);
            }
            assert forall|other: Seq<char>| #[trigger]
                contents(*into).contains_key(other) == (base.contains_key(other) || now.contains(
                    other,
                )) by {
                assert(held.contains_key(other) == (base.contains_key(other) || was.contains(
                    other,
                )));
            }
            assert forall|other: Seq<char>| #[trigger]
                contents(*into).contains_key(other) implies contents(*into)[other] == (
            if now.contains(other) {
                more[other]
            } else {
                base[other]
            }) by {
                assert(held.contains_key(other) == (base.contains_key(other) || was.contains(
                    other,
                )));
            }
        }
        i += 1;
    }
    proof {
        assert(names.take(i as int) =~= names);
        assert forall|key: Seq<char>| #[trigger]
            contents(*into).contains_key(key) == base.union_prefer_right(more).contains_key(
                key,
            ) by {
            assert(names.contains(key) == more.contains_key(key));
        }
        assert forall|key: Seq<char>| #[trigger]
            contents(*into).contains_key(key) implies contents(*into)[key]
            == base.union_prefer_right(more)[key] by {
            assert(names.contains(key) == more.contains_key(key));
        }
        assert(contents(*into) =~= base.union_prefer_right(more));
    }
}

/// What stands at the end of a path of keys.
pub open spec fn found(table: Map<Seq<char>, Tree>, parts: Seq<Seq<char>>) -> Option<Tree>
    decreases parts.len(),
{
    if parts.len() == 0 {
        Some(Tree::Table(table))
    } else if !table.contains_key(parts[0]) {
        None
    } else if parts.len() == 1 {
        Some(table[parts[0]])
    } else {
        match table[parts[0]] {
            Tree::Table(child) => found(child, parts.drop_first()),
            _ => None,
        }
    }
}

/// A replaced value is what is read afterwards at its path, and at every path
/// that neither leads through it nor ends above it, what is read is what was
/// read before.
pub proof fn a_replacement_reaches_its_path_alone(
    table: Map<Seq<char>, Tree>,
    parts: Seq<Seq<char>>,
    value: Tree,
    other: Seq<Seq<char>>,
)
    requires
        replaced(table, parts, value) is Some,
    ensures
        found(replaced(table, parts, value)->0, parts) == Some(value),
        found(table, parts) is Some,
        !parts.is_prefix_of(other) && !other.is_prefix_of(parts) ==> found(
            replaced(table, parts, value)->0,
            other,
        ) == found(table, other),
    decreases parts.len(),
{
    let changed = replaced(table, parts, value)->0;
    if parts.len() > 1 {
        let child = table[parts[0]]->Table_0;
        let rest = parts.drop_first();
        if other.len() > 0 {
            a_replacement_reaches_its_path_alone(child, rest, value, other.drop_first());
        } else {
            a_replacement_reaches_its_path_alone(child, rest, value, other);
        }
    }
    if !parts.is_prefix_of(other) && !other.is_prefix_of(parts) {
        if other.len() == 0 {
            assert(other =~= parts.subrange(0, 0));
        } else if other[0] == parts[0] {
            if parts.len() == 1 {
                assert(parts =~= other.subrange(0, 1));
            } else if other.len() == 1 {
                assert(other =~= parts.subrange(0, 1));
            } else {
                let rest = parts.drop_first();
                let tail = other.drop_first();
                if rest.is_prefix_of(tail) {
                    assert(parts =~= other.subrange(0, parts.len() as int)) by {
                        assert forall|i: int| 0 <= i < parts.len() implies parts[i] == other[i] by {
                            if i > 0 {
                                assert(rest[i - 1] == tail[i - 1]);
                            }
                        }
                    }
                }
                if tail.is_prefix_of(rest) {
                    assert(other =~= parts.subrange(0, other.len() as int)) by {
                        assert forall|i: int| 0 <= i < other.len() implies other[i] == parts[i] by {
                            if i > 0 {
                                assert(rest[i - 1] == tail[i - 1]);
                            }
                        }
                    }
                }
            }
        }
    }
}

/// The parts of a path have no dot in them, and with a dot between each two they
/// make the path.
pub proof fn a_path_is_its_parts(path: Seq<char>)
    ensures
        parts_of(path).len() > 0,
        forall|i: int| 0 <= i < parts_of(path).len() ==> !(#[trigger] parts_of(path)[i]).contains('.'),
        joined(parts_of(path), seq!['.']) == path,
    decreases path.len(),
{
    let parts = parts_of(path);
    let dot = seq!['.'];
    if path.len() > 0 {
        let held = path.drop_last();
        let before = parts_of(held);
        a_path_is_its_parts(held);
        assert(held.push(path.last()) =~= path);
        if path.last() == '.' {
            assert(parts.drop_last() =~= before);
            assert(joined(parts, dot) =~= path);
        } else {
            let front = before.drop_last();
            assert(parts.drop_last() =~= front);
            assert forall|i: int| 0 <= i < parts.len() implies !(#[trigger] parts[i]).contains('.') by {
                if i < front.len() {
                    assert(parts[i] == before[i]);
                } else {
                    let last = before[before.len() - 1];
                    assert(!last.contains('.'));
                    assert forall|k: int| 0 <= k < parts[i].len() implies parts[i][k] != '.' by {
                        if k < last.len() {
                            assert(last.contains(last[k]));
                        }
                    }
                }
            }
            assert(joined(parts, dot) =~= path);
        }
    }
}

/// What stands at the end of a path can be replaced, and nothing else can.
pub proof fn what_is_there_can_be_replaced(
    table: Map<Seq<char>, Tree>,
    parts: Seq<Seq<char>>,
    value: Tree,
)
    requires
        parts.len() > 0,
    ensures
        replaced(table, parts, value) is Some == found(table, parts) is Some,
    decreases parts.len(),
{
    if parts.len() > 1 && table.contains_key(parts[0]) && table[parts[0]] is Table {
        what_is_there_can_be_replaced(table[parts[0]]->Table_0, parts.drop_first(), value);
    }
}

/// The path of keys below a prefix.
pub open spec fn path_below(prefix: Seq<char>, parts: Seq<Seq<char>>) -> Seq<char>
    decreases parts.len(),
{
    if parts.len() == 0 {
        prefix
    } else {
        path_below(below(prefix, parts[0]), parts.drop_first())
    }
}

/// A knob is what keys, none of them a steering one, lead to and is no table.
pub proof fn a_knob_is_reached_by_its_keys(
    table: Map<Seq<char>, Tree>,
    prefix: Seq<char>,
    path: Seq<char>,
) -> (parts: Seq<Seq<char>>)
    requires
        is_knob(table, prefix, path),
    ensures
        parts.len() > 0,
        found(table, parts) is Some && !(found(table, parts)->0 is Table),
        forall|i: int|
            0 <= i < parts.len() ==> #[trigger] parts[i] != "preset"@ && parts[i] != "override"@,
        path == path_below(prefix, parts),
    decreases table,
{
    let key = choose|key: Seq<char>| #[trigger]
        table.dom().contains(key) && table.dom().finite() && !steers(key) && match table[key] {
            Tree::Table(child) => is_knob(child, below(prefix, key), path),
            _ => path == below(prefix, key),
        };
    match table[key] {
        Tree::Table(child) => {
            let rest = a_knob_is_reached_by_its_keys(child, below(prefix, key), path);
            let parts = seq![key] + rest;
            assert(parts.drop_first() =~= rest);
            assert forall|i: int| 0 <= i < parts.len() implies #[trigger] parts[i] != "preset"@
                && parts[i] != "override"@ by {
                if i > 0 {
                    assert(parts[i] == rest[i - 1]);
                }
            }
            parts
        },
        _ => {
            let parts = seq![key];
            assert(parts.drop_first() =~= Seq::empty());
            assert(path_below(below(prefix, key), Seq::empty()) == below(prefix, key));
            parts
        },
    }
}

} // verus!
