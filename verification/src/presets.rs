//! The instrument presets that ship with the venue.

use vstd::prelude::*;

use crate::provenance::fault_of;
use crate::provenance::provenance_error;
use crate::provenance::provenance_error_view;
use crate::provenance::validate_provenance;
use crate::provenance::ProvenanceError;
use crate::provenance::field_name;
use crate::provenance::Cause;
use crate::provenance::ProvenanceFault;
use crate::ranked::joined;
use crate::ranked::push_joined;
use crate::roll::names_view;
use crate::text::quote;
use crate::text::quoted;
use crate::text::same_text;
use crate::text::to_upper;
use crate::text::upper;
use crate::tree::a_replacement_reaches_its_path_alone;
use crate::tree::contents;
use crate::tree::copy_table;
use crate::tree::copy_value;
use crate::tree::empty_table;
use crate::tree::found;
use crate::tree::is_knob;
use crate::tree::is_listing;
use crate::tree::listed;
use crate::tree::listing;
use crate::tree::no_entries;
use crate::tree::parse_document;
use crate::tree::parsed_document;
use crate::tree::parts_of;
use crate::tree::pour;
use crate::tree::put_under;
use crate::tree::replace_dotted;
use crate::tree::replaced;
use crate::tree::table_at;
use crate::tree::table_in;
use crate::tree::table_under;
use crate::tree::table_value;
use crate::tree::take_out;
use crate::tree::text_in;
use crate::tree::tree_of;
use crate::tree::value_at;
use crate::tree::Tree;

verus! {

/// The text of each shipped preset.
pub struct PresetShelf {
    pub mnq: String,
    pub mes: String,
    pub btcusdt: String,
    pub ethusdt: String,
    pub solusdt: String,
}

/// The preset that a name, in any ASCII case, stands for.
pub open spec fn shelved(shelf: PresetShelf, name: Seq<char>) -> Option<Seq<char>> {
    if upper(name) == "MNQ"@ {
        Some(shelf.mnq@)
    } else if upper(name) == "MES"@ {
        Some(shelf.mes@)
    } else if upper(name) == "BTCUSDT"@ {
        Some(shelf.btcusdt@)
    } else if upper(name) == "ETHUSDT"@ {
        Some(shelf.ethusdt@)
    } else if upper(name) == "SOLUSDT"@ {
        Some(shelf.solusdt@)
    } else {
        None
    }
}

fn preset_text<'a>(shelf: &'a PresetShelf, name: &str) -> (text: Option<&'a str>)
    ensures
        text is Some == shelved(*shelf, name@) is Some,
        text is Some ==> text->0@ == shelved(*shelf, name@)->0,
{
    let asked = to_upper(name);
    if same_text(asked.as_str(), "MNQ") {
        Some(shelf.mnq.as_str())
    } else if same_text(asked.as_str(), "MES") {
        Some(shelf.mes.as_str())
    } else if same_text(asked.as_str(), "BTCUSDT") {
        Some(shelf.btcusdt.as_str())
    } else if same_text(asked.as_str(), "ETHUSDT") {
        Some(shelf.ethusdt.as_str())
    } else if same_text(asked.as_str(), "SOLUSDT") {
        Some(shelf.solusdt.as_str())
    } else {
        None
    }
}

/// The document of the preset with this name, in any ASCII case.
pub fn preset_document<'a>(shelf: &'a PresetShelf, name: &str) -> (text: Option<&'a str>)
    ensures
        text is Some == shelved(*shelf, name@) is Some,
        text is Some ==> text->0@ == shelved(*shelf, name@)->0,
{
    preset_text(shelf, name)
}

/// How many presets there are. No more can stand above one of them, unless one
/// stands above itself.
pub const PRESETS: u8 = 5;

/// Why a preset, or an instrument's table that names one, is refused. Texts are
/// of type `S`, lists of them of type `L`.
#[derive(Debug)]
pub enum PresetError<S, L> {
    Unknown { name: S },
    Unreadable { fault: S },
    NoInstrument { name: S },
    NoProvenance { name: S },
    ParentIsNoText { name: S },
    Endless { name: S },
    Restated { name: S, key: S },
    NoSuchPath { path: S },
    Provenance { name: S, error: ProvenanceError<S, L> },
    Replaced { key: S },
    PresetIsNoText,
    OutsideOverride { key: S },
    InstrumentIsNoTable,
}

/// A preset's error with its texts by their characters.
pub open spec fn preset_error_view(error: PresetError<String, Vec<String>>) -> PresetError<
    Seq<char>,
    Seq<Seq<char>>,
> {
    match error {
        PresetError::Unknown { name } => PresetError::Unknown { name: name@ },
        PresetError::Unreadable { fault } => PresetError::Unreadable { fault: fault@ },
        PresetError::NoInstrument { name } => PresetError::NoInstrument { name: name@ },
        PresetError::NoProvenance { name } => PresetError::NoProvenance { name: name@ },
        PresetError::ParentIsNoText { name } => PresetError::ParentIsNoText { name: name@ },
        PresetError::Endless { name } => PresetError::Endless { name: name@ },
        PresetError::Restated { name, key } => PresetError::Restated { name: name@, key: key@ },
        PresetError::NoSuchPath { path } => PresetError::NoSuchPath { path: path@ },
        PresetError::Provenance { name, error } => PresetError::Provenance {
            name: name@,
            error: provenance_error_view(error),
        },
        PresetError::Replaced { key } => PresetError::Replaced { key: key@ },
        PresetError::PresetIsNoText => PresetError::PresetIsNoText,
        PresetError::OutsideOverride { key } => PresetError::OutsideOverride { key: key@ },
        PresetError::InstrumentIsNoTable => PresetError::InstrumentIsNoTable,
    }
}

/// The first of these keys that a table has.
pub open spec fn first_held(keys: Seq<Seq<char>>, table: Map<Seq<char>, Tree>) -> Option<
    Seq<char>,
>
    decreases keys.len(),
{
    if keys.len() == 0 {
        None
    } else if table.contains_key(keys[0]) {
        Some(keys[0])
    } else {
        first_held(keys.drop_first(), table)
    }
}

/// A table with the overrides under these paths applied, one after the other, or
/// the first path that leads nowhere.
pub open spec fn overridden(
    table: Map<Seq<char>, Tree>,
    overrides: Map<Seq<char>, Tree>,
    paths: Seq<Seq<char>>,
) -> Result<Map<Seq<char>, Tree>, Seq<char>>
    decreases paths.len(),
{
    if paths.len() == 0 {
        Ok(table)
    } else {
        match replaced(table, parts_of(paths[0]), overrides[paths[0]]) {
            Some(changed) => overridden(changed, overrides, paths.drop_first()),
            None => Err(paths[0]),
        }
    }
}

/// The overrides that a table states.
pub open spec fn overrides_of(table: Map<Seq<char>, Tree>) -> Map<Seq<char>, Tree> {
    match table_at(table, "override"@) {
        Some(overrides) => overrides,
        None => no_entries(),
    }
}

/// A preset made up from what it inherits and what it states itself.
pub open spec fn made_up(
    name: Seq<char>,
    inherited: (Map<Seq<char>, Tree>, Map<Seq<char>, Tree>),
    instrument: Map<Seq<char>, Tree>,
    provenance: Map<Seq<char>, Tree>,
) -> Result<
    (Map<Seq<char>, Tree>, Map<Seq<char>, Tree>),
    PresetError<Seq<char>, Seq<Seq<char>>>,
> {
    let own = instrument.remove("preset"@).remove("override"@);
    let overrides = overrides_of(instrument);
    match first_held(listed(own), inherited.0) {
        Some(key) => Err(PresetError::Restated { name, key }),
        None => match overridden(
            inherited.0.union_prefer_right(own),
            overrides,
            listed(overrides),
        ) {
            Err(path) => Err(PresetError::NoSuchPath { path }),
            Ok(merged) => {
                let origins = inherited.1.union_prefer_right(provenance);
                match provenance_error(merged, origins) {
                    Some(error) => Err(PresetError::Provenance { name, error }),
                    None => Ok((merged, origins)),
                }
            },
        },
    }
}

/// The instrument and the provenance that a preset comes to, with at most so
/// many presets above it.
pub open spec fn effective(shelf: PresetShelf, name: Seq<char>, most: nat) -> Result<
    (Map<Seq<char>, Tree>, Map<Seq<char>, Tree>),
    PresetError<Seq<char>, Seq<Seq<char>>>,
>
    decreases most,
{
    match shelved(shelf, name) {
        None => Err(PresetError::Unknown { name }),
        Some(text) => if most == 0 {
            Err(PresetError::Endless { name })
        } else {
            match parsed_document(text) {
                Err(fault) => Err(PresetError::Unreadable { fault }),
                Ok(raw) => match (table_at(raw, "instrument"@), table_at(raw, "provenance"@)) {
                    (None, _) => Err(PresetError::NoInstrument { name }),
                    (_, None) => Err(PresetError::NoProvenance { name }),
                    (Some(instrument), Some(provenance)) => if instrument.contains_key(
                        "preset"@,
                    ) {
                        match instrument["preset"@] {
                            Tree::Text(parent) => match effective(
                                shelf,
                                parent,
                                (most - 1) as nat,
                            ) {
                                Err(error) => Err(error),
                                Ok(inherited) => made_up(name, inherited, instrument, provenance),
                            },
                            _ => Err(PresetError::ParentIsNoText { name }),
                        }
                    } else {
                        made_up(name, (no_entries(), no_entries()), instrument, provenance)
                    },
                },
            }
        },
    }
}

/// The parent that a preset's document names.
pub open spec fn parent_of(shelf: PresetShelf, name: Seq<char>) -> Option<Seq<char>> {
    match shelved(shelf, name) {
        None => None,
        Some(text) => match parsed_document(text) {
            Err(_) => None,
            Ok(raw) => match table_at(raw, "instrument"@) {
                Some(instrument) => if instrument.contains_key("preset"@) {
                    match instrument["preset"@] {
                        Tree::Text(parent) => Some(parent),
                        _ => None,
                    }
                } else {
                    None
                },
                None => None,
            },
        },
    }
}

/// The preset so many steps above another.
pub open spec fn ancestor(shelf: PresetShelf, name: Seq<char>, steps: nat) -> Option<Seq<char>>
    decreases steps,
{
    if steps == 0 {
        Some(name)
    } else {
        match parent_of(shelf, name) {
            Some(parent) => ancestor(shelf, parent, (steps - 1) as nat),
            None => None,
        }
    }
}

proof fn endless_goes_on(shelf: PresetShelf, name: Seq<char>, most: nat, steps: nat)
    requires
        effective(shelf, name, most) is Err,
        effective(shelf, name, most)->Err_0 is Endless,
        steps <= most,
    ensures
        ancestor(shelf, name, steps) is Some,
        shelved(shelf, ancestor(shelf, name, steps)->0) is Some,
    decreases steps,
{
    if steps > 0 {
        let parent = parent_of(shelf, name)->0;
        assert(parent_of(shelf, name) is Some);
        endless_goes_on(shelf, parent, (most - 1) as nat, (steps - 1) as nat);
    }
}

/// A preset is refused for inheriting without end only where one of its
/// ancestors is its own ancestor.
pub proof fn only_a_circle_is_endless(shelf: PresetShelf, name: Seq<char>)
    requires
        effective(shelf, name, PRESETS as nat) is Err,
        effective(shelf, name, PRESETS as nat)->Err_0 is Endless,
    ensures
        exists|i: nat, j: nat|
            i < j <= PRESETS && (#[trigger] ancestor(shelf, name, i)) is Some && (
            #[trigger] ancestor(shelf, name, j)) is Some && upper(ancestor(shelf, name, i)->0)
                == upper(ancestor(shelf, name, j)->0),
{
    endless_goes_on(shelf, name, PRESETS as nat, 0);
    endless_goes_on(shelf, name, PRESETS as nat, 1);
    endless_goes_on(shelf, name, PRESETS as nat, 2);
    endless_goes_on(shelf, name, PRESETS as nat, 3);
    endless_goes_on(shelf, name, PRESETS as nat, 4);
    endless_goes_on(shelf, name, PRESETS as nat, 5);
}

/// Finds the first of some keys that a table has.
fn find_held<'a>(keys: &'a Vec<String>, table: &toml::Table) -> (found: Option<&'a str>)
    ensures
        match found {
            Some(key) => first_held(names_view(keys@), contents(*table)) == Some(key@),
            None => first_held(names_view(keys@), contents(*table)) is None,
        },
{
    let ghost all = names_view(keys@);
    let mut i: usize = 0;
    assert(all.skip(0) =~= all);
    while i < keys.len()
        invariant
            i <= keys.len(),
            all == names_view(keys@),
            first_held(all, contents(*table)) == first_held(all.skip(i as int), contents(*table)),
        decreases keys.len() - i,
    {
        let key = keys[i].as_str();
        assert(all.skip(i as int)[0] == key@);
        assert(all.skip(i as int).drop_first() =~= all.skip(i + 1));
        if value_at(table, key).is_some() {
            return Some(key);
        }
        i += 1;
    }
    None
}

/// Applies overrides to a table, in the order of their paths. The path that
/// leads nowhere is handed back.
fn apply_overrides(table: &mut toml::Table, overrides: &toml::Table) -> (applied: Result<
    (),
    String,
>)
    ensures
        match overridden(
            contents(*old(table)),
            contents(*overrides),
            listed(contents(*overrides)),
        ) {
            Ok(changed) => applied is Ok && contents(*final(table)) == changed,
            Err(path) => applied is Err && applied->Err_0@ == path,
        },
{
    let ghost start = contents(*table);
    let ghost changes = contents(*overrides);
    let paths = listing(overrides);
    let ghost all = names_view(paths@);
    let mut i: usize = 0;
    assert(all.skip(0) =~= all);
    while i < paths.len()
        invariant
            i <= paths.len(),
            start == contents(*old(table)),
            changes == contents(*overrides),
            all == names_view(paths@),
            all == listed(changes),
            is_listing(all, changes),
            overridden(start, changes, all) == overridden(
                contents(*table),
                changes,
                all.skip(i as int),
            ),
        decreases paths.len() - i,
    {
        let path = paths[i].as_str();
        assert(all[i as int] == path@);
        assert(all.contains(path@));
        assert(changes.contains_key(path@));
        assert(all.skip(i as int)[0] == path@);
        assert(all.skip(i as int).drop_first() =~= all.skip(i + 1));
        if let Some(value) = value_at(overrides, path) {
            if !replace_dotted(table, path, copy_value(value)) {
                return Err(path.to_owned());
            }
        }
        i += 1;
    }
    Ok(())
}

/// Takes the overrides out of an instrument's table.
fn take_overrides(instrument: &mut toml::Table) -> (overrides: toml::Table)
    ensures
        contents(overrides) == overrides_of(contents(*old(instrument))),
        contents(*final(instrument)) == contents(*old(instrument)).remove("override"@),
{
    match take_out(instrument, "override") {
        Some(value) => match table_in(&value) {
            Some(overrides) => copy_table(overrides),
            None => empty_table(),
        },
        None => empty_table(),
    }
}

fn make_up(
    name: &str,
    inherited: (toml::Table, toml::Table),
    instrument: toml::Table,
    provenance: &toml::Table,
    Ghost(stated): Ghost<Map<Seq<char>, Tree>>,
) -> (made: Result<(toml::Table, toml::Table), PresetError<String, Vec<String>>>)
    requires
        contents(instrument) == stated.remove("preset"@),
    ensures
        match made {
            Ok((merged, origins)) => made_up(
                name@,
                (contents(inherited.0), contents(inherited.1)),
                stated,
                contents(*provenance),
            ) == Ok::<_, PresetError<Seq<char>, Seq<Seq<char>>>>(
                (contents(merged), contents(origins)),
            ),
            Err(error) => made_up(
                name@,
                (contents(inherited.0), contents(inherited.1)),
                stated,
                contents(*provenance),
            ) == Err::<(Map<Seq<char>, Tree>, Map<Seq<char>, Tree>), _>(preset_error_view(error)),
        },
        made is Ok ==> forall|path: Seq<char>| #[trigger]
            is_knob(contents((made->Ok_0).0), Seq::empty(), path) == contents(
                (made->Ok_0).1,
            ).contains_key(path),
        made is Ok ==> forall|path: Seq<char>| #[trigger]
            contents((made->Ok_0).1).contains_key(path) ==> fault_of(
                contents((made->Ok_0).0),
                contents((made->Ok_0).1)[path],
            ) is None,
{
    proof {
        reveal_strlit("preset");
        reveal_strlit("override");
        assert("preset"@ != "override"@) by {
            assert("preset"@.len() != "override"@.len());
        }
        assert(overrides_of(stated.remove("preset"@)) == overrides_of(stated));
    }
    let (mut merged, mut origins) = inherited;
    let mut own = instrument;
    let overrides = take_overrides(&mut own);
    let keys = listing(&own);
    if let Some(key) = find_held(&keys, &merged) {
        return Err(PresetError::Restated { name: name.to_owned(), key: key.to_owned() });
    }
    pour(&mut merged, &own);
    match apply_overrides(&mut merged, &overrides) {
        Ok(()) => {},
        Err(path) => return Err(PresetError::NoSuchPath { path }),
    }
    pour(&mut origins, provenance);
    match validate_provenance(&merged, &origins) {
        Ok(()) => Ok((merged, origins)),
        Err(error) => Err(PresetError::Provenance { name: name.to_owned(), error }),
    }
}

fn effective_within(shelf: &PresetShelf, name: &str, most: u8) -> (made: Result<
    (toml::Table, toml::Table),
    PresetError<String, Vec<String>>,
>)
    ensures
        match made {
            Ok((merged, origins)) => effective(*shelf, name@, most as nat) == Ok::<
                _,
                PresetError<Seq<char>, Seq<Seq<char>>>,
            >((contents(merged), contents(origins))),
            Err(error) => effective(*shelf, name@, most as nat) == Err::<
                (Map<Seq<char>, Tree>, Map<Seq<char>, Tree>),
                _,
            >(preset_error_view(error)),
        },
        made is Ok ==> forall|path: Seq<char>| #[trigger]
            is_knob(contents((made->Ok_0).0), Seq::empty(), path) == contents(
                (made->Ok_0).1,
            ).contains_key(path),
        made is Ok ==> forall|path: Seq<char>| #[trigger]
            contents((made->Ok_0).1).contains_key(path) ==> fault_of(
                contents((made->Ok_0).0),
                contents((made->Ok_0).1)[path],
            ) is None,
    decreases most,
{
    let text = match preset_text(shelf, name) {
        Some(text) => text,
        None => return Err(PresetError::Unknown { name: name.to_owned() }),
    };
    if most == 0 {
        return Err(PresetError::Endless { name: name.to_owned() });
    }
    let raw = match parse_document(text) {
        Ok(raw) => raw,
        Err(fault) => return Err(PresetError::Unreadable { fault }),
    };
    let mut instrument = match table_under(&raw, "instrument") {
        Some(instrument) => copy_table(instrument),
        None => return Err(PresetError::NoInstrument { name: name.to_owned() }),
    };
    let provenance = match table_under(&raw, "provenance") {
        Some(provenance) => provenance,
        None => return Err(PresetError::NoProvenance { name: name.to_owned() }),
    };
    let ghost stated = contents(instrument);
    let inherited = match take_out(&mut instrument, "preset") {
        Some(parent) => match text_in(&parent) {
            Some(parent) => match effective_within(shelf, parent, most - 1) {
                Ok(inherited) => inherited,
                Err(error) => return Err(error),
            },
            None => return Err(PresetError::ParentIsNoText { name: name.to_owned() }),
        },
        None => (empty_table(), empty_table()),
    };
    make_up(name, inherited, instrument, provenance, Ghost(stated))
}

/// The instrument and the provenance that a preset comes to: what its parent
/// comes to, with its own keys added and its overrides applied. Each knob of the
/// instrument has a sound provenance, and nothing else has one.
pub fn effective_preset(shelf: &PresetShelf, name: &str) -> (made: Result<
    (toml::Table, toml::Table),
    PresetError<String, Vec<String>>,
>)
    ensures
        match made {
            Ok((merged, origins)) => effective(*shelf, name@, PRESETS as nat) == Ok::<
                _,
                PresetError<Seq<char>, Seq<Seq<char>>>,
            >((contents(merged), contents(origins))),
            Err(error) => effective(*shelf, name@, PRESETS as nat) == Err::<
                (Map<Seq<char>, Tree>, Map<Seq<char>, Tree>),
                _,
            >(preset_error_view(error)),
        },
        made is Ok ==> forall|path: Seq<char>| #[trigger]
            is_knob(contents((made->Ok_0).0), Seq::empty(), path) == contents(
                (made->Ok_0).1,
            ).contains_key(path),
        made is Ok ==> forall|path: Seq<char>| #[trigger]
            contents((made->Ok_0).1).contains_key(path) ==> fault_of(
                contents((made->Ok_0).0),
                contents((made->Ok_0).1)[path],
            ) is None,
{
    effective_within(shelf, name, PRESETS)
}

/// Whether an override adds the arrival of a generator that has none.
pub open spec fn adds_arrival(table: Map<Seq<char>, Tree>, path: Seq<char>) -> bool {
    path == "generator.arrival"@ && match table_at(table, "generator"@) {
        Some(generator) => !generator.contains_key("arrival"@),
        None => false,
    }
}

/// A table with one override of the operator's applied.
pub open spec fn operated(
    table: Map<Seq<char>, Tree>,
    path: Seq<char>,
    value: Tree,
) -> Option<Map<Seq<char>, Tree>> {
    if adds_arrival(table, path) {
        Some(
            table.insert(
                "generator"@,
                Tree::Table(table_at(table, "generator"@)->0.insert("arrival"@, value)),
            ),
        )
    } else {
        replaced(table, parts_of(path), value)
    }
}

/// A table with the operator's overrides under these paths applied.
pub open spec fn operated_all(
    table: Map<Seq<char>, Tree>,
    overrides: Map<Seq<char>, Tree>,
    paths: Seq<Seq<char>>,
) -> Result<Map<Seq<char>, Tree>, Seq<char>>
    decreases paths.len(),
{
    if paths.len() == 0 {
        Ok(table)
    } else {
        match operated(table, paths[0], overrides[paths[0]]) {
            Some(changed) => operated_all(changed, overrides, paths.drop_first()),
            None => Err(paths[0]),
        }
    }
}

/// A table, or the refusal of the path that leads nowhere.
pub open spec fn path_refused(changed: Result<Map<Seq<char>, Tree>, Seq<char>>) -> Result<
    Map<Seq<char>, Tree>,
    PresetError<Seq<char>, Seq<Seq<char>>>,
> {
    match changed {
        Ok(table) => Ok(table),
        Err(path) => Err(PresetError::NoSuchPath { path }),
    }
}

/// What an instrument's table comes to.
pub open spec fn resolved(shelf: PresetShelf, operator: Map<Seq<char>, Tree>) -> Result<
    Map<Seq<char>, Tree>,
    PresetError<Seq<char>, Seq<Seq<char>>>,
> {
    let rest = operator.remove("preset"@).remove("override"@);
    let overrides = overrides_of(operator);
    if operator.contains_key("base"@) {
        Err(PresetError::Replaced { key: "base"@ })
    } else if operator.contains_key("quote"@) {
        Err(PresetError::Replaced { key: "quote"@ })
    } else if !operator.contains_key("preset"@) {
        Ok(operator)
    } else {
        match operator["preset"@] {
            Tree::Text(name) => match effective(shelf, name, PRESETS as nat) {
                Err(error) => Err(error),
                Ok((merged, _)) => if listed(rest).len() > 0 {
                    Err(PresetError::OutsideOverride { key: listed(rest)[0] })
                } else {
                    path_refused(operated_all(merged, overrides, listed(overrides)))
                },
            },
            _ => Err(PresetError::PresetIsNoText),
        }
    }
}

/// Applies one override of the operator's. The arrival of a generator is the one
/// key that an override may add.
fn operate(table: &mut toml::Table, path: &str, value: toml::Value) -> (done: bool)
    ensures
        match operated(contents(*old(table)), path@, tree_of(value)) {
            Some(changed) => done && contents(*final(table)) == changed,
            None => !done && contents(*final(table)) == contents(*old(table)),
        },
{
    let ghost held = contents(*table);
    if same_text(path, "generator.arrival") {
        let without = match table_under(table, "generator") {
            Some(generator) => if value_at(generator, "arrival").is_none() {
                Some(copy_table(generator))
            } else {
                None
            },
            None => None,
        };
        if let Some(generator) = without {
            let mut changed = generator;
            put_under(&mut changed, "arrival".to_owned(), value);
            put_under(table, "generator".to_owned(), table_value(changed));
            return true;
        }
    }
    replace_dotted(table, path, value)
}

/// What the operator overrides is what is read at its path afterwards, and what
/// is read at every path that neither leads through it nor ends above it is what
/// was read before.
pub proof fn an_override_reaches_its_path_alone(
    table: Map<Seq<char>, Tree>,
    path: Seq<char>,
    value: Tree,
    other: Seq<Seq<char>>,
)
    requires
        operated(table, path, value) is Some,
    ensures
        found(operated(table, path, value)->0, parts_of(path)) == Some(value),
        !parts_of(path).is_prefix_of(other) && !other.is_prefix_of(parts_of(path)) ==> found(
            operated(table, path, value)->0,
            other,
        ) == found(table, other),
{
    let parts = parts_of(path);
    if adds_arrival(table, path) {
        arrival_parts();
        let generator = table_at(table, "generator"@)->0;
        let changed = operated(table, path, value)->0;
        assert(parts.drop_first() =~= seq!["arrival"@]);
        assert(found(generator.insert("arrival"@, value), parts.drop_first()) == Some(value));
        if !parts.is_prefix_of(other) && !other.is_prefix_of(parts) {
            if other.len() == 0 {
                assert(other =~= parts.subrange(0, 0));
            } else if other[0] == parts[0] {
                if other.len() == 1 {
                    assert(other =~= parts.subrange(0, 1));
                } else if other[1] == parts[1] {
                    assert(parts =~= other.subrange(0, 2));
                } else {
                    let tail = other.drop_first();
                    assert(tail[0] == other[1]);
                    assert(found(generator.insert("arrival"@, value), tail) == found(
                        generator,
                        tail,
                    ));
                }
            }
        }
    } else {
        a_replacement_reaches_its_path_alone(table, parts, value, other);
    }
}

proof fn arrival_parts()
    ensures
        parts_of("generator.arrival"@) == seq!["generator"@, "arrival"@],
{
    reveal_strlit("generator.arrival");
    reveal_strlit("generator");
    reveal_strlit("arrival");
    let path = "generator.arrival"@;
    parts_of_a_name("generator"@);
    let head = "generator"@.push('.');
    assert(head.drop_last() =~= "generator"@);
    assert(parts_of(head) =~= seq!["generator"@, Seq::<char>::empty()]);
    parts_go_on(head, "arrival"@);
    assert(head + "arrival"@ =~= path);
    assert(Seq::<char>::empty() + "arrival"@ =~= "arrival"@);
    assert(parts_of(path) =~= seq!["generator"@, "arrival"@]);
}

/// A name without a dot is its only part.
proof fn parts_of_a_name(name: Seq<char>)
    requires
        !name.contains('.'),
    ensures
        parts_of(name) == seq![name],
{
    parts_go_on(Seq::empty(), name);
    assert(Seq::<char>::empty() + name =~= name);
    assert(parts_of(name) =~= seq![name]);
}

/// What has no dot lengthens the last part.
proof fn parts_go_on(head: Seq<char>, name: Seq<char>)
    requires
        !name.contains('.'),
    ensures
        parts_of(head + name) == parts_of(head).drop_last().push(parts_of(head).last() + name),
        parts_of(head).len() > 0,
    decreases head.len() + name.len(),
{
    parts_are_some(head);
    if name.len() == 0 {
        assert(head + name =~= head);
        assert(parts_of(head).last() + name =~= parts_of(head).last());
        assert(parts_of(head) =~= parts_of(head).drop_last().push(parts_of(head).last() + name));
    } else {
        let short = name.drop_last();
        assert(!short.contains('.')) by {
            if short.contains('.') {
                let k = choose|k: int| 0 <= k < short.len() && short[k] == '.';
                assert(name[k] == '.');
            }
        }
        parts_go_on(head, short);
        assert((head + name).drop_last() =~= head + short);
        assert(name[name.len() - 1] != '.');
        let before = parts_of(head + short);
        assert(before.drop_last() =~= parts_of(head).drop_last());
        assert(before.last().push(name.last()) =~= parts_of(head).last() + name);
    }
}

proof fn parts_are_some(path: Seq<char>)
    ensures
        parts_of(path).len() > 0,
    decreases path.len(),
{
    if path.len() > 0 {
        parts_are_some(path.drop_last());
    }
}

/// What an instrument's table comes to: the preset that it names, with the
/// overrides that it states, or the table itself where it names none.
pub fn resolve_instrument_table(shelf: &PresetShelf, operator: toml::Table) -> (made: Result<
    toml::Table,
    PresetError<String, Vec<String>>,
>)
    ensures
        match made {
            Ok(table) => resolved(*shelf, contents(operator)) == Ok::<
                _,
                PresetError<Seq<char>, Seq<Seq<char>>>,
            >(contents(table)),
            Err(error) => resolved(*shelf, contents(operator)) == Err::<Map<Seq<char>, Tree>, _>(
                preset_error_view(error),
            ),
        },
{
    let ghost stated = contents(operator);
    let mut rest = operator;
    if value_at(&rest, "base").is_some() {
        return Err(PresetError::Replaced { key: "base".to_owned() });
    }
    if value_at(&rest, "quote").is_some() {
        return Err(PresetError::Replaced { key: "quote".to_owned() });
    }
    let preset = match take_out(&mut rest, "preset") {
        Some(preset) => preset,
        None => {
            assert(contents(rest) =~= stated);
            return Ok(rest);
        },
    };
    let name = match text_in(&preset) {
        Some(name) => name,
        None => return Err(PresetError::PresetIsNoText),
    };
    let (mut merged, _) = match effective_preset(shelf, name) {
        Ok(made) => made,
        Err(error) => return Err(error),
    };
    proof {
        reveal_strlit("preset");
        reveal_strlit("override");
        assert("preset"@.len() != "override"@.len());
        assert(overrides_of(stated.remove("preset"@)) == overrides_of(stated));
    }
    let overrides = take_overrides(&mut rest);
    let left = listing(&rest);
    if left.len() > 0 {
        assert(names_view(left@)[0] == left[0]@);
        return Err(PresetError::OutsideOverride { key: left[0].as_str().to_owned() });
    }
    let ghost start = contents(merged);
    let ghost changes = contents(overrides);
    let paths = listing(&overrides);
    let ghost all = names_view(paths@);
    let mut i: usize = 0;
    assert(all.skip(0) =~= all);
    while i < paths.len()
        invariant
            i <= paths.len(),
            stated == contents(operator),
            changes == contents(overrides),
            changes == overrides_of(stated),
            all == names_view(paths@),
            all == listed(changes),
            is_listing(all, changes),
            operated_all(start, changes, all) == operated_all(
                contents(merged),
                changes,
                all.skip(i as int),
            ),
            resolved(*shelf, stated) == path_refused(operated_all(start, changes, all)),
        decreases paths.len() - i,
    {
        let path = paths[i].as_str();
        assert(all[i as int] == path@);
        assert(all.contains(path@));
        assert(changes.contains_key(path@));
        assert(all.skip(i as int)[0] == path@);
        assert(all.skip(i as int).drop_first() =~= all.skip(i + 1));
        if let Some(value) = value_at(&overrides, path) {
            if !operate(&mut merged, path, copy_value(value)) {
                return Err(PresetError::NoSuchPath { path: path.to_owned() });
            }
        }
        i += 1;
    }
    Ok(merged)
}

/// What a configuration's document comes to: with its instrument's table, where
/// it has one, resolved.
pub open spec fn resolved_document(shelf: PresetShelf, text: Seq<char>) -> Result<
    Map<Seq<char>, Tree>,
    PresetError<Seq<char>, Seq<Seq<char>>>,
> {
    match parsed_document(text) {
        Err(fault) => Err(PresetError::Unreadable { fault }),
        Ok(raw) => match table_at(raw, "instrument"@) {
            None => if raw.contains_key("instrument"@) {
                Err(PresetError::InstrumentIsNoTable)
            } else {
                Ok(raw)
            },
            Some(operator) => match resolved(shelf, operator) {
                Ok(table) => Ok(raw.insert("instrument"@, Tree::Table(table))),
                Err(error) => Err(error),
            },
        },
    }
}

/// Reads a configuration's document and resolves its instrument's table.
pub fn resolve_document(shelf: &PresetShelf, text: &str) -> (made: Result<
    toml::Table,
    PresetError<String, Vec<String>>,
>)
    ensures
        match made {
            Ok(table) => resolved_document(*shelf, text@) == Ok::<
                _,
                PresetError<Seq<char>, Seq<Seq<char>>>,
            >(contents(table)),
            Err(error) => resolved_document(*shelf, text@) == Err::<Map<Seq<char>, Tree>, _>(
                preset_error_view(error),
            ),
        },
{
    let mut raw = match parse_document(text) {
        Ok(raw) => raw,
        Err(fault) => return Err(PresetError::Unreadable { fault }),
    };
    let operator = match table_under(&raw, "instrument") {
        Some(operator) => copy_table(operator),
        None => if value_at(&raw, "instrument").is_some() {
            return Err(PresetError::InstrumentIsNoTable);
        } else {
            return Ok(raw);
        },
    };
    match resolve_instrument_table(shelf, operator) {
        Ok(table) => {
            put_under(&mut raw, "instrument".to_owned(), table_value(table));
            Ok(raw)
        },
        Err(error) => Err(error),
    }
}

/// A list of texts as `Debug` shows it.
pub open spec fn shown_list(names: Seq<Seq<char>>) -> Seq<char> {
    "["@ + joined(Seq::new(names.len(), |i: int| quoted(names[i])), ", "@) + "]"@
}

fn push_list(out: &mut String, names: &Vec<String>)
    ensures
        final(out)@ == old(out)@ + shown_list(names_view(names@)),
{
    let mut shown: Vec<String> = Vec::new();
    let mut i: usize = 0;
    while i < names.len()
        invariant
            i <= names.len(),
            shown.len() == i,
            forall|k: int| 0 <= k < i ==> (#[trigger] shown[k])@ == quoted(names[k]@),
        decreases names.len() - i,
    {
        shown.push(quote(names[i].as_str()));
        i += 1;
    }
    assert(names_view(shown@) =~= Seq::new(
        names_view(names@).len(),
        |i: int| quoted(names_view(names@)[i]),
    ));
    out.append("[");
    push_joined(out, &shown, ", ");
    out.append("]");
    assert(out@ =~= old(out)@ + shown_list(names_view(names@)));
}

/// What is said of the cause for which an entry states no provenance.
pub open spec fn cause_text(cause: Cause) -> Seq<char> {
    match cause {
        Cause::NoParts => "expected a table"@,
        Cause::UnknownKind =>
            "unknown variant, expected one of `fitted`, `derived`, `declared`"@,
        Cause::Unexpected => "unknown field"@,
        Cause::Missing { field } => "missing field `"@ + field_name(field) + "`"@,
        Cause::Mistyped { field } => "invalid type of field `"@ + field_name(field) + "`"@,
    }
}

fn push_cause(out: &mut String, cause: Cause)
    ensures
        final(out)@ == old(out)@ + cause_text(cause),
{
    match cause {
        Cause::NoParts => {
            out.append("expected a table");
        },
        Cause::UnknownKind => {
            out.append("unknown variant, expected one of `fitted`, `derived`, `declared`");
        },
        Cause::Unexpected => {
            out.append("unknown field");
        },
        Cause::Missing { field } => {
            out.append("missing field `");
            out.append(field.name());
            out.append("`");
        },
        Cause::Mistyped { field } => {
            out.append("invalid type of field `");
            out.append(field.name());
            out.append("`");
        },
    }
    assert(out@ =~= old(out)@ + cause_text(cause));
}

/// What is said of a faulty entry, after the name of its path.
pub open spec fn fault_text(fault: ProvenanceFault) -> Seq<char> {
    match fault {
        ProvenanceFault::Invalid { cause } => " is invalid: "@ + cause_text(cause),
        ProvenanceFault::NoCorpus => " requires corpus and window"@,
        ProvenanceFault::NoSources => " has invalid derived sources"@,
        ProvenanceFault::NoRationale => " requires a rationale"@,
        ProvenanceFault::EmptyDiagnostic => " accepts an empty diagnostic"@,
    }
}

fn push_fault(out: &mut String, fault: ProvenanceFault)
    ensures
        final(out)@ == old(out)@ + fault_text(fault),
{
    match fault {
        ProvenanceFault::Invalid { cause } => {
            out.append(" is invalid: ");
            push_cause(out, cause);
        },
        ProvenanceFault::NoCorpus => {
            out.append(" requires corpus and window");
        },
        ProvenanceFault::NoSources => {
            out.append(" has invalid derived sources");
        },
        ProvenanceFault::NoRationale => {
            out.append(" requires a rationale");
        },
        ProvenanceFault::EmptyDiagnostic => {
            out.append(" accepts an empty diagnostic");
        },
    }
    assert(out@ =~= old(out)@ + fault_text(fault));
}

/// What is said of a refusal.
pub open spec fn preset_error_text(error: PresetError<Seq<char>, Seq<Seq<char>>>) -> Seq<char> {
    match error {
        PresetError::Unknown { name } => "unknown instrument preset "@ + name,
        PresetError::Unreadable { fault } => fault,
        PresetError::NoInstrument { name } => "preset "@ + name + " has no instrument table"@,
        PresetError::NoProvenance { name } => "preset "@ + name + " has no provenance table"@,
        PresetError::ParentIsNoText { name } => "preset "@ + name
            + " instrument.preset must be a string"@,
        PresetError::Endless { name } => "preset "@ + name + " is inherited without end"@,
        PresetError::Restated { name, key } => "preset "@ + name + " restates inherited key "@ + key
            + "; use instrument.override"@,
        PresetError::NoSuchPath { path } => "preset does not set override path "@ + path,
        PresetError::Provenance { name, error } => match error {
            ProvenanceError::Incomplete { missing, extra } => "preset "@ + name
                + " provenance is incomplete: missing "@ + shown_list(missing) + ", extra "@
                + shown_list(extra),
            ProvenanceError::Faulty { path, fault } => "preset "@ + name + " provenance for "@
                + path + fault_text(fault),
        },
        PresetError::Replaced { key } => "instrument."@ + key
            + " was replaced by the [instrument.class] table; write kind = \"spot\" with base and quote under [instrument.class]"@,
        PresetError::PresetIsNoText => "instrument.preset must be a string"@,
        PresetError::OutsideOverride { key } => "preset key "@ + key
            + " must be stated under instrument.override"@,
        PresetError::InstrumentIsNoTable =>
            "instrument must be a table: a run serves one instrument"@,
    }
}

/// What is said of a refusal.
pub fn preset_message(error: &PresetError<String, Vec<String>>) -> (message: String)
    ensures
        message@ == preset_error_text(preset_error_view(*error)),
{
    let mut out = String::new();
    match error {
        PresetError::Unknown { name } => {
            out.append("unknown instrument preset ");
            out.append(name.as_str());
        },
        PresetError::Unreadable { fault } => {
            out.append(fault.as_str());
        },
        PresetError::NoInstrument { name } => {
            out.append("preset ");
            out.append(name.as_str());
            out.append(" has no instrument table");
        },
        PresetError::NoProvenance { name } => {
            out.append("preset ");
            out.append(name.as_str());
            out.append(" has no provenance table");
        },
        PresetError::ParentIsNoText { name } => {
            out.append("preset ");
            out.append(name.as_str());
            out.append(" instrument.preset must be a string");
        },
        PresetError::Endless { name } => {
            out.append("preset ");
            out.append(name.as_str());
            out.append(" is inherited without end");
        },
        PresetError::Restated { name, key } => {
            out.append("preset ");
            out.append(name.as_str());
            out.append(" restates inherited key ");
            out.append(key.as_str());
            out.append("; use instrument.override");
        },
        PresetError::NoSuchPath { path } => {
            out.append("preset does not set override path ");
            out.append(path.as_str());
        },
        PresetError::Provenance { name, error } => {
            out.append("preset ");
            out.append(name.as_str());
            match error {
                ProvenanceError::Incomplete { missing, extra } => {
                    out.append(" provenance is incomplete: missing ");
                    push_list(&mut out, missing);
                    out.append(", extra ");
                    push_list(&mut out, extra);
                },
                ProvenanceError::Faulty { path, fault } => {
                    out.append(" provenance for ");
                    out.append(path.as_str());
                    push_fault(&mut out, *fault);
                },
            }
        },
        PresetError::Replaced { key } => {
            out.append("instrument.");
            out.append(key.as_str());
            out.append(
                " was replaced by the [instrument.class] table; write kind = \"spot\" with base and quote under [instrument.class]",
            );
        },
        PresetError::PresetIsNoText => {
            out.append("instrument.preset must be a string");
        },
        PresetError::OutsideOverride { key } => {
            out.append("preset key ");
            out.append(key.as_str());
            out.append(" must be stated under instrument.override");
        },
        PresetError::InstrumentIsNoTable => {
            out.append("instrument must be a table: a run serves one instrument");
        },
    }
    assert(out@ =~= preset_error_text(preset_error_view(*error)));
    out
}

/// Each preset is found under its own name, in any case of its letters, and there
/// is none under any other name.
pub proof fn a_preset_is_found_under_its_name(shelf: PresetShelf, name: Seq<char>)
    ensures
        upper(name) == "MNQ"@ ==> shelved(shelf, name) == Some(shelf.mnq@),
        upper(name) == "MES"@ ==> shelved(shelf, name) == Some(shelf.mes@),
        upper(name) == "BTCUSDT"@ ==> shelved(shelf, name) == Some(shelf.btcusdt@),
        upper(name) == "ETHUSDT"@ ==> shelved(shelf, name) == Some(shelf.ethusdt@),
        upper(name) == "SOLUSDT"@ ==> shelved(shelf, name) == Some(shelf.solusdt@),
        shelved(shelf, name) is Some ==> {
            ||| upper(name) == "MNQ"@
            ||| upper(name) == "MES"@
            ||| upper(name) == "BTCUSDT"@
            ||| upper(name) == "ETHUSDT"@
            ||| upper(name) == "SOLUSDT"@
        },
{
    reveal_strlit("MNQ");
    reveal_strlit("MES");
    reveal_strlit("BTCUSDT");
    reveal_strlit("ETHUSDT");
    reveal_strlit("SOLUSDT");
    assert("MNQ"@[1] == 'N');
    assert("MES"@[1] == 'E');
    assert("BTCUSDT"@[0] == 'B');
    assert("ETHUSDT"@[0] == 'E');
    assert("SOLUSDT"@[0] == 'S');
}

/// The first key that both have is the one that is named, and none is where they
/// have none in common.
pub proof fn the_first_key_in_common_is_named(keys: Seq<Seq<char>>, table: Map<Seq<char>, Tree>)
    ensures
        match first_held(keys, table) {
            Some(key) => exists|i: int|
                0 <= i < keys.len() && key == #[trigger] keys[i] && table.contains_key(key)
                    && forall|k: int| 0 <= k < i ==> !table.contains_key(#[trigger] keys[k]),
            None => forall|k: int| 0 <= k < keys.len() ==> !table.contains_key(#[trigger] keys[k]),
        },
    decreases keys.len(),
{
    if keys.len() > 0 {
        if table.contains_key(keys[0]) {
            assert(first_held(keys, table) == Some(keys[0]));
        } else {
            let rest = keys.drop_first();
            the_first_key_in_common_is_named(rest, table);
            match first_held(rest, table) {
                Some(key) => {
                    let i = choose|i: int|
                        0 <= i < rest.len() && key == #[trigger] rest[i] && table.contains_key(key)
                            && forall|k: int| 0 <= k < i ==> !table.contains_key(#[trigger] rest[k]);
                    assert(keys[i + 1] == key);
                    assert forall|k: int| 0 <= k < i + 1 implies !table.contains_key(
                        #[trigger] keys[k],
                    ) by {
                        if k > 0 {
                            assert(rest[k - 1] == keys[k]);
                        }
                    }
                },
                None => {
                    assert forall|k: int| 0 <= k < keys.len() implies !table.contains_key(
                        #[trigger] keys[k],
                    ) by {
                        if k > 0 {
                            assert(rest[k - 1] == keys[k]);
                        }
                    }
                },
            }
        }
    }
}

/// Whether neither of two paths of keys leads through the other.
pub open spec fn parted(one: Seq<Seq<char>>, other: Seq<Seq<char>>) -> bool {
    !one.is_prefix_of(other) && !other.is_prefix_of(one)
}

/// Once the operator's overrides are applied, what is read at a path that parts
/// from all of theirs is what was read before.
pub proof fn what_no_override_names_stays(
    table: Map<Seq<char>, Tree>,
    overrides: Map<Seq<char>, Tree>,
    paths: Seq<Seq<char>>,
    other: Seq<Seq<char>>,
)
    requires
        operated_all(table, overrides, paths) is Ok,
        forall|k: int| 0 <= k < paths.len() ==> parted(parts_of(#[trigger] paths[k]), other),
    ensures
        found(operated_all(table, overrides, paths)->Ok_0, other) == found(table, other),
    decreases paths.len(),
{
    if paths.len() > 0 {
        let rest = paths.drop_first();
        let changed = operated(table, paths[0], overrides[paths[0]])->0;
        assert(parted(parts_of(paths[0]), other));
        an_override_reaches_its_path_alone(table, paths[0], overrides[paths[0]], other);
        assert forall|k: int| 0 <= k < rest.len() implies parted(
            parts_of(#[trigger] rest[k]),
            other,
        ) by {
            assert(rest[k] == paths[k + 1]);
        }
        what_no_override_names_stays(changed, overrides, rest, other);
    }
}

/// Each of the operator's overrides is applied: what is read at its path is its
/// value, where the paths of the others part from it.
pub proof fn every_override_is_applied(
    table: Map<Seq<char>, Tree>,
    overrides: Map<Seq<char>, Tree>,
    paths: Seq<Seq<char>>,
    i: int,
)
    requires
        operated_all(table, overrides, paths) is Ok,
        0 <= i < paths.len(),
        forall|k: int|
            0 <= k < paths.len() && k != i ==> parted(
                parts_of(#[trigger] paths[k]),
                parts_of(paths[i]),
            ),
    ensures
        found(operated_all(table, overrides, paths)->Ok_0, parts_of(paths[i])) == Some(
            overrides[paths[i]],
        ),
    decreases paths.len(),
{
    let rest = paths.drop_first();
    let changed = operated(table, paths[0], overrides[paths[0]])->0;
    if i == 0 {
        an_override_reaches_its_path_alone(
            table,
            paths[0],
            overrides[paths[0]],
            parts_of(paths[0]),
        );
        assert forall|k: int| 0 <= k < rest.len() implies parted(
            parts_of(#[trigger] rest[k]),
            parts_of(paths[0]),
        ) by {
            assert(rest[k] == paths[k + 1]);
        }
        what_no_override_names_stays(changed, overrides, rest, parts_of(paths[0]));
    } else {
        assert(rest[i - 1] == paths[i]);
        assert forall|k: int| 0 <= k < rest.len() && k != i - 1 implies parted(
            parts_of(#[trigger] rest[k]),
            parts_of(rest[i - 1]),
        ) by {
            assert(rest[k] == paths[k + 1]);
        }
        every_override_is_applied(changed, overrides, rest, i - 1);
    }
}

/// Once a preset's own overrides are applied, what is read at a path that parts
/// from all of theirs is what was read before.
pub proof fn a_preset_keeps_what_it_does_not_override(
    table: Map<Seq<char>, Tree>,
    overrides: Map<Seq<char>, Tree>,
    paths: Seq<Seq<char>>,
    other: Seq<Seq<char>>,
)
    requires
        overridden(table, overrides, paths) is Ok,
        forall|k: int| 0 <= k < paths.len() ==> parted(parts_of(#[trigger] paths[k]), other),
    ensures
        found(overridden(table, overrides, paths)->Ok_0, other) == found(table, other),
    decreases paths.len(),
{
    if paths.len() > 0 {
        let rest = paths.drop_first();
        let value = overrides[paths[0]];
        let changed = replaced(table, parts_of(paths[0]), value)->0;
        assert(parted(parts_of(paths[0]), other));
        a_replacement_reaches_its_path_alone(table, parts_of(paths[0]), value, other);
        assert forall|k: int| 0 <= k < rest.len() implies parted(
            parts_of(#[trigger] rest[k]),
            other,
        ) by {
            assert(rest[k] == paths[k + 1]);
        }
        a_preset_keeps_what_it_does_not_override(changed, overrides, rest, other);
    }
}

/// Each of a preset's own overrides is applied: what is read at its path is its
/// value, where the paths of the others part from it.
pub proof fn a_preset_overrides_what_it_names(
    table: Map<Seq<char>, Tree>,
    overrides: Map<Seq<char>, Tree>,
    paths: Seq<Seq<char>>,
    i: int,
)
    requires
        overridden(table, overrides, paths) is Ok,
        0 <= i < paths.len(),
        forall|k: int|
            0 <= k < paths.len() && k != i ==> parted(
                parts_of(#[trigger] paths[k]),
                parts_of(paths[i]),
            ),
    ensures
        found(overridden(table, overrides, paths)->Ok_0, parts_of(paths[i])) == Some(
            overrides[paths[i]],
        ),
    decreases paths.len(),
{
    let rest = paths.drop_first();
    let value = overrides[paths[0]];
    let changed = replaced(table, parts_of(paths[0]), value)->0;
    if i == 0 {
        a_replacement_reaches_its_path_alone(
            table,
            parts_of(paths[0]),
            value,
            parts_of(paths[0]),
        );
        assert forall|k: int| 0 <= k < rest.len() implies parted(
            parts_of(#[trigger] rest[k]),
            parts_of(paths[0]),
        ) by {
            assert(rest[k] == paths[k + 1]);
        }
        a_preset_keeps_what_it_does_not_override(changed, overrides, rest, parts_of(paths[0]));
    } else {
        assert(rest[i - 1] == paths[i]);
        assert forall|k: int| 0 <= k < rest.len() && k != i - 1 implies parted(
            parts_of(#[trigger] rest[k]),
            parts_of(rest[i - 1]),
        ) by {
            assert(rest[k] == paths[k + 1]);
        }
        a_preset_overrides_what_it_names(changed, overrides, rest, i - 1);
    }
}

/// A preset has what it inherits and what it states itself, and the provenance of
/// both; what it states of a knob that it inherits stands over what it inherits.
pub proof fn a_preset_adds_to_what_it_inherits(
    name: Seq<char>,
    inherited: (Map<Seq<char>, Tree>, Map<Seq<char>, Tree>),
    instrument: Map<Seq<char>, Tree>,
    provenance: Map<Seq<char>, Tree>,
    key: Seq<char>,
)
    requires
        made_up(name, inherited, instrument, provenance) is Ok,
        forall|k: int|
            0 <= k < listed(overrides_of(instrument)).len() ==> parted(
                parts_of(#[trigger] listed(overrides_of(instrument))[k]),
                seq![key],
            ),
    ensures
        ({
            let (merged, origins) = made_up(name, inherited, instrument, provenance)->Ok_0;
            let states = instrument.contains_key(key) && key != "preset"@ && key != "override"@;
            &&& states ==> found(merged, seq![key]) == Some(instrument[key])
            &&& !states && inherited.0.contains_key(key) ==> found(merged, seq![key]) == Some(
                inherited.0[key],
            )
            &&& !states && !inherited.0.contains_key(key) ==> found(merged, seq![key]) is None
            &&& provenance.contains_key(key) ==> origins.contains_key(key) && origins[key]
                == provenance[key]
            &&& !provenance.contains_key(key) ==> origins.contains_key(key)
                == inherited.1.contains_key(key)
            &&& !provenance.contains_key(key) && inherited.1.contains_key(key) ==> origins[key]
                == inherited.1[key]
        }),
{
    let own = instrument.remove("preset"@).remove("override"@);
    let overrides = overrides_of(instrument);
    let base = inherited.0.union_prefer_right(own);
    a_preset_keeps_what_it_does_not_override(base, overrides, listed(overrides), seq![key]);
}

/// An operator's table that names no preset stands as it is, unless it has a key
/// that the instrument's class has taken the place of. One that names a preset
/// comes to what the preset comes to, with the operator's overrides applied, and
/// may state nothing else.
pub proof fn an_operator_overrides_a_preset(
    shelf: PresetShelf,
    operator: Map<Seq<char>, Tree>,
    name: Seq<char>,
)
    ensures
        ({
            let made = resolved(shelf, operator);
            let old = operator.contains_key("base"@) || operator.contains_key("quote"@);
            let preset = effective(shelf, name, 5);
            let extra = operator.remove("preset"@).remove("override"@);
            &&& old ==> made is Err && made->Err_0 is Replaced
            &&& !old && !operator.contains_key("preset"@) ==> made == Ok::<
                Map<Seq<char>, Tree>,
                PresetError<Seq<char>, Seq<Seq<char>>>,
            >(operator)
            &&& !old && operator.contains_key("preset"@) && operator["preset"@] == Tree::Text(
                name,
            ) ==> {
                &&& preset is Err ==> made is Err && made->Err_0 == preset->Err_0
                &&& preset is Ok && listed(extra).len() > 0 ==> made is Err && made->Err_0
                    == (PresetError::<Seq<char>, Seq<Seq<char>>>::OutsideOverride {
                    key: listed(extra)[0],
                })
                &&& preset is Ok && listed(extra).len() == 0 && listed(
                    overrides_of(operator),
                ).len() == 0 ==> made is Ok && made->Ok_0 == (preset->Ok_0).0
            }
        }),
{
}

/// A document is left as it is but for its instrument, and as it is altogether
/// where it has none.
pub proof fn a_document_keeps_the_rest(shelf: PresetShelf, text: Seq<char>, key: Seq<char>)
    requires
        resolved_document(shelf, text) is Ok,
    ensures
        ({
            let raw = parsed_document(text)->Ok_0;
            let made = resolved_document(shelf, text)->Ok_0;
            &&& parsed_document(text) is Ok
            &&& made.contains_key(key) == raw.contains_key(key)
            &&& raw.contains_key(key) && key != "instrument"@ ==> made[key] == raw[key]
            &&& raw.contains_key("instrument"@) ==> raw["instrument"@] is Table
                && made["instrument"@] is Table && resolved(shelf, raw["instrument"@]->Table_0)
                is Ok && made["instrument"@]->Table_0 == resolved(
                shelf,
                raw["instrument"@]->Table_0,
            )->Ok_0
        }),
{
}

} // verus!
