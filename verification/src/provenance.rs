//! Where a preset has each of its knobs from.

use vstd::prelude::*;

use crate::ranked::an_ascending_list_is_known_by_its_names;
use crate::ranked::ascending;
use crate::ranked::put_in_order;
use crate::roll::names_view;
use crate::text::same_text;
use crate::text::trim;
use crate::text::trimmed;
use crate::tree::contents;
use crate::tree::flatten_knobs;
use crate::tree::is_knob;
use crate::tree::is_listing;
use crate::tree::list_in;
use crate::tree::listed;
use crate::tree::listing;
use crate::tree::table_in;
use crate::tree::text_in;
use crate::tree::tree_of;
use crate::tree::trees_of;
use crate::tree::value_at;
use crate::tree::Tree;

verus! {

/// Where a knob's value is from: fitted to a corpus, derived from other knobs,
/// or declared for a reason. Texts are of type `S`, lists of them of type `L`.
#[derive(Debug)]
pub enum Provenance<S, L> {
    Fitted { corpus: S, window: S, accepted_diagnostics: L },
    Derived { from: L, accepted_diagnostics: L },
    Declared { rationale: S, accepted_diagnostics: L },
}

impl<S, L> Provenance<S, L> {
    /// The diagnostics that are accepted of the knob.
    pub open spec fn accepted(self) -> L {
        match self {
            Provenance::Fitted { accepted_diagnostics, .. } => accepted_diagnostics,
            Provenance::Derived { accepted_diagnostics, .. } => accepted_diagnostics,
            Provenance::Declared { accepted_diagnostics, .. } => accepted_diagnostics,
        }
    }

    /// The diagnostics that are accepted of the knob.
    pub fn accepted_diagnostics(&self) -> (accepted: &L)
        ensures
            *accepted == self.accepted(),
    {
        match self {
            Provenance::Fitted { accepted_diagnostics, .. } => accepted_diagnostics,
            Provenance::Derived { accepted_diagnostics, .. } => accepted_diagnostics,
            Provenance::Declared { accepted_diagnostics, .. } => accepted_diagnostics,
        }
    }
}

/// A provenance with its texts by their characters.
pub open spec fn provenance_view(from: Provenance<String, Vec<String>>) -> Provenance<
    Seq<char>,
    Seq<Seq<char>>,
> {
    match from {
        Provenance::Fitted { corpus, window, accepted_diagnostics } => Provenance::Fitted {
            corpus: corpus@,
            window: window@,
            accepted_diagnostics: names_view(accepted_diagnostics@),
        },
        Provenance::Derived { from, accepted_diagnostics } => Provenance::Derived {
            from: names_view(from@),
            accepted_diagnostics: names_view(accepted_diagnostics@),
        },
        Provenance::Declared { rationale, accepted_diagnostics } => Provenance::Declared {
            rationale: rationale@,
            accepted_diagnostics: names_view(accepted_diagnostics@),
        },
    }
}

/// A part of an entry that states a provenance.
#[derive(Clone, Copy, Debug, PartialEq, Eq, Structural)]
pub enum Field {
    Kind,
    Corpus,
    Window,
    From,
    Rationale,
    AcceptedDiagnostics,
}

/// The name of a part.
pub open spec fn field_name(field: Field) -> Seq<char> {
    match field {
        Field::Kind => "kind"@,
        Field::Corpus => "corpus"@,
        Field::Window => "window"@,
        Field::From => "from"@,
        Field::Rationale => "rationale"@,
        Field::AcceptedDiagnostics => "accepted_diagnostics"@,
    }
}

impl Field {
    /// The name of the part.
    pub fn name(self) -> (name: &'static str)
        ensures
            name@ == field_name(self),
    {
        match self {
            Field::Kind => "kind",
            Field::Corpus => "corpus",
            Field::Window => "window",
            Field::From => "from",
            Field::Rationale => "rationale",
            Field::AcceptedDiagnostics => "accepted_diagnostics",
        }
    }
}

/// Why an entry states no provenance.
#[derive(Clone, Copy, Debug, PartialEq, Eq, Structural)]
pub enum Cause {
    /// It is neither a table nor a list.
    NoParts,
    /// Its kind is none of the three.
    UnknownKind,
    /// It has a part that its kind does not have.
    Unexpected,
    /// It lacks a part.
    Missing { field: Field },
    /// A part is not of the type that it has to be.
    Mistyped { field: Field },
}

/// What is wrong with the provenance of one knob.
#[derive(Clone, Copy, Debug, PartialEq, Eq, Structural)]
pub enum ProvenanceFault {
    Invalid { cause: Cause },
    NoCorpus,
    NoSources,
    NoRationale,
    EmptyDiagnostic,
}

/// One part of an entry, which is a table with the part under its name or a list
/// with the part at its place.
pub open spec fn part(entry: Tree, name: Seq<char>, place: int) -> Option<Tree> {
    match entry {
        Tree::Table(table) => if table.contains_key(name) {
            Some(table[name])
        } else {
            None
        },
        Tree::List(list) => if 0 <= place < list.len() {
            Some(list[place])
        } else {
            None
        },
        _ => None,
    }
}

/// One part of an entry, where it is a text.
pub open spec fn text_part(entry: Tree, name: Seq<char>, place: int) -> Option<Seq<char>> {
    match part(entry, name, place) {
        Some(Tree::Text(text)) => Some(text),
        _ => None,
    }
}

/// The texts of a list of nothing but texts.
pub open spec fn texts(tree: Tree) -> Option<Seq<Seq<char>>> {
    match tree {
        Tree::List(list) => if forall|i: int|
            0 <= i < list.len() ==> (#[trigger] list[i]) is Text {
            Some(Seq::new(list.len(), |i: int| list[i]->Text_0))
        } else {
            None
        },
        _ => None,
    }
}

/// One part of an entry, where it is a list of texts.
pub open spec fn texts_part(entry: Tree, name: Seq<char>, place: int) -> Option<Seq<Seq<char>>> {
    match part(entry, name, place) {
        Some(tree) => texts(tree),
        None => None,
    }
}

/// The diagnostics that an entry accepts: none where it does not say.
pub open spec fn accepted_part(entry: Tree, place: int) -> Option<Seq<Seq<char>>> {
    match part(entry, "accepted_diagnostics"@, place) {
        Some(tree) => texts(tree),
        None => Some(Seq::empty()),
    }
}

/// Whether a table has no key beside its kind and these.
pub open spec fn only_keys(table: Map<Seq<char>, Tree>, names: Seq<Seq<char>>) -> bool {
    forall|key: Seq<char>| #[trigger]
        table.contains_key(key) ==> key == "kind"@ || names.contains(key)
}

/// Whether an entry has no part beside its kind and these.
pub open spec fn only_parts(entry: Tree, names: Seq<Seq<char>>) -> bool {
    match entry {
        Tree::Table(table) => only_keys(table, names),
        Tree::List(list) => list.len() <= names.len() + 1,
        _ => false,
    }
}

/// The provenance that an entry states, where it states one.
pub open spec fn provenance_of(entry: Tree) -> Option<Provenance<Seq<char>, Seq<Seq<char>>>> {
    match text_part(entry, "kind"@, 0) {
        None => None,
        Some(kind) => if kind == "fitted"@ {
            match (
                only_parts(entry, seq!["corpus"@, "window"@, "accepted_diagnostics"@]),
                text_part(entry, "corpus"@, 1),
                text_part(entry, "window"@, 2),
                accepted_part(entry, 3),
            ) {
                (true, Some(corpus), Some(window), Some(accepted_diagnostics)) => Some(
                    Provenance::Fitted { corpus, window, accepted_diagnostics },
                ),
                _ => None,
            }
        } else if kind == "derived"@ {
            match (
                only_parts(entry, seq!["from"@, "accepted_diagnostics"@]),
                texts_part(entry, "from"@, 1),
                accepted_part(entry, 2),
            ) {
                (true, Some(from), Some(accepted_diagnostics)) => Some(
                    Provenance::Derived { from, accepted_diagnostics },
                ),
                _ => None,
            }
        } else if kind == "declared"@ {
            match (
                only_parts(entry, seq!["rationale"@, "accepted_diagnostics"@]),
                text_part(entry, "rationale"@, 1),
                accepted_part(entry, 2),
            ) {
                (true, Some(rationale), Some(accepted_diagnostics)) => Some(
                    Provenance::Declared { rationale, accepted_diagnostics },
                ),
                _ => None,
            }
        } else {
            None
        },
    }
}

/// What is wrong with a part that has to be a text, if anything is.
pub open spec fn text_cause(entry: Tree, field: Field, place: int) -> Option<Cause> {
    match part(entry, field_name(field), place) {
        None => Some(Cause::Missing { field }),
        Some(Tree::Text(_)) => None,
        Some(_) => Some(Cause::Mistyped { field }),
    }
}

/// What is wrong with a part that has to be a list of texts, if anything is.
pub open spec fn texts_cause(entry: Tree, field: Field, place: int) -> Option<Cause> {
    match part(entry, field_name(field), place) {
        None => Some(Cause::Missing { field }),
        Some(tree) => if texts(tree) is Some {
            None
        } else {
            Some(Cause::Mistyped { field })
        },
    }
}

/// Why an entry that states no provenance does not: the first of its parts, in
/// the order in which a list has them, that is missing or mistyped, once its kind
/// is known and nothing is there that the kind does not have.
pub open spec fn cause_of(entry: Tree) -> Cause {
    if !(entry is Table) && !(entry is List) {
        Cause::NoParts
    } else {
        match text_cause(entry, Field::Kind, 0) {
            Some(cause) => cause,
            None => {
                let kind = text_part(entry, "kind"@, 0)->0;
                let accepted = Cause::Mistyped { field: Field::AcceptedDiagnostics };
                if kind == "fitted"@ {
                    if !only_parts(entry, seq!["corpus"@, "window"@, "accepted_diagnostics"@]) {
                        Cause::Unexpected
                    } else {
                        match (
                            text_cause(entry, Field::Corpus, 1),
                            text_cause(entry, Field::Window, 2),
                        ) {
                            (Some(cause), _) => cause,
                            (None, Some(cause)) => cause,
                            (None, None) => accepted,
                        }
                    }
                } else if kind == "derived"@ {
                    if !only_parts(entry, seq!["from"@, "accepted_diagnostics"@]) {
                        Cause::Unexpected
                    } else {
                        match texts_cause(entry, Field::From, 1) {
                            Some(cause) => cause,
                            None => accepted,
                        }
                    }
                } else if kind == "declared"@ {
                    if !only_parts(entry, seq!["rationale"@, "accepted_diagnostics"@]) {
                        Cause::Unexpected
                    } else {
                        match text_cause(entry, Field::Rationale, 1) {
                            Some(cause) => cause,
                            None => accepted,
                        }
                    }
                } else {
                    Cause::UnknownKind
                }
            },
        }
    }
}

/// Whether a text holds nothing but white space.
pub open spec fn empty(text: Seq<char>) -> bool {
    trimmed(text).len() == 0
}

fn is_empty(text: &str) -> (answer: bool)
    ensures
        answer == empty(text@),
{
    trim(text).as_str().unicode_len() == 0
}

/// What is wrong with an entry, beside the knobs of an instrument.
pub open spec fn fault_of(instrument: Map<Seq<char>, Tree>, entry: Tree) -> Option<
    ProvenanceFault,
> {
    match provenance_of(entry) {
        None => Some(ProvenanceFault::Invalid { cause: cause_of(entry) }),
        Some(from) => if from matches Provenance::Fitted { corpus, window, .. } && (empty(corpus)
            || empty(window)) {
            Some(ProvenanceFault::NoCorpus)
        } else if from matches Provenance::Derived { from: sources, .. } && (sources.len() == 0
            || exists|i: int|
            0 <= i < sources.len() && !is_knob(
                instrument,
                Seq::empty(),
                #[trigger] sources[i],
            )) {
            Some(ProvenanceFault::NoSources)
        } else if from matches Provenance::Declared { rationale, .. } && empty(rationale) {
            Some(ProvenanceFault::NoRationale)
        } else if exists|i: int|
            0 <= i < from.accepted().len() && empty(#[trigger] from.accepted()[i]) {
            Some(ProvenanceFault::EmptyDiagnostic)
        } else {
            None
        },
    }
}

/// The first of these paths whose entry is faulty, and its fault.
pub open spec fn first_fault(
    instrument: Map<Seq<char>, Tree>,
    provenance: Map<Seq<char>, Tree>,
    paths: Seq<Seq<char>>,
) -> Option<(Seq<char>, ProvenanceFault)>
    decreases paths.len(),
{
    if paths.len() == 0 {
        None
    } else {
        match fault_of(instrument, provenance[paths[0]]) {
            Some(fault) => Some((paths[0], fault)),
            None => first_fault(instrument, provenance, paths.drop_first()),
        }
    }
}

fn part_in<'a>(entry: &'a toml::Value, name: &str, place: usize) -> (found: Option<
    &'a toml::Value,
>)
    ensures
        match found {
            Some(value) => part(tree_of(*entry), name@, place as int) == Some(tree_of(*value)),
            None => part(tree_of(*entry), name@, place as int) is None,
        },
{
    match table_in(entry) {
        Some(table) => value_at(table, name),
        None => match list_in(entry) {
            Some(list) => if place < list.len() {
                Some(&list[place])
            } else {
                None
            },
            None => None,
        },
    }
}

fn text_part_in(entry: &toml::Value, name: &str, place: usize) -> (found: Option<String>)
    ensures
        match found {
            Some(text) => text_part(tree_of(*entry), name@, place as int) == Some(text@),
            None => text_part(tree_of(*entry), name@, place as int) is None,
        },
{
    match part_in(entry, name, place) {
        Some(value) => match text_in(value) {
            Some(text) => Some(text.to_owned()),
            None => None,
        },
        None => None,
    }
}

fn texts_in(value: &toml::Value) -> (found: Option<Vec<String>>)
    ensures
        match found {
            Some(list) => texts(tree_of(*value)) == Some(names_view(list@)),
            None => texts(tree_of(*value)) is None,
        },
{
    let list = match list_in(value) {
        Some(list) => list,
        None => return None,
    };
    let ghost trees = trees_of(list@);
    let mut found: Vec<String> = Vec::new();
    let mut i: usize = 0;
    while i < list.len()
        invariant
            i <= list.len(),
            trees == trees_of(list@),
            tree_of(*value) == Tree::List(trees),
            found.len() == i,
            forall|k: int|
                0 <= k < i ==> #[trigger] trees[k] == Tree::Text(names_view(found@)[k]),
        decreases list.len() - i,
    {
        let text = match text_in(&list[i]) {
            Some(text) => text,
            None => {
                assert(!(trees[i as int] is Text));
                return None;
            },
        };
        assert(trees[i as int] == Tree::Text(text@));
        let ghost held = names_view(found@);
        found.push(text.to_owned());
        assert(names_view(found@) =~= held.push(text@));
        i += 1;
    }
    assert(names_view(found@) =~= Seq::new(trees.len(), |k: int| trees[k]->Text_0));
    Some(found)
}

fn texts_part_in(entry: &toml::Value, name: &str, place: usize) -> (found: Option<Vec<String>>)
    ensures
        match found {
            Some(list) => texts_part(tree_of(*entry), name@, place as int) == Some(
                names_view(list@),
            ),
            None => texts_part(tree_of(*entry), name@, place as int) is None,
        },
{
    match part_in(entry, name, place) {
        Some(value) => texts_in(value),
        None => None,
    }
}

fn accepted_part_in(entry: &toml::Value, place: usize) -> (found: Option<Vec<String>>)
    ensures
        match found {
            Some(list) => accepted_part(tree_of(*entry), place as int) == Some(names_view(list@)),
            None => accepted_part(tree_of(*entry), place as int) is None,
        },
{
    match part_in(entry, "accepted_diagnostics", place) {
        Some(value) => texts_in(value),
        None => {
            let none: Vec<String> = Vec::new();
            assert(names_view(none@) =~= Seq::<Seq<char>>::empty());
            Some(none)
        },
    }
}

/// Whether a name is in a list.
fn is_among(names: &Vec<String>, name: &str) -> (answer: bool)
    ensures
        answer == names_view(names@).contains(name@),
{
    let ghost all = names_view(names@);
    let mut i: usize = 0;
    while i < names.len()
        invariant
            i <= names.len(),
            all == names_view(names@),
            forall|k: int| 0 <= k < i ==> #[trigger] all[k] != name@,
        decreases names.len() - i,
    {
        if same_text(names[i].as_str(), name) {
            assert(all[i as int] == name@);
            return true;
        }
        assert(all[i as int] != name@);
        i += 1;
    }
    false
}

fn has_only(entry: &toml::Value, names: &Vec<String>) -> (answer: bool)
    requires
        names.len() < usize::MAX,
    ensures
        answer == only_parts(tree_of(*entry), names_view(names@)),
{
    match table_in(entry) {
        Some(table) => {
            let ghost all = contents(*table);
            let keys = listing(table);
            let mut i: usize = 0;
            while i < keys.len()
                invariant
                    i <= keys.len(),
                    all == contents(*table),
                    tree_of(*entry) == Tree::Table(all),
                    is_listing(names_view(keys@), all),
                    forall|k: int|
                        0 <= k < i ==> #[trigger] names_view(keys@)[k] == "kind"@ || names_view(
                            names@,
                        ).contains(names_view(keys@)[k]),
                decreases keys.len() - i,
            {
                let key = keys[i].as_str();
                assert(names_view(keys@)[i as int] == key@);
                if !same_text(key, "kind") && !is_among(names, key) {
                    assert(names_view(keys@).contains(key@));
                    assert(all.contains_key(key@));
                    return false;
                }
                i += 1;
            }
            proof {
                assert forall|key: Seq<char>| #[trigger]
                    all.contains_key(key) implies key == "kind"@ || names_view(names@).contains(
                    key,
                ) by {
                    assert(names_view(keys@).contains(key));
                    let k = choose|k: int|
                        0 <= k < names_view(keys@).len() && names_view(keys@)[k] == key;
                    assert(names_view(keys@)[k] == key);
                }
            }
            true
        },
        None => match list_in(entry) {
            Some(list) => list.len() <= names.len() + 1,
            None => false,
        },
    }
}

fn find_text_cause(entry: &toml::Value, field: Field, place: usize) -> (cause: Option<Cause>)
    ensures
        cause == text_cause(tree_of(*entry), field, place as int),
{
    match part_in(entry, field.name(), place) {
        None => Some(Cause::Missing { field }),
        Some(value) => match text_in(value) {
            Some(_) => None,
            None => Some(Cause::Mistyped { field }),
        },
    }
}

fn find_texts_cause(entry: &toml::Value, field: Field, place: usize) -> (cause: Option<Cause>)
    ensures
        cause == texts_cause(tree_of(*entry), field, place as int),
{
    match part_in(entry, field.name(), place) {
        None => Some(Cause::Missing { field }),
        Some(value) => match texts_in(value) {
            Some(_) => None,
            None => Some(Cause::Mistyped { field }),
        },
    }
}

/// Reads the provenance that an entry states, or says why it states none.
pub(crate) fn read_provenance(entry: &toml::Value) -> (read: Result<
    Provenance<String, Vec<String>>,
    Cause,
>)
    ensures
        match read {
            Ok(from) => provenance_of(tree_of(*entry)) == Some(provenance_view(from)),
            Err(cause) => provenance_of(tree_of(*entry)) is None && cause == cause_of(
                tree_of(*entry),
            ),
        },
{
    if table_in(entry).is_none() && list_in(entry).is_none() {
        return Err(Cause::NoParts);
    }
    let kind = match text_part_in(entry, "kind", 0) {
        Some(kind) => kind,
        None => {
            return Err(
                match find_text_cause(entry, Field::Kind, 0) {
                    Some(cause) => cause,
                    None => Cause::UnknownKind,
                },
            );
        },
    };
    let accepted = Cause::Mistyped { field: Field::AcceptedDiagnostics };
    let mut names: Vec<String> = Vec::new();
    if same_text(kind.as_str(), "fitted") {
        names.push("corpus".to_owned());
        names.push("window".to_owned());
        names.push("accepted_diagnostics".to_owned());
        assert(names_view(names@) =~= seq!["corpus"@, "window"@, "accepted_diagnostics"@]);
        if !has_only(entry, &names) {
            return Err(Cause::Unexpected);
        }
        match (
            text_part_in(entry, "corpus", 1),
            text_part_in(entry, "window", 2),
            accepted_part_in(entry, 3),
        ) {
            (Some(corpus), Some(window), Some(accepted_diagnostics)) => Ok(
                Provenance::Fitted { corpus, window, accepted_diagnostics },
            ),
            _ => match find_text_cause(entry, Field::Corpus, 1) {
                Some(cause) => Err(cause),
                None => match find_text_cause(entry, Field::Window, 2) {
                    Some(cause) => Err(cause),
                    None => Err(accepted),
                },
            },
        }
    } else if same_text(kind.as_str(), "derived") {
        names.push("from".to_owned());
        names.push("accepted_diagnostics".to_owned());
        assert(names_view(names@) =~= seq!["from"@, "accepted_diagnostics"@]);
        if !has_only(entry, &names) {
            return Err(Cause::Unexpected);
        }
        match (texts_part_in(entry, "from", 1), accepted_part_in(entry, 2)) {
            (Some(from), Some(accepted_diagnostics)) => Ok(
                Provenance::Derived { from, accepted_diagnostics },
            ),
            _ => match find_texts_cause(entry, Field::From, 1) {
                Some(cause) => Err(cause),
                None => Err(accepted),
            },
        }
    } else if same_text(kind.as_str(), "declared") {
        names.push("rationale".to_owned());
        names.push("accepted_diagnostics".to_owned());
        assert(names_view(names@) =~= seq!["rationale"@, "accepted_diagnostics"@]);
        if !has_only(entry, &names) {
            return Err(Cause::Unexpected);
        }
        match (text_part_in(entry, "rationale", 1), accepted_part_in(entry, 2)) {
            (Some(rationale), Some(accepted_diagnostics)) => Ok(
                Provenance::Declared { rationale, accepted_diagnostics },
            ),
            _ => match find_text_cause(entry, Field::Rationale, 1) {
                Some(cause) => Err(cause),
                None => Err(accepted),
            },
        }
    } else {
        Err(Cause::UnknownKind)
    }
}

fn any_empty(list: &Vec<String>) -> (answer: bool)
    ensures
        answer == exists|i: int|
            0 <= i < names_view(list@).len() && empty(#[trigger] names_view(list@)[i]),
{
    let ghost all = names_view(list@);
    let mut i: usize = 0;
    while i < list.len()
        invariant
            i <= list.len(),
            all == names_view(list@),
            forall|k: int| 0 <= k < i ==> !empty(#[trigger] all[k]),
        decreases list.len() - i,
    {
        assert(all[i as int] == list[i as int]@);
        if is_empty(list[i].as_str()) {
            return true;
        }
        i += 1;
    }
    false
}

fn all_among(list: &Vec<String>, names: &Vec<String>) -> (answer: bool)
    ensures
        answer == forall|i: int|
            0 <= i < names_view(list@).len() ==> names_view(names@).contains(
                #[trigger] names_view(list@)[i],
            ),
{
    let ghost all = names_view(list@);
    let mut i: usize = 0;
    while i < list.len()
        invariant
            i <= list.len(),
            all == names_view(list@),
            forall|k: int| 0 <= k < i ==> names_view(names@).contains(#[trigger] all[k]),
        decreases list.len() - i,
    {
        assert(all[i as int] == list[i as int]@);
        if !is_among(names, list[i].as_str()) {
            return false;
        }
        i += 1;
    }
    true
}

fn find_fault(entry: &toml::Value, knobs: &Vec<String>, Ghost(instrument): Ghost<
    Map<Seq<char>, Tree>,
>) -> (fault: Option<ProvenanceFault>)
    requires
        forall|path: Seq<char>| #[trigger]
            names_view(knobs@).contains(path) == is_knob(instrument, Seq::empty(), path),
    ensures
        fault == fault_of(instrument, tree_of(*entry)),
{
    let from = match read_provenance(entry) {
        Ok(from) => from,
        Err(cause) => return Some(ProvenanceFault::Invalid { cause }),
    };
    let ghost stated = provenance_view(from);
    match &from {
        Provenance::Fitted { corpus, window, .. } => {
            if is_empty(corpus.as_str()) || is_empty(window.as_str()) {
                return Some(ProvenanceFault::NoCorpus);
            }
        },
        Provenance::Derived { from: sources, .. } => {
            let ghost listed_sources = names_view(sources@);
            if sources.len() == 0 {
                return Some(ProvenanceFault::NoSources);
            }
            if !all_among(sources, knobs) {
                proof {
                    let i = choose|i: int|
                        0 <= i < listed_sources.len() && !names_view(knobs@).contains(
                            #[trigger] listed_sources[i],
                        );
                    assert(!is_knob(instrument, Seq::empty(), listed_sources[i]));
                }
                return Some(ProvenanceFault::NoSources);
            }
            assert forall|i: int| 0 <= i < listed_sources.len() implies is_knob(
                instrument,
                Seq::empty(),
                #[trigger] listed_sources[i],
            ) by {
                assert(names_view(knobs@).contains(listed_sources[i]));
            }
        },
        Provenance::Declared { rationale, .. } => {
            if is_empty(rationale.as_str()) {
                return Some(ProvenanceFault::NoRationale);
            }
        },
    }
    let accepted = from.accepted_diagnostics();
    assert(names_view(accepted@) == stated.accepted());
    if any_empty(accepted) {
        return Some(ProvenanceFault::EmptyDiagnostic);
    }
    None
}

/// What is wrong with the provenance of an instrument: the knobs that have none
/// and the paths that are no knob, each in order, or the first faulty entry.
#[derive(Debug)]
pub enum ProvenanceError<S, L> {
    Incomplete { missing: L, extra: L },
    Faulty { path: S, fault: ProvenanceFault },
}

/// An error with its texts by their characters.
pub open spec fn provenance_error_view(error: ProvenanceError<String, Vec<String>>) -> ProvenanceError<
    Seq<char>,
    Seq<Seq<char>>,
> {
    match error {
        ProvenanceError::Incomplete { missing, extra } => ProvenanceError::Incomplete {
            missing: names_view(missing@),
            extra: names_view(extra@),
        },
        ProvenanceError::Faulty { path, fault } => ProvenanceError::Faulty { path: path@, fault },
    }
}

/// The names for which something holds, in order.
pub open spec fn all_in_order(holds: spec_fn(Seq<char>) -> bool) -> Seq<Seq<char>> {
    choose|names: Seq<Seq<char>>| lists_all(names, holds)
}

/// Whether these are the names for which something holds, in order.
pub open spec fn lists_all(names: Seq<Seq<char>>, holds: spec_fn(Seq<char>) -> bool) -> bool {
    &&& ascending(names)
    &&& forall|name: Seq<char>| #[trigger] names.contains(name) == holds(name)
}

proof fn one_list_of_all(names: Seq<Seq<char>>, holds: spec_fn(Seq<char>) -> bool)
    requires
        lists_all(names, holds),
    ensures
        names == all_in_order(holds),
{
    let other = all_in_order(holds);
    assert(lists_all(other, holds));
    assert forall|name: Seq<char>| #[trigger] names.contains(name) == other.contains(name) by {
        assert(names.contains(name) == holds(name));
    }
    an_ascending_list_is_known_by_its_names(names, other);
}

/// The knobs of an instrument that have no provenance.
pub open spec fn lacking(
    instrument: Map<Seq<char>, Tree>,
    provenance: Map<Seq<char>, Tree>,
) -> Seq<Seq<char>> {
    all_in_order(
        |path: Seq<char>|
            is_knob(instrument, Seq::empty(), path) && !provenance.contains_key(path),
    )
}

/// The paths with a provenance that are no knob of the instrument.
pub open spec fn beyond(
    instrument: Map<Seq<char>, Tree>,
    provenance: Map<Seq<char>, Tree>,
) -> Seq<Seq<char>> {
    all_in_order(
        |path: Seq<char>|
            provenance.contains_key(path) && !is_knob(instrument, Seq::empty(), path),
    )
}

/// What is wrong with the provenance of an instrument.
pub open spec fn provenance_error(
    instrument: Map<Seq<char>, Tree>,
    provenance: Map<Seq<char>, Tree>,
) -> Option<ProvenanceError<Seq<char>, Seq<Seq<char>>>> {
    let missing = lacking(instrument, provenance);
    let extra = beyond(instrument, provenance);
    if missing.len() > 0 || extra.len() > 0 {
        Some(ProvenanceError::Incomplete { missing, extra })
    } else {
        match first_fault(instrument, provenance, listed(provenance)) {
            Some((path, fault)) => Some(ProvenanceError::Faulty { path, fault }),
            None => None,
        }
    }
}

fn difference(from: &Vec<String>, without: &Vec<String>) -> (rest: Vec<String>)
    ensures
        ascending(names_view(rest@)),
        forall|name: Seq<char>| #[trigger]
            names_view(rest@).contains(name) == (names_view(from@).contains(name) && !names_view(
                without@,
            ).contains(name)),
{
    let ghost all = names_view(from@);
    let mut rest: Vec<String> = Vec::new();
    let mut i: usize = 0;
    while i < from.len()
        invariant
            i <= from.len(),
            all == names_view(from@),
            ascending(names_view(rest@)),
            forall|name: Seq<char>| #[trigger]
                names_view(rest@).contains(name) == (all.take(i as int).contains(name)
                    && !names_view(without@).contains(name)),
        decreases from.len() - i,
    {
        let name = from[i].as_str();
        let ghost held = names_view(rest@);
        if !is_among(without, name) {
            put_in_order(&mut rest, name);
        }
        proof {
            let was = all.take(i as int);
            let now = all.take(i + 1);
            assert(now =~= was.push(name@));
            assert forall|other: Seq<char>| #[trigger]
                names_view(rest@).contains(other) == (now.contains(other) && !names_view(
                    without@,
                ).contains(other)) by {
                assert(held.contains(other) == (was.contains(other) && !names_view(
                    without@,
                ).contains(other)));
                if was.contains(other) {
                    let k = choose|k: int| 0 <= k < was.len() && was[k] == other;
                    assert(now[k] == other);
                }
                assert(now[i as int] == name@);
            }
        }
        i += 1;
    }
    assert(all.take(i as int) =~= all);
    rest
}

/// Checks that every knob of an instrument has a provenance, that nothing else
/// has one, and that each is sound.
pub fn validate_provenance(instrument: &toml::Table, provenance: &toml::Table) -> (checked: Result<
    (),
    ProvenanceError<String, Vec<String>>,
>)
    ensures
        match checked {
            Ok(()) => provenance_error(contents(*instrument), contents(*provenance)) is None,
            Err(error) => provenance_error(contents(*instrument), contents(*provenance)) == Some(
                provenance_error_view(error),
            ),
        },
        checked is Ok ==> forall|path: Seq<char>| #[trigger]
            is_knob(contents(*instrument), Seq::empty(), path) == contents(
                *provenance,
            ).contains_key(path),
        checked is Ok ==> forall|path: Seq<char>| #[trigger]
            contents(*provenance).contains_key(path) ==> fault_of(
                contents(*instrument),
                contents(*provenance)[path],
            ) is None,
{
    let ghost made = contents(*instrument);
    let ghost stated = contents(*provenance);
    let mut knobs: Vec<String> = Vec::new();
    assert(names_view(knobs@) =~= Seq::<Seq<char>>::empty());
    flatten_knobs("", instrument, &mut knobs);
    proof {
        reveal_strlit("");
        assert(""@ =~= Seq::<char>::empty());
    }
    let declared = listing(provenance);
    let missing = difference(&knobs, &declared);
    let extra = difference(&declared, &knobs);
    proof {
        let lacks = |path: Seq<char>|
            is_knob(made, Seq::empty(), path) && !stated.contains_key(path);
        let exceeds = |path: Seq<char>|
            stated.contains_key(path) && !is_knob(made, Seq::empty(), path);
        assert forall|path: Seq<char>| #[trigger]
            names_view(missing@).contains(path) == lacks(path) by {
            assert(names_view(knobs@).contains(path) == is_knob(made, Seq::empty(), path));
            assert(names_view(declared@).contains(path) == stated.contains_key(path));
        }
        assert forall|path: Seq<char>| #[trigger]
            names_view(extra@).contains(path) == exceeds(path) by {
            assert(names_view(knobs@).contains(path) == is_knob(made, Seq::empty(), path));
            assert(names_view(declared@).contains(path) == stated.contains_key(path));
        }
        one_list_of_all(names_view(missing@), lacks);
        one_list_of_all(names_view(extra@), exceeds);
    }
    if missing.len() > 0 || extra.len() > 0 {
        return Err(ProvenanceError::Incomplete { missing, extra });
    }
    assert forall|path: Seq<char>| #[trigger]
        is_knob(made, Seq::empty(), path) == stated.contains_key(path) by {
        assert(!names_view(missing@).contains(path));
        assert(!names_view(extra@).contains(path));
        assert(names_view(knobs@).contains(path) == is_knob(made, Seq::empty(), path));
        assert(names_view(declared@).contains(path) == stated.contains_key(path));
    }
    let ghost paths = names_view(declared@);
    let mut i: usize = 0;
    assert(paths.skip(0) =~= paths);
    while i < declared.len()
        invariant
            i <= declared.len(),
            made == contents(*instrument),
            stated == contents(*provenance),
            paths == names_view(declared@),
            paths == listed(stated),
            is_listing(paths, stated),
            lacking(made, stated).len() == 0,
            beyond(made, stated).len() == 0,
            forall|path: Seq<char>| #[trigger]
                names_view(knobs@).contains(path) == is_knob(made, Seq::empty(), path),
            first_fault(made, stated, paths) == first_fault(made, stated, paths.skip(i as int)),
        decreases declared.len() - i,
    {
        let path = declared[i].as_str();
        assert(paths[i as int] == path@);
        assert(paths.contains(path@));
        assert(stated.contains_key(path@));
        assert(paths.skip(i as int)[0] == path@);
        assert(paths.skip(i as int).drop_first() =~= paths.skip(i + 1));
        if let Some(entry) = value_at(provenance, path) {
            if let Some(fault) = find_fault(entry, &knobs, Ghost(made)) {
                return Err(ProvenanceError::Faulty { path: path.to_owned(), fault });
            }
        }
        i += 1;
    }
    assert(paths.skip(i as int).len() == 0);
    assert forall|path: Seq<char>| #[trigger] stated.contains_key(path) implies fault_of(
        made,
        stated[path],
    ) is None by {
        assert(paths.contains(path));
        let k = choose|k: int| 0 <= k < paths.len() && paths[k] == path;
        no_fault_anywhere(made, stated, paths, k);
    }
    Ok(())
}

proof fn no_fault_anywhere(
    instrument: Map<Seq<char>, Tree>,
    provenance: Map<Seq<char>, Tree>,
    paths: Seq<Seq<char>>,
    i: int,
)
    requires
        first_fault(instrument, provenance, paths) is None,
        0 <= i < paths.len(),
    ensures
        fault_of(instrument, provenance[paths[i]]) is None,
    decreases paths.len(),
{
    if i > 0 {
        no_fault_anywhere(instrument, provenance, paths.drop_first(), i - 1);
        assert(paths.drop_first()[i - 1] == paths[i]);
    }
}

/// An entry that says no more than where a knob is from is sound just where it
/// says so: a fitted one its corpus and its window, a derived one the knobs that
/// it is from, at least one of them and all of them there, and a declared one why.
pub proof fn an_entry_says_where_a_knob_is_from(
    instrument: Map<Seq<char>, Tree>,
    kind: Seq<char>,
    one: Seq<char>,
    other: Seq<char>,
    sources: Seq<Seq<char>>,
)
    ensures
        fault_of(
            instrument,
            Tree::List(seq![Tree::Text("fitted"@), Tree::Text(one), Tree::Text(other)]),
        ) is None == (trimmed(one).len() > 0 && trimmed(other).len() > 0),
        fault_of(
            instrument,
            Tree::List(
                seq![
                    Tree::Text("derived"@),
                    Tree::List(sources.map_values(|source: Seq<char>| Tree::Text(source))),
                ],
            ),
        ) is None == (sources.len() > 0 && forall|i: int|
            0 <= i < sources.len() ==> is_knob(instrument, Seq::empty(), #[trigger] sources[i])),
        fault_of(
            instrument,
            Tree::List(seq![Tree::Text("declared"@), Tree::Text(one)]),
        ) is None == (trimmed(one).len() > 0),
        kind != "fitted"@ && kind != "derived"@ && kind != "declared"@ ==> fault_of(
            instrument,
            Tree::List(seq![Tree::Text(kind), Tree::Text(one), Tree::Text(other)]),
        ) == Some(ProvenanceFault::Invalid { cause: Cause::UnknownKind }),
{
    reveal_strlit("fitted");
    reveal_strlit("derived");
    reveal_strlit("declared");
    assert("fitted"@.len() == 6 && "derived"@.len() == 7 && "declared"@.len() == 8);
    let told = Tree::List(sources.map_values(|source: Seq<char>| Tree::Text(source)));
    let entry = Tree::List(seq![Tree::Text("derived"@), told]);
    assert(texts(told)->0 =~= sources);
    assert(part(entry, "from"@, 1) == Some(told));
    assert(part(entry, "accepted_diagnostics"@, 2) is None);
    assert(text_part(entry, "kind"@, 0) == Some("derived"@));
}

/// The first faulty entry, in the order of the paths, is the one that is named.
pub proof fn the_first_faulty_entry_is_named(
    instrument: Map<Seq<char>, Tree>,
    provenance: Map<Seq<char>, Tree>,
    paths: Seq<Seq<char>>,
    i: int,
)
    requires
        0 <= i <= paths.len(),
        forall|k: int| 0 <= k < i ==> fault_of(instrument, provenance[#[trigger] paths[k]]) is None,
        i < paths.len() ==> fault_of(instrument, provenance[paths[i]]) is Some,
    ensures
        first_fault(instrument, provenance, paths) == if i < paths.len() {
            Some((paths[i], fault_of(instrument, provenance[paths[i]])->0))
        } else {
            None
        },
    decreases paths.len(),
{
    if i > 0 {
        let rest = paths.drop_first();
        assert(fault_of(instrument, provenance[paths[0]]) is None);
        assert forall|k: int| 0 <= k < i - 1 implies fault_of(
            instrument,
            provenance[#[trigger] rest[k]],
        ) is None by {
            assert(rest[k] == paths[k + 1]);
        }
        if i < paths.len() {
            assert(rest[i - 1] == paths[i]);
        }
        the_first_faulty_entry_is_named(instrument, provenance, rest, i - 1);
    }
}

/// An entry that is a table has no key but its kind, the parts of its kind and the
/// diagnostics that it accepts; a fitted one has a corpus and a window, and a
/// declared one a rationale, and none of them is blank.
pub proof fn a_table_says_where_a_knob_is_from(
    instrument: Map<Seq<char>, Tree>,
    table: Map<Seq<char>, Tree>,
)
    requires
        table.contains_key("kind"@),
        !table.contains_key("accepted_diagnostics"@),
    ensures
        table["kind"@] == Tree::Text("fitted"@) ==> fault_of(instrument, Tree::Table(table)) is None
            == {
            &&& forall|key: Seq<char>| #[trigger]
                table.contains_key(key) ==> key == "kind"@ || key == "corpus"@ || key == "window"@
            &&& states(table, "corpus"@)
            &&& states(table, "window"@)
        },
        table["kind"@] == Tree::Text("declared"@) ==> fault_of(instrument, Tree::Table(table))
            is None == {
            &&& forall|key: Seq<char>| #[trigger]
                table.contains_key(key) ==> key == "kind"@ || key == "rationale"@
            &&& states(table, "rationale"@)
        },
        !(table["kind"@] is Text) ==> fault_of(instrument, Tree::Table(table)) == Some(
            ProvenanceFault::Invalid { cause: Cause::Mistyped { field: Field::Kind } },
        ),
{
    reveal_strlit("fitted");
    reveal_strlit("derived");
    reveal_strlit("declared");
    assert("fitted"@.len() == 6 && "derived"@.len() == 7 && "declared"@.len() == 8);
    let entry = Tree::Table(table);
    let fitted = seq!["corpus"@, "window"@, "accepted_diagnostics"@];
    let declared = seq!["rationale"@, "accepted_diagnostics"@];
    assert forall|key: Seq<char>| #[trigger] fitted.contains(key) == (key == "corpus"@ || key
        == "window"@ || key == "accepted_diagnostics"@) by {
        assert(fitted[0] == "corpus"@ && fitted[1] == "window"@ && fitted[2]
            == "accepted_diagnostics"@);
    }
    assert forall|key: Seq<char>| #[trigger] declared.contains(key) == (key == "rationale"@ || key
        == "accepted_diagnostics"@) by {
        assert(declared[0] == "rationale"@ && declared[1] == "accepted_diagnostics"@);
    }
    assert(part(entry, "accepted_diagnostics"@, 3) is None);
    assert(part(entry, "accepted_diagnostics"@, 2) is None);
}

/// Whether a table has a text under a key that is not blank.
pub open spec fn states(table: Map<Seq<char>, Tree>, key: Seq<char>) -> bool {
    table.contains_key(key) && table[key] is Text && trimmed(table[key]->Text_0).len() > 0
}

} // verus!
