//! The bundled reference texts: what there is, and how one of them is shown.

use vstd::prelude::*;

use crate::ansi::visible;
use crate::markdown::parsed;
use crate::markdown::EXTENSIONS;
use crate::page::pad;
use crate::page::padded;
use crate::render::page_of;
use crate::render::render;

verus! {

/// The topics that there is a text on.
#[derive(Clone, Copy, Debug, PartialEq, Eq, Structural)]
pub enum ManTopic {
    /// The command line.
    Cli,
    /// The run knobs.
    Config,
    /// How the system works, subsystem by subsystem.
    Architecture,
    /// The havoc model.
    Havoc,
    /// The simulated clock.
    Clock,
    /// The presets that ship with the venue.
    Presets,
    /// Netting and hedging.
    OmsTypes,
}

/// The text on each topic.
pub struct ManShelf {
    pub cli: String,
    pub config: String,
    pub architecture: String,
    pub havoc: String,
    pub clock: String,
    pub presets: String,
    pub oms_types: String,
}

/// Every topic, in the order in which they are listed.
pub open spec fn topics() -> Seq<ManTopic> {
    seq![
        ManTopic::Cli,
        ManTopic::Config,
        ManTopic::Architecture,
        ManTopic::Havoc,
        ManTopic::Clock,
        ManTopic::Presets,
        ManTopic::OmsTypes,
    ]
}

/// A topic's name on the command line.
pub open spec fn topic_name(topic: ManTopic) -> Seq<char> {
    match topic {
        ManTopic::Cli => "cli"@,
        ManTopic::Config => "config"@,
        ManTopic::Architecture => "architecture"@,
        ManTopic::Havoc => "havoc"@,
        ManTopic::Clock => "clock"@,
        ManTopic::Presets => "presets"@,
        ManTopic::OmsTypes => "oms-types"@,
    }
}

/// What a topic is about, in one line.
pub open spec fn topic_summary(topic: ManTopic) -> Seq<char> {
    match topic {
        ManTopic::Cli => "the mogwai command line"@,
        ManTopic::Config => "the mogwai.toml run knobs"@,
        ManTopic::Architecture => "how the system works, subsystem by subsystem"@,
        ManTopic::Havoc => "the havoc model: every divergence and the four surfaces"@,
        ManTopic::Clock => "the simulated clock for accelerated forward testing"@,
        ManTopic::Presets => "choosing one of the five instrument presets, and reading its provenance"@,
        ManTopic::OmsTypes => "the run-level oms_type choice, and how netting and hedging differ"@,
    }
}

/// The text on a topic.
pub open spec fn topic_text(shelf: ManShelf, topic: ManTopic) -> Seq<char> {
    match topic {
        ManTopic::Cli => shelf.cli@,
        ManTopic::Config => shelf.config@,
        ManTopic::Architecture => shelf.architecture@,
        ManTopic::Havoc => shelf.havoc@,
        ManTopic::Clock => shelf.clock@,
        ManTopic::Presets => shelf.presets@,
        ManTopic::OmsTypes => shelf.oms_types@,
    }
}

/// The length of the longest of these topics' names.
pub open spec fn widest(of: Seq<ManTopic>) -> nat
    decreases of.len(),
{
    if of.len() == 0 {
        0
    } else if topic_name(of.last()).len() > widest(of.drop_last()) {
        topic_name(of.last()).len()
    } else {
        widest(of.drop_last())
    }
}

/// One line for each of these topics: its name, padded, and its summary.
pub open spec fn topic_lines(of: Seq<ManTopic>, width: nat) -> Seq<char>
    decreases of.len(),
{
    if of.len() == 0 {
        Seq::<char>::empty()
    } else {
        topic_lines(of.drop_last(), width) + "  "@ + padded(topic_name(of.last()), width) + "  "@
            + topic_summary(of.last()) + "\n"@
    }
}

/// The list of topics.
pub open spec fn listing() -> Seq<char> {
    "Bundled reference docs. Run `mogwai man <topic>` to read one.\n\n"@ + topic_lines(
        topics(),
        widest(topics()),
    )
}

/// A topic's name on the command line.
pub fn name(topic: ManTopic) -> (text: &'static str)
    ensures
        text@ == topic_name(topic),
{
    match topic {
        ManTopic::Cli => "cli",
        ManTopic::Config => "config",
        ManTopic::Architecture => "architecture",
        ManTopic::Havoc => "havoc",
        ManTopic::Clock => "clock",
        ManTopic::Presets => "presets",
        ManTopic::OmsTypes => "oms-types",
    }
}

/// What a topic is about, in one line.
pub fn summary(topic: ManTopic) -> (text: &'static str)
    ensures
        text@ == topic_summary(topic),
{
    match topic {
        ManTopic::Cli => "the mogwai command line",
        ManTopic::Config => "the mogwai.toml run knobs",
        ManTopic::Architecture => "how the system works, subsystem by subsystem",
        ManTopic::Havoc => "the havoc model: every divergence and the four surfaces",
        ManTopic::Clock => "the simulated clock for accelerated forward testing",
        ManTopic::Presets => "choosing one of the five instrument presets, and reading its provenance",
        ManTopic::OmsTypes => "the run-level oms_type choice, and how netting and hedging differ",
    }
}

/// The text on a topic.
pub fn content(shelf: &ManShelf, topic: ManTopic) -> (text: &str)
    ensures
        text@ == topic_text(*shelf, topic),
{
    match topic {
        ManTopic::Cli => shelf.cli.as_str(),
        ManTopic::Config => shelf.config.as_str(),
        ManTopic::Architecture => shelf.architecture.as_str(),
        ManTopic::Havoc => shelf.havoc.as_str(),
        ManTopic::Clock => shelf.clock.as_str(),
        ManTopic::Presets => shelf.presets.as_str(),
        ManTopic::OmsTypes => shelf.oms_types.as_str(),
    }
}

fn all_topics() -> (of: Vec<ManTopic>)
    ensures
        of@ == topics(),
{
    let of = vec![
        ManTopic::Cli,
        ManTopic::Config,
        ManTopic::Architecture,
        ManTopic::Havoc,
        ManTopic::Clock,
        ManTopic::Presets,
        ManTopic::OmsTypes,
    ];
    assert(of@ =~= topics());
    of
}

/// The list of topics: each name, padded to a common width, and its summary.
pub fn list_topics() -> (out: String)
    ensures
        out@ == listing(),
{
    let of = all_topics();
    let mut width: usize = 0;
    let mut i: usize = 0;
    while i < of.len()
        invariant
            i <= of.len(),
            width == widest(of@.take(i as int)),
        decreases of.len() - i,
    {
        assert(of@.take(i + 1).drop_last() =~= of@.take(i as int));
        let len: usize = name(of[i]).unicode_len();
        if len > width {
            width = len;
        }
        i += 1;
    }
    assert(of@.take(i as int) =~= of@);
    let mut out = "Bundled reference docs. Run `mogwai man <topic>` to read one.\n\n".to_owned();
    let ghost head = out@;
    let mut i: usize = 0;
    assert(out@ =~= head + topic_lines(of@.take(0), width as nat));
    while i < of.len()
        invariant
            i <= of.len(),
            out@ == head + topic_lines(of@.take(i as int), width as nat),
        decreases of.len() - i,
    {
        assert(of@.take(i + 1).drop_last() =~= of@.take(i as int));
        out.append("  ");
        out.append(pad(name(of[i]), width).as_str());
        out.append("  ");
        out.append(summary(of[i]));
        out.append("\n");
        i += 1;
        assert(out@ =~= head + topic_lines(of@.take(i as int), width as nat));
    }
    assert(of@.take(i as int) =~= of@);
    out
}

/// What is printed: the text on the topic, or the list of topics where none is
/// named.
pub fn run(shelf: &ManShelf, topic: Option<ManTopic>, no_color: bool) -> (out: String)
    ensures
        out@ == (match topic {
            Some(topic) => if no_color {
                visible(page_of(parsed(topic_text(*shelf, topic), EXTENSIONS)), false)
            } else {
                page_of(parsed(topic_text(*shelf, topic), EXTENSIONS))
            },
            None => listing(),
        }),
{
    match topic {
        Some(topic) => render(content(shelf, topic), no_color),
        None => list_topics(),
    }
}

/// Every topic is listed, and none of them twice.
pub proof fn every_topic_is_listed(topic: ManTopic)
    ensures
        topics().len() == 7,
        topics().contains(topic),
        topics().no_duplicates(),
{
    let of = topics();
    match topic {
        ManTopic::Cli => assert(of[0] == topic),
        ManTopic::Config => assert(of[1] == topic),
        ManTopic::Architecture => assert(of[2] == topic),
        ManTopic::Havoc => assert(of[3] == topic),
        ManTopic::Clock => assert(of[4] == topic),
        ManTopic::Presets => assert(of[5] == topic),
        ManTopic::OmsTypes => assert(of[6] == topic),
    }
}

/// A topic is known by its name: no two have the same.
pub proof fn a_topic_is_known_by_its_name(one: ManTopic, other: ManTopic)
    requires
        topic_name(one) == topic_name(other),
    ensures
        one == other,
{
    reveal_strlit("cli");
    reveal_strlit("config");
    reveal_strlit("architecture");
    reveal_strlit("havoc");
    reveal_strlit("clock");
    reveal_strlit("presets");
    reveal_strlit("oms-types");
    assert("cli"@.len() == 3 && "config"@.len() == 6 && "architecture"@.len() == 12);
    assert("havoc"@.len() == 5 && "clock"@.len() == 5 && "presets"@.len() == 7);
    assert("oms-types"@.len() == 9);
    assert("havoc"@[0] == 'h');
    assert("clock"@[0] == 'c');
}

/// Each text on the shelf is that of one topic, and of no other.
pub proof fn each_topic_has_its_own_text(shelf: ManShelf)
    ensures
        topics().map_values(|topic: ManTopic| topic_text(shelf, topic)) == seq![
            shelf.cli@,
            shelf.config@,
            shelf.architecture@,
            shelf.havoc@,
            shelf.clock@,
            shelf.presets@,
            shelf.oms_types@,
        ],
        topics().map_values(|topic: ManTopic| topic_name(topic)) == seq![
            "cli"@,
            "config"@,
            "architecture"@,
            "havoc"@,
            "clock"@,
            "presets"@,
            "oms-types"@,
        ],
{
}

} // verus!
