//! A markdown document as the row of events that its parser reports.

use vstd::prelude::*;

use pulldown_cmark::BlockQuoteKind as Quote;
use pulldown_cmark::CodeBlockKind as Fence;
use pulldown_cmark::Event as Raw;
use pulldown_cmark::LinkType;
use pulldown_cmark::Options;
use pulldown_cmark::Parser;
use pulldown_cmark::Tag as Open;
use pulldown_cmark::TagEnd as Close;

verus! {

/// The parser's extensions that the reference texts use: tables, footnotes,
/// strikethrough, task lists, heading attributes and the GitHub alerts, as the
/// bits of `pulldown_cmark::Options`.
pub const EXTENSIONS: u32 = 2142;

/// The kinds of GitHub alert.
#[derive(Clone, Copy, Debug, PartialEq, Eq, Structural)]
pub enum Alert {
    Note,
    Tip,
    Important,
    Warning,
    Caution,
}

/// How a code block is set off.
#[derive(Debug)]
pub enum CodeBlock<S> {
    Indented,
    Fenced(S),
}

/// What an element is, where it starts. `S` is the kind of text it carries.
#[derive(Debug)]
pub enum Tag<S> {
    Paragraph,
    Heading(u8),
    BlockQuote(Option<Alert>),
    CodeBlock(CodeBlock<S>),
    HtmlBlock,
    List(Option<u64>),
    Item,
    FootnoteDefinition(S),
    DefinitionList,
    DefinitionListTitle,
    DefinitionListDefinition,
    Table,
    TableHead,
    TableRow,
    TableCell,
    Emphasis,
    Strong,
    Strikethrough,
    Superscript,
    Subscript,
    Link { email: bool, dest_url: S },
    Image,
    MetadataBlock,
}

/// What an element is, where it ends.
#[derive(Clone, Copy, Debug, PartialEq, Eq, Structural)]
pub enum TagEnd {
    Paragraph,
    Heading(u8),
    BlockQuote,
    CodeBlock,
    HtmlBlock,
    List,
    Item,
    FootnoteDefinition,
    DefinitionList,
    DefinitionListTitle,
    DefinitionListDefinition,
    Table,
    TableHead,
    TableRow,
    TableCell,
    Emphasis,
    Strong,
    Strikethrough,
    Superscript,
    Subscript,
    Link,
    Image,
    MetadataBlock,
}

/// One event of a document.
#[derive(Debug)]
pub enum DocEvent<S> {
    Start(Tag<S>),
    End(TagEnd),
    Text(S),
    Code(S),
    InlineMath(S),
    DisplayMath(S),
    Html(S),
    InlineHtml(S),
    FootnoteReference(S),
    SoftBreak,
    HardBreak,
    Rule,
    TaskListMarker(bool),
}

impl View for CodeBlock<String> {
    type V = CodeBlock<Seq<char>>;

    open spec fn view(&self) -> CodeBlock<Seq<char>> {
        match self {
            CodeBlock::Indented => CodeBlock::Indented,
            CodeBlock::Fenced(info) => CodeBlock::Fenced(info@),
        }
    }
}

impl View for Tag<String> {
    type V = Tag<Seq<char>>;

    open spec fn view(&self) -> Tag<Seq<char>> {
        match self {
            Tag::Paragraph => Tag::Paragraph,
            Tag::Heading(level) => Tag::Heading(*level),
            Tag::BlockQuote(alert) => Tag::BlockQuote(*alert),
            Tag::CodeBlock(block) => Tag::CodeBlock(block@),
            Tag::HtmlBlock => Tag::HtmlBlock,
            Tag::List(start) => Tag::List(*start),
            Tag::Item => Tag::Item,
            Tag::FootnoteDefinition(name) => Tag::FootnoteDefinition(name@),
            Tag::DefinitionList => Tag::DefinitionList,
            Tag::DefinitionListTitle => Tag::DefinitionListTitle,
            Tag::DefinitionListDefinition => Tag::DefinitionListDefinition,
            Tag::Table => Tag::Table,
            Tag::TableHead => Tag::TableHead,
            Tag::TableRow => Tag::TableRow,
            Tag::TableCell => Tag::TableCell,
            Tag::Emphasis => Tag::Emphasis,
            Tag::Strong => Tag::Strong,
            Tag::Strikethrough => Tag::Strikethrough,
            Tag::Superscript => Tag::Superscript,
            Tag::Subscript => Tag::Subscript,
            Tag::Link { email, dest_url } => Tag::Link { email: *email, dest_url: dest_url@ },
            Tag::Image => Tag::Image,
            Tag::MetadataBlock => Tag::MetadataBlock,
        }
    }
}

impl View for DocEvent<String> {
    type V = DocEvent<Seq<char>>;

    open spec fn view(&self) -> DocEvent<Seq<char>> {
        match self {
            DocEvent::Start(tag) => DocEvent::Start(tag@),
            DocEvent::End(tag) => DocEvent::End(*tag),
            DocEvent::Text(text) => DocEvent::Text(text@),
            DocEvent::Code(text) => DocEvent::Code(text@),
            DocEvent::InlineMath(text) => DocEvent::InlineMath(text@),
            DocEvent::DisplayMath(text) => DocEvent::DisplayMath(text@),
            DocEvent::Html(text) => DocEvent::Html(text@),
            DocEvent::InlineHtml(text) => DocEvent::InlineHtml(text@),
            DocEvent::FootnoteReference(name) => DocEvent::FootnoteReference(name@),
            DocEvent::SoftBreak => DocEvent::SoftBreak,
            DocEvent::HardBreak => DocEvent::HardBreak,
            DocEvent::Rule => DocEvent::Rule,
            DocEvent::TaskListMarker(checked) => DocEvent::TaskListMarker(*checked),
        }
    }
}

/// The events, each by its view.
pub open spec fn events_view(events: Seq<DocEvent<String>>) -> Seq<DocEvent<Seq<char>>> {
    Seq::new(events.len(), |i: int| events[i]@)
}

/// Which of the converters below knows an event. Each event is known to one.
pub open spec fn converter(event: DocEvent<Seq<char>>) -> int {
    match event {
        DocEvent::Start(tag) => match tag {
            Tag::BlockQuote(_) => 1,
            Tag::Paragraph | Tag::Heading(_) | Tag::CodeBlock(_) | Tag::HtmlBlock | Tag::List(_)
            | Tag::Item => 2,
            Tag::FootnoteDefinition(_) | Tag::DefinitionList | Tag::DefinitionListTitle
            | Tag::DefinitionListDefinition | Tag::MetadataBlock | Tag::Image
            | Tag::Link { .. } => 3,
            Tag::Table | Tag::TableHead | Tag::TableRow | Tag::TableCell => 4,
            Tag::Emphasis | Tag::Strong | Tag::Strikethrough | Tag::Superscript
            | Tag::Subscript => 4,
        },
        DocEvent::End(tag) => match tag {
            TagEnd::Paragraph | TagEnd::Heading(_) | TagEnd::BlockQuote | TagEnd::CodeBlock
            | TagEnd::HtmlBlock | TagEnd::List | TagEnd::Item => 5,
            TagEnd::FootnoteDefinition | TagEnd::DefinitionList | TagEnd::DefinitionListTitle
            | TagEnd::DefinitionListDefinition | TagEnd::MetadataBlock | TagEnd::Image
            | TagEnd::Link => 6,
            TagEnd::Table | TagEnd::TableHead | TagEnd::TableRow | TagEnd::TableCell => 7,
            TagEnd::Emphasis | TagEnd::Strong | TagEnd::Strikethrough | TagEnd::Superscript
            | TagEnd::Subscript => 7,
        },
        DocEvent::SoftBreak | DocEvent::HardBreak | DocEvent::Rule | DocEvent::TaskListMarker(_) => 8,
        _ => 9,
    }
}

/// `pulldown_cmark::Event`.
#[verifier::external_type_specification]
#[verifier::external_body]
pub struct ExEvent<'a>(pulldown_cmark::Event<'a>);

/// The events that the parser reports of a text, with the extensions that the
/// bits select.
pub uninterp spec fn parsed(markdown: Seq<char>, extensions: u32) -> Seq<DocEvent<Seq<char>>>;

/// What a row of the parser's events holds.
pub uninterp spec fn held(events: Vec<pulldown_cmark::Event<'_>>) -> Seq<DocEvent<Seq<char>>>;

/// The events of `pulldown_cmark::Parser::new_ext`, in order. They depend on the
/// text and on the options alone.
#[verifier::external_body]
fn parse<'a>(markdown: &'a str, extensions: u32) -> (events: Vec<pulldown_cmark::Event<'a>>)
    ensures
        held(events) == parsed(markdown@, extensions),
        held(events).len() == events@.len(),
{
    Parser::new_ext(markdown, Options::from_bits_truncate(extensions)).collect()
}

/// The event at `i` where it is a `pulldown_cmark::Event` that opens a block
/// quote, with the alert that the quote is.
#[verifier::external_body]
fn quote_start(events: &Vec<pulldown_cmark::Event<'_>>, i: usize) -> (event: Option<DocEvent<String>>)
    requires
        i < events@.len(),
    ensures
        event is Some == (converter(held(*events)[i as int]) == 1),
        event is Some ==> event->0@ == held(*events)[i as int],
{
    let Raw::Start(Open::BlockQuote(kind)) = &events[i] else { return None };
    let alert = match kind {
        Some(Quote::Note) => Some(Alert::Note),
        Some(Quote::Tip) => Some(Alert::Tip),
        Some(Quote::Important) => Some(Alert::Important),
        Some(Quote::Warning) => Some(Alert::Warning),
        Some(Quote::Caution) => Some(Alert::Caution),
        None => None,
    };
    Some(DocEvent::Start(Tag::BlockQuote(alert)))
}

/// The event at `i` where it is a `pulldown_cmark::Event` that opens a
/// paragraph, a heading, a code or HTML block, a list or an item. A heading's
/// level is its number.
#[verifier::external_body]
fn block_start(events: &Vec<pulldown_cmark::Event<'_>>, i: usize) -> (event: Option<DocEvent<String>>)
    requires
        i < events@.len(),
    ensures
        event is Some == (converter(held(*events)[i as int]) == 2),
        event is Some ==> event->0@ == held(*events)[i as int],
{
    let Raw::Start(tag) = &events[i] else { return None };
    match tag {
        Open::Paragraph => Some(DocEvent::Start(Tag::Paragraph)),
        Open::Heading { level, .. } => Some(DocEvent::Start(Tag::Heading(*level as u8))),
        Open::CodeBlock(Fence::Indented) => Some(DocEvent::Start(Tag::CodeBlock(CodeBlock::Indented))),
        Open::CodeBlock(Fence::Fenced(info)) => Some(DocEvent::Start(Tag::CodeBlock(CodeBlock::Fenced(info.to_string())))),
        Open::HtmlBlock => Some(DocEvent::Start(Tag::HtmlBlock)),
        Open::List(start) => Some(DocEvent::Start(Tag::List(*start))),
        Open::Item => Some(DocEvent::Start(Tag::Item)),
        _ => None,
    }
}

/// The event at `i` where it is a `pulldown_cmark::Event` that opens a footnote
/// definition, a definition list or a part of one, a metadata block, an image or
/// a link.
#[verifier::external_body]
fn note_start(events: &Vec<pulldown_cmark::Event<'_>>, i: usize) -> (event: Option<DocEvent<String>>)
    requires
        i < events@.len(),
    ensures
        event is Some == (converter(held(*events)[i as int]) == 3),
        event is Some ==> event->0@ == held(*events)[i as int],
{
    let Raw::Start(tag) = &events[i] else { return None };
    let own = match tag {
        Open::FootnoteDefinition(name) => Tag::FootnoteDefinition(name.to_string()),
        Open::DefinitionList => Tag::DefinitionList,
        Open::DefinitionListTitle => Tag::DefinitionListTitle,
        Open::DefinitionListDefinition => Tag::DefinitionListDefinition,
        Open::MetadataBlock(_) => Tag::MetadataBlock,
        Open::Image { .. } => Tag::Image,
        Open::Link { link_type: LinkType::Email, dest_url, .. } => Tag::Link { email: true, dest_url: dest_url.to_string() },
        Open::Link { dest_url, .. } => Tag::Link { email: false, dest_url: dest_url.to_string() },
        _ => return None,
    };
    Some(DocEvent::Start(own))
}

/// The event at `i` where it is a `pulldown_cmark::Event` that opens a table or
/// a part of one, or a run of emphasis.
#[verifier::external_body]
fn span_start(events: &Vec<pulldown_cmark::Event<'_>>, i: usize) -> (event: Option<DocEvent<String>>)
    requires
        i < events@.len(),
    ensures
        event is Some == (converter(held(*events)[i as int]) == 4),
        event is Some ==> event->0@ == held(*events)[i as int],
{
    let Raw::Start(tag) = &events[i] else { return None };
    match tag {
        Open::Table(_) => Some(DocEvent::Start(Tag::Table)),
        Open::TableHead => Some(DocEvent::Start(Tag::TableHead)),
        Open::TableRow => Some(DocEvent::Start(Tag::TableRow)),
        Open::TableCell => Some(DocEvent::Start(Tag::TableCell)),
        Open::Emphasis => Some(DocEvent::Start(Tag::Emphasis)),
        Open::Strong => Some(DocEvent::Start(Tag::Strong)),
        Open::Strikethrough => Some(DocEvent::Start(Tag::Strikethrough)),
        Open::Superscript => Some(DocEvent::Start(Tag::Superscript)),
        Open::Subscript => Some(DocEvent::Start(Tag::Subscript)),
        _ => None,
    }
}

/// The event at `i` where it is a `pulldown_cmark::Event` that closes a
/// paragraph, a heading, a block quote, a code or HTML block, a list or an item.
#[verifier::external_body]
fn block_end(events: &Vec<pulldown_cmark::Event<'_>>, i: usize) -> (event: Option<DocEvent<String>>)
    requires
        i < events@.len(),
    ensures
        event is Some == (converter(held(*events)[i as int]) == 5),
        event is Some ==> event->0@ == held(*events)[i as int],
{
    let Raw::End(tag) = &events[i] else { return None };
    match tag {
        Close::Paragraph => Some(DocEvent::End(TagEnd::Paragraph)),
        Close::Heading(level) => Some(DocEvent::End(TagEnd::Heading(*level as u8))),
        Close::BlockQuote(_) => Some(DocEvent::End(TagEnd::BlockQuote)),
        Close::CodeBlock => Some(DocEvent::End(TagEnd::CodeBlock)),
        Close::HtmlBlock => Some(DocEvent::End(TagEnd::HtmlBlock)),
        Close::List(_) => Some(DocEvent::End(TagEnd::List)),
        Close::Item => Some(DocEvent::End(TagEnd::Item)),
        _ => None,
    }
}

/// The event at `i` where it is a `pulldown_cmark::Event` that closes a footnote
/// definition, a definition list or a part of one, a metadata block, an image or
/// a link.
#[verifier::external_body]
fn note_end(events: &Vec<pulldown_cmark::Event<'_>>, i: usize) -> (event: Option<DocEvent<String>>)
    requires
        i < events@.len(),
    ensures
        event is Some == (converter(held(*events)[i as int]) == 6),
        event is Some ==> event->0@ == held(*events)[i as int],
{
    let Raw::End(tag) = &events[i] else { return None };
    match tag {
        Close::FootnoteDefinition => Some(DocEvent::End(TagEnd::FootnoteDefinition)),
        Close::DefinitionList => Some(DocEvent::End(TagEnd::DefinitionList)),
        Close::DefinitionListTitle => Some(DocEvent::End(TagEnd::DefinitionListTitle)),
        Close::DefinitionListDefinition => Some(DocEvent::End(TagEnd::DefinitionListDefinition)),
        Close::MetadataBlock(_) => Some(DocEvent::End(TagEnd::MetadataBlock)),
        Close::Image => Some(DocEvent::End(TagEnd::Image)),
        Close::Link => Some(DocEvent::End(TagEnd::Link)),
        _ => None,
    }
}

/// The event at `i` where it is a `pulldown_cmark::Event` that closes a table or
/// a part of one, or a run of emphasis.
#[verifier::external_body]
fn span_end(events: &Vec<pulldown_cmark::Event<'_>>, i: usize) -> (event: Option<DocEvent<String>>)
    requires
        i < events@.len(),
    ensures
        event is Some == (converter(held(*events)[i as int]) == 7),
        event is Some ==> event->0@ == held(*events)[i as int],
{
    let Raw::End(tag) = &events[i] else { return None };
    match tag {
        Close::Table => Some(DocEvent::End(TagEnd::Table)),
        Close::TableHead => Some(DocEvent::End(TagEnd::TableHead)),
        Close::TableRow => Some(DocEvent::End(TagEnd::TableRow)),
        Close::TableCell => Some(DocEvent::End(TagEnd::TableCell)),
        Close::Emphasis => Some(DocEvent::End(TagEnd::Emphasis)),
        Close::Strong => Some(DocEvent::End(TagEnd::Strong)),
        Close::Strikethrough => Some(DocEvent::End(TagEnd::Strikethrough)),
        Close::Superscript => Some(DocEvent::End(TagEnd::Superscript)),
        Close::Subscript => Some(DocEvent::End(TagEnd::Subscript)),
        _ => None,
    }
}

/// The event at `i` where it is a `pulldown_cmark::Event` that is a break, a
/// rule or a task marker.
#[verifier::external_body]
fn mark(events: &Vec<pulldown_cmark::Event<'_>>, i: usize) -> (event: Option<DocEvent<String>>)
    requires
        i < events@.len(),
    ensures
        event is Some == (converter(held(*events)[i as int]) == 8),
        event is Some ==> event->0@ == held(*events)[i as int],
{
    match &events[i] {
        Raw::SoftBreak => Some(DocEvent::SoftBreak),
        Raw::HardBreak => Some(DocEvent::HardBreak),
        Raw::Rule => Some(DocEvent::Rule),
        Raw::TaskListMarker(checked) => Some(DocEvent::TaskListMarker(*checked)),
        _ => None,
    }
}

/// The event at `i` where it is a `pulldown_cmark::Event` that carries text of
/// its own: text, code, mathematics, HTML or a footnote's name.
#[verifier::external_body]
fn words(events: &Vec<pulldown_cmark::Event<'_>>, i: usize) -> (event: Option<DocEvent<String>>)
    requires
        i < events@.len(),
    ensures
        event is Some == (converter(held(*events)[i as int]) == 9),
        event is Some ==> event->0@ == held(*events)[i as int],
{
    match &events[i] {
        Raw::Text(text) => Some(DocEvent::Text(text.to_string())),
        Raw::Code(text) => Some(DocEvent::Code(text.to_string())),
        Raw::InlineMath(text) => Some(DocEvent::InlineMath(text.to_string())),
        Raw::DisplayMath(text) => Some(DocEvent::DisplayMath(text.to_string())),
        Raw::Html(text) => Some(DocEvent::Html(text.to_string())),
        Raw::InlineHtml(text) => Some(DocEvent::InlineHtml(text.to_string())),
        Raw::FootnoteReference(name) => Some(DocEvent::FootnoteReference(name.to_string())),
        _ => None,
    }
}

/// The event at `i`.
fn event_at(events: &Vec<pulldown_cmark::Event<'_>>, i: usize) -> (event: DocEvent<String>)
    requires
        i < events@.len(),
    ensures
        event@ == held(*events)[i as int],
{
    if let Some(event) = words(events, i) {
        return event;
    }
    if let Some(event) = mark(events, i) {
        return event;
    }
    if let Some(event) = block_start(events, i) {
        return event;
    }
    if let Some(event) = block_end(events, i) {
        return event;
    }
    if let Some(event) = span_start(events, i) {
        return event;
    }
    if let Some(event) = span_end(events, i) {
        return event;
    }
    if let Some(event) = note_start(events, i) {
        return event;
    }
    if let Some(event) = note_end(events, i) {
        return event;
    }
    quote_start(events, i).unwrap()
}

/// The events of a document, in order.
pub fn parse_events(markdown: &str) -> (events: Vec<DocEvent<String>>)
    ensures
        events_view(events@) == parsed(markdown@, EXTENSIONS),
{
    let raw = parse(markdown, EXTENSIONS);
    let mut events: Vec<DocEvent<String>> = Vec::new();
    let mut i: usize = 0;
    while i < raw.len()
        invariant
            i <= raw@.len(),
            held(raw).len() == raw@.len(),
            events_view(events@) =~= held(raw).take(i as int),
        decreases raw@.len() - i,
    {
        let event = event_at(&raw, i);
        let ghost before = events_view(events@);
        let ghost viewed = event@;
        events.push(event);
        assert(events_view(events@) =~= before.push(viewed));
        i += 1;
    }
    assert(held(raw).take(i as int) =~= held(raw));
    events
}

} // verus!
