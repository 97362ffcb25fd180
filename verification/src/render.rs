//! The bundled reference texts on a terminal: headings, code, tables, lists,
//! quotes with their GitHub alerts, and footnotes, styled or plain.

use vstd::prelude::*;

use crate::ansi::esc;
use crate::ansi::paint;
use crate::ansi::painted;
use crate::ansi::strip_ansi;
use crate::ansi::stripped_text_is_escape_free;
use crate::ansi::visible;
use crate::ansi::Ink;
use crate::ansi::Style;
use crate::ansi::Weight;
use crate::markdown::events_view;
use crate::markdown::parse_events;
use crate::markdown::parsed;
use crate::markdown::Alert;
use crate::markdown::CodeBlock;
use crate::markdown::DocEvent;
use crate::markdown::Tag;
use crate::markdown::TagEnd;
use crate::markdown::EXTENSIONS;
use crate::page::own_ink;
use crate::page::text_until;
use crate::page::until;
use crate::page::Draft;
use crate::page::ListState;
use crate::page::Page;
use crate::page::Setting;
use crate::page::TerminalEmitter;
use crate::page::Theme;
use crate::text::decimal;
use crate::text::ends_with_char;
use crate::text::push_decimal;
use crate::text::push_repeated;
use crate::text::repeated;
use crate::text::repeated_text;
use crate::text::same_text;
use crate::text::to_upper;
use crate::text::trim;
use crate::text::trimmed;
use crate::text::upper;

verus! {

/// An alert's sign, its label and its colour.
pub open spec fn alert_head(alert: Alert) -> (Seq<char>, Seq<char>, Ink) {
    match alert {
        Alert::Note => ("i"@, "NOTE"@, Ink::BrightBlue),
        Alert::Tip => ("*"@, "TIP"@, Ink::BrightGreen),
        Alert::Important => ("!"@, "IMPORTANT"@, Ink::BrightMagenta),
        Alert::Warning => ("!"@, "WARNING"@, Ink::BrightYellow),
        Alert::Caution => ("x"@, "CAUTION"@, Ink::BrightRed),
    }
}

/// A task's box.
pub open spec fn task_box(checked: bool) -> Seq<char> {
    if checked {
        "[x] "@
    } else {
        "[ ] "@
    }
}

/// The lists around what follows the start of an element.
pub open spec fn lists_started(
    lists: Seq<ListState>,
    tag: Tag<Seq<char>>,
) -> Seq<ListState> {
    match tag {
        Tag::List(Some(start)) => lists.push(ListState::Ordered { index: start as u128 }),
        Tag::List(None) => lists.push(ListState::Unordered),
        _ => lists,
    }
}

/// The lists around what follows the end of an element. The end of an item
/// moves its list on to the next number.
pub open spec fn lists_ended(lists: Seq<ListState>, tag: TagEnd) -> Seq<ListState> {
    let depth = lists.len();
    if depth == 0 {
        lists
    } else if tag is List {
        lists.drop_last()
    } else if tag is Item && lists.last() is Ordered {
        lists.update(
            depth - 1,
            ListState::Ordered { index: (lists.last()->index + 1) as u128 },
        )
    } else {
        lists
    }
}

impl Page {
    /// The style that running text has here.
    pub open spec fn text_style(self) -> Option<Style> {
        if self.at.in_code_block {
            Some(self.theme.code)
        } else if self.at.in_heading {
            if self.at.heading_level == Some(1u8) {
                Some(self.theme.heading.bolded().raised())
            } else {
                Some(self.theme.heading.bolded())
            }
        } else if self.at.in_block_quote {
            Some(self.theme.block_quote)
        } else if self.at.in_table_head {
            Some(self.theme.table_header)
        } else if self.at.in_link {
            Some(self.theme.link.bolded())
        } else {
            None
        }
    }

    /// The page with running text written on. A first-level heading starts with
    /// a styled space.
    #[verifier::opaque]
    pub open spec fn with_text(self, text: Seq<char>) -> Page {
        match self.text_style() {
            Some(style) => if self.at.heading_level == Some(1u8) && !self.at.h1_started {
                self.put(painted(" "@, style)).set(Setting { h1_started: true, ..self.at }).put(
                    painted(text, style),
                )
            } else {
                self.put(painted(text, style))
            },
            None => self.put(text),
        }
    }

    /// The marker of an item here: indented by the depth of its list, with a
    /// number in an ordered list and an asterisk in any other.
    pub open spec fn item_marker(self) -> Seq<char> {
        let depth = self.list_stack.len();
        repeated_text("  "@, if depth > 0 {
            (depth - 1) as nat
        } else {
            0
        }) + painted(
            if depth > 0 && self.list_stack.last() is Ordered {
                decimal(self.list_stack.last()->index as nat) + ". "@
            } else {
                "* "@
            },
            self.theme.list_marker,
        )
    }

    /// The page after a heading has started. All but the first level show as
    /// many hash signs as their number.
    #[verifier::opaque]
    pub open spec fn heading_open(self, level: u8) -> Page {
        let head = self.fresh_line().set(
            Setting {
                in_heading: true,
                heading_level: Some(level),
                h1_started: false,
                ..self.at
            },
        );
        if level != 1 {
            head.put(painted(repeated('#', level as nat), self.theme.heading)).put(" "@)
        } else {
            head
        }
    }

    /// The page after a table has started.
    #[verifier::opaque]
    pub open spec fn table_open(self) -> Page {
        self.drafted(Draft { header: None, rows: Seq::empty(), ..self.table }).fresh_line().set(
            Setting { in_table: true, ..self.at },
        )
    }

    /// The page after a cell has started.
    #[verifier::opaque]
    pub open spec fn cell_open(self) -> Page {
        self.drafted(Draft { cell: Seq::empty(), ..self.table }).set(
            Setting { in_table_cell: true, ..self.at },
        )
    }

    /// The page after a block quote has started: a bar, and where it is an
    /// alert, the alert's head with another bar under it.
    #[verifier::opaque]
    pub open spec fn quote_open(self, alert: Option<Alert>) -> Page {
        let bar = painted("|"@, self.theme.quote_bar);
        let barred = self.gap_closed().fresh_line().set(
            Setting { in_block_quote: true, ..self.at },
        ).put(bar);
        match alert {
            Some(kind) => {
                let (sign, label, colour) = alert_head(kind);
                barred.put(" "@).put(sign).put(" "@).put(
                    painted(label, own_ink(colour, Weight::Bold)),
                ).put("\n"@).put(bar).put(" "@)
            },
            None => barred.put(" "@),
        }
    }

    /// The page after a code block has started: a fence, with the code's
    /// language where there is one.
    #[verifier::opaque]
    pub open spec fn code_open(self, block: CodeBlock<Seq<char>>) -> Page {
        let open = self.fresh_line().set(Setting { in_code_block: true, ..self.at });
        match block {
            CodeBlock::Fenced(info) => open.put("```"@).put(until(info, ' ')).put("\n"@).coded(
                until(info, ' '),
                Seq::empty(),
            ),
            CodeBlock::Indented => open.put("```\n"@).coded(Seq::empty(), Seq::empty()),
        }
    }

    /// The page after an item has started. Its marker waits for the item's text,
    /// and the item's line counts as started.
    #[verifier::opaque]
    pub open spec fn item_open(self) -> Page {
        self.fresh_line().set(Setting { end_newline: true, ..self.at }).waiting(
            Some(self.item_marker()),
        )
    }

    /// The page after a link has started.
    #[verifier::opaque]
    pub open spec fn link_open(self, email: bool, dest_url: Seq<char>) -> Page {
        self.linked(
            if email {
                "mailto:"@ + dest_url
            } else {
                dest_url
            },
        ).set(Setting { in_link: true, ..self.at })
    }

    /// The page after a footnote's definition has started.
    #[verifier::opaque]
    pub open spec fn note_open(self, name: Seq<char>) -> Page {
        self.noted(name).fresh_line().put(
            painted(self.footnote_label(name) + ": "@, self.theme.footnote),
        )
    }

    /// The page after an element that is no image has started.
    #[verifier::opaque]
    pub open spec fn started(self, tag: Tag<Seq<char>>) -> Page {
        match tag {
            Tag::HtmlBlock | Tag::Image => self,
            Tag::Paragraph | Tag::DefinitionList | Tag::DefinitionListTitle => self.fresh_line(),
            Tag::Heading(level) => self.heading_open(level),
            Tag::Table => self.table_open(),
            Tag::TableHead => self.set(Setting { in_table_head: true, ..self.at }),
            Tag::TableRow => self.drafted(Draft { row: Seq::empty(), ..self.table }).fresh_line(),
            Tag::TableCell => self.cell_open(),
            Tag::BlockQuote(alert) => self.quote_open(alert),
            Tag::CodeBlock(block) => self.code_open(block),
            Tag::List(_) => self.listed(lists_started(self.list_stack, tag)),
            Tag::Item => self.item_open(),
            Tag::DefinitionListDefinition => self.fresh_line().put(": "@),
            Tag::Subscript => self.flushed().put("~"@),
            Tag::Superscript => self.flushed().put("^"@),
            Tag::Emphasis => self.flushed().put(painted("*"@, self.theme.code)),
            Tag::Strong => self.flushed().put(painted("**"@, self.theme.code)),
            Tag::Strikethrough => self.flushed().put("\u{1b}[9m"@),
            Tag::Link { email, dest_url } => self.link_open(email, dest_url),
            Tag::FootnoteDefinition(name) => self.note_open(name),
            Tag::MetadataBlock => self.set(Setting { in_non_writing_block: true, ..self.at }),
        }
    }

    /// The page after a heading has ended.
    #[verifier::opaque]
    pub open spec fn heading_close(self, level: u8) -> Page {
        (if level == 1 {
            self.put(painted(" "@, self.theme.heading.bolded().raised()))
        } else {
            self
        }).put("\n\n"@).set(
            Setting {
                in_heading: false,
                heading_level: None,
                h1_started: false,
                end_newline: true,
                ..self.at
            },
        )
    }

    /// The page after a table has ended: the table itself is shown there.
    #[verifier::opaque]
    pub open spec fn table_close(self) -> Page {
        (if self.at.in_table {
            self.headed().tabled()
        } else {
            self
        }).put("\n"@).set(Setting { in_table: false, end_newline: true, ..self.at })
    }

    /// The page after a code block has ended: the code and a fence.
    #[verifier::opaque]
    pub open spec fn code_close(self) -> Page {
        let code = self.code_block_buf;
        let shown = self.coded(Seq::empty(), Seq::empty()).put(code);
        (if code.len() > 0 && code.last() == '\n' {
            shown
        } else {
            shown.put("\n"@)
        }).put("```\n\n"@).set(Setting { in_code_block: false, end_newline: true, ..self.at })
    }

    /// The page after an element has ended.
    #[verifier::opaque]
    pub open spec fn ended(self, tag: TagEnd) -> Page {
        let over = Setting { end_newline: true, ..self.at };
        match tag {
            TagEnd::HtmlBlock | TagEnd::Image => self,
            TagEnd::Paragraph => self.put("\n\n"@).set(over),
            TagEnd::Heading(level) => self.heading_close(level),
            TagEnd::Table => self.table_close(),
            TagEnd::TableHead => self.header_over().set(
                Setting { in_table_head: false, ..over },
            ),
            TagEnd::TableRow => self.cell_over().row_over().set(
                Setting { in_table_cell: false, ..over },
            ),
            TagEnd::TableCell => self.cell_over(),
            TagEnd::BlockQuote => self.put("\n"@).set(Setting { in_block_quote: false, ..over }),
            TagEnd::CodeBlock => self.code_close(),
            TagEnd::List => self.listed(lists_ended(self.list_stack, tag)).put("\n"@).set(over),
            TagEnd::Item => self.listed(lists_ended(self.list_stack, tag)).put("\n"@).waiting(
                None,
            ).set(over),
            TagEnd::DefinitionList | TagEnd::DefinitionListTitle
            | TagEnd::DefinitionListDefinition | TagEnd::FootnoteDefinition => self.put(
                "\n"@,
            ).set(over),
            TagEnd::Emphasis => self.put(painted("*"@, self.theme.code)),
            TagEnd::Strong => self.put(painted("**"@, self.theme.code)),
            TagEnd::Superscript => self.put("^"@),
            TagEnd::Subscript => self.put("~"@),
            TagEnd::Strikethrough => self.put("\u{1b}[29m"@),
            TagEnd::Link => self.unlinked().set(Setting { in_link: false, ..self.at }),
            TagEnd::MetadataBlock => self.set(Setting { in_non_writing_block: false, ..self.at }),
        }
    }

    /// The page after a text event.
    #[verifier::opaque]
    pub open spec fn texted(self, text: Seq<char>) -> Page {
        if self.at.in_non_writing_block {
            self
        } else {
            let written = if self.at.in_code_block {
                self.coded(self.code_block_lang, self.code_block_buf + text)
            } else if self.at.in_table_cell {
                self.in_cell(text)
            } else {
                self.flushed().with_text(text)
            };
            written.set(
                Setting { end_newline: text.len() > 0 && text.last() == '\n', ..written.at },
            )
        }
    }

    /// The page after mathematics between `fence` and `fence`.
    #[verifier::opaque]
    pub open spec fn reckoned(self, text: Seq<char>, fence: Seq<char>) -> Page {
        if self.at.in_table_cell {
            self.in_cell(fence).in_cell(text).in_cell(fence)
        } else {
            self.flushed().put(fence).with_text(text).put(fence)
        }
    }

    /// The page after an event that neither starts nor ends an element. A task's
    /// box stands in place of an item's asterisk, and behind an item's number.
    #[verifier::opaque]
    pub open spec fn told(self, event: DocEvent<Seq<char>>) -> Page {
        match event {
            DocEvent::Text(text) => self.texted(text),
            DocEvent::Code(text) => if self.at.in_table_cell {
                self.in_cell(text)
            } else {
                self.flushed().put("`"@).put(painted(text, self.theme.code)).put("`"@)
            },
            DocEvent::InlineMath(text) => self.reckoned(text, "$"@),
            DocEvent::DisplayMath(text) => self.reckoned(text, "$$"@),
            DocEvent::SoftBreak => if self.at.in_table_cell {
                self.in_cell(" "@)
            } else {
                self.flushed().put(" "@)
            },
            DocEvent::HardBreak => if self.at.in_table_cell {
                self.in_cell(" "@)
            } else {
                self.flushed().put("\n"@).set(Setting { end_newline: true, ..self.at })
            },
            DocEvent::Rule => if self.at.in_table_cell {
                self.in_cell("-"@)
            } else {
                self.fresh_line().put(
                    painted("----------------------------------------\n"@, self.theme.rule),
                ).set(Setting { end_newline: true, ..self.at })
            },
            DocEvent::FootnoteReference(name) => if self.at.in_table_cell {
                self.noted(name).in_cell(self.footnote_label(name))
            } else {
                self.noted(name).flushed().put(self.footnote_label(name))
            },
            DocEvent::TaskListMarker(checked) => if self.at.in_table_cell {
                self.in_cell(task_box(checked))
            } else {
                self.unticked().put(task_box(checked))
            },
            _ => self,
        }
    }

    /// What an event adds to an image's alternative text.
    #[verifier::opaque]
    pub open spec fn alternative_part(self, event: DocEvent<Seq<char>>) -> Seq<char> {
        match event {
            DocEvent::InlineMath(text) | DocEvent::DisplayMath(text) | DocEvent::Code(text)
            | DocEvent::Text(text) => text,
            DocEvent::SoftBreak | DocEvent::HardBreak | DocEvent::Rule => " "@,
            DocEvent::FootnoteReference(name) => self.footnote_label(name),
            DocEvent::TaskListMarker(checked) => if checked {
                "[x]"@
            } else {
                "[ ]"@
            },
            _ => Seq::empty(),
        }
    }

    /// The page after an event within an image.
    #[verifier::opaque]
    pub open spec fn alternative_told(self, event: DocEvent<Seq<char>>) -> Page {
        match event {
            DocEvent::InlineMath(text) | DocEvent::DisplayMath(text) | DocEvent::Code(text)
            | DocEvent::Text(text) => self.set(
                Setting { end_newline: text.len() > 0 && text.last() == '\n', ..self.at },
            ),
            DocEvent::FootnoteReference(name) => self.noted(name),
            _ => self,
        }
    }

    /// What an image's alternative text adds up to from event `i` on, `nest`
    /// elements deep: the page, the text, and the event behind the image's end.
    pub open spec fn alternative(
        self,
        alt: Seq<char>,
        events: Seq<DocEvent<Seq<char>>>,
        i: int,
        nest: nat,
    ) -> (Page, Seq<char>, int)
        decreases events.len() - i,
    {
        if i >= events.len() {
            (self, alt, i)
        } else if events[i] is Start {
            self.alternative(alt, events, i + 1, nest + 1)
        } else if events[i] is End {
            if nest == 0 {
                (self, alt, i + 1)
            } else {
                self.alternative(alt, events, i + 1, (nest - 1) as nat)
            }
        } else {
            self.alternative_told(events[i]).alternative(
                alt + self.alternative_part(events[i]),
                events,
                i + 1,
                nest,
            )
        }
    }

    /// What stands for an image: its alternative text, unless that says nothing
    /// more than that it is one.
    pub open spec fn image_mark(alt: Seq<char>) -> Seq<char> {
        if trimmed(alt).len() == 0 || upper(trimmed(alt)) == "IMAGE"@ {
            "[image]"@
        } else {
            "[image: "@ + trimmed(alt) + "]"@
        }
    }

    /// The page after the image whose content starts at event `i`, and the
    /// event behind its end.
    #[verifier::opaque]
    pub open spec fn pictured(self, events: Seq<DocEvent<Seq<char>>>, i: int) -> (Page, int) {
        let (page, alt, next) = self.flushed().alternative(Seq::empty(), events, i, 0);
        (page.put(painted(Page::image_mark(alt), self.theme.code)), next)
    }

    /// The page after event `i`, and the event to go on with.
    pub open spec fn step(self, events: Seq<DocEvent<Seq<char>>>, i: int) -> (Page, int) {
        match events[i] {
            DocEvent::Start(Tag::Image) => self.pictured(events, i + 1),
            DocEvent::Start(tag) => (self.started(tag), i + 1),
            DocEvent::End(tag) => (self.ended(tag), i + 1),
            event => (self.told(event), i + 1),
        }
    }

    /// The page after the events from `i` on.
    pub open spec fn shown(self, events: Seq<DocEvent<Seq<char>>>, i: int) -> Page
        decreases events.len() - i,
    {
        if i < events.len() && i < self.step(events, i).1 <= events.len() {
            self.step(events, i).0.shown(events, self.step(events, i).1)
        } else {
            self
        }
    }
}

/// The styled page of a document.
pub open spec fn page_of(events: Seq<DocEvent<Seq<char>>>) -> Seq<char> {
    Page::blank(Theme::glowing()).shown(events, 0).out
}

/// The numbers of the ordered lists are at most `bound`.
pub open spec fn numbers_within(lists: Seq<ListState>, bound: int) -> bool {
    forall|k: int|
        0 <= k < lists.len() ==> ((#[trigger] lists[k]) is Ordered ==> lists[k]->index <= bound)
}

impl TerminalEmitter {
    fn push_text(&mut self, text: &str)
        ensures
            final(self)@ == old(self)@.with_text(text@),
    {
        proof {
            reveal(Page::with_text);
        }
        let at = self.at();
        let theme = self.theme();
        let h1 = match at.heading_level {
            Some(level) => level == 1,
            None => false,
        };
        let style = if at.in_code_block {
            Some(theme.code)
        } else if at.in_heading {
            if h1 {
                Some(theme.heading.bold().on_bright_black())
            } else {
                Some(theme.heading.bold())
            }
        } else if at.in_block_quote {
            Some(theme.block_quote)
        } else if at.in_table_head {
            Some(theme.table_header)
        } else if at.in_link {
            Some(theme.link.bold())
        } else {
            None
        };
        match style {
            Some(style) => {
                if h1 && !at.h1_started {
                    self.put_styled(" ", style);
                    self.set(Setting { h1_started: true, ..at });
                }
                self.put_styled(text, style);
            },
            None => {
                self.put(text);
            },
        }
    }

    fn start_heading(&mut self, level: u8)
        ensures
            final(self)@ == old(self)@.heading_open(level),
    {
        proof {
            reveal(Page::heading_open);
        }
        let at = self.at();
        let style = self.theme().heading;
        self.fresh_line();
        self.set(
            Setting { in_heading: true, heading_level: Some(level), h1_started: false, ..at },
        );
        if level != 1 {
            let mut hashes = String::new();
            push_repeated(&mut hashes, '#', level as usize);
            assert(hashes@ =~= repeated('#', level as nat));
            self.put_styled(hashes.as_str(), style);
            self.put(" ");
        }
    }

    fn start_quote(&mut self, alert: Option<Alert>)
        ensures
            final(self)@ == old(self)@.quote_open(alert),
    {
        proof {
            reveal(Page::quote_open);
        }
        let at = self.at();
        let bar = self.theme().quote_bar;
        self.close_gap();
        self.fresh_line();
        self.set(Setting { in_block_quote: true, ..at });
        self.put_styled("|", bar);
        if let Some(kind) = alert {
            self.put(" ");
            let (sign, label, colour) = match kind {
                Alert::Note => ("i", "NOTE", Ink::BrightBlue),
                Alert::Tip => ("*", "TIP", Ink::BrightGreen),
                Alert::Important => ("!", "IMPORTANT", Ink::BrightMagenta),
                Alert::Warning => ("!", "WARNING", Ink::BrightYellow),
                Alert::Caution => ("x", "CAUTION", Ink::BrightRed),
            };
            self.put(sign);
            self.put(" ");
            self.put_styled(label, Style::of(colour).bold());
            self.put("\n");
            self.put_styled("|", bar);
        }
        self.put(" ");
    }

    fn start_code_block(&mut self, block: &CodeBlock<String>)
        ensures
            final(self)@ == old(self)@.code_open(block@),
    {
        proof {
            reveal(Page::code_open);
        }
        let at = self.at();
        self.fresh_line();
        self.set(Setting { in_code_block: true, ..at });
        match block {
            CodeBlock::Fenced(info) => {
                let lang = text_until(info.as_str(), ' ');
                self.put("```");
                self.put(lang.as_str());
                self.put("\n");
                self.set_code(lang, String::new());
            },
            CodeBlock::Indented => {
                self.put("```\n");
                self.set_code(String::new(), String::new());
            },
        }
    }

    fn start_item(&mut self)
        ensures
            final(self)@ == old(self)@.item_open(),
    {
        proof {
            reveal(Page::item_open);
        }
        let at = self.at();
        let style = self.theme().list_marker;
        let (list, depth) = self.innermost();
        let mut marker = String::new();
        let mut i: usize = 1;
        assert(marker@ =~= repeated_text("  "@, 0));
        while i < depth
            invariant
                1 <= i,
                depth > 0 ==> i <= depth,
                depth == 0 ==> i == 1,
                marker@ == repeated_text("  "@, (i - 1) as nat),
            decreases depth - i,
        {
            marker.append("  ");
            i += 1;
        }
        let mut bullet = String::new();
        match list {
            Some(ListState::Ordered { index }) => {
                push_decimal(&mut bullet, index);
                bullet.append(". ");
                assert(bullet@ =~= decimal(index as nat) + ". "@);
            },
            _ => {
                bullet.append("* ");
                assert(bullet@ =~= "* "@);
            },
        }
        let shown = paint(bullet.as_str(), style);
        marker.append(shown.as_str());
        self.fresh_line();
        self.set(Setting { end_newline: true, ..at });
        self.wait(Some(marker));
    }

    fn start_link(&mut self, email: bool, dest_url: &str)
        ensures
            final(self)@ == old(self)@.link_open(email, dest_url@),
    {
        proof {
            reveal(Page::link_open);
        }
        let at = self.at();
        let mut target = String::new();
        if email {
            target.append("mailto:");
        }
        target.append(dest_url);
        assert(target@ =~= if email {
            "mailto:"@ + dest_url@
        } else {
            dest_url@
        });
        self.push_link(target);
        self.set(Setting { in_link: true, ..at });
    }

    fn start_note(&mut self, name: &str)
        ensures
            final(self)@ == old(self)@.note_open(name@),
    {
        proof {
            reveal(Page::note_open);
        }
        let style = self.theme().footnote;
        let mut label = self.footnote_label(name);
        label.append(": ");
        self.fresh_line();
        self.put_styled(label.as_str(), style);
    }

    /// Starts an element. An image is shown by `show_image`, which reads on to
    /// its end.
    fn start_tag(&mut self, tag: &Tag<String>)
        requires
            tag@ != Tag::<Seq<char>>::Image,
        ensures
            final(self)@ == old(self)@.started(tag@),
    {
        proof {
            reveal(Page::started);
        }
        let at = self.at();
        let theme = self.theme();
        match tag {
            Tag::HtmlBlock | Tag::Image => {},
            Tag::Paragraph | Tag::DefinitionList | Tag::DefinitionListTitle => {
                self.fresh_line();
            },
            Tag::Heading(level) => {
                self.start_heading(*level);
            },
            Tag::Table => {
                proof {
                    reveal(Page::table_open);
                }
                self.new_table();
                self.fresh_line();
                self.set(Setting { in_table: true, ..at });
            },
            Tag::TableHead => {
                self.set(Setting { in_table_head: true, ..at });
            },
            Tag::TableRow => {
                self.new_row();
                self.fresh_line();
            },
            Tag::TableCell => {
                proof {
                    reveal(Page::cell_open);
                }
                self.new_cell();
                self.set(Setting { in_table_cell: true, ..at });
            },
            Tag::BlockQuote(alert) => {
                self.start_quote(*alert);
            },
            Tag::CodeBlock(block) => {
                self.start_code_block(block);
            },
            Tag::List(Some(start)) => {
                self.push_list(ListState::Ordered { index: *start as u128 });
            },
            Tag::List(None) => {
                self.push_list(ListState::Unordered);
            },
            Tag::Item => {
                self.start_item();
            },
            Tag::DefinitionListDefinition => {
                self.fresh_line();
                self.put(": ");
            },
            // An inline element can be the first thing in an item: its marker
            // goes in front.
            Tag::Subscript => {
                self.flush_pending_marker();
                self.put("~");
            },
            Tag::Superscript => {
                self.flush_pending_marker();
                self.put("^");
            },
            Tag::Emphasis => {
                self.flush_pending_marker();
                self.put_styled("*", theme.code);
            },
            Tag::Strong => {
                self.flush_pending_marker();
                self.put_styled("**", theme.code);
            },
            Tag::Strikethrough => {
                self.flush_pending_marker();
                self.put("\u{1b}[9m");
            },
            Tag::Link { email, dest_url } => {
                self.start_link(*email, dest_url.as_str());
            },
            Tag::FootnoteDefinition(name) => {
                self.start_note(name.as_str());
            },
            Tag::MetadataBlock => {
                self.set(Setting { in_non_writing_block: true, ..at });
            },
        }
    }
}

/// An image's content is read forward.
proof fn alternative_goes_on(
    page: Page,
    alt: Seq<char>,
    events: Seq<DocEvent<Seq<char>>>,
    i: int,
    nest: nat,
)
    ensures
        page.alternative(alt, events, i, nest).2 >= i,
        page.alternative(alt, events, i, nest).0.list_stack == page.list_stack,
        i <= events.len() ==> page.alternative(alt, events, i, nest).2 <= events.len(),
    decreases events.len() - i,
{
    reveal(Page::alternative_told);
    reveal(Page::set);
    reveal(Page::noted);
    if i < events.len() {
        if events[i] is Start {
            alternative_goes_on(page, alt, events, i + 1, nest + 1);
        } else if events[i] is End {
            if nest > 0 {
                alternative_goes_on(page, alt, events, i + 1, (nest - 1) as nat);
            }
        } else {
            alternative_goes_on(
                page.alternative_told(events[i]),
                alt + page.alternative_part(events[i]),
                events,
                i + 1,
                nest,
            );
        }
    }
}

/// What is written, and what is at hand, changes no list.
proof fn writing_keeps_lists()
    ensures
        forall|p: Page, t: Seq<char>| (#[trigger] p.put(t)).list_stack == p.list_stack,
        forall|p: Page, at: Setting| (#[trigger] p.set(at)).list_stack == p.list_stack,
        forall|p: Page| (#[trigger] p.fresh_line()).list_stack == p.list_stack,
        forall|p: Page| (#[trigger] p.flushed()).list_stack == p.list_stack,
        forall|p: Page| (#[trigger] p.unticked()).list_stack == p.list_stack,
        forall|p: Page, t: Seq<char>| (#[trigger] p.in_cell(t)).list_stack == p.list_stack,
        forall|p: Page, l: Seq<char>, c: Seq<char>|
            (#[trigger] p.coded(l, c)).list_stack == p.list_stack,
        forall|p: Page, n: Seq<char>| (#[trigger] p.noted(n)).list_stack == p.list_stack,
        forall|p: Page, t: Seq<char>| (#[trigger] p.with_text(t)).list_stack == p.list_stack,
{
    reveal(Page::put);
    reveal(Page::set);
    reveal(Page::fresh_line);
    reveal(Page::waiting);
    reveal(Page::flushed);
    reveal(Page::unticked);
    reveal(Page::drafted);
    reveal(Page::in_cell);
    reveal(Page::coded);
    reveal(Page::noted);
    reveal(Page::with_text);
}

proof fn lists_follow_starts(page: Page, tag: Tag<Seq<char>>)
    ensures
        page.started(tag).list_stack == lists_started(page.list_stack, tag),
{
    reveal(Page::started);
    reveal(Page::put);
    reveal(Page::set);
    reveal(Page::fresh_line);
    reveal(Page::gap_closed);
    reveal(Page::waiting);
    reveal(Page::flushed);
    reveal(Page::drafted);
    reveal(Page::linked);
    reveal(Page::coded);
    reveal(Page::noted);
    reveal(Page::listed);
    reveal(Page::heading_open);
    reveal(Page::table_open);
    reveal(Page::cell_open);
    reveal(Page::quote_open);
    reveal(Page::code_open);
    reveal(Page::item_open);
    reveal(Page::link_open);
    reveal(Page::note_open);
}

proof fn lists_follow_ends(page: Page, end: TagEnd)
    ensures
        page.ended(end).list_stack == lists_ended(page.list_stack, end),
{
    reveal(Page::ended);
    reveal(Page::put);
    reveal(Page::set);
    reveal(Page::waiting);
    reveal(Page::drafted);
    reveal(Page::cell_over);
    reveal(Page::row_over);
    reveal(Page::header_over);
    reveal(Page::headed);
    reveal(Page::tabled);
    reveal(Page::unlinked);
    reveal(Page::coded);
    reveal(Page::listed);
    reveal(Page::heading_close);
    reveal(Page::table_close);
    reveal(Page::code_close);
}

proof fn lists_follow_events(page: Page, event: DocEvent<Seq<char>>)
    ensures
        page.told(event).list_stack == page.list_stack,
{
    writing_keeps_lists();
    reveal(Page::told);
    reveal(Page::texted);
    reveal(Page::reckoned);
}

/// A step over the events adds at most one to a list's number.
proof fn numbers_grow_slowly(page: Page, events: Seq<DocEvent<Seq<char>>>, i: int, bound: int)
    requires
        0 <= i < events.len(),
        u64::MAX <= bound < u128::MAX,
        numbers_within(page.list_stack, bound),
    ensures
        numbers_within(page.step(events, i).0.list_stack, bound + 1),
        i < page.step(events, i).1 <= events.len(),
{
    match events[i] {
        DocEvent::Start(Tag::Image) => {
            reveal(Page::pictured);
            alternative_goes_on(page.flushed(), Seq::empty(), events, i + 1, 0);
            writing_keeps_lists();
        },
        DocEvent::Start(tag) => lists_follow_starts(page, tag),
        DocEvent::End(end) => lists_follow_ends(page, end),
        event => lists_follow_events(page, event),
    }
}

impl TerminalEmitter {
    fn end_heading(&mut self, level: u8)
        ensures
            final(self)@ == old(self)@.heading_close(level),
    {
        proof {
            reveal(Page::heading_close);
        }
        let at = self.at();
        let style = self.theme().heading.bold().on_bright_black();
        if level == 1 {
            self.put_styled(" ", style);
        }
        self.put("\n\n");
        self.set(
            Setting {
                in_heading: false,
                heading_level: None,
                h1_started: false,
                end_newline: true,
                ..at
            },
        );
    }

    fn end_table(&mut self)
        ensures
            final(self)@ == old(self)@.table_close(),
    {
        proof {
            reveal(Page::table_close);
        }
        let at = self.at();
        if at.in_table {
            self.join_header();
            self.render_table();
        }
        self.put("\n");
        self.set(Setting { in_table: false, end_newline: true, ..at });
    }

    fn end_code_block(&mut self)
        ensures
            final(self)@ == old(self)@.code_close(),
    {
        proof {
            reveal(Page::code_close);
        }
        let at = self.at();
        let code = self.code();
        self.set_code(String::new(), String::new());
        self.put(code.as_str());
        if !ends_with_char(code.as_str(), '\n') {
            self.put("\n");
        }
        self.put("```\n\n");
        self.set(Setting { in_code_block: false, end_newline: true, ..at });
    }

    /// Ends an item: its list moves on to the next number.
    fn number_next_item(&mut self)
        requires
            numbers_within(old(self)@.list_stack, u128::MAX - 1),
        ensures
            final(self)@ == old(self)@.listed(
                lists_ended(old(self)@.list_stack, TagEnd::Item),
            ),
    {
        proof {
            reveal(Page::listed);
        }
        if let (Some(ListState::Ordered { index }), _) = self.innermost() {
            self.number_list(ListState::Ordered { index: index + 1 });
        }
    }

    /// Ends an element.
    fn end_tag(&mut self, tag: TagEnd)
        requires
            numbers_within(old(self)@.list_stack, u128::MAX - 1),
        ensures
            final(self)@ == old(self)@.ended(tag),
    {
        proof {
            reveal(Page::ended);
        }
        let at = self.at();
        let theme = self.theme();
        let over = Setting { end_newline: true, ..at };
        match tag {
            TagEnd::HtmlBlock | TagEnd::Image => {},
            TagEnd::Paragraph => {
                self.put("\n\n");
                self.set(over);
            },
            TagEnd::Heading(level) => {
                self.end_heading(level);
            },
            TagEnd::Table => {
                self.end_table();
            },
            TagEnd::TableHead => {
                // The header's cells stand right inside the head, in no row of
                // their own.
                self.end_header();
                self.set(Setting { in_table_head: false, ..over });
            },
            TagEnd::TableRow => {
                self.end_cell();
                self.end_row();
                self.set(Setting { in_table_cell: false, ..over });
            },
            TagEnd::TableCell => {
                self.end_cell();
            },
            TagEnd::BlockQuote => {
                self.put("\n");
                self.set(Setting { in_block_quote: false, ..over });
            },
            TagEnd::CodeBlock => {
                self.end_code_block();
            },
            TagEnd::List => {
                self.pop_list();
                self.put("\n");
                self.set(over);
            },
            TagEnd::Item => {
                self.number_next_item();
                self.put("\n");
                self.wait(None);
                self.set(over);
            },
            TagEnd::DefinitionList
            | TagEnd::DefinitionListTitle
            | TagEnd::DefinitionListDefinition
            | TagEnd::FootnoteDefinition => {
                self.put("\n");
                self.set(over);
            },
            TagEnd::Emphasis => {
                self.put_styled("*", theme.code);
            },
            TagEnd::Strong => {
                self.put_styled("**", theme.code);
            },
            TagEnd::Superscript => {
                self.put("^");
            },
            TagEnd::Subscript => {
                self.put("~");
            },
            TagEnd::Strikethrough => {
                self.put("\u{1b}[29m");
            },
            TagEnd::Link => {
                // Where the link leads is not shown: its text names the target.
                self.pop_link();
                self.set(Setting { in_link: false, ..at });
            },
            TagEnd::MetadataBlock => {
                self.set(Setting { in_non_writing_block: false, ..at });
            },
        }
    }

    fn show_math(&mut self, text: &str, fence: &str)
        ensures
            final(self)@ == old(self)@.reckoned(text@, fence@),
    {
        proof {
            reveal(Page::reckoned);
        }
        if self.at().in_table_cell {
            self.push_table_text(fence);
            self.push_table_text(text);
            self.push_table_text(fence);
        } else {
            self.flush_pending_marker();
            self.put(fence);
            self.push_text(text);
            self.put(fence);
        }
    }

    fn show_text(&mut self, text: &str)
        ensures
            final(self)@ == old(self)@.texted(text@),
    {
        proof {
            reveal(Page::texted);
        }
        let at = self.at();
        if !at.in_non_writing_block {
            if at.in_code_block {
                self.push_code(text);
            } else if at.in_table_cell {
                self.push_table_text(text);
            } else {
                self.flush_pending_marker();
                self.push_text(text);
            }
            let now = self.at();
            self.set(Setting { end_newline: ends_with_char(text, '\n'), ..now });
        }
    }

    fn render_task_marker(&mut self, checked: bool)
        ensures
            final(self)@ == old(self)@.unticked().put(task_box(checked)),
    {
        self.flush_for_task();
        self.put(if checked {
            "[x] "
        } else {
            "[ ] "
        });
    }

    /// Shows an event that neither starts nor ends an element.
    fn tell(&mut self, event: &DocEvent<String>)
        requires
            !(event is Start),
            !(event is End),
        ensures
            final(self)@ == old(self)@.told(event@),
    {
        proof {
            reveal(Page::told);
        }
        let at = self.at();
        let theme = self.theme();
        match event {
            DocEvent::Start(_) | DocEvent::End(_) => {},
            DocEvent::Html(_) | DocEvent::InlineHtml(_) => {},
            DocEvent::Text(text) => {
                self.show_text(text.as_str());
            },
            DocEvent::Code(text) => {
                if at.in_table_cell {
                    self.push_table_text(text.as_str());
                } else {
                    self.flush_pending_marker();
                    self.put("`");
                    self.put_styled(text.as_str(), theme.code);
                    self.put("`");
                }
            },
            DocEvent::InlineMath(text) => {
                self.show_math(text.as_str(), "$");
            },
            DocEvent::DisplayMath(text) => {
                self.show_math(text.as_str(), "$$");
            },
            DocEvent::SoftBreak => {
                if at.in_table_cell {
                    self.push_table_text(" ");
                } else {
                    self.flush_pending_marker();
                    self.put(" ");
                }
            },
            DocEvent::HardBreak => {
                if at.in_table_cell {
                    self.push_table_text(" ");
                } else {
                    self.flush_pending_marker();
                    self.put("\n");
                    self.set(Setting { end_newline: true, ..at });
                }
            },
            DocEvent::Rule => {
                if at.in_table_cell {
                    self.push_table_text("-");
                } else {
                    self.fresh_line();
                    self.put_styled("----------------------------------------\n", theme.rule);
                    self.set(Setting { end_newline: true, ..at });
                }
            },
            DocEvent::FootnoteReference(name) => {
                let label = self.footnote_label(name.as_str());
                if at.in_table_cell {
                    self.push_table_text(label.as_str());
                } else {
                    self.flush_pending_marker();
                    self.put(label.as_str());
                }
            },
            DocEvent::TaskListMarker(checked) => {
                if at.in_table_cell {
                    self.push_table_text(if *checked {
                        "[x] "
                    } else {
                        "[ ] "
                    });
                } else {
                    self.render_task_marker(*checked);
                }
            },
        }
    }

    /// Adds what an event holds to an image's alternative text.
    fn tell_alternative(&mut self, event: &DocEvent<String>, out: &mut String)
        requires
            !(event is Start),
            !(event is End),
        ensures
            final(self)@ == old(self)@.alternative_told(event@),
            final(out)@ == old(out)@ + old(self)@.alternative_part(event@),
    {
        proof {
            reveal(Page::alternative_told);
            reveal(Page::alternative_part);
        }
        let at = self.at();
        match event {
            DocEvent::Start(_)
            | DocEvent::End(_)
            | DocEvent::Html(_)
            | DocEvent::InlineHtml(_) => {
                assert(out@ + Seq::empty() =~= out@);
            },
            DocEvent::InlineMath(text)
            | DocEvent::DisplayMath(text)
            | DocEvent::Code(text)
            | DocEvent::Text(text) => {
                out.append(text.as_str());
                self.set(Setting { end_newline: ends_with_char(text.as_str(), '\n'), ..at });
            },
            DocEvent::SoftBreak | DocEvent::HardBreak | DocEvent::Rule => {
                out.append(" ");
            },
            DocEvent::FootnoteReference(name) => {
                let label = self.footnote_label(name.as_str());
                out.append(label.as_str());
            },
            DocEvent::TaskListMarker(checked) => {
                out.append(if *checked {
                    "[x]"
                } else {
                    "[ ]"
                });
            },
        }
    }

    /// Reads an image's alternative text from event `from` on. Answers with the
    /// event behind the image's end.
    fn raw_text(
        &mut self,
        events: &Vec<DocEvent<String>>,
        from: usize,
        out: &mut String,
    ) -> (next: usize)
        requires
            from <= events.len(),
        ensures
            next <= events.len(),
            (final(self)@, final(out)@, next as int) == old(self)@.alternative(
                old(out)@,
                events_view(events@),
                from as int,
                0,
            ),
    {
        let ghost all = events_view(events@);
        let ghost whole = self@.alternative(out@, all, from as int, 0);
        let mut nest: usize = 0;
        let mut i: usize = from;
        while i < events.len()
            invariant
                from <= i <= events.len(),
                nest <= i,
                all == events_view(events@),
                whole == self@.alternative(out@, all, i as int, nest as nat),
                whole == old(self)@.alternative(old(out)@, all, from as int, 0),
            decreases events.len() - i,
        {
            let event = &events[i];
            assert(all[i as int] == event@);
            i += 1;
            match event {
                DocEvent::Start(_) => {
                    nest += 1;
                },
                DocEvent::End(_) => {
                    if nest == 0 {
                        return i;
                    }
                    nest -= 1;
                },
                event => {
                    self.tell_alternative(event, out);
                },
            }
        }
        i
    }

    /// Shows the image whose content starts at event `from`: a bare mark, or its
    /// alternative text. Where the image is kept is never shown. Answers with
    /// the event behind the image's end.
    fn show_image(&mut self, events: &Vec<DocEvent<String>>, from: usize) -> (next: usize)
        requires
            from <= events.len(),
        ensures
            next <= events.len(),
            (final(self)@, next as int) == old(self)@.pictured(
                events_view(events@),
                from as int,
            ),
    {
        proof {
            reveal(Page::pictured);
        }
        let style = self.theme().code;
        self.flush_pending_marker();
        let mut alt = String::new();
        let next: usize = self.raw_text(events, from, &mut alt);
        let inner = trim(alt.as_str());
        let mut shown = String::new();
        if inner.as_str().is_empty() || same_text(to_upper(inner.as_str()).as_str(), "IMAGE") {
            shown.append("[image]");
            assert(shown@ =~= "[image]"@);
        } else {
            shown.append("[image: ");
            shown.append(inner.as_str());
            shown.append("]");
            assert(shown@ =~= "[image: "@ + inner@ + "]"@);
        }
        self.put_styled(shown.as_str(), style);
        next
    }

    /// Shows the events of a document on a page.
    pub fn run(&mut self, events: &Vec<DocEvent<String>>) -> (out: String)
        requires
            old(self)@.list_stack.len() == 0,
        ensures
            final(self)@ == old(self)@.shown(events_view(events@), 0),
            out@ == final(self)@.out,
    {
        let ghost all = events_view(events@);
        let ghost whole = self@.shown(all, 0);
        let mut i: usize = 0;
        while i < events.len()
            invariant
                i <= events.len(),
                all == events_view(events@),
                whole == self@.shown(all, i as int),
                numbers_within(self@.list_stack, u64::MAX + i),
            decreases events.len() - i,
        {
            let event = &events[i];
            let ghost before = self@;
            assert(all[i as int] == event@);
            proof {
                numbers_grow_slowly(before, all, i as int, u64::MAX + i);
            }
            match event {
                DocEvent::Start(Tag::Image) => {
                    i = self.show_image(events, i + 1);
                },
                DocEvent::Start(tag) => {
                    self.start_tag(tag);
                    i += 1;
                },
                DocEvent::End(tag) => {
                    self.end_tag(*tag);
                    i += 1;
                },
                event => {
                    self.tell(event);
                    i += 1;
                },
            }
        }
        self.text()
    }
}

/// The page of these events, styled or plain. A plain page holds no escape
/// character.
pub fn render_events(events: &Vec<DocEvent<String>>, no_color: bool) -> (out: String)
    ensures
        out@ == (if no_color {
            visible(page_of(events_view(events@)), false)
        } else {
            page_of(events_view(events@))
        }),
        no_color ==> !out@.contains(esc()),
{
    let mut emitter = TerminalEmitter::new(Theme::glow());
    let out = emitter.run(events);
    if no_color {
        proof {
            stripped_text_is_escape_free(out@, false);
        }
        strip_ansi(out.as_str())
    } else {
        out
    }
}

/// A markdown document on a terminal, styled or plain. A plain page holds no
/// escape character.
pub fn render(markdown: &str, no_color: bool) -> (out: String)
    ensures
        out@ == (if no_color {
            visible(page_of(parsed(markdown@, EXTENSIONS)), false)
        } else {
            page_of(parsed(markdown@, EXTENSIONS))
        }),
        no_color ==> !out@.contains(esc()),
{
    let events = parse_events(markdown);
    render_events(&events, no_color)
}

} // verus!
