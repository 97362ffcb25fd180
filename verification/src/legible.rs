//! What a document says is on its page: no text is lost on the way there.

use vstd::prelude::*;

use crate::ansi::painted;
use crate::ansi::Style;
use crate::ansi::codes;
use crate::markdown::Alert;
use crate::markdown::CodeBlock;
use crate::markdown::DocEvent;
use crate::markdown::Tag;
use crate::markdown::TagEnd;
use crate::page::body_text;
use crate::page::column_count;
use crate::page::column_width;
use crate::page::padded;
use crate::page::row_text;
use crate::page::rule_text;
use crate::page::table_text;
use crate::page::Draft;
use crate::page::Page;
use crate::page::Setting;
use crate::page::ListState;
use crate::render::task_box;
use crate::text::repeated;
use crate::text::trimmed;
use crate::text::trimming_takes_white_space_off;
use crate::text::white_space;

verus! {

/// Whether a text stands at a place of another.
pub open spec fn stands_at(s: Seq<char>, text: Seq<char>, i: int) -> bool {
    &&& 0 <= i
    &&& i + text.len() <= s.len()
    &&& s.subrange(i, i + text.len()) == text
}

/// Whether a text stands somewhere in another.
pub open spec fn shows(s: Seq<char>, text: Seq<char>) -> bool {
    exists|i: int| #[trigger] stands_at(s, text, i)
}

/// Whether a text has another in front.
#[verifier::opaque]
pub open spec fn extends(before: Seq<char>, after: Seq<char>) -> bool {
    before.len() <= after.len() && after.take(before.len() as int) == before
}

proof fn shown_between(before: Seq<char>, text: Seq<char>, after: Seq<char>)
    ensures
        shows(before + text + after, text),
        shows(before + text, text),
        shows(text + after, text),
        shows(text, text),
{
    assert((before + text + after).subrange(before.len() as int, (before.len() + text.len()) as int)
        =~= text);
    assert(stands_at(before + text + after, text, before.len() as int));
    assert((before + text).subrange(before.len() as int, (before.len() + text.len()) as int) =~= text);
    assert(stands_at(before + text, text, before.len() as int));
    assert((text + after).subrange(0, text.len() as int) =~= text);
    assert(stands_at(text + after, text, 0));
    assert(text.subrange(0, text.len() as int) =~= text);
    assert(stands_at(text, text, 0));
}

proof fn shown_within(s: Seq<char>, part: Seq<char>, text: Seq<char>)
    requires
        shows(s, part),
        shows(part, text),
    ensures
        shows(s, text),
{
    let i = choose|i: int| #[trigger] stands_at(s, part, i);
    let j = choose|j: int| #[trigger] stands_at(part, text, j);
    assert(s.subrange(i + j, i + j + text.len()) =~= s.subrange(i, i + part.len()).subrange(
        j,
        j + text.len(),
    ));
    assert(stands_at(s, text, i + j));
}

proof fn shown_further(s: Seq<char>, more: Seq<char>, text: Seq<char>)
    requires
        shows(s, text),
    ensures
        shows(s + more, text),
        shows(more + s, text),
{
    shown_between(more, s, more);
    shown_within(s + more, s, text);
    shown_within(more + s, s, text);
}

/// A text that does not end its line stays through what keeps all but a last
/// line end.
proof fn shown_still(before: Seq<char>, after: Seq<char>, text: Seq<char>)
    requires
        shows(before, text),
        text.len() == 0 || text.last() != '\n',
        extends(before, after) || (before.len() > 0 && before.last() == '\n' && extends(
            before.drop_last(),
            after,
        )),
    ensures
        shows(after, text),
{
    reveal(extends);
    let i = choose|i: int| #[trigger] stands_at(before, text, i);
    if text.len() == 0 {
        assert(after.subrange(0, 0) =~= text);
        assert(stands_at(after, text, 0));
    } else {
        let n = text.len();
        assert(text.last() == before.subrange(i, i + n)[n - 1]);
        let kept = if extends(before, after) {
            before
        } else {
            before.drop_last()
        };
        assert(i + n <= kept.len());
        assert(after.subrange(i, i + n) =~= after.take(kept.len() as int).subrange(i, i + n));
        assert(before.subrange(i, i + n) =~= kept.subrange(i, i + n));
        assert(stands_at(after, text, i));
    }
}

/// What is written is written behind what was there, whatever stood in front of
/// that.
proof fn writing_extends(front: Seq<char>)
    ensures
        extends(front, front),
        forall|p: Page, t: Seq<char>| extends(front, p.out) ==> extends(front, (#[trigger] p.put(t)).out),
        forall|p: Page, at: Setting| (#[trigger] p.set(at)).out == p.out,
        forall|p: Page| extends(front, p.out) ==> extends(front, (#[trigger] p.fresh_line()).out),
        forall|p: Page| extends(front, p.out) ==> extends(front, (#[trigger] p.flushed()).out),
        forall|p: Page| extends(front, p.out) ==> extends(front, (#[trigger] p.unticked()).out),
        forall|p: Page, m: Option<Seq<char>>| (#[trigger] p.waiting(m)).out == p.out,
        forall|p: Page, l: Seq<ListState>| (#[trigger] p.listed(l)).out == p.out,
        forall|p: Page, t: Draft| (#[trigger] p.drafted(t)).out == p.out,
        forall|p: Page, t: Seq<char>| (#[trigger] p.in_cell(t)).out == p.out,
        forall|p: Page| (#[trigger] p.cell_over()).out == p.out,
        forall|p: Page| (#[trigger] p.row_over()).out == p.out,
        forall|p: Page| (#[trigger] p.header_over()).out == p.out,
        forall|p: Page| (#[trigger] p.headed()).out == p.out,
        forall|p: Page| extends(front, p.out) ==> extends(front, (#[trigger] p.tabled()).out),
        forall|p: Page, t: Seq<char>| (#[trigger] p.linked(t)).out == p.out,
        forall|p: Page| (#[trigger] p.unlinked()).out == p.out,
        forall|p: Page, l: Seq<char>, c: Seq<char>| (#[trigger] p.coded(l, c)).out == p.out,
        forall|p: Page, n: Seq<char>| (#[trigger] p.noted(n)).out == p.out,
        forall|p: Page, t: Seq<char>|
            extends(front, p.out) ==> extends(front, (#[trigger] p.with_text(t)).out),
{
    reveal(Page::set);
    reveal(Page::fresh_line);
    reveal(Page::waiting);
    reveal(Page::flushed);
    reveal(Page::unticked);
    reveal(Page::listed);
    reveal(Page::drafted);
    reveal(Page::in_cell);
    reveal(Page::cell_over);
    reveal(Page::row_over);
    reveal(Page::header_over);
    reveal(Page::headed);
    reveal(Page::tabled);
    reveal(Page::linked);
    reveal(Page::unlinked);
    reveal(Page::coded);
    reveal(Page::noted);
    reveal(Page::with_text);
    assert(extends(front, front)) by {
        reveal(extends);
        assert(front.take(front.len() as int) =~= front);
    }
    assert forall|p: Page, t: Seq<char>| extends(front, p.out) implies extends(
        front,
        (#[trigger] p.put(t)).out,
    ) by {
        reveal(extends);
        reveal(Page::put);
        assert((p.out + t).take(front.len() as int) =~= p.out.take(front.len() as int));
    }
}

/// Whether what stands on a page stays on another, but for a last line end.
spec fn stays(before: Page, after: Page) -> bool {
    extends(before.out, after.out) || (before.out.len() > 0 && before.out.last() == '\n' && extends(
        before.out.drop_last(),
        after.out,
    ))
}

proof fn heading_extends(page: Page, level: u8)
    ensures
        extends(page.out, page.heading_open(level).out),
{
    writing_extends(page.out);
    reveal(Page::heading_open);
}

proof fn heading_end_extends(page: Page, level: u8)
    ensures
        extends(page.out, page.heading_close(level).out),
{
    writing_extends(page.out);
    reveal(Page::heading_close);
}

proof fn table_extends(page: Page)
    ensures
        extends(page.out, page.table_open().out),
{
    writing_extends(page.out);
    reveal(Page::table_open);
}

proof fn table_end_extends(page: Page)
    ensures
        extends(page.out, page.table_close().out),
{
    writing_extends(page.out);
    reveal(Page::table_close);
}

proof fn cell_extends(page: Page)
    ensures
        extends(page.out, page.cell_open().out),
{
    writing_extends(page.out);
    reveal(Page::cell_open);
}

proof fn code_extends(page: Page, block: CodeBlock<Seq<char>>)
    ensures
        extends(page.out, page.code_open(block).out),
{
    writing_extends(page.out);
    reveal(Page::code_open);
}

proof fn code_end_extends(page: Page)
    ensures
        extends(page.out, page.code_close().out),
{
    writing_extends(page.out);
    reveal(Page::code_close);
}

proof fn item_extends(page: Page)
    ensures
        extends(page.out, page.item_open().out),
{
    writing_extends(page.out);
    reveal(Page::item_open);
}

proof fn link_extends(page: Page, email: bool, dest_url: Seq<char>)
    ensures
        extends(page.out, page.link_open(email, dest_url).out),
{
    writing_extends(page.out);
    reveal(Page::link_open);
}

proof fn note_extends(page: Page, name: Seq<char>)
    ensures
        extends(page.out, page.note_open(name).out),
{
    writing_extends(page.out);
    reveal(Page::note_open);
}

proof fn quote_extends(page: Page, alert: Option<Alert>)
    ensures
        stays(page, page.quote_open(alert)),
{
    let closed = page.gap_closed();
    writing_extends(closed.out);
    assert(closed.out == page.out || (page.out.len() > 0 && page.out.last() == '\n' && closed.out
        == page.out.drop_last())) by {
        reveal(Page::gap_closed);
    }
    reveal(Page::quote_open);
    assert(extends(closed.out, page.quote_open(alert).out));
}

proof fn starting_extends(page: Page, tag: Tag<Seq<char>>)
    ensures
        stays(page, page.started(tag)),
{
    reveal(Page::started);
    match tag {
        Tag::Heading(level) => heading_extends(page, level),
        Tag::Table => table_extends(page),
        Tag::TableCell => cell_extends(page),
        Tag::BlockQuote(alert) => quote_extends(page, alert),
        Tag::CodeBlock(block) => code_extends(page, block),
        Tag::Item => item_extends(page),
        Tag::Link { email, dest_url } => link_extends(page, email, dest_url),
        Tag::FootnoteDefinition(name) => note_extends(page, name),
        Tag::List(_) | Tag::TableHead | Tag::MetadataBlock | Tag::HtmlBlock | Tag::Image => {
            joining_extends(page.out);
            reveal(Page::set);
            reveal(Page::listed);
        },
        _ => writing_extends(page.out),
    }
}

proof fn joining_extends(front: Seq<char>)
    ensures
        extends(front, front),
        forall|t: Seq<char>| extends(front, #[trigger] (front + t)),
{
    reveal(extends);
    assert(front.take(front.len() as int) =~= front);
    assert forall|t: Seq<char>| extends(front, #[trigger] (front + t)) by {
        assert((front + t).take(front.len() as int) =~= front);
    }
}

proof fn ending_extends(page: Page, end: TagEnd)
    ensures
        extends(page.out, page.ended(end).out),
{
    reveal(Page::ended);
    match end {
        TagEnd::Heading(level) => heading_end_extends(page, level),
        TagEnd::Table => table_end_extends(page),
        TagEnd::CodeBlock => code_end_extends(page),
        _ => {
            joining_extends(page.out);
            reveal(Page::put);
            reveal(Page::set);
            reveal(Page::waiting);
            reveal(Page::listed);
            reveal(Page::drafted);
            reveal(Page::cell_over);
            reveal(Page::row_over);
            reveal(Page::header_over);
            reveal(Page::unlinked);
        },
    }
}

proof fn telling_extends(page: Page, event: DocEvent<Seq<char>>)
    ensures
        extends(page.out, page.told(event).out),
{
    writing_extends(page.out);
    reveal(Page::told);
    reveal(Page::texted);
    reveal(Page::reckoned);
}

proof fn alternative_writes_nothing(
    page: Page,
    alt: Seq<char>,
    events: Seq<DocEvent<Seq<char>>>,
    i: int,
    nest: nat,
)
    ensures
        page.alternative(alt, events, i, nest).0.out == page.out,
    decreases events.len() - i,
{
    writing_extends(page.out);
    reveal(Page::alternative_told);
    if i < events.len() {
        if events[i] is Start {
            alternative_writes_nothing(page, alt, events, i + 1, nest + 1);
        } else if events[i] is End {
            if nest > 0 {
                alternative_writes_nothing(page, alt, events, i + 1, (nest - 1) as nat);
            }
        } else {
            let part = page.alternative_part(events[i]);
            alternative_writes_nothing(
                page.alternative_told(events[i]),
                alt + part,
                events,
                i + 1,
                nest,
            );
        }
    }
}

proof fn stepping_extends(page: Page, events: Seq<DocEvent<Seq<char>>>, i: int)
    ensures
        stays(page, page.step(events, i).0),
{
    match events[i] {
        DocEvent::Start(Tag::Image) => {
            writing_extends(page.out);
            reveal(Page::pictured);
            alternative_writes_nothing(page.flushed(), Seq::empty(), events, i + 1, 0);
        },
        DocEvent::Start(tag) => starting_extends(page, tag),
        DocEvent::End(end) => ending_extends(page, end),
        event => telling_extends(page, event),
    }
}

/// What is on a page stays on it, however the document goes on: every text that
/// does not end in a line end. (Of two line ends one may be taken back.)
pub proof fn what_is_on_a_page_stays(
    page: Page,
    events: Seq<DocEvent<Seq<char>>>,
    i: int,
    text: Seq<char>,
)
    requires
        shows(page.out, text),
        text.len() == 0 || text.last() != '\n',
    ensures
        shows(page.shown(events, i).out, text),
    decreases events.len() - i,
{
    if i < events.len() && i < page.step(events, i).1 <= events.len() {
        let (after, next) = page.step(events, i);
        stepping_extends(page, events, i);
        shown_still(page.out, after.out, text);
        what_is_on_a_page_stays(after, events, next, text);
    }
}

/// What is in a text without its outer white space is in the other without its.
proof fn shown_trimmed(s: Seq<char>, text: Seq<char>)
    requires
        shows(s, text),
        trimmed(text).len() > 0,
    ensures
        shows(trimmed(s), trimmed(text)),
{
    let i = choose|i: int| #[trigger] stands_at(s, text, i);
    let inner = trimming_takes_white_space_off(text);
    let outer = trimming_takes_white_space_off(s);
    assert(s.subrange(i, i + text.len())[inner.0] == text[inner.0]);
    assert(s.subrange(i, i + text.len())[inner.1 - 1] == text[inner.1 - 1]);
    assert(!white_space(s[i + inner.0]));
    assert(!white_space(s[i + inner.1 - 1]));
    assert(outer.0 <= i + inner.0);
    assert(i + inner.1 <= outer.1);
    let at = i + inner.0 - outer.0;
    let n = trimmed(text).len();
    assert(trimmed(s).subrange(at, at + n) =~= s.subrange(i, i + text.len()).subrange(
        inner.0,
        inner.1,
    ));
    assert(stands_at(trimmed(s), trimmed(text), at));
}

proof fn row_shows_its_cells(row: Seq<Seq<char>>, rows: Seq<Seq<Seq<char>>>, k: nat, c: int)
    requires
        0 <= c < k,
    ensures
        shows(row_text(row, rows, k), row[c]),
    decreases k,
{
    let before = row_text(row, rows, (k - 1) as nat);
    let bar = if k > 1 {
        " | "@
    } else {
        Seq::<char>::empty()
    };
    let cell = padded(row[k - 1], column_width(rows, k - 1));
    if c < k - 1 {
        row_shows_its_cells(row, rows, (k - 1) as nat, c);
        shown_further(before, bar, row[c]);
        shown_further(before + bar, cell, row[c]);
    } else {
        if row[c].len() < column_width(rows, c) {
            shown_between(
                Seq::empty(),
                row[c],
                repeated(' ', (column_width(rows, c) - row[c].len()) as nat),
            );
        } else {
            shown_between(Seq::empty(), row[c], Seq::empty());
        }
        shown_further(cell, before + bar, row[c]);
    }
}

proof fn body_shows_its_rows(rows: Seq<Seq<Seq<char>>>, k: nat, r: int)
    requires
        1 <= r < k,
    ensures
        shows(body_text(rows, k), row_text(rows[r], rows, rows[r].len())),
    decreases k,
{
    let before = body_text(rows, (k - 1) as nat);
    let row = row_text(rows[k - 1], rows, rows[k - 1].len());
    let text = row_text(rows[r], rows, rows[r].len());
    if r < k - 1 {
        body_shows_its_rows(rows, (k - 1) as nat, r);
        shown_further(before, " "@, text);
        shown_further(before + " "@, row, text);
        shown_further(before + " "@ + row, "\n"@, text);
    } else {
        shown_between(before + " "@, row, "\n"@);
    }
}

/// A table shows each of its cells, whichever row and column it is in.
pub proof fn every_cell_is_shown(rows: Seq<Seq<Seq<char>>>, r: int, c: int)
    requires
        0 <= r < rows.len(),
        0 <= c < rows[r].len(),
    ensures
        shows(table_text(rows), rows[r][c]),
{
    reveal(table_text);
    let row = row_text(rows[r], rows, rows[r].len());
    row_shows_its_cells(rows[r], rows, rows[r].len(), c);
    let rule = rule_text(rows, column_count(rows));
    let first = row_text(rows[0], rows, rows[0].len());
    let head = " "@ + first + "\n"@ + " "@ + rule + "\n"@;
    let body = body_text(rows, rows.len());
    if r == 0 {
        shown_between(" "@, first, "\n"@);
        shown_further(" "@ + first + "\n"@, " "@, first);
        shown_further(" "@ + first + "\n"@ + " "@, rule, first);
        shown_further(" "@ + first + "\n"@ + " "@ + rule, "\n"@, first);
        shown_further(head, body, first);
    } else {
        body_shows_its_rows(rows, rows.len(), r);
        shown_further(body, head, row);
    }
    shown_within(table_text(rows), row, rows[r][c]);
}

proof fn painting_holds(text: Seq<char>, style: Style) -> (around: (Seq<char>, Seq<char>))
    ensures
        painted(text, style) == around.0 + text + around.1,
{
    reveal(painted);
    ("\u{1b}["@ + codes(style) + "m"@, "\u{1b}[0m"@)
}

proof fn text_is_written(page: Page, text: Seq<char>) -> (around: (Seq<char>, Seq<char>))
    ensures
        page.with_text(text).out == page.out + (around.0 + text + around.1),
{
    reveal(Page::with_text);
    reveal(Page::put);
    reveal(Page::set);
    if let Some(style) = page.text_style() {
        let (front, back) = painting_holds(text, style);
        if page.at.heading_level == Some(1u8) && !page.at.h1_started {
            let space = painted(" "@, style);
            assert(page.out + space + (front + text + back) =~= page.out + (space + front + text
                + back));
            (space + front, back)
        } else {
            (front, back)
        }
    } else {
        assert(Seq::empty() + text + Seq::empty() =~= text);
        (Seq::empty(), Seq::empty())
    }
}

proof fn marker_is_written(page: Page) -> (marker: Seq<char>)
    ensures
        page.flushed().out == page.out + marker,
{
    reveal(Page::flushed);
    reveal(Page::put);
    reveal(Page::waiting);
    match page.pending_list_marker {
        Some(marker) => marker,
        None => {
            assert(page.out + Seq::empty() =~= page.out);
            Seq::empty()
        },
    }
}

/// A text, or code, goes where it stands: into the code block or the table cell
/// around it, whole and behind what is there already, or else onto the page. Only
/// the text of a document's front matter is not for the page.
pub proof fn a_text_goes_where_it_stands(
    page: Page,
    event: DocEvent<Seq<char>>,
    text: Seq<char>,
)
    requires
        event == DocEvent::Text(text) || event == DocEvent::Code(text),
    ensures
        ({
            let after = page.told(event);
            if event is Text && page.at.in_non_writing_block {
                after == page
            } else if event is Text && page.at.in_code_block {
                after.code_block_buf == page.code_block_buf + text && after.out == page.out
            } else if page.at.in_table_cell {
                after.table.cell == page.table.cell + text && after.out == page.out
            } else {
                extends(page.out, after.out) && shows(
                    after.out.skip(page.out.len() as int),
                    text,
                )
            }
        }),
{
    telling_extends(page, event);
    reveal(Page::told);
    reveal(Page::texted);
    reveal(Page::set);
    let after = page.told(event);
    let rest = after.out.skip(page.out.len() as int);
    if event is Text && (page.at.in_non_writing_block || page.at.in_code_block) {
        reveal(Page::coded);
    } else if page.at.in_table_cell {
        reveal(Page::drafted);
        reveal(Page::in_cell);
    } else {
        let marker = marker_is_written(page);
        if event is Code {
            reveal(Page::put);
            let (front, back) = painting_holds(text, page.theme.code);
            assert(rest =~= (marker + "`"@ + front) + text + (back + "`"@));
            shown_between(marker + "`"@ + front, text, back + "`"@);
        } else {
            let (front, back) = text_is_written(page.flushed(), text);
            assert(rest =~= (marker + front) + text + back);
            shown_between(marker + front, text, back);
        }
    }
}

/// What a page has at hand that is not written yet, and what it is part of.
ghost struct Within {
    table: Draft,
    code: Seq<char>,
    in_table: bool,
    in_table_cell: bool,
    in_code_block: bool,
    in_non_writing_block: bool,
}

/// What this page has at hand.
spec fn within(page: Page) -> Within {
    Within {
        table: page.table,
        code: page.code_block_buf,
        in_table: page.at.in_table,
        in_table_cell: page.at.in_table_cell,
        in_code_block: page.at.in_code_block,
        in_non_writing_block: page.at.in_non_writing_block,
    }
}

#[verifier::opaque]
spec fn is_within(page: Page, w: Within) -> bool {
    within(page) == w
}

spec fn is_set(at: Setting, w: Within) -> bool {
    &&& at.in_table == w.in_table
    &&& at.in_table_cell == w.in_table_cell
    &&& at.in_code_block == w.in_code_block
    &&& at.in_non_writing_block == w.in_non_writing_block
}

/// Writing reaches nothing that a page has at hand.
proof fn writing_reaches_the_page_alone(w: Within)
    ensures
        forall|p: Page, t: Seq<char>| is_within(p, w) ==> is_within(#[trigger] p.put(t), w),
        forall|p: Page| is_within(p, w) ==> is_within(#[trigger] p.fresh_line(), w),
        forall|p: Page| is_within(p, w) ==> is_within(#[trigger] p.gap_closed(), w),
        forall|p: Page, m: Option<Seq<char>>| is_within(p, w) ==> is_within(#[trigger] p.waiting(m), w),
        forall|p: Page| is_within(p, w) ==> is_within(#[trigger] p.flushed(), w),
        forall|p: Page| is_within(p, w) ==> is_within(#[trigger] p.unticked(), w),
        forall|p: Page, l: Seq<ListState>| is_within(p, w) ==> is_within(#[trigger] p.listed(l), w),
        forall|p: Page, t: Seq<char>| is_within(p, w) ==> is_within(#[trigger] p.linked(t), w),
        forall|p: Page| is_within(p, w) ==> is_within(#[trigger] p.unlinked(), w),
        forall|p: Page, n: Seq<char>| is_within(p, w) ==> is_within(#[trigger] p.noted(n), w),
        forall|p: Page, t: Seq<char>| is_within(p, w) ==> is_within(#[trigger] p.with_text(t), w),
        forall|p: Page, at: Setting|
            is_within(p, w) && is_set(at, w) ==> is_within(#[trigger] p.set(at), w),
{
    reveal(is_within);
    reveal(Page::set);
    reveal(Page::put);
    reveal(Page::fresh_line);
    reveal(Page::gap_closed);
    reveal(Page::waiting);
    reveal(Page::flushed);
    reveal(Page::unticked);
    reveal(Page::listed);
    reveal(Page::linked);
    reveal(Page::unlinked);
    reveal(Page::noted);
    reveal(Page::with_text);
}

/// An element that is neither of a table, nor of code, nor front matter reaches
/// nothing that the page has at hand.
spec fn is_plain_start(tag: Tag<Seq<char>>) -> bool {
    !(tag is Table || tag is TableRow || tag is TableCell || tag is CodeBlock
        || tag is MetadataBlock || tag is Image)
}

spec fn is_plain_end(end: TagEnd) -> bool {
    !(end is Table || end is TableHead || end is TableRow || end is TableCell || end is CodeBlock
        || end is MetadataBlock)
}

proof fn a_heading_reaches_nothing(page: Page, level: u8)
    ensures
        within(page.heading_open(level)) == within(page),
{
    reveal(Page::heading_open);
    reveal(Page::fresh_line);
    reveal(Page::put);
    reveal(Page::set);
}

proof fn a_heading_end_reaches_nothing(page: Page, level: u8)
    ensures
        within(page.heading_close(level)) == within(page),
{
    reveal(Page::heading_close);
    reveal(Page::put);
    reveal(Page::set);
}

proof fn a_quote_reaches_nothing(page: Page, alert: Option<Alert>)
    ensures
        within(page.quote_open(alert)) == within(page),
{
    reveal(Page::quote_open);
    reveal(Page::gap_closed);
    reveal(Page::fresh_line);
    reveal(Page::put);
    reveal(Page::set);
}

proof fn an_item_reaches_nothing(page: Page)
    ensures
        within(page.item_open()) == within(page),
{
    reveal(Page::item_open);
    reveal(Page::fresh_line);
    reveal(Page::put);
    reveal(Page::set);
    reveal(Page::waiting);
}

proof fn a_link_reaches_nothing(page: Page, email: bool, dest_url: Seq<char>)
    ensures
        within(page.link_open(email, dest_url)) == within(page),
{
    reveal(Page::link_open);
    reveal(Page::linked);
    reveal(Page::set);
}

proof fn a_note_reaches_nothing(page: Page, name: Seq<char>)
    ensures
        within(page.note_open(name)) == within(page),
{
    reveal(Page::note_open);
    reveal(Page::noted);
    reveal(Page::fresh_line);
    reveal(Page::put);
}

proof fn plain_starts_reach_nothing(page: Page, tag: Tag<Seq<char>>)
    requires
        is_plain_start(tag),
    ensures
        within(page.started(tag)) == within(page),
{
    reveal(Page::started);
    match tag {
        Tag::Heading(level) => a_heading_reaches_nothing(page, level),
        Tag::BlockQuote(alert) => a_quote_reaches_nothing(page, alert),
        Tag::Item => an_item_reaches_nothing(page),
        Tag::Link { email, dest_url } => a_link_reaches_nothing(page, email, dest_url),
        Tag::FootnoteDefinition(name) => a_note_reaches_nothing(page, name),
        _ => {
            reveal(Page::put);
            reveal(Page::set);
            reveal(Page::fresh_line);
            reveal(Page::flushed);
            reveal(Page::waiting);
            reveal(Page::listed);
        },
    }
}

proof fn text_ends_reach_nothing(page: Page)
    ensures
        within(page.ended(TagEnd::Paragraph)) == within(page),
        within(page.ended(TagEnd::BlockQuote)) == within(page),
        within(page.ended(TagEnd::DefinitionList)) == within(page),
        within(page.ended(TagEnd::FootnoteDefinition)) == within(page),
{
    reveal(Page::ended);
    reveal(Page::put);
    reveal(Page::set);
}

proof fn definition_ends_reach_nothing(page: Page)
    ensures
        within(page.ended(TagEnd::DefinitionListTitle)) == within(page),
        within(page.ended(TagEnd::DefinitionListDefinition)) == within(page),
        within(page.ended(TagEnd::HtmlBlock)) == within(page),
        within(page.ended(TagEnd::Image)) == within(page),
{
    reveal(Page::ended);
    reveal(Page::put);
    reveal(Page::set);
}

proof fn list_ends_reach_nothing(page: Page)
    ensures
        within(page.ended(TagEnd::List)) == within(page),
        within(page.ended(TagEnd::Item)) == within(page),
{
    reveal(Page::ended);
    reveal(Page::put);
    reveal(Page::set);
    reveal(Page::waiting);
    reveal(Page::listed);
}

proof fn mark_ends_reach_nothing(page: Page)
    ensures
        within(page.ended(TagEnd::Emphasis)) == within(page),
        within(page.ended(TagEnd::Strong)) == within(page),
        within(page.ended(TagEnd::Strikethrough)) == within(page),
        within(page.ended(TagEnd::Superscript)) == within(page),
        within(page.ended(TagEnd::Subscript)) == within(page),
{
    reveal(Page::ended);
    reveal(Page::put);
}

proof fn a_link_end_reaches_nothing(page: Page)
    ensures
        within(page.ended(TagEnd::Link)) == within(page),
{
    reveal(Page::ended);
    reveal(Page::unlinked);
    reveal(Page::set);
}

proof fn plain_ends_reach_nothing(page: Page, end: TagEnd)
    requires
        is_plain_end(end),
    ensures
        within(page.ended(end)) == within(page),
{
    match end {
        TagEnd::Heading(level) => {
            reveal(Page::ended);
            a_heading_end_reaches_nothing(page, level);
        },
        _ => {
            text_ends_reach_nothing(page);
            definition_ends_reach_nothing(page);
            list_ends_reach_nothing(page);
            mark_ends_reach_nothing(page);
            a_link_end_reaches_nothing(page);
        },
    }
}

proof fn a_cell_starts(page: Page)
    ensures
        within(page.started(Tag::TableCell)) == (Within {
            table: Draft { cell: Seq::empty(), ..page.table },
            in_table_cell: true,
            ..within(page)
        }),
{
    reveal(Page::started);
    reveal(Page::cell_open);
    reveal(Page::drafted);
    reveal(Page::set);
}

proof fn a_row_starts(page: Page)
    ensures
        within(page.started(Tag::TableRow)) == (Within {
            table: Draft { row: Seq::empty(), ..page.table },
            ..within(page)
        }),
{
    reveal(Page::started);
    reveal(Page::drafted);
    reveal(Page::fresh_line);
    reveal(Page::put);
}

proof fn a_table_starts(page: Page)
    ensures
        within(page.started(Tag::Table)) == (Within {
            table: Draft { header: None, rows: Seq::empty(), ..page.table },
            in_table: true,
            ..within(page)
        }),
{
    reveal(Page::started);
    reveal(Page::table_open);
    reveal(Page::drafted);
    reveal(Page::fresh_line);
    reveal(Page::put);
    reveal(Page::set);
}

/// The row at hand with the cell at hand at its end, where there is one.
spec fn row_with_cell(page: Page) -> Seq<Seq<char>> {
    if page.at.in_table_cell {
        page.table.row.push(trimmed(page.table.cell))
    } else {
        page.table.row
    }
}

proof fn a_cell_ends(page: Page)
    ensures
        within(page.ended(TagEnd::TableCell)) == (Within {
            table: Draft { row: row_with_cell(page), ..page.table },
            in_table_cell: false,
            ..within(page)
        }),
{
    reveal(Page::ended);
    reveal(Page::cell_over);
    reveal(Page::drafted);
    reveal(Page::set);
}

proof fn a_row_ends(page: Page)
    ensures
        within(page.ended(TagEnd::TableRow)) == (Within {
            table: Draft {
                row: Seq::empty(),
                rows: page.table.rows.push(row_with_cell(page)),
                ..page.table
            },
            in_table_cell: false,
            ..within(page)
        }),
{
    reveal(Page::ended);
    reveal(Page::cell_over);
    reveal(Page::row_over);
    reveal(Page::drafted);
    reveal(Page::set);
}

proof fn a_header_ends(page: Page)
    ensures
        within(page.ended(TagEnd::TableHead)) == (Within {
            table: Draft { header: Some(page.table.row), row: Seq::empty(), ..page.table },
            ..within(page)
        }),
{
    reveal(Page::ended);
    reveal(Page::header_over);
    reveal(Page::drafted);
    reveal(Page::set);
}

/// A table that is at an end is on the page, its header first.
proof fn an_ended_table_is_written(page: Page)
    requires
        page.at.in_table,
    ensures
        page.ended(TagEnd::Table).out == page.out + table_text(
            match page.table.header {
                Some(header) => seq![header] + page.table.rows,
                None => page.table.rows,
            },
        ) + "\n"@,
{
    reveal(Page::ended);
    reveal(Page::table_close);
    reveal(Page::put);
    reveal(Page::set);
    reveal(Page::drafted);
    reveal(Page::headed);
    reveal(Page::tabled);
}

/// What is told reaches the cell at hand, or the code at hand, at its end.
proof fn telling_adds_on(page: Page, event: DocEvent<Seq<char>>) -> (more: (Seq<char>, Seq<char>))
    ensures
        within(page.told(event)) == (Within {
            table: Draft { cell: page.table.cell + more.0, ..page.table },
            code: page.code_block_buf + more.1,
            ..within(page)
        }),
{
    let w = within(page);
    let nothing = Seq::<char>::empty();
    assert(page.table.cell + nothing =~= page.table.cell);
    assert(page.code_block_buf + nothing =~= page.code_block_buf);
    reveal(Page::told);
    if page.at.in_table_cell || (event is Text && page.at.in_code_block) {
        reveal(Page::texted);
        reveal(Page::reckoned);
        reveal(Page::coded);
        reveal(Page::drafted);
        reveal(Page::in_cell);
        reveal(Page::set);
        reveal(Page::noted);
        let cell = page.table.cell;
        match event {
            DocEvent::Text(text) => if page.at.in_non_writing_block {
                (nothing, nothing)
            } else if page.at.in_code_block {
                (nothing, text)
            } else {
                (text, nothing)
            },
            DocEvent::Code(text) => (text, nothing),
            DocEvent::InlineMath(text) => {
                assert(cell + "$"@ + text + "$"@ =~= cell + ("$"@ + text + "$"@));
                ("$"@ + text + "$"@, nothing)
            },
            DocEvent::DisplayMath(text) => {
                assert(cell + "$$"@ + text + "$$"@ =~= cell + ("$$"@ + text + "$$"@));
                ("$$"@ + text + "$$"@, nothing)
            },
            DocEvent::SoftBreak => (" "@, nothing),
            DocEvent::HardBreak => (" "@, nothing),
            DocEvent::Rule => ("-"@, nothing),
            DocEvent::FootnoteReference(name) => (page.footnote_label(name), nothing),
            DocEvent::TaskListMarker(checked) => (task_box(checked), nothing),
            _ => (nothing, nothing),
        }
    } else {
        writing_reaches_the_page_alone(w);
        assert(is_within(page, w)) by {
            reveal(is_within);
        }
        assert(is_within(page.told(event), w)) by {
            reveal(Page::texted);
            reveal(Page::reckoned);
            assert(forall|p: Page| #[trigger] is_within(p, w) ==> is_set(p.at, w)) by {
                reveal(is_within);
            }
        }
        reveal(is_within);
        (nothing, nothing)
    }
}

proof fn code_and_matter_reach_no_table(page: Page, block: CodeBlock<Seq<char>>)
    ensures
        ({
            let starts = page.started(Tag::CodeBlock(block));
            let ends = page.ended(TagEnd::CodeBlock);
            let matter = page.started(Tag::MetadataBlock);
            let over = page.ended(TagEnd::MetadataBlock);
            &&& starts.table == page.table && ends.table == page.table && matter.table == page.table
                && over.table == page.table
            &&& starts.at.in_table == page.at.in_table && ends.at.in_table == page.at.in_table
                && matter.at.in_table == page.at.in_table && over.at.in_table == page.at.in_table
            &&& starts.at.in_table_cell == page.at.in_table_cell && ends.at.in_table_cell
                == page.at.in_table_cell && matter.at.in_table_cell == page.at.in_table_cell
                && over.at.in_table_cell == page.at.in_table_cell
        }),
{
    reveal(Page::started);
    reveal(Page::ended);
    reveal(Page::code_open);
    reveal(Page::code_close);
    reveal(Page::coded);
    reveal(Page::fresh_line);
    reveal(Page::put);
    reveal(Page::set);
}

/// Whether an event is the start or the end of a table, or of its head, a row or
/// a cell.
pub open spec fn of_a_table(event: DocEvent<Seq<char>>) -> bool {
    match event {
        DocEvent::Start(tag) => tag is Table || tag is TableHead || tag is TableRow
            || tag is TableCell,
        DocEvent::End(end) => end is Table || end is TableHead || end is TableRow
            || end is TableCell,
        _ => false,
    }
}

/// What is in a cell stays there through all that is not of a table.
proof fn others_leave_tables(page: Page, events: Seq<DocEvent<Seq<char>>>, i: int) -> (more: Seq<
    char,
>)
    requires
        !of_a_table(events[i]),
        events[i] != DocEvent::Start(Tag::<Seq<char>>::Image),
    ensures
        ({
            let after = page.step(events, i).0;
            &&& after.table == Draft { cell: page.table.cell + more, ..page.table }
            &&& after.at.in_table == page.at.in_table
            &&& after.at.in_table_cell == page.at.in_table_cell
        }),
{
    assert(page.table.cell + Seq::empty() =~= page.table.cell);
    match events[i] {
        DocEvent::Start(Tag::CodeBlock(block)) => {
            code_and_matter_reach_no_table(page, block);
            Seq::empty()
        },
        DocEvent::Start(Tag::MetadataBlock) => {
            code_and_matter_reach_no_table(page, CodeBlock::Indented);
            Seq::empty()
        },
        DocEvent::Start(tag) => {
            plain_starts_reach_nothing(page, tag);
            Seq::empty()
        },
        DocEvent::End(TagEnd::CodeBlock) => {
            code_and_matter_reach_no_table(page, CodeBlock::Indented);
            Seq::empty()
        },
        DocEvent::End(TagEnd::MetadataBlock) => {
            code_and_matter_reach_no_table(page, CodeBlock::Indented);
            Seq::empty()
        },
        DocEvent::End(end) => {
            plain_ends_reach_nothing(page, end);
            Seq::empty()
        },
        event => telling_adds_on(page, event).0,
    }
}

/// The page after the events from `i` up to `j`, none of which is an image.
spec fn walked(page: Page, events: Seq<DocEvent<Seq<char>>>, i: int, j: int) -> Page
    decreases j - i,
{
    if i >= j {
        page
    } else {
        walked(page.step(events, i).0, events, i + 1, j)
    }
}

/// Whether none of the events from `i` up to `j` starts an image.
pub open spec fn has_no_image(events: Seq<DocEvent<Seq<char>>>, i: int, j: int) -> bool {
    forall|k: int|
        i <= k < j ==> (#[trigger] events[k]) != DocEvent::Start(Tag::<Seq<char>>::Image)
}

proof fn walking_is_showing(page: Page, events: Seq<DocEvent<Seq<char>>>, i: int, j: int)
    requires
        0 <= i <= j <= events.len(),
        has_no_image(events, i, j),
    ensures
        page.shown(events, i) == walked(page, events, i, j).shown(events, j),
    decreases j - i,
{
    if i < j {
        assert(events[i] != DocEvent::Start(Tag::<Seq<char>>::Image));
        walking_is_showing(page.step(events, i).0, events, i + 1, j);
    }
}

/// To walk on is to walk in one go.
proof fn walking_on(page: Page, events: Seq<DocEvent<Seq<char>>>, i: int, j: int, k: int)
    requires
        i <= j <= k,
    ensures
        walked(page, events, i, k) == walked(walked(page, events, i, j), events, j, k),
    decreases j - i,
{
    if i < j {
        walking_on(page.step(events, i).0, events, i + 1, j, k);
    }
}

proof fn a_cell_is_walked(
    page: Page,
    events: Seq<DocEvent<Seq<char>>>,
    i: int,
    j: int,
    text: Seq<char>,
)
    requires
        0 <= i <= j <= events.len(),
        has_no_image(events, i, j),
        forall|k: int| i <= k < j ==> !of_a_table(#[trigger] events[k]),
        shows(page.table.cell, text),
    ensures
        ({
            let after = walked(page, events, i, j);
            &&& shows(after.table.cell, text)
            &&& after.at.in_table == page.at.in_table
            &&& after.at.in_table_cell == page.at.in_table_cell
        }),
    decreases j - i,
{
    if i < j {
        assert(!of_a_table(events[i]));
        assert(events[i] != DocEvent::Start(Tag::<Seq<char>>::Image));
        let more = others_leave_tables(page, events, i);
        shown_further(page.table.cell, more, text);
        a_cell_is_walked(page.step(events, i).0, events, i + 1, j, text);
    }
}

/// Whether one of some cells shows a text.
spec fn row_shows(row: Seq<Seq<char>>, text: Seq<char>) -> bool {
    exists|c: int| 0 <= c < row.len() && shows(#[trigger] row[c], text)
}

proof fn longer_row_shows(row: Seq<Seq<char>>, cell: Seq<char>, text: Seq<char>)
    requires
        row_shows(row, text) || shows(cell, text),
    ensures
        row_shows(row.push(cell), text),
{
    let more = row.push(cell);
    if row_shows(row, text) {
        let c = choose|c: int| 0 <= c < row.len() && shows(#[trigger] row[c], text);
        assert(more[c] == row[c]);
    } else {
        assert(more[row.len() as int] == cell);
    }
}

/// The steps that a row's cells survive.
spec fn spares_rows(event: DocEvent<Seq<char>>) -> bool {
    match event {
        DocEvent::Start(tag) => !(tag is Table || tag is TableRow),
        DocEvent::End(end) => !(end is Table || end is TableRow || end is TableHead),
        _ => true,
    }
}

proof fn a_row_is_walked(
    page: Page,
    events: Seq<DocEvent<Seq<char>>>,
    i: int,
    j: int,
    text: Seq<char>,
)
    requires
        0 <= i <= j <= events.len(),
        has_no_image(events, i, j),
        forall|k: int| i <= k < j ==> spares_rows(#[trigger] events[k]),
        row_shows(page.table.row, text),
    ensures
        ({
            let after = walked(page, events, i, j);
            &&& row_shows(after.table.row, text)
            &&& after.at.in_table == page.at.in_table
        }),
    decreases j - i,
{
    if i < j {
        assert(spares_rows(events[i]));
        assert(events[i] != DocEvent::Start(Tag::<Seq<char>>::Image));
        a_row_survives(page, events, i, text);
        a_row_is_walked(page.step(events, i).0, events, i + 1, j, text);
    }
}

proof fn a_row_survives(page: Page, events: Seq<DocEvent<Seq<char>>>, i: int, text: Seq<char>)
    requires
        events[i] != DocEvent::Start(Tag::<Seq<char>>::Image),
        spares_rows(events[i]),
        row_shows(page.table.row, text),
    ensures
        row_shows(page.step(events, i).0.table.row, text),
        page.step(events, i).0.at.in_table == page.at.in_table,
{
    match events[i] {
        DocEvent::Start(Tag::TableCell) => a_cell_starts(page),
        DocEvent::Start(Tag::TableHead) => plain_starts_reach_nothing(page, Tag::TableHead),
        DocEvent::End(TagEnd::TableCell) => {
            a_cell_ends(page);
            longer_row_shows(page.table.row, trimmed(page.table.cell), text);
        },
        _ => {
            let more = others_leave_tables(page, events, i);
        },
    }
}

/// Whether a table in the making shows a text in one of its rows.
spec fn draft_shows(table: Draft, text: Seq<char>) -> bool {
    ||| table.header is Some && row_shows(table.header->0, text)
    ||| exists|r: int| 0 <= r < table.rows.len() && row_shows(#[trigger] table.rows[r], text)
}

proof fn a_draft_survives(page: Page, events: Seq<DocEvent<Seq<char>>>, i: int, text: Seq<char>)
    requires
        events[i] != DocEvent::Start(Tag::<Seq<char>>::Image),
        events[i] != DocEvent::Start(Tag::<Seq<char>>::Table),
        events[i] != DocEvent::<Seq<char>>::End(TagEnd::Table),
        events[i] != DocEvent::<Seq<char>>::End(TagEnd::TableHead),
        draft_shows(page.table, text),
    ensures
        draft_shows(page.step(events, i).0.table, text),
        page.step(events, i).0.at.in_table == page.at.in_table,
{
    let after = page.step(events, i).0;
    let held = within(after);
    match events[i] {
        DocEvent::Start(Tag::TableCell) => {
            a_cell_starts(page);
            assert(held.table.rows == page.table.rows);
        },
        DocEvent::Start(Tag::TableRow) => {
            a_row_starts(page);
            assert(held.table.rows == page.table.rows);
        },
        DocEvent::Start(Tag::TableHead) => {
            plain_starts_reach_nothing(page, Tag::TableHead);
            assert(held.table.rows == page.table.rows);
        },
        DocEvent::End(TagEnd::TableCell) => {
            a_cell_ends(page);
            assert(held.table.rows == page.table.rows);
        },
        DocEvent::End(TagEnd::TableRow) => {
            a_row_ends(page);
            assert(held.table.rows == page.table.rows.push(row_with_cell(page)));
        },
        _ => {
            let more = others_leave_tables(page, events, i);
            assert(after.table.rows == page.table.rows);
        },
    }
    assert(held.table == after.table && after.table.header == page.table.header);
    if !(page.table.header is Some && row_shows(page.table.header->0, text)) {
        let r = choose|r: int|
            0 <= r < page.table.rows.len() && row_shows(#[trigger] page.table.rows[r], text);
        assert(after.table.rows[r] == page.table.rows[r]);
        assert(row_shows(after.table.rows[r], text));
    }
}

proof fn a_draft_is_walked(
    page: Page,
    events: Seq<DocEvent<Seq<char>>>,
    i: int,
    j: int,
    text: Seq<char>,
)
    requires
        0 <= i <= j <= events.len(),
        has_no_image(events, i, j),
        forall|k: int|
            i <= k < j ==> {
                &&& (#[trigger] events[k]) != DocEvent::Start(Tag::<Seq<char>>::Table)
                &&& events[k] != DocEvent::<Seq<char>>::End(TagEnd::Table)
                &&& events[k] != DocEvent::<Seq<char>>::End(TagEnd::TableHead)
            },
        draft_shows(page.table, text),
    ensures
        draft_shows(walked(page, events, i, j).table, text),
        walked(page, events, i, j).at.in_table == page.at.in_table,
    decreases j - i,
{
    if i < j {
        assert(events[i] != DocEvent::Start(Tag::<Seq<char>>::Table));
        a_draft_survives(page, events, i, text);
        a_draft_is_walked(page.step(events, i).0, events, i + 1, j, text);
    }
}

proof fn a_written_draft_shows(page: Page, text: Seq<char>)
    requires
        page.at.in_table,
        draft_shows(page.table, text),
    ensures
        shows(page.ended(TagEnd::Table).out, text),
{
    an_ended_table_is_written(page);
    let rows = match page.table.header {
        Some(header) => seq![header] + page.table.rows,
        None => page.table.rows,
    };
    let r = if page.table.header is Some && row_shows(page.table.header->0, text) {
        0
    } else {
        let r = choose|r: int|
            0 <= r < page.table.rows.len() && row_shows(#[trigger] page.table.rows[r], text);
        if page.table.header is Some {
            assert(rows[r + 1] == page.table.rows[r]);
            r + 1
        } else {
            r
        }
    };
    let row = rows[r];
    let c = choose|c: int| 0 <= c < row.len() && shows(#[trigger] row[c], text);
    every_cell_is_shown(rows, r, c);
    shown_within(table_text(rows), row[c], text);
    shown_further(table_text(rows), page.out, text);
    shown_further(page.out + table_text(rows), "\n"@, text);
}

/// Whether event `k` stands in a cell of a table: the table starts at `s` and ends
/// at `t`, the cell starts at `d` and ends at `c`, and the row or the head that it
/// is in ends at `r`. No image, no code block and no front matter is in a table.
pub open spec fn stands_in_a_cell(
    events: Seq<DocEvent<Seq<char>>>,
    s: int,
    d: int,
    k: int,
    c: int,
    r: int,
    t: int,
) -> bool {
    &&& 0 <= s < d < k < c < r < t < events.len()
    &&& events[s] == DocEvent::Start(Tag::<Seq<char>>::Table)
    &&& events[d] == DocEvent::Start(Tag::<Seq<char>>::TableCell)
    &&& events[c] == DocEvent::<Seq<char>>::End(TagEnd::TableCell)
    &&& events[r] == DocEvent::<Seq<char>>::End(TagEnd::TableRow) || events[r] == DocEvent::<
        Seq<char>,
    >::End(TagEnd::TableHead)
    &&& events[t] == DocEvent::<Seq<char>>::End(TagEnd::Table)
    &&& forall|j: int|
        s < j < t ==> match #[trigger] events[j] {
            DocEvent::Start(tag) => !(tag is Table || tag is Image || tag is CodeBlock
                || tag is MetadataBlock),
            DocEvent::End(end) => !(end is Table),
            _ => true,
        }
    &&& forall|j: int| d < j < c ==> !of_a_table(#[trigger] events[j])
    &&& forall|j: int|
        c < j < r ==> match #[trigger] events[j] {
            DocEvent::Start(tag) => !(tag is TableRow),
            DocEvent::End(end) => !(end is TableRow || end is TableHead),
            _ => true,
        }
    &&& forall|j: int|
        r < j < t ==> (#[trigger] events[j]) != DocEvent::<Seq<char>>::End(TagEnd::TableHead)
}

/// Where a table starts and its text stands, the page is neither in code nor in
/// front matter.
proof fn a_table_is_walked(page: Page, events: Seq<DocEvent<Seq<char>>>, i: int, j: int)
    requires
        0 <= i <= j <= events.len(),
        forall|k: int|
            i <= k < j ==> match #[trigger] events[k] {
                DocEvent::Start(tag) => !(tag is Table || tag is Image || tag is CodeBlock
                    || tag is MetadataBlock),
                DocEvent::End(end) => !(end is Table),
                _ => true,
            },
        !page.at.in_code_block,
        !page.at.in_non_writing_block,
        page.at.in_table,
    ensures
        ({
            let after = walked(page, events, i, j);
            &&& !after.at.in_code_block
            &&& !after.at.in_non_writing_block
            &&& after.at.in_table
        }),
    decreases j - i,
{
    if i < j {
        let event = events[i];
        match event {
            DocEvent::Start(Tag::TableCell) => a_cell_starts(page),
            DocEvent::Start(Tag::TableRow) => a_row_starts(page),
            DocEvent::Start(tag) => plain_starts_reach_nothing(page, tag),
            DocEvent::End(TagEnd::TableCell) => a_cell_ends(page),
            DocEvent::End(TagEnd::TableRow) => a_row_ends(page),
            DocEvent::End(TagEnd::TableHead) => a_header_ends(page),
            DocEvent::End(TagEnd::CodeBlock) => {
                reveal(Page::ended);
                reveal(Page::code_close);
                reveal(Page::coded);
                reveal(Page::put);
                reveal(Page::set);
            },
            DocEvent::End(TagEnd::MetadataBlock) => {
                reveal(Page::ended);
                reveal(Page::set);
            },
            DocEvent::End(end) => plain_ends_reach_nothing(page, end),
            event => {
                let more = telling_adds_on(page, event);
            },
        }
        a_table_is_walked(page.step(events, i).0, events, i + 1, j);
    }
}

/// No text of a table is lost: what a text or code in a cell says, but for white
/// space around it, is on the page once the document is shown.
pub proof fn no_text_of_a_table_is_lost(
    page: Page,
    events: Seq<DocEvent<Seq<char>>>,
    s: int,
    d: int,
    k: int,
    c: int,
    r: int,
    t: int,
    text: Seq<char>,
)
    requires
        stands_in_a_cell(events, s, d, k, c, r, t),
        events[k] == DocEvent::Text(text) || events[k] == DocEvent::Code(text),
        !page.at.in_code_block,
        !page.at.in_non_writing_block,
    ensures
        shows(page.shown(events, s).out, trimmed(text)),
{
    let shown = trimmed(text);
    if shown.len() == 0 {
        let out = page.shown(events, s).out;
        assert(out.subrange(0, 0) =~= shown);
        assert(stands_at(out, shown, 0));
    } else {
        let p0 = page.step(events, s).0;
        a_table_starts(page);
        assert(has_no_image(events, s, t));
        a_table_is_walked(p0, events, s + 1, d);
        let p1 = walked(p0, events, s + 1, d);
        a_cell_starts(p1);
        let p2 = p1.step(events, d).0;
        a_table_is_walked(p2, events, d + 1, k);
        shown_between(Seq::empty(), p2.table.cell, Seq::empty());
        a_cell_is_walked(p2, events, d + 1, k, p2.table.cell);
        let p3 = walked(p2, events, d + 1, k);
        a_text_goes_where_it_stands(p3, events[k], text);
        let p4 = p3.step(events, k).0;
        shown_between(p3.table.cell, text, Seq::empty());
        let added = telling_adds_on(p3, events[k]);
        a_cell_is_walked(p4, events, k + 1, c, text);
        let p5 = walked(p4, events, k + 1, c);
        a_cell_ends(p5);
        let p6 = p5.step(events, c).0;
        shown_trimmed(p5.table.cell, text);
        longer_row_shows(p5.table.row, trimmed(p5.table.cell), shown);
        assert forall|j: int| c + 1 <= j < r implies spares_rows(#[trigger] events[j]) by {}
        a_row_is_walked(p6, events, c + 1, r, shown);
        let p7 = walked(p6, events, c + 1, r);
        let p8 = p7.step(events, r).0;
        a_head_or_row_ends(p7, events, r, shown);
        a_draft_is_walked(p8, events, r + 1, t, shown);
        let p9 = walked(p8, events, r + 1, t);
        a_written_draft_shows(p9, shown);
        let p10 = p9.step(events, t).0;
        walking_on(page, events, s, s + 1, d);
        walking_on(page, events, s, d, d + 1);
        walking_on(page, events, s, d + 1, k);
        walking_on(page, events, s, k, k + 1);
        walking_on(page, events, s, k + 1, c);
        walking_on(page, events, s, c, c + 1);
        walking_on(page, events, s, c + 1, r);
        walking_on(page, events, s, r, r + 1);
        walking_on(page, events, s, r + 1, t);
        walking_on(page, events, s, t, t + 1);
        one_walk(page, events, s);
        one_walk(p1, events, d);
        one_walk(p3, events, k);
        one_walk(p5, events, c);
        one_walk(p7, events, r);
        one_walk(p9, events, t);
        walking_is_showing(page, events, s, t + 1);
        let cut = trimming_takes_white_space_off(text);
        assert(shown.last() == text[cut.1 - 1]);
        what_is_on_a_page_stays(p10, events, t + 1, shown);
    }
}

proof fn one_walk(page: Page, events: Seq<DocEvent<Seq<char>>>, i: int)
    ensures
        walked(page, events, i, i + 1) == page.step(events, i).0,
{
    assert(walked(page.step(events, i).0, events, i + 1, i + 1) == page.step(events, i).0);
}

proof fn a_head_or_row_ends(page: Page, events: Seq<DocEvent<Seq<char>>>, r: int, text: Seq<char>)
    requires
        row_shows(page.table.row, text),
        events[r] == DocEvent::<Seq<char>>::End(TagEnd::TableRow) || events[r] == DocEvent::<
            Seq<char>,
        >::End(TagEnd::TableHead),
    ensures
        draft_shows(page.step(events, r).0.table, text),
        page.step(events, r).0.at.in_table == page.at.in_table,
{
    if events[r] == DocEvent::<Seq<char>>::End(TagEnd::TableRow) {
        a_row_ends(page);
        if page.at.in_table_cell {
            longer_row_shows(page.table.row, trimmed(page.table.cell), text);
        }
        let after = page.step(events, r).0;
        assert(within(after).table.rows == page.table.rows.push(row_with_cell(page)));
        assert(after.table.rows[page.table.rows.len() as int] == row_with_cell(page));
    } else {
        a_header_ends(page);
    }
}

} // verus!
