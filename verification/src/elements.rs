//! What the elements of a document look like on its page: code blocks, lists,
//! headings, breaks, tasks, footnotes and images.

use vstd::prelude::*;

use crate::ansi::painted;
use crate::markdown::CodeBlock;
use crate::markdown::DocEvent;
use crate::markdown::Tag;
use crate::markdown::TagEnd;
use crate::page::a_name_is_found_where_it_stands;
use crate::page::ListState;
use crate::page::Page;
use crate::render::lists_ended;
use crate::render::lists_started;
use crate::text::decimal;
use crate::text::repeated;
use crate::text::trimmed;
use crate::text::upper;

verus! {

/// Texts, one after the other.
pub open spec fn run_together(texts: Seq<Seq<char>>) -> Seq<char>
    decreases texts.len(),
{
    if texts.len() == 0 {
        Seq::empty()
    } else {
        run_together(texts.drop_last()) + texts.last()
    }
}

/// The page after text events, one after the other.
pub open spec fn told_all(page: Page, texts: Seq<Seq<char>>) -> Page
    decreases texts.len(),
{
    if texts.len() == 0 {
        page
    } else {
        told_all(page, texts.drop_last()).told(DocEvent::Text(texts.last()))
    }
}

proof fn code_is_gathered(page: Page, texts: Seq<Seq<char>>)
    requires
        page.at.in_code_block,
        !page.at.in_non_writing_block,
    ensures
        told_all(page, texts).out == page.out,
        told_all(page, texts).code_block_buf == page.code_block_buf + run_together(texts),
        told_all(page, texts).at.in_code_block,
        !told_all(page, texts).at.in_non_writing_block,
    decreases texts.len(),
{
    if texts.len() == 0 {
        assert(page.code_block_buf + run_together(texts) =~= page.code_block_buf);
    } else {
        let held = texts.drop_last();
        code_is_gathered(page, held);
        reveal(Page::told);
        reveal(Page::texted);
        reveal(Page::coded);
        reveal(Page::set);
        assert(page.code_block_buf + run_together(texts) =~= page.code_block_buf + run_together(
            held,
        ) + texts.last());
    }
}

/// A fenced code block is shown whole, between its fences, the first of them with
/// the block's language. The code is as it was written, in as many texts as it
/// came in, with a line end behind it where it has none.
pub proof fn code_is_shown_whole(page: Page, info: Seq<char>, texts: Seq<Seq<char>>)
    requires
        !page.at.in_non_writing_block,
        !info.contains(' '),
    ensures
        ({
            let open = page.started(Tag::CodeBlock(CodeBlock::Fenced(info)));
            let after = told_all(open, texts).ended(TagEnd::CodeBlock);
            let code = run_together(texts);
            let line_end = if page.at.end_newline {
                ""@
            } else {
                "\n"@
            };
            let rest = if code.len() > 0 && code.last() == '\n' {
                ""@
            } else {
                "\n"@
            };
            &&& after.out == page.out + line_end + "```"@ + info + "\n"@ + code + rest
                + "```\n\n"@
            &&& !after.at.in_code_block
        }),
{
    reveal_strlit("");
    let block = CodeBlock::Fenced(info);
    let open = page.started(Tag::CodeBlock(block));
    let lang = crate::page::until(info, ' ');
    crate::page::a_text_is_cut_where_it_is_told_to(info, ' ');
    if lang.len() < info.len() {
        assert(info.contains(info[lang.len() as int]));
    }
    assert(lang =~= info);
    assert(open.at.in_code_block && !open.at.in_non_writing_block && open.code_block_buf
        =~= Seq::<char>::empty()) by {
        reveal(Page::started);
        reveal(Page::code_open);
        reveal(Page::fresh_line);
        reveal(Page::put);
        reveal(Page::set);
        reveal(Page::coded);
    }
    let line_end = if page.at.end_newline {
        ""@
    } else {
        "\n"@
    };
    assert(open.out =~= page.out + line_end + "```"@ + info + "\n"@) by {
        reveal(Page::started);
        reveal(Page::code_open);
        reveal(Page::fresh_line);
        reveal(Page::put);
        reveal(Page::set);
        reveal(Page::coded);
    }
    code_is_gathered(open, texts);
    let full = told_all(open, texts);
    let code = run_together(texts);
    assert(full.code_block_buf =~= code);
    let rest = if code.len() > 0 && code.last() == '\n' {
        ""@
    } else {
        "\n"@
    };
    assert(full.ended(TagEnd::CodeBlock).out =~= full.out + code + rest + "```\n\n"@) by {
        reveal(Page::ended);
        reveal(Page::code_close);
        reveal(Page::put);
        reveal(Page::set);
        reveal(Page::coded);
    }
    assert(!full.ended(TagEnd::CodeBlock).at.in_code_block) by {
        reveal(Page::ended);
        reveal(Page::code_close);
        reveal(Page::set);
    }
}

/// The lists around what follows so many items, each ended.
pub open spec fn lists_after_items(lists: Seq<ListState>, items: nat) -> Seq<ListState>
    decreases items,
{
    if items == 0 {
        lists
    } else {
        lists_ended(lists_after_items(lists, (items - 1) as nat), TagEnd::Item)
    }
}

/// An ordered list counts on from its start, one for each item, and leaves the
/// lists around it as they are; its end takes it away again.
pub proof fn an_ordered_list_counts_its_items(lists: Seq<ListState>, start: u64, items: nat)
    requires
        start + items <= u128::MAX,
    ensures
        ({
            let inside = lists_after_items(lists_started(lists, Tag::List(Some(start))), items);
            &&& inside == lists.push(ListState::Ordered { index: (start + items) as u128 })
            &&& lists_ended(inside, TagEnd::List) == lists
        }),
    decreases items,
{
    let inside = lists_after_items(lists_started(lists, Tag::List(Some(start))), items);
    if items > 0 {
        an_ordered_list_counts_its_items(lists, start, (items - 1) as nat);
        assert(inside =~= lists.push(ListState::Ordered { index: (start + items) as u128 }));
    }
    assert(lists.push(ListState::Ordered { index: (start + items) as u128 }).drop_last() =~= lists);
}

/// An item of a list that is not ordered changes no list, and its list's end
/// leaves those around it.
pub proof fn an_unordered_list_counts_nothing(lists: Seq<ListState>, items: nat)
    ensures
        ({
            let inside = lists_after_items(lists_started(lists, Tag::List(None)), items);
            &&& inside == lists.push(ListState::Unordered)
            &&& lists_ended(inside, TagEnd::List) == lists
        }),
    decreases items,
{
    if items > 0 {
        an_unordered_list_counts_nothing(lists, (items - 1) as nat);
    }
    assert(lists.push(ListState::Unordered).drop_last() =~= lists);
}

/// An item is marked with its number where its list is ordered, and with an
/// asterisk where it is not, two spaces further in for each list around its own.
/// The marker is written once, in front of the item's text.
pub proof fn an_item_is_marked_once(page: Page, text: Seq<char>)
    requires
        page.list_stack.len() > 0,
        !page.at.in_non_writing_block,
        !page.at.in_code_block,
        !page.at.in_table_cell,
        page.text_style() is None,
        page.at.end_newline,
    ensures
        ({
            let item = page.started(Tag::Item);
            let after = item.told(DocEvent::Text(text));
            let own = page.list_stack.last();
            let sign = if own is Ordered {
                decimal(own->index as nat) + ". "@
            } else {
                "* "@
            };
            &&& item.out == page.out
            &&& item.pending_list_marker is Some
            &&& after.out == page.out + item.pending_list_marker->0 + text
            &&& after.pending_list_marker is None
            &&& page.list_stack.len() == 1 ==> item.pending_list_marker->0 == painted(
                sign,
                page.theme.list_marker,
            )
            &&& page.list_stack.len() == 2 ==> item.pending_list_marker->0 == "  "@ + painted(
                sign,
                page.theme.list_marker,
            )
        }),
{
    let item = page.started(Tag::Item);
    let marker = page.item_marker();
    assert(item.out == page.out && item.pending_list_marker == Some(marker) && item.text_style()
        is None && !item.at.in_non_writing_block && !item.at.in_code_block
        && !item.at.in_table_cell) by {
        reveal(Page::started);
        reveal(Page::item_open);
        reveal(Page::fresh_line);
        reveal(Page::set);
        reveal(Page::waiting);
    }
    let after = item.told(DocEvent::Text(text));
    assert(after.out =~= page.out + marker + text && after.pending_list_marker is None) by {
        reveal(Page::told);
        reveal(Page::texted);
        reveal(Page::flushed);
        reveal(Page::with_text);
        reveal(Page::put);
        reveal(Page::set);
        reveal(Page::waiting);
    }
    reveal_with_fuel(crate::text::repeated_text, 2);
    let own = page.list_stack.last();
    let sign = if own is Ordered {
        decimal(own->index as nat) + ". "@
    } else {
        "* "@
    };
    if page.list_stack.len() == 1 {
        assert(marker =~= painted(sign, page.theme.list_marker));
    }
    if page.list_stack.len() == 2 {
        assert(marker =~= "  "@ + painted(sign, page.theme.list_marker));
    }
}

/// A heading below the first level is told by as many hash signs as its level.
pub proof fn a_heading_shows_its_level(page: Page, level: u8)
    requires
        level != 1,
        page.at.end_newline,
    ensures
        page.started(Tag::Heading(level)).out == page.out + painted(
            repeated('#', level as nat),
            page.theme.heading,
        ) + " "@,
        page.started(Tag::Heading(level)).at.in_heading,
        page.started(Tag::Heading(level)).at.heading_level == Some(level),
{
    reveal(Page::started);
    reveal(Page::heading_open);
    reveal(Page::fresh_line);
    reveal(Page::put);
    reveal(Page::set);
}

/// A break within a line is a space, and one that ends a line is a line end; in a
/// table cell both are spaces.
pub proof fn breaks_are_told_apart(page: Page)
    requires
        page.pending_list_marker is None,
    ensures
        !page.at.in_table_cell ==> page.told(DocEvent::SoftBreak).out == page.out + " "@,
        !page.at.in_table_cell ==> page.told(DocEvent::HardBreak).out == page.out + "\n"@,
        !page.at.in_table_cell ==> page.told(DocEvent::HardBreak).at.end_newline,
        page.at.in_table_cell ==> page.told(DocEvent::SoftBreak).table.cell == page.table.cell
            + " "@ && page.told(DocEvent::SoftBreak).out == page.out,
        page.at.in_table_cell ==> page.told(DocEvent::HardBreak).table.cell == page.table.cell
            + " "@ && page.told(DocEvent::HardBreak).out == page.out,
{
    reveal(Page::told);
    reveal(Page::flushed);
    reveal(Page::put);
    reveal(Page::set);
    reveal(Page::in_cell);
    reveal(Page::drafted);
}

/// A task's box is ticked just where the task is done.
pub proof fn a_done_task_is_ticked(page: Page)
    requires
        page.pending_list_marker is None,
        !page.at.in_table_cell,
    ensures
        page.told(DocEvent::TaskListMarker(true)).out == page.out + "[x] "@,
        page.told(DocEvent::TaskListMarker(false)).out == page.out + "[ ] "@,
{
    reveal(Page::told);
    reveal(Page::unticked);
    reveal(Page::put);
}

/// A footnote keeps the number that it has when it is first named, which is one
/// more than that of the footnote named before it, and no two have the same.
pub proof fn a_footnote_keeps_its_number(page: Page, name: Seq<char>, other: Seq<char>)
    ensures
        page.noted(name).footnote_number(name) == page.footnote_number(name),
        page.noted(name).noted(other).footnote_number(name) == page.footnote_number(name),
        !page.footnotes.contains(name) ==> page.footnote_number(name) == page.footnotes.len() + 1,
        page.footnotes.contains(name) ==> page.noted(name) == page,
        !page.footnotes.contains(name) ==> page.noted(name).footnotes == page.footnotes.push(name),
        name != other ==> page.noted(name).footnote_number(name) != page.noted(name).noted(
            other,
        ).footnote_number(other),
        page.footnote_label(name) == "[^"@ + decimal(page.footnote_number(name)) + "]"@,
{
    reveal(Page::noted);
    reveal(Page::footnote_label);
    let once = page.noted(name);
    let twice = once.noted(other);
    a_name_is_found_where_it_stands(page.footnotes, name);
    a_name_is_found_where_it_stands(once.footnotes, name);
    a_name_is_found_where_it_stands(twice.footnotes, name);
    a_name_is_found_where_it_stands(once.footnotes, other);
    a_name_is_found_where_it_stands(twice.footnotes, other);
    let k = crate::page::place(page.footnotes, name) as int;
    if k < page.footnotes.len() {
        assert(page.footnotes.contains(page.footnotes[k]));
    }
    if page.footnotes.contains(name) {
        let j = choose|j: int| 0 <= j < page.footnotes.len() && page.footnotes[j] == name;
        assert(page.footnotes[j] == name);
    }
    assert(once.footnotes[k] == name);
    assert(twice.footnotes[k] == name);
    let in_once = crate::page::place(once.footnotes, name) as int;
    let in_twice = crate::page::place(twice.footnotes, name) as int;
    assert(in_once <= k && in_twice <= k);
    if in_once < k {
        assert(once.footnotes[in_once] == page.footnotes[in_once]);
    }
    if in_twice < k {
        assert(twice.footnotes[in_twice] == page.footnotes[in_twice]);
    }
    let m = crate::page::place(once.footnotes, other) as int;
    assert(twice.footnotes[m] == other);
}

/// An image is told by its alternative text, without the white space around it;
/// one whose text is blank, or says no more than that it is an image, is told by
/// that alone.
pub proof fn an_image_is_told_by_its_text(alt: Seq<char>)
    ensures
        trimmed(alt).len() == 0 ==> Page::image_mark(alt) == "[image]"@,
        upper(trimmed(alt)) == "IMAGE"@ ==> Page::image_mark(alt) == "[image]"@,
        trimmed(alt).len() > 0 && upper(trimmed(alt)) != "IMAGE"@ ==> Page::image_mark(alt)
            == "[image: "@ + trimmed(alt) + "]"@,
{
}

/// Mathematics in running text stands between its fences.
pub proof fn mathematics_is_fenced(page: Page, text: Seq<char>)
    requires
        page.pending_list_marker is None,
        !page.at.in_table_cell,
        page.text_style() is None,
    ensures
        page.told(DocEvent::InlineMath(text)).out == page.out + "$"@ + text + "$"@,
        page.told(DocEvent::DisplayMath(text)).out == page.out + "$$"@ + text + "$$"@,
{
    reveal(Page::told);
    reveal(Page::reckoned);
    reveal(Page::flushed);
    reveal(Page::with_text);
    reveal(Page::put);
}

proof fn texts_from_the_first(texts: Seq<Seq<char>>)
    requires
        texts.len() > 0,
    ensures
        run_together(texts) == texts[0] + run_together(texts.drop_first()),
    decreases texts.len(),
{
    let rest = texts.drop_first();
    if texts.len() == 1 {
        assert(run_together(texts.drop_last()) =~= Seq::<char>::empty());
        assert(run_together(texts) =~= texts[0] + run_together(rest));
    } else {
        texts_from_the_first(texts.drop_last());
        assert(texts.drop_last().drop_first() =~= rest.drop_last());
        assert(run_together(texts) =~= texts[0] + run_together(rest));
    }
}

/// The alternative text of an image is every text inside it, in their order, and
/// what follows the image's end goes on behind it.
pub proof fn an_image_gathers_its_texts(
    page: Page,
    alt: Seq<char>,
    events: Seq<DocEvent<Seq<char>>>,
    texts: Seq<Seq<char>>,
    i: int,
)
    requires
        0 <= i,
        i + texts.len() < events.len(),
        forall|k: int|
            0 <= k < texts.len() ==> #[trigger] events[i + k] == DocEvent::Text(texts[k])
                || events[i + k] == DocEvent::Code(texts[k]),
        events[i + texts.len()] is End,
    ensures
        ({
            let (after, told, next) = page.alternative(alt, events, i, 0);
            &&& told == alt + run_together(texts)
            &&& next == i + texts.len() + 1
            &&& after.out == page.out
        }),
    decreases texts.len(),
{
    if texts.len() == 0 {
        assert(alt + run_together(texts) =~= alt);
    } else {
        let rest = texts.drop_first();
        assert(events[i + 0] == DocEvent::Text(texts[0]) || events[i + 0] == DocEvent::Code(
            texts[0],
        ));
        assert forall|k: int| 0 <= k < rest.len() implies #[trigger] events[i + 1 + k]
            == DocEvent::Text(rest[k]) || events[i + 1 + k] == DocEvent::Code(rest[k]) by {
            assert(events[i + (k + 1)] == DocEvent::Text(texts[k + 1]) || events[i + (k + 1)]
                == DocEvent::Code(texts[k + 1]));
        }
        let part = page.alternative_part(events[i]);
        assert(part == texts[0]) by {
            reveal(Page::alternative_part);
        }
        let next = page.alternative_told(events[i]);
        assert(next.out == page.out) by {
            reveal(Page::alternative_told);
            reveal(Page::set);
        }
        an_image_gathers_its_texts(next, alt + texts[0], events, rest, i + 1);
        texts_from_the_first(texts);
        assert(alt + texts[0] + run_together(rest) =~= alt + run_together(texts));
    }
}

} // verus!
