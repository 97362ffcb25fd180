//! A page of text for a terminal, in the making.

use vstd::prelude::*;

use crate::ansi::paint;
use crate::ansi::painted;
use crate::ansi::Ground;
use crate::ansi::Ink;
use crate::ansi::Style;
use crate::ansi::Weight;
use crate::text::chars_of;
use crate::text::decimal;
use crate::text::push_decimal;
use crate::text::push_repeated;
use crate::text::repeated;
use crate::text::same_text;
use crate::text::trim;
use crate::text::trimmed;

verus! {

/// The styles of a page.
#[derive(Clone, Copy, Debug)]
pub struct Theme {
    pub heading: Style,
    pub block_quote: Style,
    pub quote_bar: Style,
    pub code: Style,
    pub link: Style,
    pub list_marker: Style,
    pub rule: Style,
    pub table_header: Style,
    pub footnote: Style,
}

/// A style of one colour.
pub open spec fn ink(r: u8, g: u8, b: u8, weight: Weight) -> Style {
    Style { ink: Ink::Rgb { r, g, b }, weight, ground: Ground::Terminal }
}

/// A style of one of the terminal's own colours.
pub open spec fn own_ink(ink: Ink, weight: Weight) -> Style {
    Style { ink, weight, ground: Ground::Terminal }
}

impl Theme {
    /// The theme that every page is shown in.
    pub open spec fn glowing() -> Theme {
        Theme {
            heading: ink(0xf0, 0x71, 0x78, Weight::Bold),
            block_quote: ink(0xd4, 0xbf, 0xff, Weight::Regular),
            quote_bar: ink(0xcb, 0xcc, 0xc6, Weight::Bold),
            code: own_ink(Ink::BrightYellow, Weight::Regular),
            link: ink(0x95, 0xe6, 0xcb, Weight::Regular),
            list_marker: ink(0xba, 0xe6, 0x7e, Weight::Bold),
            rule: own_ink(Ink::BrightBlack, Weight::Regular),
            table_header: own_ink(Ink::BrightWhite, Weight::Bold),
            footnote: own_ink(Ink::BrightBlack, Weight::Regular),
        }
    }

    /// The theme that every page is shown in.
    pub fn glow() -> (theme: Theme)
        ensures
            theme == Theme::glowing(),
    {
        Theme {
            heading: Style::of(Ink::Rgb { r: 0xf0, g: 0x71, b: 0x78 }).bold(),
            block_quote: Style::of(Ink::Rgb { r: 0xd4, g: 0xbf, b: 0xff }),
            quote_bar: Style::of(Ink::Rgb { r: 0xcb, g: 0xcc, b: 0xc6 }).bold(),
            code: Style::of(Ink::BrightYellow),
            link: Style::of(Ink::Rgb { r: 0x95, g: 0xe6, b: 0xcb }),
            list_marker: Style::of(Ink::Rgb { r: 0xba, g: 0xe6, b: 0x7e }).bold(),
            rule: Style::of(Ink::BrightBlack),
            table_header: Style::of(Ink::BrightWhite).bold(),
            footnote: Style::of(Ink::BrightBlack),
        }
    }
}

/// A list that is being shown.
#[derive(Clone, Copy, Debug)]
pub enum ListState {
    /// The number of its next item.
    Ordered { index: u128 },
    Unordered,
}

/// What the element at hand is part of.
#[derive(Clone, Copy, Debug)]
pub struct Setting {
    /// Whether what comes next starts a line.
    pub end_newline: bool,
    pub in_non_writing_block: bool,
    pub in_heading: bool,
    pub heading_level: Option<u8>,
    pub h1_started: bool,
    pub in_block_quote: bool,
    pub in_code_block: bool,
    pub in_link: bool,
    pub in_table_head: bool,
    pub in_table: bool,
    pub in_table_cell: bool,
}

impl Setting {
    /// Nothing around, within a line.
    pub open spec fn nowhere() -> Setting {
        Setting {
            end_newline: false,
            in_non_writing_block: false,
            in_heading: false,
            heading_level: None,
            h1_started: false,
            in_block_quote: false,
            in_code_block: false,
            in_link: false,
            in_table_head: false,
            in_table: false,
            in_table_cell: false,
        }
    }
}

/// A table in the making.
pub struct Draft {
    pub header: Option<Seq<Seq<char>>>,
    pub rows: Seq<Seq<Seq<char>>>,
    pub row: Seq<Seq<char>>,
    pub cell: Seq<char>,
}

/// A page in the making.
pub struct Page {
    pub theme: Theme,
    /// What is written so far.
    pub out: Seq<char>,
    pub at: Setting,
    /// The lists around the element, the innermost last.
    pub list_stack: Seq<ListState>,
    pub table: Draft,
    /// An item's marker that no text has followed yet.
    pub pending_list_marker: Option<Seq<char>>,
    /// The footnotes, in the order in which they were first named.
    pub footnotes: Seq<Seq<char>>,
    /// Where the links around the element lead.
    pub link_stack: Seq<Seq<char>>,
    pub code_block_lang: Seq<char>,
    pub code_block_buf: Seq<char>,
}

/// Where `name` stands among `names`, or how many there are if it does not.
pub open spec fn place(names: Seq<Seq<char>>, name: Seq<char>) -> nat
    decreases names.len(),
{
    if names.len() == 0 || names[0] == name {
        0
    } else {
        1 + place(names.skip(1), name)
    }
}

/// What stands in front of the first `stop`.
pub open spec fn until(s: Seq<char>, stop: char) -> Seq<char>
    decreases s.len(),
{
    if s.len() == 0 || s[0] == stop {
        Seq::<char>::empty()
    } else {
        seq![s[0]] + until(s.skip(1), stop)
    }
}

/// A cell filled up with spaces to its column's width.
pub open spec fn padded(cell: Seq<char>, width: nat) -> Seq<char> {
    if cell.len() >= width {
        cell
    } else {
        cell + repeated(' ', (width - cell.len()) as nat)
    }
}

/// How many columns a table has: as many as its longest row has cells.
pub open spec fn column_count(rows: Seq<Seq<Seq<char>>>) -> nat
    decreases rows.len(),
{
    if rows.len() == 0 {
        0
    } else if rows.last().len() > column_count(rows.drop_last()) {
        rows.last().len()
    } else {
        column_count(rows.drop_last())
    }
}

/// How wide a column is: as wide as its longest cell.
pub open spec fn column_width(rows: Seq<Seq<Seq<char>>>, c: int) -> nat
    decreases rows.len(),
{
    if rows.len() == 0 {
        0
    } else if c < rows.last().len() && rows.last()[c].len() > column_width(rows.drop_last(), c) {
        rows.last()[c].len()
    } else {
        column_width(rows.drop_last(), c)
    }
}

/// The first `k` cells of a row, padded, with a bar between two of them.
pub open spec fn row_text(row: Seq<Seq<char>>, rows: Seq<Seq<Seq<char>>>, k: nat) -> Seq<char>
    decreases k,
{
    if k == 0 {
        Seq::<char>::empty()
    } else {
        row_text(row, rows, (k - 1) as nat) + (if k > 1 {
            " | "@
        } else {
            Seq::<char>::empty()
        }) + padded(row[k - 1], column_width(rows, k - 1))
    }
}

/// The line under the header, as far as column `k`.
pub open spec fn rule_text(rows: Seq<Seq<Seq<char>>>, k: nat) -> Seq<char>
    decreases k,
{
    if k == 0 {
        Seq::<char>::empty()
    } else if k == 1 {
        repeated('-', column_width(rows, 0))
    } else {
        rule_text(rows, (k - 1) as nat) + "+"@ + repeated('-', column_width(rows, k - 1)) + "--"@
    }
}

/// The lines of rows one to `k`.
pub open spec fn body_text(rows: Seq<Seq<Seq<char>>>, k: nat) -> Seq<char>
    decreases k,
{
    if k <= 1 {
        Seq::<char>::empty()
    } else {
        body_text(rows, (k - 1) as nat) + " "@ + row_text(rows[k - 1], rows, rows[k - 1].len())
            + "\n"@
    }
}

/// A table: its first row, a line under it, and its other rows.
#[verifier::opaque]
pub open spec fn table_text(rows: Seq<Seq<Seq<char>>>) -> Seq<char> {
    if rows.len() == 0 {
        Seq::<char>::empty()
    } else {
        " "@ + row_text(rows[0], rows, rows[0].len()) + "\n"@ + " "@ + rule_text(
            rows,
            column_count(rows),
        ) + "\n"@ + body_text(rows, rows.len())
    }
}

impl Page {
    /// An empty page.
    pub open spec fn blank(theme: Theme) -> Page {
        Page {
            theme,
            out: Seq::empty(),
            at: Setting::nowhere(),
            list_stack: Seq::empty(),
            table: Draft {
                header: None,
                rows: Seq::empty(),
                row: Seq::empty(),
                cell: Seq::empty(),
            },
            pending_list_marker: None,
            footnotes: Seq::empty(),
            link_stack: Seq::empty(),
            code_block_lang: Seq::empty(),
            code_block_buf: Seq::empty(),
        }
    }

    /// The page with `text` written on.
    #[verifier::opaque]
    pub open spec fn put(self, text: Seq<char>) -> Page {
        Page { out: self.out + text, ..self }
    }

    /// The page in another setting.
    #[verifier::opaque]
    pub open spec fn set(self, at: Setting) -> Page {
        Page { at, ..self }
    }

    /// The page with the line ended, where it is not at the start of one.
    #[verifier::opaque]
    pub open spec fn fresh_line(self) -> Page {
        if self.at.end_newline {
            self
        } else {
            self.put("\n"@)
        }
    }

    /// The page without its last line end, where an empty line stands before it.
    #[verifier::opaque]
    pub open spec fn gap_closed(self) -> Page {
        let n = self.out.len();
        if n >= 2 && self.out[n - 1] == '\n' && self.out[n - 2] == '\n' {
            Page { out: self.out.drop_last(), ..self }
        } else {
            self
        }
    }

    /// The page with an item's marker that waits for the item's text.
    #[verifier::opaque]
    pub open spec fn waiting(self, marker: Option<Seq<char>>) -> Page {
        Page { pending_list_marker: marker, ..self }
    }

    /// The page with the item's marker written, where one was waiting.
    #[verifier::opaque]
    pub open spec fn flushed(self) -> Page {
        match self.pending_list_marker {
            Some(marker) => self.put(marker).waiting(None),
            None => self,
        }
    }

    /// The page with the item's marker written, where one was waiting, and an
    /// asterisk left out of it.
    #[verifier::opaque]
    pub open spec fn unticked(self) -> Page {
        match self.pending_list_marker {
            Some(marker) => self.put(
                if marker.contains('*') {
                    "  "@
                } else {
                    marker
                },
            ).waiting(None),
            None => self,
        }
    }

    /// The page with other lists around the element.
    #[verifier::opaque]
    pub open spec fn listed(self, lists: Seq<ListState>) -> Page {
        Page { list_stack: lists, ..self }
    }

    /// The page with another table in the making.
    #[verifier::opaque]
    pub open spec fn drafted(self, table: Draft) -> Page {
        Page { table, ..self }
    }

    /// The page with `text` added to the table cell at hand.
    #[verifier::opaque]
    pub open spec fn in_cell(self, text: Seq<char>) -> Page {
        self.drafted(Draft { cell: self.table.cell + text, ..self.table })
    }

    /// The page with the cell at hand, trimmed, at the end of its row.
    #[verifier::opaque]
    pub open spec fn cell_over(self) -> Page {
        if self.at.in_table_cell {
            self.drafted(
                Draft { row: self.table.row.push(trimmed(self.table.cell)), ..self.table },
            ).set(Setting { in_table_cell: false, ..self.at })
        } else {
            self
        }
    }

    /// The page with the row at hand at the end of its table.
    #[verifier::opaque]
    pub open spec fn row_over(self) -> Page {
        self.drafted(
            Draft {
                rows: self.table.rows.push(self.table.row),
                row: Seq::empty(),
                ..self.table
            },
        )
    }

    /// The page with the row at hand as the table's header.
    #[verifier::opaque]
    pub open spec fn header_over(self) -> Page {
        self.drafted(Draft { header: Some(self.table.row), row: Seq::empty(), ..self.table })
    }

    /// The page with the table's header as the first of its rows.
    #[verifier::opaque]
    pub open spec fn headed(self) -> Page {
        match self.table.header {
            Some(header) => self.drafted(
                Draft { header: None, rows: seq![header] + self.table.rows, ..self.table },
            ),
            None => self,
        }
    }

    /// The page with the table at hand written on.
    #[verifier::opaque]
    pub open spec fn tabled(self) -> Page {
        self.put(table_text(self.table.rows))
    }

    /// The page with a link around the element.
    #[verifier::opaque]
    pub open spec fn linked(self, target: Seq<char>) -> Page {
        Page { link_stack: self.link_stack.push(target), ..self }
    }

    /// The page without the innermost link around the element.
    #[verifier::opaque]
    pub open spec fn unlinked(self) -> Page {
        Page {
            link_stack: if self.link_stack.len() > 0 {
                self.link_stack.drop_last()
            } else {
                self.link_stack
            },
            ..self
        }
    }

    /// The page with code in a language at hand.
    #[verifier::opaque]
    pub open spec fn coded(self, lang: Seq<char>, code: Seq<char>) -> Page {
        Page { code_block_lang: lang, code_block_buf: code, ..self }
    }

    /// The number of a footnote: footnotes are numbered from one, in the order
    /// in which they are first named.
    pub open spec fn footnote_number(self, name: Seq<char>) -> nat {
        place(self.footnotes, name) + 1
    }

    /// A footnote's label.
    #[verifier::opaque]
    pub open spec fn footnote_label(self, name: Seq<char>) -> Seq<char> {
        "[^"@ + decimal(self.footnote_number(name)) + "]"@
    }

    /// The page with a footnote known.
    #[verifier::opaque]
    pub open spec fn noted(self, name: Seq<char>) -> Page {
        if place(self.footnotes, name) < self.footnotes.len() {
            self
        } else {
            Page { footnotes: self.footnotes.push(name), ..self }
        }
    }
}

/// The cells of a row, each by its view.
#[verifier::opaque]
pub open spec fn cells_view(cells: Seq<String>) -> Seq<Seq<char>> {
    Seq::new(cells.len(), |i: int| cells[i]@)
}

/// The rows of a table, each by its view.
#[verifier::opaque]
pub open spec fn rows_view(rows: Seq<Vec<String>>) -> Seq<Seq<Seq<char>>> {
    Seq::new(rows.len(), |i: int| cells_view(rows[i]@))
}

proof fn cells_view_empty()
    ensures
        cells_view(Seq::empty()) == Seq::<Seq<char>>::empty(),
        rows_view(Seq::empty()) == Seq::<Seq<Seq<char>>>::empty(),
{
    reveal(cells_view);
    reveal(rows_view);
    assert(cells_view(Seq::empty()) =~= Seq::<Seq<char>>::empty());
    assert(rows_view(Seq::empty()) =~= Seq::<Seq<Seq<char>>>::empty());
}

proof fn cells_view_push(cells: Seq<String>, cell: String)
    ensures
        cells_view(cells.push(cell)) == cells_view(cells).push(cell@),
        cells_view(cells).len() == cells.len(),
        cells.len() > 0 ==> cells_view(cells.drop_last()) == cells_view(cells).drop_last(),
{
    reveal(cells_view);
    assert(cells_view(cells.push(cell)) =~= cells_view(cells).push(cell@));
    if cells.len() > 0 {
        assert(cells_view(cells.drop_last()) =~= cells_view(cells).drop_last());
    }
}

proof fn rows_view_push(rows: Seq<Vec<String>>, row: Vec<String>)
    ensures
        rows_view(rows.push(row)) == rows_view(rows).push(cells_view(row@)),
        rows_view(rows.insert(0, row)) == seq![cells_view(row@)] + rows_view(rows),
{
    reveal(rows_view);
    assert(rows_view(rows.push(row)) =~= rows_view(rows).push(cells_view(row@)));
    assert(rows_view(rows.insert(0, row)) =~= seq![cells_view(row@)] + rows_view(rows));
}

/// Shows the events of a document on a page.
pub struct TerminalEmitter {
    theme: Theme,
    out: String,
    at: Setting,
    list_stack: Vec<ListState>,
    table_header_row: Option<Vec<String>>,
    table_rows: Vec<Vec<String>>,
    current_row: Vec<String>,
    current_cell: String,
    pending_list_marker: Option<String>,
    footnotes: Vec<String>,
    link_stack: Vec<String>,
    code_block_lang: String,
    code_block_buf: String,
}

impl View for TerminalEmitter {
    type V = Page;

    closed spec fn view(&self) -> Page {
        Page {
            theme: self.theme,
            out: self.out@,
            at: self.at,
            list_stack: self.list_stack@,
            table: Draft {
                header: match self.table_header_row {
                    Some(row) => Some(cells_view(row@)),
                    None => None,
                },
                rows: rows_view(self.table_rows@),
                row: cells_view(self.current_row@),
                cell: self.current_cell@,
            },
            pending_list_marker: match self.pending_list_marker {
                Some(marker) => Some(marker@),
                None => None,
            },
            footnotes: cells_view(self.footnotes@),
            link_stack: cells_view(self.link_stack@),
            code_block_lang: self.code_block_lang@,
            code_block_buf: self.code_block_buf@,
        }
    }
}

/// A text filled up with spaces to `width` characters.
pub fn pad(text: &str, width: usize) -> (out: String)
    ensures
        out@ == padded(text@, width as nat),
{
    let len: usize = text.unicode_len();
    let mut out = text.to_owned();
    if len < width {
        push_repeated(&mut out, ' ', width - len);
    }
    out
}

/// What stands in front of the first `stop`.
pub fn text_until(s: &str, stop: char) -> (out: String)
    ensures
        out@ == until(s@, stop),
{
    let chars = chars_of(s);
    let mut out = String::new();
    let mut i: usize = 0;
    assert(chars@.skip(0) =~= chars@);
    assert(out@ + until(chars@, stop) =~= until(chars@, stop));
    while i < chars.len() && chars[i] != stop
        invariant
            i <= chars.len(),
            out@ + until(chars@.skip(i as int), stop) == until(chars@, stop),
        decreases chars.len() - i,
    {
        let ghost rest = chars@.skip(i as int);
        let ghost before = out@;
        assert(rest.skip(1) =~= chars@.skip(i + 1));
        out.push(chars[i]);
        assert(before + (seq![rest[0]] + until(rest.skip(1), stop)) =~= out@ + until(
            rest.skip(1),
            stop,
        ));
        i += 1;
    }
    assert(out@ + Seq::<char>::empty() =~= out@);
    out
}

/// Whether a text holds the character `c`.
fn holds_char(s: &str, c: char) -> (found: bool)
    ensures
        found == s@.contains(c),
{
    let chars = chars_of(s);
    let mut i: usize = 0;
    while i < chars.len()
        invariant
            i <= chars.len(),
            chars@ == s@,
            forall|k: int| 0 <= k < i ==> chars[k] != c,
        decreases chars.len() - i,
    {
        if chars[i] == c {
            assert(s@[i as int] == c);
            return true;
        }
        i += 1;
    }
    false
}

/// A column that no row reaches has no width.
proof fn unreached_column_is_empty(rows: Seq<Seq<Seq<char>>>, c: int)
    requires
        c >= column_count(rows),
    ensures
        column_width(rows, c) == 0,
    decreases rows.len(),
{
    if rows.len() > 0 {
        unreached_column_is_empty(rows.drop_last(), c);
    }
}

/// How wide each column of a table is.
fn column_widths(rows: &Vec<Vec<String>>) -> (widths: Vec<usize>)
    ensures
        widths.len() == column_count(rows_view(rows@)),
        forall|c: int|
            0 <= c < widths.len() ==> #[trigger] widths[c] == column_width(rows_view(rows@), c),
{
    proof {
        reveal(rows_view);
        reveal(cells_view);
    }
    let ghost all = rows_view(rows@);
    let mut widths: Vec<usize> = Vec::new();
    let mut r: usize = 0;
    while r < rows.len()
        invariant
            r <= rows.len(),
            all == rows_view(rows@),
            widths.len() == column_count(all.take(r as int)),
            forall|c: int|
                0 <= c < widths.len() ==> #[trigger] widths[c] == column_width(
                    all.take(r as int),
                    c,
                ),
        decreases rows.len() - r,
    {
        proof {
            reveal(rows_view);
            reveal(cells_view);
        }
        let row = &rows[r];
        let ghost done = all.take(r as int);
        let ghost next = all.take(r + 1);
        assert(next.drop_last() =~= done);
        assert(next.last() == cells_view(row@));
        let mut c: usize = 0;
        while c < row.len()
            invariant
                c <= row.len(),
                next.len() > 0,
                next.drop_last() == done,
                next.last() == cells_view(row@),
                widths.len() == (if c > column_count(done) {
                    c as nat
                } else {
                    column_count(done)
                }),
                forall|k: int|
                    0 <= k < c ==> #[trigger] widths[k] == column_width(next, k),
                forall|k: int|
                    c <= k < widths.len() ==> #[trigger] widths[k] == column_width(done, k),
            decreases row.len() - c,
        {
            proof {
                reveal(cells_view);
            }
            if widths.len() <= c {
                proof {
                    unreached_column_is_empty(done, c as int);
                }
                widths.push(0);
            }
            let len: usize = row[c].as_str().unicode_len();
            if len > widths[c] {
                widths.set(c, len);
            }
            c += 1;
        }
        r += 1;
    }
    assert(all.take(r as int) =~= all);
    widths
}

/// Writes the cells of a row, padded, with a bar between two of them.
fn push_row(out: &mut String, row: &Vec<String>, widths: &Vec<usize>, rows: &Vec<Vec<String>>)
    requires
        row.len() <= widths.len(),
        forall|c: int|
            0 <= c < widths.len() ==> #[trigger] widths[c] == column_width(rows_view(rows@), c),
    ensures
        final(out)@ == old(out)@ + row_text(
            cells_view(row@),
            rows_view(rows@),
            row.len() as nat,
        ),
{
    let ghost cells = cells_view(row@);
    let ghost all = rows_view(rows@);
    let mut c: usize = 0;
    assert(out@ =~= old(out)@ + row_text(cells, all, 0));
    while c < row.len()
        invariant
            c <= row.len() <= widths.len(),
            cells == cells_view(row@),
            all == rows_view(rows@),
            forall|c: int|
                0 <= c < widths.len() ==> #[trigger] widths[c] == column_width(all, c),
            out@ == old(out)@ + row_text(cells, all, c as nat),
        decreases row.len() - c,
    {
        proof {
            reveal(cells_view);
        }
        if c > 0 {
            out.append(" | ");
        }
        let cell = pad(row[c].as_str(), widths[c]);
        out.append(cell.as_str());
        c += 1;
        assert(out@ =~= old(out)@ + row_text(cells, all, c as nat));
    }
}

/// Writes the line under a table's header.
fn push_rule(out: &mut String, widths: &Vec<usize>, rows: &Vec<Vec<String>>)
    requires
        forall|c: int|
            0 <= c < widths.len() ==> #[trigger] widths[c] == column_width(rows_view(rows@), c),
    ensures
        final(out)@ == old(out)@ + rule_text(rows_view(rows@), widths.len() as nat),
{
    let ghost all = rows_view(rows@);
    let mut c: usize = 0;
    assert(out@ =~= old(out)@ + rule_text(all, 0));
    while c < widths.len()
        invariant
            c <= widths.len(),
            all == rows_view(rows@),
            forall|c: int|
                0 <= c < widths.len() ==> #[trigger] widths[c] == column_width(all, c),
            out@ == old(out)@ + rule_text(all, c as nat),
        decreases widths.len() - c,
    {
        if c > 0 {
            out.append("+");
            push_repeated(out, '-', widths[c]);
            out.append("--");
        } else {
            push_repeated(out, '-', widths[c]);
        }
        c += 1;
        assert(out@ =~= old(out)@ + rule_text(all, c as nat));
    }
}

/// Writes a table.
fn push_table(out: &mut String, rows: &Vec<Vec<String>>)
    ensures
        final(out)@ == old(out)@ + table_text(rows_view(rows@)),
{
    proof {
        reveal(rows_view);
        reveal(cells_view);
        reveal(table_text);
    }
    let ghost all = rows_view(rows@);
    if rows.len() == 0 {
        assert(out@ + table_text(all) =~= out@);
        return ;
    }
    let widths = column_widths(rows);
    proof {
        row_within_columns(all, 0);
    }
    out.append(" ");
    push_row(out, &rows[0], &widths, rows);
    out.append("\n");
    out.append(" ");
    push_rule(out, &widths, rows);
    out.append("\n");
    let ghost ruled = out@;
    let mut r: usize = 1;
    assert(out@ =~= ruled + body_text(all, 1));
    while r < rows.len()
        invariant
            1 <= r <= rows.len(),
            all == rows_view(rows@),
            widths.len() == column_count(all),
            forall|c: int|
                0 <= c < widths.len() ==> #[trigger] widths[c] == column_width(all, c),
            out@ == ruled + body_text(all, r as nat),
        decreases rows.len() - r,
    {
        proof {
            reveal(rows_view);
            reveal(cells_view);
            row_within_columns(all, r as int);
        }
        out.append(" ");
        push_row(out, &rows[r], &widths, rows);
        out.append("\n");
        r += 1;
        assert(out@ =~= ruled + body_text(all, r as nat));
    }
    assert(out@ =~= old(out)@ + table_text(all));
}

/// A row is no longer than the longest one.
proof fn row_within_columns(rows: Seq<Seq<Seq<char>>>, r: int)
    requires
        0 <= r < rows.len(),
    ensures
        rows[r].len() <= column_count(rows),
    decreases rows.len(),
{
    if r < rows.len() - 1 {
        row_within_columns(rows.drop_last(), r);
        assert(rows.drop_last()[r] == rows[r]);
    }
}

/// Every cell of a column is as wide as the column once it is padded, so that
/// the bars between two columns stand under each other.
pub proof fn columns_are_aligned(rows: Seq<Seq<Seq<char>>>, r: int, c: int)
    requires
        0 <= r < rows.len(),
        0 <= c < rows[r].len(),
    ensures
        padded(rows[r][c], column_width(rows, c)).len() == column_width(rows, c),
    decreases rows.len(),
{
    if r < rows.len() - 1 {
        columns_are_aligned(rows.drop_last(), r, c);
        assert(rows.drop_last()[r] == rows[r]);
    }
}

impl TerminalEmitter {
    /// A page with nothing on it.
    pub fn new(theme: Theme) -> (emitter: TerminalEmitter)
        ensures
            emitter@ == Page::blank(theme),
    {
        proof {
            cells_view_empty();
        }
        TerminalEmitter {
            theme,
            out: String::new(),
            at: Setting {
                end_newline: false,
                in_non_writing_block: false,
                in_heading: false,
                heading_level: None,
                h1_started: false,
                in_block_quote: false,
                in_code_block: false,
                in_link: false,
                in_table_head: false,
                in_table: false,
                in_table_cell: false,
            },
            list_stack: Vec::new(),
            table_header_row: None,
            table_rows: Vec::new(),
            current_row: Vec::new(),
            current_cell: String::new(),
            pending_list_marker: None,
            footnotes: Vec::new(),
            link_stack: Vec::new(),
            code_block_lang: String::new(),
            code_block_buf: String::new(),
        }
    }

    /// The styles of the page.
    pub(crate) fn theme(&self) -> (theme: Theme)
        ensures
            theme == self@.theme,
    {
        self.theme
    }

    /// What the element at hand is part of.
    pub(crate) fn at(&self) -> (at: Setting)
        ensures
            at == self@.at,
    {
        self.at
    }

    /// The innermost list around the element, and how many there are.
    pub(crate) fn innermost(&self) -> (list: (Option<ListState>, usize))
        ensures
            list.1 == self@.list_stack.len(),
            list.0 is Some == (list.1 > 0),
            list.0 is Some ==> list.0->0 == self@.list_stack.last(),
    {
        let depth: usize = self.list_stack.len();
        if depth > 0 {
            (Some(self.list_stack[depth - 1]), depth)
        } else {
            (None, depth)
        }
    }

    /// The code at hand.
    pub(crate) fn code(&self) -> (code: String)
        ensures
            code@ == self@.code_block_buf,
    {
        self.code_block_buf.clone()
    }

    /// What is written so far.
    pub(crate) fn text(&self) -> (text: String)
        ensures
            text@ == self@.out,
    {
        self.out.clone()
    }

    pub(crate) fn put(&mut self, text: &str)
        ensures
            final(self)@ == old(self)@.put(text@),
    {
        proof {
            reveal(Page::put);
        }
        self.out.append(text);
    }

    pub(crate) fn put_styled(&mut self, text: &str, style: Style)
        ensures
            final(self)@ == old(self)@.put(painted(text@, style)),
    {
        let shown = paint(text, style);
        self.put(shown.as_str());
    }

    pub(crate) fn set(&mut self, at: Setting)
        ensures
            final(self)@ == old(self)@.set(at),
    {
        proof {
            reveal(Page::set);
        }
        self.at = at;
    }

    pub(crate) fn fresh_line(&mut self)
        ensures
            final(self)@ == old(self)@.fresh_line(),
    {
        proof {
            reveal(Page::fresh_line);
        }
        if !self.at.end_newline {
            self.put("\n");
        }
    }

    pub(crate) fn close_gap(&mut self)
        ensures
            final(self)@ == old(self)@.gap_closed(),
    {
        proof {
            reveal(Page::gap_closed);
        }
        let n: usize = self.out.as_str().unicode_len();
        if n >= 2 && self.out.as_str().get_char(n - 1) == '\n' && self.out.as_str().get_char(n - 2)
            == '\n' {
            self.out.pop();
        }
    }

    pub(crate) fn wait(&mut self, marker: Option<String>)
        ensures
            final(self)@ == old(self)@.waiting(
                match marker {
                    Some(text) => Some(text@),
                    None => None,
                },
            ),
    {
        proof {
            reveal(Page::waiting);
        }
        self.pending_list_marker = marker;
    }

    pub(crate) fn flush_pending_marker(&mut self)
        ensures
            final(self)@ == old(self)@.flushed(),
    {
        proof {
            reveal(Page::flushed);
            reveal(Page::put);
            reveal(Page::waiting);
        }
        if let Some(marker) = self.pending_list_marker.take() {
            self.out.append(marker.as_str());
        }
    }

    pub(crate) fn flush_for_task(&mut self)
        ensures
            final(self)@ == old(self)@.unticked(),
    {
        proof {
            reveal(Page::unticked);
            reveal(Page::put);
            reveal(Page::waiting);
        }
        if let Some(marker) = self.pending_list_marker.take() {
            if holds_char(marker.as_str(), '*') {
                self.out.append("  ");
            } else {
                self.out.append(marker.as_str());
            }
        }
    }

    pub(crate) fn push_list(&mut self, list: ListState)
        ensures
            final(self)@ == old(self)@.listed(old(self)@.list_stack.push(list)),
            final(self)@.list_stack == old(self)@.list_stack.push(list),
    {
        proof {
            reveal(Page::listed);
        }
        self.list_stack.push(list);
    }

    pub(crate) fn pop_list(&mut self)
        ensures
            final(self)@ == old(self)@.listed(
                if old(self)@.list_stack.len() > 0 {
                    old(self)@.list_stack.drop_last()
                } else {
                    old(self)@.list_stack
                },
            ),
    {
        proof {
            reveal(Page::listed);
        }
        self.list_stack.pop();
    }

    pub(crate) fn number_list(&mut self, list: ListState)
        requires
            old(self)@.list_stack.len() > 0,
        ensures
            final(self)@ == old(self)@.listed(
                old(self)@.list_stack.update(old(self)@.list_stack.len() - 1, list),
            ),
    {
        proof {
            reveal(Page::listed);
        }
        let depth: usize = self.list_stack.len();
        self.list_stack.set(depth - 1, list);
    }

    pub(crate) fn push_table_text(&mut self, text: &str)
        ensures
            final(self)@ == old(self)@.in_cell(text@),
    {
        proof {
            reveal(Page::in_cell);
            reveal(Page::drafted);
        }
        self.current_cell.append(text);
    }

    pub(crate) fn new_table(&mut self)
        ensures
            final(self)@ == old(self)@.drafted(
                Draft { header: None, rows: Seq::empty(), ..old(self)@.table },
            ),
    {
        proof {
            reveal(Page::drafted);
            cells_view_empty();
        }
        self.table_header_row = None;
        self.table_rows = Vec::new();
    }

    pub(crate) fn new_row(&mut self)
        ensures
            final(self)@ == old(self)@.drafted(Draft { row: Seq::empty(), ..old(self)@.table }),
    {
        proof {
            reveal(Page::drafted);
            cells_view_empty();
        }
        self.current_row = Vec::new();
    }

    pub(crate) fn new_cell(&mut self)
        ensures
            final(self)@ == old(self)@.drafted(Draft { cell: Seq::empty(), ..old(self)@.table }),
    {
        proof {
            reveal(Page::drafted);
        }
        self.current_cell = String::new();
    }

    pub(crate) fn end_cell(&mut self)
        ensures
            final(self)@ == old(self)@.cell_over(),
    {
        proof {
            reveal(Page::cell_over);
            reveal(Page::drafted);
            reveal(Page::set);
        }
        if self.at.in_table_cell {
            let cell = trim(self.current_cell.as_str());
            proof {
                cells_view_push(self.current_row@, cell);
            }
            self.current_row.push(cell);
            self.at.in_table_cell = false;
        }
    }

    /// The row of cells at hand, which starts anew.
    fn take_row(&mut self) -> (row: Vec<String>)
        ensures
            cells_view(row@) == old(self)@.table.row,
            final(self)@ == old(self)@.drafted(Draft { row: Seq::empty(), ..old(self)@.table }),
    {
        proof {
            reveal(Page::drafted);
            cells_view_empty();
        }
        let mut row: Vec<String> = Vec::new();
        std::mem::swap(&mut row, &mut self.current_row);
        row
    }

    pub(crate) fn end_row(&mut self)
        ensures
            final(self)@ == old(self)@.row_over(),
    {
        proof {
            reveal(Page::drafted);
            reveal(Page::row_over);
        }
        let row = self.take_row();
        proof {
            rows_view_push(self.table_rows@, row);
        }
        self.table_rows.push(row);
    }

    pub(crate) fn end_header(&mut self)
        ensures
            final(self)@ == old(self)@.header_over(),
    {
        proof {
            reveal(Page::drafted);
            reveal(Page::header_over);
        }
        let row = self.take_row();
        self.table_header_row = Some(row);
    }

    pub(crate) fn join_header(&mut self)
        ensures
            final(self)@ == old(self)@.headed(),
    {
        proof {
            reveal(Page::drafted);
            reveal(Page::headed);
        }
        if let Some(header) = self.table_header_row.take() {
            proof {
                rows_view_push(self.table_rows@, header);
            }
            self.table_rows.insert(0, header);
        }
    }

    pub(crate) fn render_table(&mut self)
        ensures
            final(self)@ == old(self)@.tabled(),
    {
        proof {
            reveal(Page::tabled);
            reveal(Page::put);
        }
        push_table(&mut self.out, &self.table_rows);
    }

    pub(crate) fn push_link(&mut self, target: String)
        ensures
            final(self)@ == old(self)@.linked(target@),
    {
        proof {
            reveal(Page::linked);
            cells_view_push(self.link_stack@, target);
        }
        self.link_stack.push(target);
    }

    pub(crate) fn pop_link(&mut self)
        ensures
            final(self)@ == old(self)@.unlinked(),
    {
        proof {
            reveal(Page::unlinked);
            cells_view_push(self.link_stack@, self.code_block_lang);
        }
        self.link_stack.pop();
    }

    pub(crate) fn set_code(&mut self, lang: String, code: String)
        ensures
            final(self)@ == old(self)@.coded(lang@, code@),
    {
        proof {
            reveal(Page::coded);
        }
        self.code_block_lang = lang;
        self.code_block_buf = code;
    }

    pub(crate) fn push_code(&mut self, text: &str)
        ensures
            final(self)@ == old(self)@.coded(
                old(self)@.code_block_lang,
                old(self)@.code_block_buf + text@,
            ),
    {
        proof {
            reveal(Page::coded);
        }
        self.code_block_buf.append(text);
    }

    /// The number of a footnote, which is known from then on.
    pub(crate) fn number_footnote(&mut self, name: &str) -> (number: u128)
        ensures
            final(self)@ == old(self)@.noted(name@),
            number == old(self)@.footnote_number(name@),
    {
        proof {
            reveal(cells_view);
            reveal(Page::noted);
        }
        let ghost names = cells_view(self.footnotes@);
        let mut i: usize = 0;
        assert(names.skip(0) =~= names);
        while i < self.footnotes.len() && !same_text(self.footnotes[i].as_str(), name)
            invariant
                i <= self.footnotes.len(),
                *self == *old(self),
                names == cells_view(self.footnotes@),
                place(names, name@) == i + place(names.skip(i as int), name@),
            decreases self.footnotes.len() - i,
        {
            proof {
                reveal(cells_view);
            }
            assert(names.skip(i as int).skip(1) =~= names.skip(i + 1));
            i += 1;
        }
        if i == self.footnotes.len() {
            self.footnotes.push(name.to_owned());
            assert(cells_view(self.footnotes@) =~= names.push(name@));
        }
        (i as u128) + 1
    }

    pub(crate) fn footnote_label(&mut self, name: &str) -> (label: String)
        ensures
            final(self)@ == old(self)@.noted(name@),
            label@ == old(self)@.footnote_label(name@),
    {
        proof {
            reveal(Page::footnote_label);
        }
        let number: u128 = self.number_footnote(name);
        let mut label = "[^".to_owned();
        push_decimal(&mut label, number);
        label.append("]");
        label
    }

}

/// A name that stands among others is found where it first stands, and one that
/// does not would be the next.
pub proof fn a_name_is_found_where_it_stands(names: Seq<Seq<char>>, name: Seq<char>)
    ensures
        place(names, name) <= names.len(),
        place(names, name) < names.len() ==> names[place(names, name) as int] == name,
        forall|k: int| 0 <= k < place(names, name) ==> #[trigger] names[k] != name,
    decreases names.len(),
{
    if names.len() > 0 && names[0] != name {
        let rest = names.skip(1);
        a_name_is_found_where_it_stands(rest, name);
        assert forall|k: int| 0 <= k < place(names, name) implies #[trigger] names[k] != name by {
            if k > 0 {
                assert(rest[k - 1] == names[k]);
            }
        }
    }
}

/// What stands in front of a character is all there is up to where that first
/// stands, or all there is.
pub proof fn a_text_is_cut_where_it_is_told_to(s: Seq<char>, stop: char)
    ensures
        until(s, stop).len() <= s.len(),
        until(s, stop) == s.take(until(s, stop).len() as int),
        !until(s, stop).contains(stop),
        until(s, stop).len() < s.len() ==> s[until(s, stop).len() as int] == stop,
    decreases s.len(),
{
    if s.len() > 0 && s[0] != stop {
        let rest = s.skip(1);
        a_text_is_cut_where_it_is_told_to(rest, stop);
        let cut = until(rest, stop);
        let all = until(s, stop);
        assert(all =~= s.take(all.len() as int));
        assert forall|k: int| 0 <= k < all.len() implies #[trigger] all[k] != stop by {
            if k > 0 {
                assert(cut.contains(cut[k - 1]));
            }
        }
        if cut.len() < rest.len() {
            assert(s[all.len() as int] == rest[cut.len() as int]);
        }
    } else {
        assert(s.take(0) =~= Seq::<char>::empty());
    }
}

/// A table has as many columns as the longest of its rows has cells, and a column
/// is as wide as the longest of its cells: none is longer, and one reaches it.
pub proof fn a_column_is_as_wide_as_it_has_to_be(rows: Seq<Seq<Seq<char>>>, c: int)
    requires
        0 <= c,
    ensures
        forall|r: int| 0 <= r < rows.len() ==> (#[trigger] rows[r]).len() <= column_count(rows),
        column_count(rows) > 0 ==> exists|r: int|
            0 <= r < rows.len() && (#[trigger] rows[r]).len() == column_count(rows),
        forall|r: int|
            0 <= r < rows.len() && c < (#[trigger] rows[r]).len() ==> rows[r][c].len()
                <= column_width(rows, c),
        column_width(rows, c) > 0 ==> exists|r: int|
            0 <= r < rows.len() && c < (#[trigger] rows[r]).len() && rows[r][c].len()
                == column_width(rows, c),
    decreases rows.len(),
{
    if rows.len() > 0 {
        let held = rows.drop_last();
        let end = rows.len() - 1;
        a_column_is_as_wide_as_it_has_to_be(held, c);
        assert(rows.last() == rows[end]);
        assert forall|r: int| 0 <= r < rows.len() implies (#[trigger] rows[r]).len()
            <= column_count(rows) by {
            if r < end {
                assert(held[r] == rows[r]);
            }
        }
        assert forall|r: int| 0 <= r < rows.len() && c < (#[trigger] rows[r]).len() implies
            rows[r][c].len() <= column_width(rows, c) by {
            if r < end {
                assert(held[r] == rows[r]);
            }
        }
        if column_count(rows) > 0 && rows.last().len() <= column_count(held) {
            let r = choose|r: int|
                0 <= r < held.len() && (#[trigger] held[r]).len() == column_count(held);
            assert(rows[r] == held[r]);
        }
        if column_width(rows, c) > 0 && !(c < rows.last().len() && rows.last()[c].len()
            > column_width(held, c)) {
            let r = choose|r: int|
                0 <= r < held.len() && c < (#[trigger] held[r]).len() && held[r][c].len()
                    == column_width(held, c);
            assert(rows[r] == held[r]);
        }
    }
}

} // verus!
