//! What a rendered table shows.

use crate::render::escape::InlineContext;
use crate::render::inline::{code_span, inlines_text, Numbers};
use crate::render::model::{marker_text, Block, Cell, CellSlot, ListItem, MarkerKind, Table};
use crate::render::table::{
    all_blank, block_parts, blocks_parts, items_parts, rows_parts, cell_text, fit_row, gfm_table,
    grid_texts, grid_visible, html_cells, html_char, html_rows, html_slot, html_text, kept_rows,
    pipe_cells, pipe_table, row_texts, row_visible, slot_text, span_attr, spans, table_text,
    table_width, used_width, visible_lines,
};
use crate::text::{decimal, has_sub, is_blank, is_white, joined, lines, occurs_at, trim};
use crate::text_laws::law_trimming_cuts_white_space_only;
use vstd::prelude::*;

verus! {

// ---------------------------------------------------------------------------
// Pipe tables
// ---------------------------------------------------------------------------
/// Where the text of a column starts in a line of a pipe table.
pub open spec fn column_start(cells: Seq<Seq<char>>, c: nat) -> nat
    decreases c,
{
    if c == 0 {
        2
    } else {
        column_start(cells, (c - 1) as nat) + cells[c - 1].len() + 3
    }
}

/// The line shows a cell in its column, between two blanks and in front of a pipe.
pub open spec fn shows_cell(line: Seq<char>, cells: Seq<Seq<char>>, c: int) -> bool {
    let at = column_start(cells, c as nat) as int;
    let end = at + cells[c].len();
    &&& occurs_at(line, cells[c], at)
    &&& line[at - 1] == ' '
    &&& line[end] == ' '
    &&& line[end + 1] == '|'
}

/// The line shows these cells, in this order and nothing else.
pub open spec fn shows_cells(line: Seq<char>, cells: Seq<Seq<char>>) -> bool {
    &&& line.len() + 1 == column_start(cells, cells.len())
    &&& line[0] == '|'
    &&& forall|c: int| 0 <= c < cells.len() ==> #[trigger] shows_cell(line, cells, c)
}

/// The line shows a row of the table in the first `width` columns.
pub open spec fn shows_row(line: Seq<char>, row: Seq<Seq<char>>, width: nat) -> bool {
    exists|cells: Seq<Seq<char>>|
        #[trigger] shows_cells(line, cells) && cells.len() == width && forall|c: int|
            0 <= c < width ==> #[trigger] cells[c] == if c < row.len() {
                row[c]
            } else {
                Seq::<char>::empty()
            }
}

/// The line of a pipe table that shows a row: behind the delimiter, but for a header.
pub open spec fn line_of(r: int, header_rows: nat) -> int {
    if header_rows == 0 {
        r + 2
    } else if r == 0 {
        0
    } else {
        r + 1
    }
}

/// The lines are a pipe table of these rows: one line for each row up to the last one
/// that shows anything, in order, one delimiter, and an empty header where there is none.
pub open spec fn is_pipe_table(
    shown: Seq<Seq<char>>,
    rows: Seq<Seq<Seq<char>>>,
    header_rows: nat,
    kept: int,
    width: nat,
) -> bool {
    &&& 1 <= kept <= rows.len()
    &&& width > 0
    &&& shown.len() == kept + if header_rows == 0 {
        2int
    } else {
        1int
    }
    &&& forall|r: int|
        #![trigger rows[r]]
        0 <= r < kept ==> shows_row(shown[line_of(r, header_rows)], rows[r], width)
    &&& forall|r: int| kept <= r < rows.len() ==> all_blank(#[trigger] rows[r])
    &&& kept > 1 ==> !all_blank(rows[kept - 1])
    &&& forall|r: int, c: int|
        0 <= r < rows.len() && width <= c < rows[r].len() ==> (#[trigger] rows[r][c]).len() == 0
    &&& exists|r: int|
        0 <= r < kept && width <= rows[r].len() && (#[trigger] rows[r])[width - 1].len() > 0
    &&& shows_cells(shown[1], Seq::new(width, |c: int| seq!['-', '-', '-']))
    &&& header_rows == 0 ==> shows_row(shown[0], seq![], width)
}

proof fn lemma_column_start(a: Seq<Seq<char>>, b: Seq<Seq<char>>, c: nat)
    requires
        c <= a.len(),
        c <= b.len(),
        forall|k: int| 0 <= k < c ==> a[k] == b[k],
    ensures
        column_start(a, c) == column_start(b, c),
    decreases c,
{
    if c > 0 {
        lemma_column_start(a, b, (c - 1) as nat);
    }
}

proof fn lemma_pipe_cells(cells: Seq<Seq<char>>)
    ensures
        shows_cells(pipe_cells(cells), cells),
    decreases cells.len(),
{
    reveal_strlit("|");
    reveal_strlit(" ");
    reveal_strlit(" |");
    let line = pipe_cells(cells);
    if cells.len() > 0 {
        let front = cells.drop_last();
        let before = pipe_cells(front);
        let n = front.len();
        lemma_pipe_cells(front);
        lemma_column_start(front, cells, n);
        assert(before[0] == line[0]);
        assert(line.take(before.len() as int) =~= before);
        assert forall|c: int| 0 <= c < cells.len() implies #[trigger] shows_cell(line, cells, c) by {
            if c < n {
                lemma_cell_stays(before, front, line, cells, c);
            } else {
                let at = column_start(cells, c as nat) as int;
                assert(line.subrange(at, at + cells[c].len()) =~= cells[c]);
            }
        }
    }
}

proof fn lemma_cell_stays(
    before: Seq<char>,
    front: Seq<Seq<char>>,
    line: Seq<char>,
    cells: Seq<Seq<char>>,
    c: int,
)
    requires
        0 <= c < front.len() < cells.len(),
        forall|k: int| 0 <= k < front.len() ==> front[k] == cells[k],
        shows_cells(before, front),
        before.len() <= line.len(),
        line.take(before.len() as int) == before,
    ensures
        shows_cell(line, cells, c),
{
    assert(shows_cell(before, front, c));
    lemma_column_start(front, cells, c as nat);
    lemma_columns_fit(front, c as nat);
    let at = column_start(cells, c as nat) as int;
    let end = at + cells[c].len();
    assert(forall|k: int| 0 <= k < before.len() ==> line[k] == line.take(before.len() as int)[k]);
    assert(line.subrange(at, end) =~= before.subrange(at, end));
}

proof fn lemma_columns_fit(cells: Seq<Seq<char>>, c: nat)
    requires
        c < cells.len(),
    ensures
        2 <= column_start(cells, c),
        column_start(cells, c) + cells[c as int].len() + 3 <= column_start(cells, cells.len()),
    decreases cells.len() - c,
{
    lemma_start_at_least(cells, c);
    if c + 1 < cells.len() {
        lemma_columns_fit(cells, c + 1);
    }
}

proof fn lemma_start_at_least(cells: Seq<Seq<char>>, c: nat)
    ensures
        2 <= column_start(cells, c),
    decreases c,
{
    if c > 0 {
        lemma_start_at_least(cells, (c - 1) as nat);
    }
}

proof fn lemma_fit_row(row: Seq<Seq<char>>, width: nat)
    ensures
        shows_row(pipe_cells(fit_row(row, width)), row, width),
{
    let cells = fit_row(row, width);
    lemma_pipe_cells(cells);
    assert(shows_cells(pipe_cells(cells), cells));
}

proof fn lemma_used_width(row: Seq<Seq<char>>)
    ensures
        used_width(row) <= row.len(),
        forall|c: int| used_width(row) <= c < row.len() ==> (#[trigger] row[c]).len() == 0,
        used_width(row) > 0 ==> row[used_width(row) - 1].len() > 0,
        used_width(row) == 0 <==> all_blank(row),
    decreases row.len(),
{
    if row.len() > 0 {
        if row.last().len() == 0 {
            let front = row.drop_last();
            lemma_used_width(front);
            assert forall|c: int| used_width(row) <= c < row.len() implies (
            #[trigger] row[c]).len() == 0 by {
                if c < front.len() {
                    assert(front[c] == row[c]);
                }
            }
            if used_width(row) > 0 {
                assert(front[used_width(row) - 1] == row[used_width(row) - 1]);
            } else {
                assert(all_blank(row));
            }
        } else {
            assert(row[row.len() - 1].len() > 0);
        }
    }
}

proof fn lemma_table_width(rows: Seq<Seq<Seq<char>>>)
    ensures
        forall|r: int| 0 <= r < rows.len() ==> used_width(#[trigger] rows[r]) <= table_width(rows),
        table_width(rows) > 0 ==> exists|r: int|
            0 <= r < rows.len() && used_width(#[trigger] rows[r]) == table_width(rows),
    decreases rows.len(),
{
    if rows.len() > 0 {
        let front = rows.drop_last();
        lemma_table_width(front);
        let n = rows.len() - 1;
        assert(rows[n] == rows.last());
        assert forall|r: int| 0 <= r < rows.len() implies used_width(#[trigger] rows[r])
            <= table_width(rows) by {
            if r < n {
                assert(front[r] == rows[r]);
            }
        }
        if table_width(rows) > 0 && used_width(rows.last()) <= table_width(front) {
            let r = choose|r: int|
                0 <= r < front.len() && used_width(#[trigger] front[r]) == table_width(front);
            assert(rows[r] == front[r]);
        }
    }
}

proof fn lemma_kept_rows(rows: Seq<Seq<Seq<char>>>)
    requires
        rows.len() > 0,
    ensures
        1 <= kept_rows(rows).len() <= rows.len(),
        kept_rows(rows) == rows.take(kept_rows(rows).len() as int),
        forall|r: int| kept_rows(rows).len() <= r < rows.len() ==> all_blank(#[trigger] rows[r]),
        kept_rows(rows).len() > 1 ==> !all_blank(kept_rows(rows).last()),
    decreases rows.len(),
{
    if rows.len() > 1 && all_blank(rows.last()) {
        let front = rows.drop_last();
        lemma_kept_rows(front);
        let k = kept_rows(rows).len() as int;
        assert(front.take(k) =~= rows.take(k));
        assert forall|r: int| k <= r < rows.len() implies all_blank(#[trigger] rows[r]) by {
            if r < front.len() {
                assert(front[r] == rows[r]);
            }
        }
    } else {
        assert(rows.take(rows.len() as int) =~= rows);
    }
}

/// A table of texts is shown as a pipe table, whole and in order, unless no cell of it
/// shows anything.
pub proof fn law_pipe_tables_show_every_row(rows: Seq<Seq<Seq<char>>>, header_rows: nat)
    requires
        rows.len() > 0,
    ensures
        match gfm_table(rows, header_rows) {
            Some(text) => exists|shown: Seq<Seq<char>>, kept: int, width: nat|
                #[trigger] is_pipe_table(shown, rows, header_rows, kept, width) && text == joined(
                    shown,
                    "\n"@,
                ),
            None => forall|r: int| 0 <= r < rows.len() ==> all_blank(#[trigger] rows[r]),
        },
{
    let part = kept_rows(rows);
    let kept = part.len() as int;
    let width = table_width(part);
    lemma_kept_rows(rows);
    lemma_table_width(part);
    assert forall|r: int| 0 <= r < kept implies part[r] == #[trigger] rows[r] by {}
    if width == 0 {
        assert forall|r: int| 0 <= r < rows.len() implies all_blank(#[trigger] rows[r]) by {
            if r < kept {
                lemma_used_width(rows[r]);
                assert(used_width(part[r]) <= width);
            }
        }
    } else {
        let shown = pipe_table(part, header_rows, width);
        assert forall|r: int| 0 <= r < kept implies shows_row(
            shown[line_of(r, header_rows)],
            #[trigger] rows[r],
            width,
        ) by {
            lemma_fit_row(rows[r], width);
            assert(part[r] == rows[r]);
            if header_rows > 0 && r > 0 {
                assert(part.drop_first()[r - 1] == rows[r]);
            }
        }
        assert forall|r: int, c: int|
            0 <= r < rows.len() && width <= c < rows[r].len() implies (
        #[trigger] rows[r][c]).len() == 0 by {
            if r < kept {
                lemma_used_width(rows[r]);
                assert(used_width(part[r]) <= width);
            } else {
                assert(all_blank(rows[r]));
            }
        }
        let widest = choose|r: int| 0 <= r < kept && used_width(#[trigger] part[r]) == width;
        lemma_used_width(part[widest]);
        assert(rows[widest][width - 1].len() > 0);
        reveal_strlit("---");
        let dashes: Seq<Seq<char>> = Seq::new(width, |c: int| "---"@);
        let plain: Seq<Seq<char>> = Seq::new(width, |c: int| seq!['-', '-', '-']);
        assert("---"@ =~= seq!['-', '-', '-']);
        assert(dashes =~= plain);
        lemma_pipe_cells(dashes);
        lemma_fit_row(seq![], width);
        if kept > 1 {
            assert(part.last() == rows[kept - 1]);
        }
        assert(is_pipe_table(shown, rows, header_rows, kept, width));
    }
}

// ---------------------------------------------------------------------------
// Cells
// ---------------------------------------------------------------------------
proof fn lemma_row_texts(row: Seq<CellSlot>, ctx: InlineContext, numbers: Numbers)
    ensures
        row_texts(row, ctx, numbers).len() == row.len(),
        forall|k: int|
            0 <= k < row.len() ==> #[trigger] row_texts(row, ctx, numbers)[k] == slot_text(
                row[k],
                ctx,
                numbers,
            ),
    decreases row.len(),
{
    if row.len() > 0 {
        lemma_row_texts(row.drop_last(), ctx, numbers);
        let before = row_texts(row.drop_last(), ctx, numbers);
        let all = row_texts(row, ctx, numbers);
        assert forall|k: int| 0 <= k < row.len() implies #[trigger] all[k] == slot_text(
            row[k],
            ctx,
            numbers,
        ) by {
            if k < row.len() - 1 {
                assert(all[k] == before[k]);
                assert(row.drop_last()[k] == row[k]);
            }
        }
    }
}

/// The rows hold the texts of the cells where the table has them.
pub open spec fn texts_of(
    rows: Seq<Seq<Seq<char>>>,
    table: Table,
    ctx: InlineContext,
    numbers: Numbers,
) -> bool {
    &&& rows.len() == table.grid@.len()
    &&& forall|r: int|
        #![trigger rows[r]]
        0 <= r < rows.len() ==> rows[r].len() == table.grid@[r]@.len()
    &&& forall|r: int, c: int|
        0 <= r < rows.len() && 0 <= c < rows[r].len() ==> #[trigger] rows[r][c]
            == match table.grid@[r]@[c] {
            CellSlot::Origin(cell) => cell_text(cell, ctx, numbers),
            CellSlot::Covered { .. } => Seq::<char>::empty(),
        }
}

/// A table without merged cells is shown as a pipe table in which every cell stands in
/// its row and its column; nothing is shown of a table only where all cells are empty.
pub proof fn law_tables_show_every_cell(table: Table, numbers: Numbers)
    requires
        !spans(table),
        table.grid@.len() > 0,
    ensures
        exists|rows: Seq<Seq<Seq<char>>>|
            #[trigger] texts_of(rows, table, InlineContext::TableCell, numbers) && match table_text(
                table,
                numbers,
            ) {
                Some(text) => exists|shown: Seq<Seq<char>>, kept: int, width: nat|
                    #[trigger] is_pipe_table(shown, rows, table.header_rows as nat, kept, width)
                        && text == joined(shown, "\n"@),
                None => forall|r: int| 0 <= r < rows.len() ==> all_blank(#[trigger] rows[r]),
            },
{
    let rows = grid_texts(table.grid@, InlineContext::TableCell, numbers);
    assert forall|r: int| #![trigger rows[r]] 0 <= r < rows.len() implies rows[r].len()
        == table.grid@[r]@.len() by {
        lemma_row_texts(table.grid@[r]@, InlineContext::TableCell, numbers);
    }
    assert forall|r: int, c: int|
        0 <= r < rows.len() && 0 <= c < rows[r].len() implies #[trigger] rows[r][c]
        == match table.grid@[r]@[c] {
        CellSlot::Origin(cell) => cell_text(cell, InlineContext::TableCell, numbers),
        CellSlot::Covered { .. } => Seq::<char>::empty(),
    } by {
        lemma_row_texts(table.grid@[r]@, InlineContext::TableCell, numbers);
    }
    assert(texts_of(rows, table, InlineContext::TableCell, numbers));
    law_pipe_tables_show_every_row(rows, table.header_rows as nat);
}

proof fn lemma_joined_without(parts: Seq<Seq<char>>, sep: Seq<char>, c: char)
    requires
        !sep.contains(c),
        forall|i: int| 0 <= i < parts.len() ==> !(#[trigger] parts[i]).contains(c),
    ensures
        !joined(parts, sep).contains(c),
    decreases parts.len(),
{
    let s = joined(parts, sep);
    if parts.len() > 1 {
        let front = parts.drop_last();
        assert forall|i: int| 0 <= i < front.len() implies !(#[trigger] front[i]).contains(c) by {
            assert(front[i] == parts[i]);
        }
        lemma_joined_without(front, sep, c);
        let before = joined(front, sep);
        let last = parts[parts.len() - 1];
        assert(!last.contains(c));
        if s.contains(c) {
            let k = choose|k: int| 0 <= k < s.len() && s[k] == c;
            if k < before.len() {
                assert(before[k] == c);
            } else if k < before.len() + sep.len() {
                assert(sep[k - before.len()] == c);
            } else {
                assert(last[k - before.len() - sep.len()] == c);
            }
        }
    } else if parts.len() == 1 {
        assert(!parts[0].contains(c));
    }
}

proof fn lemma_visible_lines(all: Seq<Seq<char>>)
    requires
        forall|i: int| 0 <= i < all.len() ==> !(#[trigger] all[i]).contains('\n'),
    ensures
        forall|i: int|
            0 <= i < visible_lines(all).len() ==> {
                let line = #[trigger] visible_lines(all)[i];
                !line.contains('\n') && !is_blank(line)
            },
    decreases all.len(),
{
    if all.len() > 0 {
        let front = all.drop_last();
        assert forall|i: int| 0 <= i < front.len() implies !(#[trigger] front[i]).contains('\n') by {
            assert(front[i] == all[i]);
        }
        lemma_visible_lines(front);
        let last = all[all.len() - 1];
        if !is_blank(last) {
            let at = law_trimming_cuts_white_space_only(last);
            let t = trim(last);
            if t.contains('\n') {
                let k = choose|k: int| 0 <= k < t.len() && t[k] == '\n';
                assert(last.subrange(at, at + t.len())[k] == '\n');
                assert(last[at + k] == '\n');
            }
            assert(!is_white(t[0]));
            let now = visible_lines(all);
            let before = visible_lines(front);
            assert forall|i: int| 0 <= i < now.len() implies ({
                let line = #[trigger] now[i];
                !line.contains('\n') && !is_blank(line)
            }) by {
                if i < before.len() {
                    assert(now[i] == before[i]);
                }
            }
        }
    }
}

/// Whatever a cell holds, it is shown on one line.
pub proof fn law_cells_are_single_lines(cell: Cell, ctx: InlineContext, numbers: Numbers)
    ensures
        !cell_text(cell, ctx, numbers).contains('\n'),
{
    reveal_strlit("<br>");
    let all = lines(joined(blocks_parts(cell.blocks@, ctx, numbers), "<br>"@));
    crate::text::lemma_lines_have_no_feed(joined(blocks_parts(cell.blocks@, ctx, numbers), "<br>"@));
    lemma_visible_lines(all);
    assert(!"<br>"@.contains('\n')) by {
        if "<br>"@.contains('\n') {
            let k = choose|k: int| 0 <= k < "<br>"@.len() && "<br>"@[k] == '\n';
            assert(k == 0 || k == 1 || k == 2 || k == 3);
        }
    }
    lemma_joined_without(visible_lines(all), "<br>"@, '\n');
}

// ---------------------------------------------------------------------------
// HTML tables
// ---------------------------------------------------------------------------
/// The tag of a cell in a row.
pub open spec fn tag_of(r: int, header_rows: nat) -> Seq<char> {
    if r < header_rows {
        seq!['t', 'h']
    } else {
        seq!['t', 'd']
    }
}

/// An attribute for a span that is one.
pub open spec fn says_span(attrs: Seq<char>, name: Seq<char>, span: u64) -> bool {
    span > 1 ==> has_sub(attrs, seq![' '] + name + seq!['=', '"'] + decimal(span as nat) + seq!['"'])
}

/// The element shows a cell with its text and its spans.
pub open spec fn is_cell(element: Seq<char>, tag: Seq<char>, attrs: Seq<char>, cell: Cell, text: Seq<char>) -> bool {
    &&& element == seq!['<'] + tag + attrs + seq!['>'] + text + seq!['<', '/'] + tag + seq!['>']
    &&& says_span(attrs, "colspan"@, cell.col_span)
    &&& says_span(attrs, "rowspan"@, cell.row_span)
    &&& cell.col_span <= 1 && cell.row_span <= 1 ==> attrs.len() == 0
}

/// The line of an HTML table shows the cells of a row from left to right: `elements` has
/// one for each position, an empty one where a span of another cell covers it.
pub open spec fn shows_html_row(
    line: Seq<char>,
    row: Seq<CellSlot>,
    tag: Seq<char>,
    numbers: Numbers,
    elements: Seq<Seq<char>>,
) -> bool {
    &&& line == "<tr>"@ + joined(elements, seq![]) + "</tr>"@
    &&& elements.len() == row.len()
    &&& forall|c: int|
        0 <= c < row.len() ==> shows_slot(#[trigger] elements[c], row[c], tag, numbers)
}

/// The element shows what stands at a position of the table.
pub open spec fn shows_slot(
    element: Seq<char>,
    slot: CellSlot,
    tag: Seq<char>,
    numbers: Numbers,
) -> bool {
    match slot {
        CellSlot::Origin(cell) => exists|attrs: Seq<char>| #[trigger]
            is_cell(
                element,
                tag,
                attrs,
                cell,
                html_text(cell_text(cell, InlineContext::HtmlCell, numbers)),
            ),
        CellSlot::Covered { .. } => element.len() == 0,
    }
}

proof fn lemma_span_attr(span: u64)
    ensures
        span > 1 ==> span_attr(" colspan=\""@, span) == seq![' '] + "colspan"@ + seq!['=', '"']
            + decimal(span as nat) + seq!['"'],
        span > 1 ==> span_attr(" rowspan=\""@, span) == seq![' '] + "rowspan"@ + seq!['=', '"']
            + decimal(span as nat) + seq!['"'],
        span <= 1 ==> span_attr(" colspan=\""@, span).len() == 0,
        span <= 1 ==> span_attr(" rowspan=\""@, span).len() == 0,
{
    reveal_strlit(" colspan=\"");
    reveal_strlit(" rowspan=\"");
    reveal_strlit("colspan");
    reveal_strlit("rowspan");
    reveal_strlit("\"");
    assert(" colspan=\""@ =~= seq![' '] + "colspan"@ + seq!['=', '"']);
    assert(" rowspan=\""@ =~= seq![' '] + "rowspan"@ + seq!['=', '"']);
    assert("\""@ =~= seq!['"']);
}

proof fn lemma_html_slot(cell: Cell, tag: Seq<char>, numbers: Numbers)
    ensures
        exists|attrs: Seq<char>| #[trigger]
            is_cell(
                html_slot(CellSlot::Origin(cell), tag, numbers),
                tag,
                attrs,
                cell,
                html_text(cell_text(cell, InlineContext::HtmlCell, numbers)),
            ),
{
    reveal_strlit("<");
    reveal_strlit(">");
    reveal_strlit("</");
    let cols = span_attr(" colspan=\""@, cell.col_span);
    let rows = span_attr(" rowspan=\""@, cell.row_span);
    let attrs = cols + rows;
    let text = html_text(cell_text(cell, InlineContext::HtmlCell, numbers));
    let element = html_slot(CellSlot::Origin(cell), tag, numbers);
    lemma_span_attr(cell.col_span);
    lemma_span_attr(cell.row_span);
    assert(element =~= seq!['<'] + tag + attrs + seq!['>'] + text + seq!['<', '/'] + tag + seq![
        '>',
    ]);
    if cell.col_span > 1 {
        assert(attrs.subrange(0, cols.len() as int) =~= cols);
        assert(occurs_at(attrs, cols, 0));
    }
    if cell.row_span > 1 {
        assert(attrs.subrange(cols.len() as int, attrs.len() as int) =~= rows);
        assert(occurs_at(attrs, rows, cols.len() as int));
    }
    assert(is_cell(element, tag, attrs, cell, text));
}

pub open spec fn html_elements(row: Seq<CellSlot>, tag: Seq<char>, numbers: Numbers) -> Seq<
    Seq<char>,
> {
    Seq::new(row.len(), |c: int| html_slot(row[c], tag, numbers))
}

proof fn lemma_html_cells(row: Seq<CellSlot>, tag: Seq<char>, numbers: Numbers)
    ensures
        html_cells(row, tag, numbers) == joined(html_elements(row, tag, numbers), seq![]),
    decreases row.len(),
{
    let all = html_elements(row, tag, numbers);
    if row.len() > 0 {
        let front = row.drop_last();
        lemma_html_cells(front, tag, numbers);
        assert(all.drop_last() =~= html_elements(front, tag, numbers));
        if row.len() == 1 {
            assert(front =~= seq![]);
            assert(html_cells(row, tag, numbers) =~= all[0]);
        } else {
            assert(html_cells(row, tag, numbers) =~= joined(all.drop_last(), seq![]) + Seq::<
                char,
            >::empty() + all.last());
        }
    }
}

/// The lines of an HTML table: its own tags around one line for each row.
pub open spec fn is_html_table(shown: Seq<Seq<char>>, table: Table, numbers: Numbers) -> bool {
    let n = table.grid@.len() as int;
    &&& shown.len() == n + 2
    &&& shown[0] == "<table>"@
    &&& shown[n + 1] == "</table>"@
    &&& forall|r: int| 0 <= r < n ==> #[trigger] html_row_shown(shown, table, numbers, r)
}

/// The row of the table is shown in the line behind it.
pub open spec fn html_row_shown(
    shown: Seq<Seq<char>>,
    table: Table,
    numbers: Numbers,
    r: int,
) -> bool {
    exists|elements: Seq<Seq<char>>| #[trigger]
        shows_html_row(
            shown[r + 1],
            table.grid@[r]@,
            tag_of(r, table.header_rows as nat),
            numbers,
            elements,
        )
}

/// The line of a row in HTML.
spec fn html_line(row: Seq<CellSlot>, r: int, header_rows: nat, numbers: Numbers) -> Seq<char> {
    "<tr>"@ + html_cells(row, if r < header_rows { "th"@ } else { "td"@ }, numbers) + "</tr>"@
}

spec fn html_lines(grid: Seq<Vec<CellSlot>>, header_rows: nat, numbers: Numbers) -> Seq<Seq<char>> {
    Seq::new(
        (grid.len() + 1) as nat,
        |i: int|
            if i == 0 {
                "<table>"@
            } else {
                html_line(grid[i - 1]@, i - 1, header_rows, numbers)
            },
    )
}

proof fn lemma_html_line(row: Seq<CellSlot>, r: int, header_rows: nat, numbers: Numbers)
    ensures
        shows_html_row(
            html_line(row, r, header_rows, numbers),
            row,
            tag_of(r, header_rows),
            numbers,
            html_elements(row, tag_of(r, header_rows), numbers),
        ),
{
    reveal_strlit("th");
    reveal_strlit("td");
    assert("th"@ =~= seq!['t', 'h']);
    assert("td"@ =~= seq!['t', 'd']);
    let tag = tag_of(r, header_rows);
    let elements = html_elements(row, tag, numbers);
    lemma_html_cells(row, tag, numbers);
    assert forall|c: int| 0 <= c < row.len() implies shows_slot(
        #[trigger] elements[c],
        row[c],
        tag,
        numbers,
    ) by {
        if let CellSlot::Origin(cell) = row[c] {
            lemma_html_slot(cell, tag, numbers);
        }
    }
}

proof fn lemma_html_rows(grid: Seq<Vec<CellSlot>>, header_rows: nat, numbers: Numbers)
    ensures
        html_rows(grid, header_rows, numbers) == joined(
            html_lines(grid, header_rows, numbers),
            "\n"@,
        ),
    decreases grid.len(),
{
    let all = html_lines(grid, header_rows, numbers);
    if grid.len() > 0 {
        let front = grid.drop_last();
        lemma_html_rows(front, header_rows, numbers);
        assert(all.drop_last() =~= html_lines(front, header_rows, numbers));
        reveal_strlit("\n<tr>");
        reveal_strlit("\n");
        reveal_strlit("<tr>");
        assert("\n<tr>"@ =~= "\n"@ + "<tr>"@);
        let r = grid.len() - 1;
        let tag = if r < header_rows { "th"@ } else { "td"@ };
        let before = html_rows(front, header_rows, numbers);
        let cells = html_cells(grid.last()@, tag, numbers);
        assert(before + "\n<tr>"@ + cells + "</tr>"@ =~= before + "\n"@ + ("<tr>"@ + cells
            + "</tr>"@));
    }
}

/// A table with merged cells is shown as an HTML table in which every cell stands in its
/// row, in order, with its spans; nothing is shown of a table only where all cells are
/// empty.
pub proof fn law_merged_tables_show_every_cell(table: Table, numbers: Numbers)
    requires
        spans(table),
        table.grid@.len() > 0,
    ensures
        match table_text(table, numbers) {
            Some(text) => exists|shown: Seq<Seq<char>>|
                #[trigger] is_html_table(shown, table, numbers) && text == joined(shown, "\n"@),
            None => forall|r: int, c: int|
                0 <= r < table.grid@.len() && 0 <= c < table.grid@[r]@.len() ==> (
                #[trigger] table.grid@[r]@[c] matches CellSlot::Origin(cell) ==> cell_text(
                    cell,
                    InlineContext::HtmlCell,
                    numbers,
                ).len() == 0),
        },
{
    let grid = table.grid@;
    let n = grid.len() as int;
    let h = table.header_rows as nat;
    if grid_visible(grid, numbers) {
        let body = html_lines(grid, h, numbers);
        let shown = body.push("</table>"@);
        lemma_html_rows(grid, h, numbers);
        reveal_strlit("\n</table>");
        reveal_strlit("</table>");
        reveal_strlit("\n");
        reveal_strlit("th");
        reveal_strlit("td");
        assert("th"@ =~= seq!['t', 'h']);
        assert("td"@ =~= seq!['t', 'd']);
        assert("\n</table>"@ =~= "\n"@ + "</table>"@);
        assert(shown.drop_last() =~= body);
        let before = joined(body, "\n"@);
        assert(before + "\n</table>"@ =~= before + "\n"@ + "</table>"@);
        assert forall|r: int| 0 <= r < n implies #[trigger] html_row_shown(
            shown,
            table,
            numbers,
            r,
        ) by {
            let row = grid[r]@;
            lemma_html_line(row, r, h, numbers);
            assert(shown[r + 1] == body[r + 1]);
            assert(shows_html_row(
                shown[r + 1],
                row,
                tag_of(r, h),
                numbers,
                html_elements(row, tag_of(r, h), numbers),
            ));
        }
        assert(is_html_table(shown, table, numbers));
    } else {
        assert forall|r: int, c: int| 0 <= r < grid.len() && 0 <= c < grid[r]@.len() implies (
        #[trigger] grid[r]@[c] matches CellSlot::Origin(cell) ==> cell_text(
            cell,
            InlineContext::HtmlCell,
            numbers,
        ).len() == 0) by {
            lemma_row_texts(grid[r]@, InlineContext::HtmlCell, numbers);
            assert(!row_visible(grid[r]@, numbers));
            let texts = row_texts(grid[r]@, InlineContext::HtmlCell, numbers);
            assert(texts[c].len() == 0);
        }
    }
}

// ---------------------------------------------------------------------------
// HTML text
// ---------------------------------------------------------------------------
/// What a browser shows for an escaped text, with a line feed for a break.
pub open spec fn browser_text(s: Seq<char>) -> Seq<char>
    decreases s.len(),
{
    if s.len() == 0 {
        seq![]
    } else if s.len() >= 4 && s.take(4) == seq!['<', 'b', 'r', '>'] {
        seq!['\n'] + browser_text(s.skip(4))
    } else if s.len() >= 5 && s.take(5) == seq!['&', 'a', 'm', 'p', ';'] {
        seq!['&'] + browser_text(s.skip(5))
    } else if s.len() >= 4 && s.take(4) == seq!['&', 'l', 't', ';'] {
        seq!['<'] + browser_text(s.skip(4))
    } else if s.len() >= 4 && s.take(4) == seq!['&', 'g', 't', ';'] {
        seq!['>'] + browser_text(s.skip(4))
    } else if s.len() >= 6 && s.take(6) == seq!['&', 'q', 'u', 'o', 't', ';'] {
        seq!['"'] + browser_text(s.skip(6))
    } else {
        seq![s[0]] + browser_text(s.skip(1))
    }
}

/// The text with a line feed for each break.
pub open spec fn broken(s: Seq<char>) -> Seq<char>
    decreases s.len(),
{
    if s.len() == 0 {
        seq![]
    } else if s.len() >= 4 && s.take(4) == seq!['<', 'b', 'r', '>'] {
        seq!['\n'] + broken(s.skip(4))
    } else {
        seq![s[0]] + broken(s.skip(1))
    }
}

/// A browser shows the text of a cell as it is, with its breaks.
pub proof fn law_browsers_show_the_cell(s: Seq<char>)
    ensures
        browser_text(html_text(s)) == broken(s),
    decreases s.len(),
{
    reveal_strlit("<br>");
    reveal_strlit("&amp;");
    reveal_strlit("&lt;");
    reveal_strlit("&gt;");
    reveal_strlit("&quot;");
    assert("<br>"@ =~= seq!['<', 'b', 'r', '>']);
    if s.len() > 0 {
        let h = html_text(s);
        if s.len() >= 4 && s.take(4) == "<br>"@ {
            law_browsers_show_the_cell(s.skip(4));
            assert(h.take(4) =~= "<br>"@);
            assert(h.skip(4) =~= html_text(s.skip(4)));
        } else {
            law_browsers_show_the_cell(s.skip(1));
            let c = s[0];
            let rest = html_text(s.skip(1));
            assert(h == html_char(c) + rest);
            let n = html_char(c).len() as int;
            assert(h.skip(n) =~= rest);
            if c == '&' {
                assert("&amp;"@ =~= seq!['&', 'a', 'm', 'p', ';']);
                assert(h.take(5) =~= "&amp;"@);
                assert(h[0] == '&');
                assert(h.take(4)[0] == '&');
            } else if c == '<' {
                assert("&lt;"@ =~= seq!['&', 'l', 't', ';']);
                assert(h.take(4) =~= "&lt;"@);
                assert(h[1] == 'l');
                if h.len() >= 5 {
                    assert(h.take(5)[1] == 'l');
                }
                assert(h.take(4)[0] == '&');
            } else if c == '>' {
                assert("&gt;"@ =~= seq!['&', 'g', 't', ';']);
                assert(h.take(4) =~= "&gt;"@);
                assert(h[1] == 'g');
                if h.len() >= 5 {
                    assert(h.take(5)[1] == 'g');
                }
                assert(h.take(4)[0] == '&' && h.take(4)[1] == 'g');
            } else if c == '"' {
                assert("&quot;"@ =~= seq!['&', 'q', 'u', 'o', 't', ';']);
                assert(h.take(6) =~= "&quot;"@);
                assert(h[1] == 'q');
                assert(h.take(5)[1] == 'q');
                assert(h.take(4)[0] == '&' && h.take(4)[1] == 'q');
            } else {
                assert(h[0] == c);
                if h.len() >= 4 {
                    assert(h.take(4)[0] == c);
                }
                if h.len() >= 5 {
                    assert(h.take(5)[0] == c);
                }
                if h.len() >= 6 {
                    assert(h.take(6)[0] == c);
                }
            }
        }
    }
}

// ---------------------------------------------------------------------------
// Inside a cell
// ---------------------------------------------------------------------------
/// The blocks of a cell contribute one behind the other: a heading in bold, a paragraph as
/// it is, code and formulas as spans, and nothing for what shows nothing.
pub proof fn law_cells_show_their_blocks(
    a: Seq<Block>,
    b: Seq<Block>,
    block: Block,
    ctx: InlineContext,
    numbers: Numbers,
)
    ensures
        blocks_parts(a + b, ctx, numbers) == blocks_parts(a, ctx, numbers) + blocks_parts(
            b,
            ctx,
            numbers,
        ),
        blocks_parts(seq![block], ctx, numbers) == block_parts(block, ctx, numbers),
        match block {
            Block::Heading { level, content } => {
                let t = inlines_text(content@, ctx, numbers, true);
                block_parts(block, ctx, numbers) == if is_blank(t) {
                    Seq::<Seq<char>>::empty()
                } else {
                    seq![seq!['*', '*'] + trim(t) + seq!['*', '*']]
                }
            },
            Block::Paragraph(inlines) => {
                let t = inlines_text(inlines@, ctx, numbers, true);
                block_parts(block, ctx, numbers) == if is_blank(t) {
                    Seq::<Seq<char>>::empty()
                } else {
                    seq![t]
                }
            },
            Block::CodeBlock { lang, text } => block_parts(block, ctx, numbers) == if is_blank(
                text@,
            ) {
                Seq::<Seq<char>>::empty()
            } else {
                seq![code_span(trim(text@), ctx)]
            },
            Block::Math(tex) => block_parts(block, ctx, numbers).len() == if is_blank(tex@) {
                0nat
            } else {
                1nat
            },
            Block::Rule => block_parts(block, ctx, numbers).len() == 0,
            Block::BlockQuote(inner) => block_parts(block, ctx, numbers) == blocks_parts(
                inner@,
                ctx,
                numbers,
            ),
            _ => true,
        },
    decreases b.len(),
{
    reveal_strlit("**");
    assert("**"@ =~= seq!['*', '*']);
    assert(seq![block].drop_last() =~= Seq::<Block>::empty());
    assert(seq![block].last() == block);
    assert(blocks_parts(Seq::<Block>::empty(), ctx, numbers) =~= Seq::<Seq<char>>::empty());
    assert(blocks_parts(seq![block], ctx, numbers) =~= block_parts(block, ctx, numbers));
    if b.len() == 0 {
        assert(a + b =~= a);
        assert(blocks_parts(a, ctx, numbers) + blocks_parts(b, ctx, numbers) =~= blocks_parts(
            a,
            ctx,
            numbers,
        ));
    } else {
        assert((a + b).drop_last() =~= a + b.drop_last());
        assert((a + b).last() == b.last());
        law_cells_show_their_blocks(a, b.drop_last(), block, ctx, numbers);
        assert(blocks_parts(a + b, ctx, numbers) =~= blocks_parts(a, ctx, numbers) + blocks_parts(
            b,
            ctx,
            numbers,
        ));
    }
}

/// A list in a cell shows its items in order, each that shows anything on a line of its own
/// behind its marker: a dot, or a label with the number of its place.
pub proof fn law_cells_show_their_items(
    items: Seq<ListItem>,
    item: ListItem,
    kind: MarkerKind,
    start: u64,
    ctx: InlineContext,
    numbers: Numbers,
)
    requires
        item.marker_label is None,
        start + items.len() <= u64::MAX,
    ensures
        ({
            let inner = blocks_parts(item.blocks@, ctx, numbers);
            let before = items_parts(items, kind, start, ctx, numbers);
            let after = items_parts(items.push(item), kind, start, ctx, numbers);
            &&& items_parts(Seq::empty(), kind, start, ctx, numbers).len() == 0
            &&& inner.len() == 0 ==> after == before
            &&& inner.len() > 0 ==> after == before + seq![
                if kind is Bullet {
                    seq!['•', ' ']
                } else {
                    marker_text(kind, (start + items.len()) as u64) + seq![' ']
                } + joined(inner, " "@),
            ]
        }),
{
    reveal_strlit("• ");
    reveal_strlit(" ");
    assert("• "@ =~= seq!['•', ' ']);
    assert(" "@ =~= seq![' ']);
    let more = items.push(item);
    assert(more.drop_last() =~= items);
    assert(more.last() == item);
    let inner = blocks_parts(item.blocks@, ctx, numbers);
    if inner.len() > 0 {
        let before = items_parts(items, kind, start, ctx, numbers);
        let after = items_parts(more, kind, start, ctx, numbers);
        assert(after =~= before + seq![after.last()]);
    }
}

/// The rows of a table inside a cell are lines of their own, with a slash between the
/// cells; rows that show nothing are left out.
pub proof fn law_cells_show_their_rows(
    grid: Seq<Vec<CellSlot>>,
    row: Vec<CellSlot>,
    ctx: InlineContext,
    numbers: Numbers,
)
    ensures
        rows_parts(Seq::empty(), ctx, numbers).len() == 0,
        ({
            let cells = row_texts(row@, ctx, numbers);
            let before = rows_parts(grid, ctx, numbers);
            let after = rows_parts(grid.push(row), ctx, numbers);
            let shows = exists|i: int| 0 <= i < cells.len() && (#[trigger] cells[i]).len() > 0;
            &&& !shows ==> after == before
            &&& shows ==> after == before + seq![joined(cells, seq![' ', '/', ' '])]
        }),
        row_texts(row@, ctx, numbers).len() == row@.len(),
        forall|i: int|
            0 <= i < row@.len() ==> #[trigger] row_texts(row@, ctx, numbers)[i] == slot_text(
                row@[i],
                ctx,
                numbers,
            ),
{
    reveal_strlit(" / ");
    assert(" / "@ =~= seq![' ', '/', ' ']);
    let more = grid.push(row);
    assert(more.drop_last() =~= grid);
    assert(more.last() == row);
    lemma_slot_texts(row@, ctx, numbers);
    let cells = row_texts(row@, ctx, numbers);
    let shows = exists|i: int| 0 <= i < cells.len() && (#[trigger] cells[i]).len() > 0;
    assert(shows <==> !all_blank(cells));
    if !all_blank(cells) {
        assert(rows_parts(more, ctx, numbers) =~= rows_parts(grid, ctx, numbers) + seq![
            joined(cells, " / "@),
        ]);
    }
}

proof fn lemma_slot_texts(row: Seq<CellSlot>, ctx: InlineContext, numbers: Numbers)
    ensures
        row_texts(row, ctx, numbers).len() == row.len(),
        forall|i: int|
            0 <= i < row.len() ==> #[trigger] row_texts(row, ctx, numbers)[i] == slot_text(
                row[i],
                ctx,
                numbers,
            ),
    decreases row.len(),
{
    if row.len() > 0 {
        let front = row.drop_last();
        lemma_slot_texts(front, ctx, numbers);
        let all = row_texts(row, ctx, numbers);
        assert forall|i: int| 0 <= i < row.len() implies #[trigger] all[i] == slot_text(
            row[i],
            ctx,
            numbers,
        ) by {
            if i < front.len() {
                assert(all[i] == row_texts(front, ctx, numbers)[i]);
                assert(front[i] == row[i]);
            }
        }
    }
}

/// A cell is one line: the lines of its pieces that show anything, trimmed, with a break
/// between them.
pub proof fn law_cells_keep_visible_lines(a: Seq<Seq<char>>, b: Seq<Seq<char>>, line: Seq<char>)
    ensures
        visible_lines(a + b) == visible_lines(a) + visible_lines(b),
        visible_lines(seq![line]) == if is_blank(line) {
            Seq::<Seq<char>>::empty()
        } else {
            seq![trim(line)]
        },
    decreases b.len(),
{
    assert(seq![line].drop_last() =~= Seq::<Seq<char>>::empty());
    assert(seq![line].last() == line);
    assert(visible_lines(Seq::<Seq<char>>::empty()) =~= Seq::<Seq<char>>::empty());
    if !is_blank(line) {
        assert(visible_lines(seq![line]) =~= seq![trim(line)]);
    }
    if b.len() == 0 {
        assert(a + b =~= a);
        assert(visible_lines(a) + visible_lines(b) =~= visible_lines(a));
    } else {
        assert((a + b).drop_last() =~= a + b.drop_last());
        assert((a + b).last() == b.last());
        law_cells_keep_visible_lines(a, b.drop_last(), line);
        assert(visible_lines(a + b) =~= visible_lines(a) + visible_lines(b));
    }
}

} // verus!
