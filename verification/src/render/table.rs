//! Table rendering over the canonical grid. Span-less tables render as GFM
//! pipes; tables carrying any merge render as an HTML `<table>`, because GFM
//! has no span syntax.

use crate::render::escape::{escape_marker_label, escaped, InlineContext};
use crate::render::inline::{
    code_span, inlines_text, math_span, push_code_span, push_math_span, render_inlines, Numbering,
    Numbers,
};
use crate::render::model::{marker_text, Block, Cell, CellSlot, List, ListItem, MarkerKind, Table};
use crate::text::{
    blank, chars_of, decimal, is_blank, join, joined, lines, lines_of, matches_at, occurs_at,
    push_chars, push_decimal, string_of, texts, trim, trim_of,
};
use vstd::prelude::*;

verus! {

broadcast use crate::text::lemma_texts_push;

// ---------------------------------------------------------------------------
// Flattening a cell
// ---------------------------------------------------------------------------
/// The visible lines, without the white space around them.
pub open spec fn visible_lines(all: Seq<Seq<char>>) -> Seq<Seq<char>>
    decreases all.len(),
{
    if all.len() == 0 {
        seq![]
    } else if is_blank(all.last()) {
        visible_lines(all.drop_last())
    } else {
        visible_lines(all.drop_last()).push(trim(all.last()))
    }
}

/// The number of the item at place `i`.
pub open spec fn item_number(start: u64, i: nat) -> u64 {
    if start + i > u64::MAX { u64::MAX } else { (start + i) as u64 }
}

/// The marker of a list item inside a cell.
pub open spec fn cell_marker(
    label: Option<String>,
    kind: MarkerKind,
    number: u64,
    ctx: InlineContext,
) -> Seq<char> {
    match label {
        Some(l) => escaped(l@, ctx, ctx == InlineContext::Block) + " "@,
        None => if kind == MarkerKind::Bullet { "• "@ } else { marker_text(kind, number) + " "@ },
    }
}

/// The pieces that a block contributes to the line of its cell.
pub open spec fn block_parts(block: Block, ctx: InlineContext, numbers: Numbers) -> Seq<Seq<char>>
    decreases block,
{
    match block {
        Block::Heading { level, content } => {
            let t = inlines_text(content@, ctx, numbers, true);
            if is_blank(t) { seq![] } else { seq!["**"@ + trim(t) + "**"@] }
        },
        Block::Paragraph(inlines) => {
            let t = inlines_text(inlines@, ctx, numbers, true);
            if is_blank(t) { seq![] } else { seq![t] }
        },
        Block::List(list) => items_parts(list.items@, list.marker, list.start, ctx, numbers),
        Block::Table(table) => rows_parts(table.grid@, ctx, numbers),
        Block::BlockQuote(blocks) => blocks_parts(blocks@, ctx, numbers),
        Block::CodeBlock { lang, text } => if is_blank(text@) {
            seq![]
        } else {
            seq![code_span(trim(text@), ctx)]
        },
        Block::Math(tex) => if is_blank(tex@) { seq![] } else { seq![math_span(tex@, ctx)] },
        Block::Rule => seq![],
    }
}

pub open spec fn blocks_parts(blocks: Seq<Block>, ctx: InlineContext, numbers: Numbers) -> Seq<
    Seq<char>,
>
    decreases blocks,
{
    if blocks.len() == 0 {
        seq![]
    } else {
        blocks_parts(blocks.drop_last(), ctx, numbers) + block_parts(blocks.last(), ctx, numbers)
    }
}

/// One piece for each item that shows anything.
pub open spec fn items_parts(
    items: Seq<ListItem>,
    kind: MarkerKind,
    start: u64,
    ctx: InlineContext,
    numbers: Numbers,
) -> Seq<Seq<char>>
    decreases items,
{
    if items.len() == 0 {
        seq![]
    } else {
        let before = items_parts(items.drop_last(), kind, start, ctx, numbers);
        let item = items.last();
        let inner = blocks_parts(item.blocks@, ctx, numbers);
        let number = item_number(start, (items.len() - 1) as nat);
        if inner.len() == 0 {
            before
        } else {
            before.push(
                cell_marker(item.marker_label, kind, number, ctx) + joined(inner, " "@),
            )
        }
    }
}

/// The texts of the cells of a row; covered positions are empty.
pub open spec fn row_texts(row: Seq<CellSlot>, ctx: InlineContext, numbers: Numbers) -> Seq<
    Seq<char>,
>
    decreases row,
{
    if row.len() == 0 {
        seq![]
    } else {
        row_texts(row.drop_last(), ctx, numbers).push(slot_text(row.last(), ctx, numbers))
    }
}

pub open spec fn slot_text(slot: CellSlot, ctx: InlineContext, numbers: Numbers) -> Seq<char>
    decreases slot,
{
    match slot {
        CellSlot::Origin(cell) => cell_text(cell, ctx, numbers),
        CellSlot::Covered { row, col } => seq![],
    }
}

pub open spec fn all_blank(cells: Seq<Seq<char>>) -> bool {
    forall|i: int| 0 <= i < cells.len() ==> (#[trigger] cells[i]).len() == 0
}

/// One piece for each row of a nested table that shows anything. Empty cells
/// stay in the join, so that values keep their column positions.
pub open spec fn rows_parts(grid: Seq<Vec<CellSlot>>, ctx: InlineContext, numbers: Numbers) -> Seq<
    Seq<char>,
>
    decreases grid,
{
    if grid.len() == 0 {
        seq![]
    } else {
        let before = rows_parts(grid.drop_last(), ctx, numbers);
        let cells = row_texts(grid.last()@, ctx, numbers);
        if all_blank(cells) { before } else { before.push(joined(cells, " / "@)) }
    }
}

/// A cell flattened to one line.
pub open spec fn cell_text(cell: Cell, ctx: InlineContext, numbers: Numbers) -> Seq<char>
    decreases cell,
{
    joined(
        visible_lines(lines(joined(blocks_parts(cell.blocks@, ctx, numbers), "<br>"@))),
        "<br>"@,
    )
}

fn trim_lines(all: &Vec<String>) -> (r: Vec<String>)
    ensures
        texts(r@) == visible_lines(texts(all@)),
{
    let mut out: Vec<String> = Vec::new();
    let ghost source = texts(all@);
    assert(texts(out@) =~= visible_lines(source.take(0)));
    for i in 0..all.len()
        invariant
            source == texts(all@),
            texts(out@) == visible_lines(source.take(i as int)),
    {
        assert(source.take(i + 1).drop_last() =~= source.take(i as int));
        let chars = chars_of(all[i].as_str());
        if !blank(chars.as_slice()) {
            out.push(string_of(trim_of(chars.as_slice())));
        }
    }
    assert(source.take(source.len() as int) =~= source);
    out
}

/// Flattens arbitrary block content into a single table-cell line. Edge white
/// space is padding that the table's own padding would swallow anyway.
pub fn render_cell(cell: &Cell, ctx: InlineContext, numbering: &Numbering) -> (r: String)
    ensures
        r@ == cell_text(*cell, ctx, numbering@),
    decreases cell,
{
    let mut parts: Vec<String> = Vec::new();
    cell_blocks_text(&cell.blocks, ctx, numbering, &mut parts);
    assert(texts(parts@) =~= blocks_parts(cell.blocks@, ctx, numbering@));
    let all = join(&parts, "<br>");
    join(&trim_lines(&lines_of(chars_of(all.as_str()).as_slice())), "<br>")
}

fn cell_blocks_text(
    blocks: &Vec<Block>,
    ctx: InlineContext,
    numbering: &Numbering,
    parts: &mut Vec<String>,
)
    ensures
        texts(final(parts)@) == texts(old(parts)@) + blocks_parts(blocks@, ctx, numbering@),
    decreases blocks,
{
    let ghost before = texts(parts@);
    assert(before =~= before + blocks_parts(blocks@.take(0), ctx, numbering@));
    for i in 0..blocks.len()
        invariant
            texts(parts@) == before + blocks_parts(blocks@.take(i as int), ctx, numbering@),
    {
        assert(blocks@.take(i + 1).drop_last() =~= blocks@.take(i as int));
        assert(decreases_to!(blocks => blocks@[i as int]));
        cell_block_text(&blocks[i], ctx, numbering, parts);
        assert(texts(parts@) =~= before + blocks_parts(blocks@.take(i + 1), ctx, numbering@));
    }
    assert(blocks@.take(blocks@.len() as int) =~= blocks@);
}

fn render_cell_marker(
    label: &Option<String>,
    kind: MarkerKind,
    number: u64,
    ctx: InlineContext,
) -> (r: String)
    ensures
        r@ == cell_marker(*label, kind, number, ctx),
{
    match label {
        Some(l) => {
            let mut out = escape_marker_label(l.as_str(), ctx);
            out.push_str(" ");
            out
        },
        None => {
            if kind == MarkerKind::Bullet {
                "• ".to_owned()
            } else {
                let mut out = kind.label(number);
                out.push_str(" ");
                out
            }
        },
    }
}

fn cell_list_text(
    list: &List,
    ctx: InlineContext,
    numbering: &Numbering,
    parts: &mut Vec<String>,
)
    ensures
        texts(final(parts)@) == texts(old(parts)@) + items_parts(
            list.items@,
            list.marker,
            list.start,
            ctx,
            numbering@,
        ),
    decreases list,
{
    let ghost before = texts(parts@);
    assert(before =~= before + items_parts(
        list.items@.take(0),
        list.marker,
        list.start,
        ctx,
        numbering@,
    ));
    for i in 0..list.items.len()
        invariant
            texts(parts@) == before + items_parts(
                list.items@.take(i as int),
                list.marker,
                list.start,
                ctx,
                numbering@,
            ),
    {
        assert(list.items@.take(i + 1).drop_last() =~= list.items@.take(i as int));
        let item = &list.items[i];
        assert(decreases_to!(list => list.items@[i as int]));
        assert(decreases_to!(item => item.blocks));
        let mut inner: Vec<String> = Vec::new();
        cell_blocks_text(&item.blocks, ctx, numbering, &mut inner);
        assert(texts(inner@) =~= blocks_parts(item.blocks@, ctx, numbering@));
        if inner.len() > 0 {
            let number: u64 = list.start.saturating_add(i as u64);
            assert(number == item_number(list.start, i as nat));
            let mut part = render_cell_marker(&item.marker_label, list.marker, number, ctx);
            part.push_str(join(&inner, " ").as_str());
            parts.push(part);
        }
        assert(texts(parts@) =~= before + items_parts(
            list.items@.take(i + 1),
            list.marker,
            list.start,
            ctx,
            numbering@,
        ));
    }
    assert(list.items@.take(list.items@.len() as int) =~= list.items@);
}

fn render_row(row: &Vec<CellSlot>, ctx: InlineContext, numbering: &Numbering) -> (r: Vec<String>)
    ensures
        texts(r@) == row_texts(row@, ctx, numbering@),
    decreases row,
{
    let mut cells: Vec<String> = Vec::new();
    assert(texts(cells@) =~= row_texts(row@.take(0), ctx, numbering@));
    for i in 0..row.len()
        invariant
            texts(cells@) == row_texts(row@.take(i as int), ctx, numbering@),
    {
        assert(row@.take(i + 1).drop_last() =~= row@.take(i as int));
        assert(decreases_to!(row => row@[i as int]));
        let ghost before = texts(cells@);
        let text = match &row[i] {
            CellSlot::Origin(cell) => {
                assert(decreases_to!(row@[i as int] => cell));
                render_cell(cell, ctx, numbering)
            },
            CellSlot::Covered { .. } => String::new(),
        };
        assert(text@ =~= slot_text(row@[i as int], ctx, numbering@));
        cells.push(text);
        assert(texts(cells@) =~= before.push(text@));
    }
    assert(row@.take(row@.len() as int) =~= row@);
    cells
}

fn none_visible(cells: &Vec<String>) -> (b: bool)
    ensures
        b == all_blank(texts(cells@)),
{
    let ghost all = texts(cells@);
    for i in 0..cells.len()
        invariant
            all == texts(cells@),
            forall|j: int| 0 <= j < i ==> (#[trigger] all[j]).len() == 0,
    {
        if chars_of(cells[i].as_str()).len() > 0 {
            assert(all[i as int].len() > 0);
            return false;
        }
        assert(all[i as int] == cells@[i as int]@);
    }
    true
}

fn cell_table_text(
    table: &Table,
    ctx: InlineContext,
    numbering: &Numbering,
    parts: &mut Vec<String>,
)
    ensures
        texts(final(parts)@) == texts(old(parts)@) + rows_parts(table.grid@, ctx, numbering@),
    decreases table,
{
    let ghost before = texts(parts@);
    assert(before =~= before + rows_parts(table.grid@.take(0), ctx, numbering@));
    for i in 0..table.grid.len()
        invariant
            texts(parts@) == before + rows_parts(table.grid@.take(i as int), ctx, numbering@),
    {
        assert(table.grid@.take(i + 1).drop_last() =~= table.grid@.take(i as int));
        assert(decreases_to!(table => table.grid@[i as int]));
        let cells = render_row(&table.grid[i], ctx, numbering);
        if !none_visible(&cells) {
            parts.push(join(&cells, " / "));
        }
        assert(texts(parts@) =~= before + rows_parts(table.grid@.take(i + 1), ctx, numbering@));
    }
    assert(table.grid@.take(table.grid@.len() as int) =~= table.grid@);
}

fn cell_block_text(
    block: &Block,
    ctx: InlineContext,
    numbering: &Numbering,
    parts: &mut Vec<String>,
)
    ensures
        texts(final(parts)@) == texts(old(parts)@) + block_parts(*block, ctx, numbering@),
    decreases block,
{
    let ghost before = texts(parts@);
    match block {
        Block::Heading { level: _, content } => {
            let t = chars_of(render_inlines(content, ctx, numbering).as_str());
            if !blank(t.as_slice()) {
                let mut part = "**".to_owned();
                push_chars(&mut part, trim_of(t.as_slice()));
                part.push_str("**");
                parts.push(part);
            }
        },
        Block::Paragraph(inlines) => {
            let t = render_inlines(inlines, ctx, numbering);
            if !blank(chars_of(t.as_str()).as_slice()) {
                parts.push(t);
            }
        },
        Block::List(list) => cell_list_text(list, ctx, numbering, parts),
        Block::Table(table) => cell_table_text(table, ctx, numbering, parts),
        Block::BlockQuote(blocks) => cell_blocks_text(blocks, ctx, numbering, parts),
        Block::CodeBlock { lang: _, text } => {
            let t = chars_of(text.as_str());
            if !blank(t.as_slice()) {
                let mut part = String::new();
                push_code_span(string_of(trim_of(t.as_slice())).as_str(), ctx, &mut part);
                assert(part@ =~= code_span(trim(text@), ctx));
                parts.push(part);
            }
        },
        Block::Math(tex) => {
            if !blank(chars_of(tex.as_str()).as_slice()) {
                let mut part = String::new();
                push_math_span(tex.as_str(), ctx, &mut part);
                assert(part@ =~= math_span(tex@, ctx));
                parts.push(part);
            }
        },
        Block::Rule => {},
    }
    assert(texts(parts@) =~= before + block_parts(*block, ctx, numbering@));
}

// ---------------------------------------------------------------------------
// GFM pipe tables
// ---------------------------------------------------------------------------
pub open spec fn grid_texts(grid: Seq<Vec<CellSlot>>, ctx: InlineContext, numbers: Numbers) -> Seq<
    Seq<Seq<char>>,
> {
    Seq::new(grid.len(), |r: int| row_texts(grid[r]@, ctx, numbers))
}

/// The rows without trailing blank ones; the first row always stays.
pub open spec fn kept_rows(rows: Seq<Seq<Seq<char>>>) -> Seq<Seq<Seq<char>>>
    decreases rows.len(),
{
    if rows.len() > 1 && all_blank(rows.last()) { kept_rows(rows.drop_last()) } else { rows }
}

/// How many columns a row reaches over.
pub open spec fn used_width(row: Seq<Seq<char>>) -> nat
    decreases row.len(),
{
    if row.len() == 0 {
        0
    } else if row.last().len() > 0 {
        row.len()
    } else {
        used_width(row.drop_last())
    }
}

pub open spec fn table_width(rows: Seq<Seq<Seq<char>>>) -> nat
    decreases rows.len(),
{
    if rows.len() == 0 {
        0
    } else {
        let before = table_width(rows.drop_last());
        let here = used_width(rows.last());
        if here > before { here } else { before }
    }
}

/// The row padded or cut to the width of the table.
pub open spec fn fit_row(row: Seq<Seq<char>>, width: nat) -> Seq<Seq<char>> {
    Seq::new(width, |c: int| if c < row.len() { row[c] } else { seq![] })
}

pub open spec fn pipe_cells(cells: Seq<Seq<char>>) -> Seq<char>
    decreases cells.len(),
{
    if cells.len() == 0 {
        "|"@
    } else {
        pipe_cells(cells.drop_last()) + " "@ + cells.last() + " |"@
    }
}

/// The rows as pipe lines.
pub open spec fn pipe_rows(rows: Seq<Seq<Seq<char>>>, width: nat) -> Seq<Seq<char>> {
    Seq::new(rows.len(), |r: int| pipe_cells(fit_row(rows[r], width)))
}

pub open spec fn delimiter_row(width: nat) -> Seq<char> {
    pipe_cells(Seq::new(width, |c: int| "---"@))
}

/// The lines of a pipe table. GFM tables always carry a delimiter row, so a
/// table without a header row gets an empty one above the data.
pub open spec fn pipe_table(rows: Seq<Seq<Seq<char>>>, header_rows: nat, width: nat) -> Seq<
    Seq<char>,
> {
    if header_rows >= 1 {
        seq![pipe_cells(fit_row(rows[0], width)), delimiter_row(width)] + pipe_rows(
            rows.drop_first(),
            width,
        )
    } else {
        seq![pipe_cells(fit_row(seq![], width)), delimiter_row(width)] + pipe_rows(rows, width)
    }
}

pub open spec fn gfm_table(rows: Seq<Seq<Seq<char>>>, header_rows: nat) -> Option<Seq<char>> {
    let kept = kept_rows(rows);
    let width = table_width(kept);
    if width == 0 { None } else { Some(joined(pipe_table(kept, header_rows, width), "\n"@)) }
}

/// The views of rendered rows.
pub open spec fn rows_view(rows: Seq<Vec<String>>) -> Seq<Seq<Seq<char>>> {
    Seq::new(rows.len(), |r: int| texts(rows[r]@))
}

fn width_of(row: &Vec<String>) -> (n: usize)
    ensures
        n == used_width(texts(row@)),
        n <= row.len(),
{
    let mut n: usize = row.len();
    let ghost all = texts(row@);
    assert(all.take(n as int) =~= all);
    while n > 0 && chars_of(row[n - 1].as_str()).len() == 0
        invariant
            n <= row.len(),
            all == texts(row@),
            used_width(all) == used_width(all.take(n as int)),
        decreases n,
    {
        assert(all.take(n as int).drop_last() =~= all.take(n - 1));
        assert(all.take(n as int).last() == row@[n - 1]@);
        n = n - 1;
    }
    assert(n > 0 ==> all.take(n as int).last() == row@[n - 1]@);
    n
}

/// One line of a pipe table, padded or cut to `width` cells.
pub fn format_row(row: &Vec<String>, width: usize) -> (r: String)
    ensures
        r@ == pipe_cells(fit_row(texts(row@), width as nat)),
{
    let mut out = "|".to_owned();
    let ghost cells = fit_row(texts(row@), width as nat);
    for c in 0..width
        invariant
            cells == fit_row(texts(row@), width as nat),
            out@ == pipe_cells(cells.take(c as int)),
    {
        assert(cells.take(c + 1).drop_last() =~= cells.take(c as int));
        assert(cells.take(c + 1).last() == cells[c as int]);
        out.push_str(" ");
        let ghost before = out@;
        if c < row.len() {
            out.push_str(row[c].as_str());
        }
        assert(out@ =~= before + cells[c as int]);
        out.push_str(" |");
    }
    assert(cells.take(width as int) =~= cells);
    out
}

fn format_delimiter(width: usize) -> (r: String)
    ensures
        r@ == delimiter_row(width as nat),
{
    let mut out = "|".to_owned();
    let ghost cells: Seq<Seq<char>> = Seq::new(width as nat, |c: int| "---"@);
    for c in 0..width
        invariant
            cells == Seq::new(width as nat, |c: int| "---"@),
            out@ == pipe_cells(cells.take(c as int)),
    {
        assert(cells.take(c + 1).drop_last() =~= cells.take(c as int));
        assert(cells.take(c + 1).last() == cells[c as int]);
        out.push_str(" ");
        out.push_str("---");
        out.push_str(" |");
    }
    assert(cells.take(width as int) =~= cells);
    out
}

fn render_rows(table: &Table, numbering: &Numbering) -> (r: Vec<Vec<String>>)
    ensures
        rows_view(r@) == grid_texts(table.grid@, InlineContext::TableCell, numbering@),
{
    let mut rows: Vec<Vec<String>> = Vec::new();
    for i in 0..table.grid.len()
        invariant
            rows@.len() == i,
            forall|r: int|
                0 <= r < i ==> texts((#[trigger] rows@[r])@) == row_texts(
                    table.grid@[r]@,
                    InlineContext::TableCell,
                    numbering@,
                ),
    {
        rows.push(render_row(&table.grid[i], InlineContext::TableCell, numbering));
    }
    assert(rows_view(rows@) =~= grid_texts(table.grid@, InlineContext::TableCell, numbering@));
    rows
}

fn count_kept(rows: &Vec<Vec<String>>) -> (n: usize)
    requires
        rows.len() > 0,
    ensures
        1 <= n <= rows.len(),
        rows_view(rows@).take(n as int) == kept_rows(rows_view(rows@)),
{
    let mut n: usize = rows.len();
    let ghost all = rows_view(rows@);
    assert(all.take(n as int) =~= all);
    while n > 1 && none_visible(&rows[n - 1])
        invariant
            1 <= n <= rows.len(),
            all == rows_view(rows@),
            kept_rows(all) == kept_rows(all.take(n as int)),
        decreases n,
    {
        assert(all.take(n as int).drop_last() =~= all.take(n - 1));
        assert(all.take(n as int).last() == texts(rows@[n - 1]@));
        n = n - 1;
    }
    assert(all.take(n as int).last() == texts(rows@[n - 1]@));
    n
}

fn render_pipe_table(rows: &Vec<Vec<String>>, header_rows: usize) -> (r: Option<String>)
    requires
        rows.len() > 0,
    ensures
        crate::text::opt_text(r) == gfm_table(rows_view(rows@), header_rows as nat),
{
    let kept = count_kept(rows);
    let ghost all = rows_view(rows@).take(kept as int);
    let mut width: usize = 0;
    for i in 0..kept
        invariant
            kept <= rows.len(),
            all == rows_view(rows@).take(kept as int),
            width == table_width(all.take(i as int)),
    {
        assert(all.take(i + 1).drop_last() =~= all.take(i as int));
        assert(all.take(i + 1).last() == texts(rows@[i as int]@));
        let w = width_of(&rows[i]);
        if w > width {
            width = w;
        }
    }
    assert(all.take(kept as int) =~= all);
    if width == 0 {
        return None;
    }
    let first: usize = if header_rows >= 1 { 1 } else { 0 };
    let empty: Vec<String> = Vec::new();
    assert(texts(empty@) =~= seq![]);
    let mut out: Vec<String> = Vec::new();
    if header_rows >= 1 {
        out.push(format_row(&rows[0], width));
        assert(all[0] == texts(rows@[0]@));
    } else {
        out.push(format_row(&empty, width));
    }
    out.push(format_delimiter(width));
    let ghost head = texts(out@);
    let ghost body = all.skip(first as int);
    assert(head =~= head + pipe_rows(body.take(0), width as nat));
    for i in first..kept
        invariant
            first <= 1,
            kept <= rows.len(),
            all == rows_view(rows@).take(kept as int),
            body == all.skip(first as int),
            texts(out@) == head + pipe_rows(body.take(i - first), width as nat),
    {
        assert(body[i - first] == texts(rows@[i as int]@));
        out.push(format_row(&rows[i], width));
        assert(texts(out@) =~= head + pipe_rows(body.take(i + 1 - first), width as nat));
    }
    assert(body.take(kept - first) =~= body);
    assert(all.skip(0) =~= all);
    assert(all.skip(1) =~= all.drop_first());
    assert(texts(out@) =~= pipe_table(all, header_rows as nat, width as nat));
    Some(join(&out, "\n"))
}

// ---------------------------------------------------------------------------
// HTML tables
// ---------------------------------------------------------------------------
/// One character of cell text in HTML.
pub open spec fn html_char(c: char) -> Seq<char> {
    if c == '&' {
        "&amp;"@
    } else if c == '<' {
        "&lt;"@
    } else if c == '>' {
        "&gt;"@
    } else if c == '"' {
        "&quot;"@
    } else {
        seq![c]
    }
}

/// The text escaped for HTML; `<br>` separators stay real tags.
pub open spec fn html_text(s: Seq<char>) -> Seq<char>
    decreases s.len(),
{
    if s.len() == 0 {
        seq![]
    } else if s.len() >= 4 && s.take(4) == "<br>"@ {
        "<br>"@ + html_text(s.skip(4))
    } else {
        html_char(s[0]) + html_text(s.skip(1))
    }
}

pub open spec fn span_attr(name: Seq<char>, span: u64) -> Seq<char> {
    if span > 1 { name + decimal(span as nat) + "\""@ } else { seq![] }
}

pub open spec fn html_slot(slot: CellSlot, tag: Seq<char>, numbers: Numbers) -> Seq<char> {
    match slot {
        CellSlot::Origin(cell) => "<"@ + tag + span_attr(" colspan=\""@, cell.col_span) + span_attr(
            " rowspan=\""@,
            cell.row_span,
        ) + ">"@ + html_text(cell_text(cell, InlineContext::HtmlCell, numbers)) + "</"@ + tag
            + ">"@,
        CellSlot::Covered { row, col } => seq![],
    }
}

/// The cells of a row. Covered positions are skipped: the attributes of the
/// origin account for them.
pub open spec fn html_cells(row: Seq<CellSlot>, tag: Seq<char>, numbers: Numbers) -> Seq<char>
    decreases row.len(),
{
    if row.len() == 0 {
        seq![]
    } else {
        html_cells(row.drop_last(), tag, numbers) + html_slot(row.last(), tag, numbers)
    }
}

pub open spec fn html_rows(grid: Seq<Vec<CellSlot>>, header_rows: nat, numbers: Numbers) -> Seq<
    char,
>
    decreases grid.len(),
{
    if grid.len() == 0 {
        "<table>"@
    } else {
        let tag = if grid.len() - 1 < header_rows { "th"@ } else { "td"@ };
        html_rows(grid.drop_last(), header_rows, numbers) + "\n<tr>"@ + html_cells(
            grid.last()@,
            tag,
            numbers,
        ) + "</tr>"@
    }
}

/// Whether any cell of the row shows anything.
pub open spec fn row_visible(row: Seq<CellSlot>, numbers: Numbers) -> bool {
    !all_blank(row_texts(row, InlineContext::HtmlCell, numbers))
}

pub open spec fn grid_visible(grid: Seq<Vec<CellSlot>>, numbers: Numbers) -> bool {
    exists|r: int| 0 <= r < grid.len() && row_visible(#[trigger] grid[r]@, numbers)
}

pub open spec fn html_table(table: Table, numbers: Numbers) -> Option<Seq<char>> {
    if grid_visible(table.grid@, numbers) {
        Some(html_rows(table.grid@, table.header_rows as nat, numbers) + "\n</table>"@)
    } else {
        None
    }
}

/// Escapes a flattened cell's text for HTML, keeping the `<br>` separators.
pub fn escape_html_cell(text: &str) -> (r: String)
    ensures
        r@ == html_text(text@),
{
    let s = chars_of(text);
    let br = chars_of("<br>");
    proof {
        reveal_strlit("<br>");
    }
    let mut out = String::new();
    let mut i: usize = 0;
    assert(s@.skip(0) =~= s@);
    assert(out@ + html_text(s@) =~= html_text(s@));
    while i < s.len()
        invariant
            i <= s.len(),
            br@ == "<br>"@,
            br@.len() == 4,
            out@ + html_text(s@.skip(i as int)) == html_text(s@),
        decreases s.len() - i,
    {
        let ghost rest = s@.skip(i as int);
        let ghost before = out@;
        assert(occurs_at(s@, br@, i as int) == (rest.len() >= 4 && rest.take(4) == "<br>"@)) by {
            if i + 4 <= s@.len() {
                assert(s@.subrange(i as int, i + 4) =~= rest.take(4));
            }
        }
        if matches_at(s.as_slice(), br.as_slice(), i) {
            out.push_str("<br>");
            assert(rest.skip(4) =~= s@.skip(i + 4));
            i = i + 4;
            assert(out@ + html_text(s@.skip(i as int)) =~= before + ("<br>"@ + html_text(
                s@.skip(i as int),
            )));
        } else {
            let c = s[i];
            if c == '&' {
                out.push_str("&amp;");
            } else if c == '<' {
                out.push_str("&lt;");
            } else if c == '>' {
                out.push_str("&gt;");
            } else if c == '"' {
                out.push_str("&quot;");
            } else {
                out.push(c);
            }
            assert(out@ =~= before + html_char(c));
            assert(rest.skip(1) =~= s@.skip(i + 1));
            i = i + 1;
            assert(out@ + html_text(s@.skip(i as int)) =~= before + (html_char(c) + html_text(
                s@.skip(i as int),
            )));
        }
    }
    assert(s@.skip(i as int) =~= seq![]);
    assert(out@ + html_text(s@.skip(i as int)) =~= out@);
    out
}

fn push_span_attr(out: &mut String, name: &str, span: u64)
    ensures
        final(out)@ == old(out)@ + span_attr(name@, span),
{
    let ghost before = out@;
    if span > 1 {
        out.push_str(name);
        push_decimal(out, span);
        out.push_str("\"");
    }
    assert(out@ =~= before + span_attr(name@, span));
}

/// Appends a cell and says whether it shows anything.
fn push_html_cell(out: &mut String, cell: &Cell, tag: &str, numbering: &Numbering) -> (visible: bool)
    ensures
        final(out)@ == old(out)@ + html_slot(CellSlot::Origin(*cell), tag@, numbering@),
        visible == (cell_text(*cell, InlineContext::HtmlCell, numbering@).len() > 0),
{
    let ghost start = out@;
    let text = render_cell(cell, InlineContext::HtmlCell, numbering);
    let html = escape_html_cell(text.as_str());
    out.push_str("<");
    out.push_str(tag);
    push_span_attr(out, " colspan=\"", cell.col_span);
    push_span_attr(out, " rowspan=\"", cell.row_span);
    out.push_str(">");
    out.push_str(html.as_str());
    out.push_str("</");
    out.push_str(tag);
    out.push_str(">");
    assert(out@ =~= start + html_slot(CellSlot::Origin(*cell), tag@, numbering@));
    chars_of(text.as_str()).len() > 0
}

/// Appends the cells of a row and says whether any of them shows anything.
fn push_html_cells(
    out: &mut String,
    row: &Vec<CellSlot>,
    tag: &str,
    numbering: &Numbering,
) -> (visible: bool)
    ensures
        final(out)@ == old(out)@ + html_cells(row@, tag@, numbering@),
        visible == row_visible(row@, numbering@),
{
    let mut visible = false;
    let ghost before = out@;
    let ghost cells = row_texts(row@, InlineContext::HtmlCell, numbering@);
    proof {
        lemma_row_texts_prefix(row@, InlineContext::HtmlCell, numbering@);
    }
    for i in 0..row.len()
        invariant
            cells == row_texts(row@, InlineContext::HtmlCell, numbering@),
            cells.len() == row@.len(),
            forall|k: int|
                0 <= k < row@.len() ==> #[trigger] cells[k] == slot_text(
                    row@[k],
                    InlineContext::HtmlCell,
                    numbering@,
                ),
            out@ == before + html_cells(row@.take(i as int), tag@, numbering@),
            visible == exists|k: int| 0 <= k < i && (#[trigger] cells[k]).len() > 0,
    {
        assert(row@.take(i + 1).drop_last() =~= row@.take(i as int));
        assert(cells[i as int] == slot_text(row@[i as int], InlineContext::HtmlCell, numbering@));
        let ghost start = out@;
        if let CellSlot::Origin(cell) = &row[i] {
            if push_html_cell(out, cell, tag, numbering) {
                visible = true;
            }
        }
        assert(out@ =~= start + html_slot(row@[i as int], tag@, numbering@));
        assert(out@ =~= before + html_cells(row@.take(i + 1), tag@, numbering@));
    }
    assert(row@.take(row@.len() as int) =~= row@);
    visible
}

proof fn lemma_row_texts_prefix(row: Seq<CellSlot>, ctx: InlineContext, numbers: Numbers)
    ensures
        row_texts(row, ctx, numbers).len() == row.len(),
        forall|k: int|
            0 <= k < row.len() ==> #[trigger] row_texts(row, ctx, numbers)[k] == slot_text(
                row[k],
                ctx,
                numbers,
            ),
    decreases row.len(),
{
    if row.len() > 0 {
        lemma_row_texts_prefix(row.drop_last(), ctx, numbers);
        let before = row_texts(row.drop_last(), ctx, numbers);
        let all = row_texts(row, ctx, numbers);
        assert forall|k: int| 0 <= k < row.len() implies #[trigger] all[k] == slot_text(
            row[k],
            ctx,
            numbers,
        ) by {
            if k < row.len() - 1 {
                assert(all[k] == before[k]);
                assert(row.drop_last()[k] == row[k]);
            }
        }
    }
}

/// HTML for tables carrying merges.
fn render_table_html(table: &Table, numbering: &Numbering) -> (r: Option<String>)
    ensures
        crate::text::opt_text(r) == html_table(*table, numbering@),
{
    let mut out = "<table>".to_owned();
    let mut visible = false;
    for i in 0..table.grid.len()
        invariant
            out@ == html_rows(
                table.grid@.take(i as int),
                table.header_rows as nat,
                numbering@,
            ),
            visible == exists|r: int|
                0 <= r < i && row_visible(#[trigger] table.grid@[r]@, numbering@),
    {
        assert(table.grid@.take(i + 1).drop_last() =~= table.grid@.take(i as int));
        let tag = if i < table.header_rows { "th" } else { "td" };
        out.push_str("\n<tr>");
        if push_html_cells(&mut out, &table.grid[i], tag, numbering) {
            visible = true;
        }
        out.push_str("</tr>");
    }
    assert(table.grid@.take(table.grid@.len() as int) =~= table.grid@);
    if !visible {
        return None;
    }
    out.push_str("\n</table>");
    Some(out)
}

// ---------------------------------------------------------------------------
// Tables
// ---------------------------------------------------------------------------
/// Any grid position is swallowed by a span.
pub open spec fn spans(table: Table) -> bool {
    exists|r: int, c: int|
        0 <= r < table.grid@.len() && 0 <= c < table.grid@[r]@.len()
            && (#[trigger] table.grid@[r]@[c]) is Covered
}

/// The Markdown of a table; nothing for a table that shows nothing.
pub open spec fn table_text(table: Table, numbers: Numbers) -> Option<Seq<char>> {
    if table.grid@.len() == 0 {
        None
    } else if spans(table) {
        html_table(table, numbers)
    } else {
        gfm_table(
            grid_texts(table.grid@, InlineContext::TableCell, numbers),
            table.header_rows as nat,
        )
    }
}

/// Tables with a span cannot be represented in GFM.
pub fn has_spans(table: &Table) -> (b: bool)
    ensures
        b == spans(*table),
{
    for r in 0..table.grid.len()
        invariant
            forall|i: int, c: int|
                0 <= i < r && 0 <= c < table.grid@[i]@.len() ==> !((
                #[trigger] table.grid@[i]@[c]) is Covered),
    {
        let row = &table.grid[r];
        for c in 0..row.len()
            invariant
                r < table.grid@.len(),
                row@ == table.grid@[r as int]@,
                forall|k: int| 0 <= k < c ==> !((#[trigger] row@[k]) is Covered),
        {
            if matches!(row[c], CellSlot::Covered { .. }) {
                assert(table.grid@[r as int]@[c as int] is Covered);
                return true;
            }
        }
    }
    false
}

/// Renders a table. Interior empty rows render as blank rows: they carry the
/// source's row coordinates.
pub fn render_table(table: &Table, numbering: &Numbering) -> (r: Option<String>)
    ensures
        crate::text::opt_text(r) == table_text(*table, numbering@),
{
    if table.grid.len() == 0 {
        return None;
    }
    if has_spans(table) {
        return render_table_html(table, numbering);
    }
    let rows = render_rows(table, numbering);
    assert(rows_view(rows@).len() == table.grid@.len());
    render_pipe_table(&rows, table.header_rows)
}

} // verus!
