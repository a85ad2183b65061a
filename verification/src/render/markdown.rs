//! GitHub-Flavored Markdown serializer for the document model.

use crate::ocr::image_pass::{annotation, ocr_annotation, OcrOutcome};
use crate::render::escape::{
    backtick_fence, escape_marker_label, escaped, fence_len, InlineContext,
};
use crate::render::inline::{
    dollars_escaped, escape_dollars, inlines_text, number_of, render_inlines, trailing_backslashes,
    Numbering, Numbers,
};
use crate::render::model::{
    block_blank, block_is_blank, marker_text, AssetId, Block, CellSlot, Document, ImageSource, Inline,
    List, ListItem, MarkerKind, Note, Table, TableKind,
};
use crate::render::table::{item_number, render_table, table_text};
use crate::text::{
    blank, chars_of, decimal, is_blank, join, joined, lines, lines_of, opt_text, push_chars,
    push_decimal, push_run, run, same_text, string_of, texts, trim, trim_end, trim_end_char,
    trim_end_char_of, trim_end_of, trim_of, trim_start, trim_start_of,
};
use std::collections::{HashMap, HashSet};
use vstd::prelude::*;
use vstd::slice::slice_subrange;

verus! {

broadcast use {crate::text::lemma_texts_push, vstd::std_specs::hash::group_hash_axioms};

// ---------------------------------------------------------------------------
// Paragraphs
// ---------------------------------------------------------------------------
/// The line ends with a backslash that breaks the line.
pub open spec fn hard_break(s: Seq<char>) -> bool {
    trailing_backslashes(s) % 2 == 1
}

/// A paragraph line without the white space around it; empty when only
/// hard-break backslashes are left.
pub open spec fn paragraph_line(line: Seq<char>) -> Seq<char> {
    let start = trim_start(line);
    let t = if hard_break(start) { start } else { trim_end(start) };
    if is_blank(trim_end_char(t, '\\')) { seq![] } else { t }
}

pub open spec fn paragraph_lines(all: Seq<Seq<char>>) -> Seq<Seq<char>> {
    Seq::new(all.len(), |i: int| paragraph_line(all[i]))
}

pub open spec fn drop_leading_empty(all: Seq<Seq<char>>) -> Seq<Seq<char>>
    decreases all.len(),
{
    if all.len() > 0 && all.first().len() == 0 { drop_leading_empty(all.drop_first()) } else { all }
}

pub open spec fn drop_trailing_empty(all: Seq<Seq<char>>) -> Seq<Seq<char>>
    decreases all.len(),
{
    if all.len() > 0 && all.last().len() == 0 { drop_trailing_empty(all.drop_last()) } else { all }
}

/// A paragraph without blank lines at its edges and without a final hard break.
pub open spec fn paragraph_text(text: Seq<char>) -> Seq<char> {
    let core = drop_trailing_empty(drop_leading_empty(paragraph_lines(lines(text))));
    let out = joined(core, "\n"@);
    if hard_break(out) { trim_end(out.drop_last()) } else { out }
}

pub fn ends_with_hard_break(line: &[char]) -> (b: bool)
    ensures
        b == hard_break(line@),
{
    let mut n: usize = line.len();
    let mut odd = false;
    let ghost mut count: nat = 0;
    assert(line@.take(n as int) =~= line@);
    while n > 0 && line[n - 1] == '\\'
        invariant
            n <= line.len(),
            trailing_backslashes(line@) == count + trailing_backslashes(line@.take(n as int)),
            odd == (count % 2 == 1),
        decreases n,
    {
        assert(line@.take(n as int).drop_last() =~= line@.take(n - 1));
        n = n - 1;
        odd = !odd;
        proof {
            count = count + 1;
        }
    }
    odd
}

fn trim_paragraph_line(line: &str) -> (r: String)
    ensures
        r@ == paragraph_line(line@),
{
    let chars = chars_of(line);
    let start = trim_start_of(chars.as_slice());
    let t = if ends_with_hard_break(start) { start } else { trim_end_of(start) };
    if blank(trim_end_char_of(t, '\\')) {
        let out = String::new();
        assert(out@ =~= seq![]);
        out
    } else {
        string_of(t)
    }
}

/// Trims paragraph lines, keeping hard-break backslashes intact.
pub fn trim_paragraph(text: &str) -> (r: String)
    ensures
        r@ == paragraph_text(text@),
{
    let source = lines_of(chars_of(text).as_slice());
    let ghost all = paragraph_lines(lines(text@));
    let mut parts: Vec<String> = Vec::new();
    assert(texts(parts@) =~= all.take(0));
    for i in 0..source.len()
        invariant
            texts(source@) == lines(text@),
            all == paragraph_lines(lines(text@)),
            texts(parts@) == all.take(i as int),
    {
        assert(lines(text@)[i as int] == source@[i as int]@);
        parts.push(trim_paragraph_line(source[i].as_str()));
        assert(texts(parts@) =~= all.take(i + 1));
    }
    assert(all.take(all.len() as int) =~= all);
    let mut start: usize = 0;
    assert(all.skip(0) =~= all);
    while start < parts.len() && chars_of(parts[start].as_str()).len() == 0
        invariant
            start <= parts.len(),
            all == texts(parts@),
            drop_leading_empty(all) == drop_leading_empty(all.skip(start as int)),
        decreases parts.len() - start,
    {
        assert(all.skip(start as int).first() == parts@[start as int]@);
        assert(all.skip(start as int).drop_first() =~= all.skip(start + 1));
        start = start + 1;
    }
    let ghost tail = all.skip(start as int);
    assert(start < parts.len() ==> tail.first() == parts@[start as int]@);
    assert(drop_leading_empty(all) == tail);
    let mut end: usize = parts.len();
    assert(tail.take(end - start) =~= tail);
    while end > start && chars_of(parts[end - 1].as_str()).len() == 0
        invariant
            start <= end <= parts.len(),
            all == texts(parts@),
            tail == all.skip(start as int),
            drop_trailing_empty(tail) == drop_trailing_empty(tail.take(end - start)),
        decreases end,
    {
        assert(tail.take(end - start).last() == parts@[end - 1]@);
        assert(tail.take(end - start).drop_last() =~= tail.take(end - 1 - start));
        end = end - 1;
    }
    assert(end > start ==> tail.take(end - start).last() == parts@[end - 1]@);
    let ghost core = tail.take(end - start);
    let mut kept: Vec<String> = Vec::new();
    assert(texts(kept@) =~= core.take(0));
    for i in start..end
        invariant
            start <= end <= parts.len(),
            all == texts(parts@),
            tail == all.skip(start as int),
            core == tail.take(end - start),
            texts(kept@) == core.take(i - start),
    {
        assert(core[i - start] == parts@[i as int]@);
        kept.push(parts[i].clone());
        assert(texts(kept@) =~= core.take(i + 1 - start));
    }
    assert(core.take(end - start) =~= core);
    let out = join(&kept, "\n");
    let chars = chars_of(out.as_str());
    if ends_with_hard_break(chars.as_slice()) {
        assert(chars.len() > 0);
        let cut = slice_subrange(chars.as_slice(), 0, chars.len() - 1);
        assert(cut@ =~= out@.drop_last());
        string_of(trim_end_of(cut))
    } else {
        out
    }
}

// ---------------------------------------------------------------------------
// Hanging lines
// ---------------------------------------------------------------------------
/// The first `n` lines behind `prefix`, each further visible line indented.
pub open spec fn hang_upto(prefix: Seq<char>, indent: Seq<char>, all: Seq<Seq<char>>, n: nat) -> Seq<
    char,
>
    decreases n,
{
    if n == 0 {
        prefix
    } else if n == 1 {
        prefix + all[0]
    } else {
        let before = hang_upto(prefix, indent, all, (n - 1) as nat) + "\n"@;
        if all[n - 1].len() == 0 { before } else { before + indent + all[n - 1] }
    }
}

pub open spec fn hang(prefix: Seq<char>, indent: Seq<char>, all: Seq<Seq<char>>) -> Seq<char> {
    hang_upto(prefix, indent, all, all.len())
}

pub fn hang_lines(prefix: &str, indent: &str, all: &Vec<String>) -> (r: String)
    ensures
        r@ == hang(prefix@, indent@, texts(all@)),
{
    let mut out = prefix.to_owned();
    let ghost source = texts(all@);
    for i in 0..all.len()
        invariant
            source == texts(all@),
            out@ == hang_upto(prefix@, indent@, source, i as nat),
    {
        assert(source[i as int] == all@[i as int]@);
        if i > 0 {
            out.push_str("\n");
            if chars_of(all[i].as_str()).len() > 0 {
                out.push_str(indent);
                out.push_str(all[i].as_str());
            }
        } else {
            out.push_str(all[i].as_str());
        }
    }
    out
}

// ---------------------------------------------------------------------------
// Blocks
// ---------------------------------------------------------------------------
/// The marker of a list item. GFM has decimal ordered lists only, so other
/// numberings render as bullets carrying the source marker as literal text.
pub open spec fn item_marker(label: Option<String>, kind: MarkerKind, number: u64) -> Seq<char> {
    match label {
        Some(l) => "- "@ + escaped(l@, InlineContext::Block, true) + " "@,
        None => match kind {
            MarkerKind::Bullet => "- "@,
            MarkerKind::Decimal => decimal(number as nat) + ". "@,
            _ => "- "@ + marker_text(kind, number) + " "@,
        },
    }
}

pub open spec fn has_inner_blank(all: Seq<Seq<char>>) -> bool {
    exists|i: int| 1 <= i < all.len() && (#[trigger] all[i]).len() == 0
}

pub open spec fn heading_level(level: u8) -> nat {
    if level < 1 {
        1
    } else if level > 6 {
        6
    } else {
        level as nat
    }
}

pub open spec fn quote(all: Seq<Seq<char>>) -> Seq<Seq<char>> {
    Seq::new(all.len(), |i: int| if all[i].len() == 0 { ">"@ } else { "> "@ + all[i] })
}

pub open spec fn some_text(s: Seq<char>) -> Option<Seq<char>> {
    if s.len() == 0 { None } else { Some(s) }
}

pub open spec fn opt_chars(s: Option<String>) -> Seq<char> {
    match s {
        Some(t) => t@,
        None => seq![],
    }
}

/// The Markdown of one block; nothing for a block that shows nothing.
pub open spec fn block_text(block: Block, numbers: Numbers) -> Option<Seq<char>>
    decreases block,
{
    match block {
        Block::Heading { level, content } => {
            let t = trim(inlines_text(content@, InlineContext::Heading, numbers, true));
            if t.len() == 0 { None } else { Some(run('#', heading_level(level)) + " "@ + t) }
        },
        Block::Paragraph(inlines) => some_text(
            paragraph_text(inlines_text(inlines@, InlineContext::Block, numbers, true)),
        ),
        Block::List(list) => if list.items@.len() == 0 {
            None
        } else {
            Some(
                joined(
                    items_text(list.items@, list.marker, list.start, numbers),
                    if loose(list.items@, numbers) { "\n\n"@ } else { "\n"@ },
                ),
            )
        },
        Block::Table(table) => if table.kind == TableKind::Layout && table.single_cell() {
            match table.grid@[0]@[0] {
                CellSlot::Origin(cell) => some_text(joined(rendered(cell.blocks@, numbers), "\n\n"@)),
                CellSlot::Covered { row, col } => None,
            }
        } else {
            table_text(table, numbers)
        },
        Block::BlockQuote(blocks) => {
            let inner = joined(rendered(blocks@, numbers), "\n\n"@);
            if inner.len() == 0 { None } else { Some(joined(quote(lines(inner)), "\n"@)) }
        },
        Block::CodeBlock { lang, text } => {
            let fence = run('`', fence_len(text@, 3));
            Some(
                fence + opt_chars(lang) + "\n"@ + trim_end_char(text@, '\n') + "\n"@ + fence,
            )
        },
        Block::Rule => Some("---"@),
        Block::Math(tex) => if is_blank(tex@) {
            None
        } else {
            Some("$$\n"@ + dollars_escaped(trim(tex@)) + "\n$$"@)
        },
    }
}

/// The rendered blocks that show anything.
pub open spec fn rendered(blocks: Seq<Block>, numbers: Numbers) -> Seq<Seq<char>>
    decreases blocks,
{
    if blocks.len() == 0 {
        seq![]
    } else {
        let before = rendered(blocks.drop_last(), numbers);
        match block_text(blocks.last(), numbers) {
            Some(t) => before.push(t),
            None => before,
        }
    }
}

/// The rendered items, each with its marker and its further lines indented.
pub open spec fn items_text(items: Seq<ListItem>, kind: MarkerKind, start: u64, numbers: Numbers) -> Seq<
    Seq<char>,
>
    decreases items,
{
    if items.len() == 0 {
        seq![]
    } else {
        let before = items_text(items.drop_last(), kind, start, numbers);
        let item = items.last();
        let marker = item_marker(
            item.marker_label,
            kind,
            item_number(start, (items.len() - 1) as nat),
        );
        let body = lines(joined(rendered(item.blocks@, numbers), "\n\n"@));
        before.push(hang(marker, run(' ', marker.len()), body))
    }
}

/// A blank line must separate the items: one of them holds more than one block
/// or a blank line.
pub open spec fn loose(items: Seq<ListItem>, numbers: Numbers) -> bool
    decreases items,
{
    items.len() > 0 && (loose(items.drop_last(), numbers) || items.last().blocks@.len() > 1
        || has_inner_blank(lines(joined(rendered(items.last().blocks@, numbers), "\n\n"@))))
}

/// Blocks with blank lines between them.
pub open spec fn blocks_text(blocks: Seq<Block>, numbers: Numbers) -> Seq<char> {
    joined(rendered(blocks, numbers), "\n\n"@)
}

fn render_item_marker(label: &Option<String>, kind: MarkerKind, number: u64) -> (r: String)
    ensures
        r@ == item_marker(*label, kind, number),
{
    let mut out = String::new();
    match label {
        Some(l) => {
            out.push_str("- ");
            out.push_str(escape_marker_label(l.as_str(), InlineContext::Block).as_str());
            out.push_str(" ");
        },
        None => match kind {
            MarkerKind::Bullet => out.push_str("- "),
            MarkerKind::Decimal => {
                push_decimal(&mut out, number);
                out.push_str(". ");
            },
            _ => {
                out.push_str("- ");
                out.push_str(kind.label(number).as_str());
                out.push_str(" ");
            },
        },
    }
    assert(out@ =~= item_marker(*label, kind, number));
    out
}

fn any_inner_blank(all: &Vec<String>) -> (b: bool)
    ensures
        b == has_inner_blank(texts(all@)),
{
    let ghost source = texts(all@);
    let mut i: usize = 1;
    while i < all.len()
        invariant
            1 <= i,
            source == texts(all@),
            forall|j: int| 1 <= j < i && j < source.len() ==> (#[trigger] source[j]).len() > 0,
        decreases all.len() - i,
    {
        assert(source[i as int] == all@[i as int]@);
        if chars_of(all[i].as_str()).len() == 0 {
            return true;
        }
        i = i + 1;
    }
    false
}

fn render_list(list: &List, numbering: &Numbering) -> (r: Option<String>)
    ensures
        opt_text(r) == block_text(Block::List(*list), numbering@),
    decreases list,
{
    if list.items.len() == 0 {
        return None;
    }
    let mut items: Vec<String> = Vec::new();
    let mut is_loose = false;
    assert(texts(items@) =~= items_text(
        list.items@.take(0),
        list.marker,
        list.start,
        numbering@,
    ));
    for i in 0..list.items.len()
        invariant
            texts(items@) == items_text(
                list.items@.take(i as int),
                list.marker,
                list.start,
                numbering@,
            ),
            is_loose == loose(list.items@.take(i as int), numbering@),
    {
        assert(list.items@.take(i + 1).drop_last() =~= list.items@.take(i as int));
        let item = &list.items[i];
        assert(decreases_to!(list => list.items@[i as int]));
        assert(decreases_to!(item => item.blocks));
        let number: u64 = list.start.saturating_add(i as u64);
        assert(number == item_number(list.start, i as nat));
        let marker = render_item_marker(&item.marker_label, list.marker, number);
        let mut indent = String::new();
        push_run(&mut indent, ' ', chars_of(marker.as_str()).len());
        assert(indent@ =~= run(' ', marker@.len()));
        let body = render_blocks(&item.blocks, numbering);
        let body_lines = lines_of(chars_of(body.as_str()).as_slice());
        if item.blocks.len() > 1 || any_inner_blank(&body_lines) {
            is_loose = true;
        }
        items.push(hang_lines(marker.as_str(), indent.as_str(), &body_lines));
    }
    assert(list.items@.take(list.items@.len() as int) =~= list.items@);
    let sep = if is_loose { "\n\n" } else { "\n" };
    Some(join(&items, sep))
}

fn nonempty(s: String) -> (r: Option<String>)
    ensures
        opt_text(r) == some_text(s@),
{
    if chars_of(s.as_str()).len() == 0 { None } else { Some(s) }
}

fn render_quote(content: &str) -> (r: Option<String>)
    ensures
        opt_text(r) == if content@.len() == 0 {
            None
        } else {
            Some(joined(quote(lines(content@)), "\n"@))
        },
{
    let inner = chars_of(content);
    if inner.len() == 0 {
        return None;
    }
    let all = lines_of(inner.as_slice());
    let ghost source = lines(inner@);
    let mut quoted: Vec<String> = Vec::new();
    assert(texts(quoted@) =~= quote(source).take(0));
    for i in 0..all.len()
        invariant
            texts(all@) == source,
            texts(quoted@) == quote(source).take(i as int),
    {
        assert(source[i as int] == all@[i as int]@);
        let mut line = String::new();
        if chars_of(all[i].as_str()).len() == 0 {
            line.push_str(">");
        } else {
            line.push_str("> ");
            line.push_str(all[i].as_str());
        }
        assert(line@ =~= quote(source)[i as int]);
        quoted.push(line);
        assert(texts(quoted@) =~= quote(source).take(i + 1));
    }
    assert(quote(source).take(source.len() as int) =~= quote(source));
    Some(join(&quoted, "\n"))
}

fn render_code_block(lang: &Option<String>, text: &str) -> (r: String)
    ensures
        r@ == run('`', fence_len(text@, 3)) + opt_chars(*lang) + "\n"@ + trim_end_char(text@, '\n')
            + "\n"@ + run('`', fence_len(text@, 3)),
{
    let fence = backtick_fence(text, 3);
    let mut out = fence.clone();
    if let Some(l) = lang {
        out.push_str(l.as_str());
    }
    assert(out@ =~= fence@ + opt_chars(*lang));
    out.push_str("\n");
    let chars = chars_of(text);
    push_chars(&mut out, trim_end_char_of(chars.as_slice(), '\n'));
    out.push_str("\n");
    out.push_str(fence.as_str());
    out
}

fn render_heading(level: u8, content: &Vec<Inline>, numbering: &Numbering) -> (r: Option<String>)
    ensures
        opt_text(r) == ({
            let t = trim(inlines_text(content@, InlineContext::Heading, numbering@, true));
            if t.len() == 0 { None } else { Some(run('#', heading_level(level)) + " "@ + t) }
        }),
{
    let text = chars_of(render_inlines(content, InlineContext::Heading, numbering).as_str());
    let t = trim_of(text.as_slice());
    if t.len() == 0 {
        return None;
    }
    let n: u8 = if level < 1 {
        1
    } else if level > 6 {
        6
    } else {
        level
    };
    let mut out = String::new();
    push_run(&mut out, '#', n as usize);
    out.push_str(" ");
    push_chars(&mut out, t);
    assert(out@ =~= run('#', heading_level(level)) + " "@ + t@);
    Some(out)
}

fn render_math(tex: &str) -> (r: Option<String>)
    ensures
        opt_text(r) == if is_blank(tex@) {
            None
        } else {
            Some("$$\n"@ + dollars_escaped(trim(tex@)) + "\n$$"@)
        },
{
    let chars = chars_of(tex);
    if blank(chars.as_slice()) {
        return None;
    }
    let mut out = "$$\n".to_owned();
    push_chars(&mut out, escape_dollars(trim_of(chars.as_slice())).as_slice());
    out.push_str("\n$$");
    Some(out)
}

/// Renders one block.
pub fn render_block(block: &Block, numbering: &Numbering) -> (r: Option<String>)
    ensures
        opt_text(r) == block_text(*block, numbering@),
    decreases block,
{
    match block {
        Block::Heading { level, content } => render_heading(*level, content, numbering),
        Block::Paragraph(inlines) => {
            let text = render_inlines(inlines, InlineContext::Block, numbering);
            nonempty(trim_paragraph(text.as_str()))
        },
        Block::List(list) => render_list(list, numbering),
        Block::Table(table) => {
            // Trivial layout tables are scaffolding; their content renders directly.
            if table.kind == TableKind::Layout && table.is_single_cell() {
                match &table.grid[0][0] {
                    CellSlot::Origin(cell) => nonempty(render_blocks(&cell.blocks, numbering)),
                    CellSlot::Covered { .. } => None,
                }
            } else {
                render_table(table, numbering)
            }
        },
        Block::BlockQuote(blocks) => render_quote(render_blocks(blocks, numbering).as_str()),
        Block::CodeBlock { lang, text } => Some(render_code_block(lang, text.as_str())),
        Block::Rule => Some("---".to_owned()),
        Block::Math(tex) => render_math(tex.as_str()),
    }
}

/// Renders blocks with blank lines between them.
pub fn render_blocks(blocks: &Vec<Block>, numbering: &Numbering) -> (r: String)
    ensures
        r@ == blocks_text(blocks@, numbering@),
    decreases blocks,
{
    let mut parts: Vec<String> = Vec::new();
    assert(texts(parts@) =~= rendered(blocks@.take(0), numbering@));
    for i in 0..blocks.len()
        invariant
            texts(parts@) == rendered(blocks@.take(i as int), numbering@),
    {
        assert(blocks@.take(i + 1).drop_last() =~= blocks@.take(i as int));
        assert(decreases_to!(blocks => blocks@[i as int]));
        if let Some(text) = render_block(&blocks[i], numbering) {
            parts.push(text);
        }
    }
    assert(blocks@.take(blocks@.len() as int) =~= blocks@);
    join(&parts, "\n\n")
}

// ---------------------------------------------------------------------------
// Notes
// ---------------------------------------------------------------------------
pub open spec fn note_blank(note: Note) -> bool {
    forall|i: int| 0 <= i < note.blocks@.len() ==> block_blank(#[trigger] note.blocks@[i])
}

/// The first note with this id that shows anything.
pub open spec fn find_note(notes: Seq<Note>, id: Seq<char>) -> Option<Note>
    decreases notes.len(),
{
    if notes.len() == 0 {
        None
    } else if notes.first().id@ == id && !note_blank(notes.first()) {
        Some(notes.first())
    } else {
        find_note(notes.drop_first(), id)
    }
}

/// The ids that are referenced, in the order of their first reference. A note's
/// own references follow its first reference. `depth` bounds the nesting of
/// notes inside notes; a chain of new notes is never longer than the list.
pub open spec fn refs_inline(
    inline: Inline,
    notes: Seq<Note>,
    order: Seq<Seq<char>>,
    depth: nat,
) -> Seq<Seq<char>>
    decreases depth, 0int, inline,
{
    match inline {
        Inline::NoteRef(id) => match find_note(notes, id@) {
            Some(note) => if order.contains(id@) {
                order
            } else if depth == 0 {
                order.push(id@)
            } else {
                refs_blocks(note.blocks@, notes, order.push(id@), (depth - 1) as nat)
            },
            None => order,
        },
        Inline::Link { content, target } => refs_inlines(content@, notes, order, depth),
        _ => order,
    }
}

pub open spec fn refs_inlines(
    inlines: Seq<Inline>,
    notes: Seq<Note>,
    order: Seq<Seq<char>>,
    depth: nat,
) -> Seq<Seq<char>>
    decreases depth, 0int, inlines,
{
    if inlines.len() == 0 {
        order
    } else {
        refs_inline(
            inlines.last(),
            notes,
            refs_inlines(inlines.drop_last(), notes, order, depth),
            depth,
        )
    }
}

pub open spec fn refs_block(
    block: Block,
    notes: Seq<Note>,
    order: Seq<Seq<char>>,
    depth: nat,
) -> Seq<Seq<char>>
    decreases depth, 1int, block,
{
    match block {
        Block::Paragraph(inlines) => refs_inlines(inlines@, notes, order, depth),
        Block::Heading { level, content } => refs_inlines(content@, notes, order, depth),
        Block::List(list) => refs_items(list.items@, notes, order, depth),
        Block::Table(table) => refs_grid(table.grid@, notes, order, depth),
        Block::BlockQuote(blocks) => refs_blocks(blocks@, notes, order, depth),
        _ => order,
    }
}

pub open spec fn refs_blocks(
    blocks: Seq<Block>,
    notes: Seq<Note>,
    order: Seq<Seq<char>>,
    depth: nat,
) -> Seq<Seq<char>>
    decreases depth, 1int, blocks,
{
    if blocks.len() == 0 {
        order
    } else {
        refs_block(
            blocks.last(),
            notes,
            refs_blocks(blocks.drop_last(), notes, order, depth),
            depth,
        )
    }
}

pub open spec fn refs_items(
    items: Seq<ListItem>,
    notes: Seq<Note>,
    order: Seq<Seq<char>>,
    depth: nat,
) -> Seq<Seq<char>>
    decreases depth, 1int, items,
{
    if items.len() == 0 {
        order
    } else {
        refs_blocks(
            items.last().blocks@,
            notes,
            refs_items(items.drop_last(), notes, order, depth),
            depth,
        )
    }
}

pub open spec fn refs_slot(
    slot: CellSlot,
    notes: Seq<Note>,
    order: Seq<Seq<char>>,
    depth: nat,
) -> Seq<Seq<char>>
    decreases depth, 1int, slot,
{
    match slot {
        CellSlot::Origin(cell) => refs_blocks(cell.blocks@, notes, order, depth),
        CellSlot::Covered { row, col } => order,
    }
}

pub open spec fn refs_row(
    row: Seq<CellSlot>,
    notes: Seq<Note>,
    order: Seq<Seq<char>>,
    depth: nat,
) -> Seq<Seq<char>>
    decreases depth, 1int, row,
{
    if row.len() == 0 {
        order
    } else {
        refs_slot(row.last(), notes, refs_row(row.drop_last(), notes, order, depth), depth)
    }
}

pub open spec fn refs_grid(
    grid: Seq<Vec<CellSlot>>,
    notes: Seq<Note>,
    order: Seq<Seq<char>>,
    depth: nat,
) -> Seq<Seq<char>>
    decreases depth, 1int, grid,
{
    if grid.len() == 0 {
        order
    } else {
        refs_row(grid.last()@, notes, refs_grid(grid.drop_last(), notes, order, depth), depth)
    }
}

/// `order` followed by the visible notes that are not in it.
pub open spec fn add_unreferenced(all: Seq<Note>, some: Seq<Note>, order: Seq<Seq<char>>) -> Seq<
    Seq<char>,
>
    decreases some.len(),
{
    if some.len() == 0 {
        order
    } else {
        let before = add_unreferenced(all, some.drop_last(), order);
        let id = some.last().id@;
        if find_note(all, id) is Some && !before.contains(id) { before.push(id) } else { before }
    }
}

/// The note ids in the order of their numbers: first-reference order, then the
/// unreferenced ones.
pub open spec fn note_order(doc: Document) -> Seq<Seq<char>> {
    let notes = doc.notes@;
    add_unreferenced(notes, notes, refs_blocks(doc.blocks@, notes, seq![], notes.len()))
}

fn is_blank_note(note: &Note) -> (b: bool)
    ensures
        b == note_blank(*note),
{
    for i in 0..note.blocks.len()
        invariant
            forall|j: int| 0 <= j < i ==> block_blank(#[trigger] note.blocks@[j]),
    {
        if !block_is_blank(&note.blocks[i]) {
            return false;
        }
    }
    true
}

fn find_visible_note<'a>(notes: &'a Vec<Note>, id: &str) -> (r: Option<&'a Note>)
    ensures
        match r {
            Some(note) => find_note(notes@, id@) == Some(*note),
            None => find_note(notes@, id@) is None,
        },
{
    assert(notes@.skip(0) =~= notes@);
    for i in 0..notes.len()
        invariant
            find_note(notes@, id@) == find_note(notes@.skip(i as int), id@),
    {
        assert(notes@.skip(i as int).drop_first() =~= notes@.skip(i + 1));
        if same_text(notes[i].id.as_str(), id) && !is_blank_note(&notes[i]) {
            return Some(&notes[i]);
        }
    }
    None
}

fn has_text(order: &Vec<String>, id: &str) -> (b: bool)
    ensures
        b == texts(order@).contains(id@),
{
    let ghost all = texts(order@);
    for i in 0..order.len()
        invariant
            all == texts(order@),
            forall|j: int| 0 <= j < i ==> #[trigger] all[j] != id@,
    {
        assert(all[i as int] == order@[i as int]@);
        if same_text(order[i].as_str(), id) {
            return true;
        }
    }
    false
}

fn collect_inline_refs(inline: &Inline, notes: &Vec<Note>, order: &mut Vec<String>, depth: usize)
    ensures
        texts(final(order)@) == refs_inline(*inline, notes@, texts(old(order)@), depth as nat),
    decreases depth, 0int, inline,
{
    match inline {
        Inline::NoteRef(id) => {
            if let Some(note) = find_visible_note(notes, id.as_str()) {
                if !has_text(order, id.as_str()) {
                    order.push(id.clone());
                    if depth > 0 {
                        collect_note_refs(&note.blocks, notes, order, depth - 1);
                    }
                }
            }
        },
        Inline::Link { content, target: _ } => walk_inlines(content, notes, order, depth),
        _ => {},
    }
}

fn walk_inlines(inlines: &Vec<Inline>, notes: &Vec<Note>, order: &mut Vec<String>, depth: usize)
    ensures
        texts(final(order)@) == refs_inlines(inlines@, notes@, texts(old(order)@), depth as nat),
    decreases depth, 0int, inlines,
{
    let ghost before = texts(order@);
    for i in 0..inlines.len()
        invariant
            texts(order@) == refs_inlines(
                inlines@.take(i as int),
                notes@,
                before,
                depth as nat,
            ),
    {
        assert(inlines@.take(i + 1).drop_last() =~= inlines@.take(i as int));
        assert(decreases_to!(inlines => inlines@[i as int]));
        collect_inline_refs(&inlines[i], notes, order, depth);
    }
    assert(inlines@.take(inlines@.len() as int) =~= inlines@);
}

fn collect_block_refs(block: &Block, notes: &Vec<Note>, order: &mut Vec<String>, depth: usize)
    ensures
        texts(final(order)@) == refs_block(*block, notes@, texts(old(order)@), depth as nat),
    decreases depth, 1int, block,
{
    match block {
        Block::Paragraph(inlines) => walk_inlines(inlines, notes, order, depth),
        Block::Heading { level: _, content } => walk_inlines(content, notes, order, depth),
        Block::List(list) => collect_list_refs(list, notes, order, depth),
        Block::Table(table) => collect_table_refs(table, notes, order, depth),
        Block::BlockQuote(blocks) => collect_note_refs(blocks, notes, order, depth),
        _ => {},
    }
}

fn collect_list_refs(list: &List, notes: &Vec<Note>, order: &mut Vec<String>, depth: usize)
    ensures
        texts(final(order)@) == refs_items(list.items@, notes@, texts(old(order)@), depth as nat),
    decreases depth, 1int, list,
{
    let ghost before = texts(order@);
    for i in 0..list.items.len()
        invariant
            texts(order@) == refs_items(
                list.items@.take(i as int),
                notes@,
                before,
                depth as nat,
            ),
    {
        assert(list.items@.take(i + 1).drop_last() =~= list.items@.take(i as int));
        let item = &list.items[i];
        assert(decreases_to!(list => list.items@[i as int]));
        assert(decreases_to!(item => item.blocks));
        collect_note_refs(&item.blocks, notes, order, depth);
    }
    assert(list.items@.take(list.items@.len() as int) =~= list.items@);
}

fn collect_row_refs(row: &Vec<CellSlot>, notes: &Vec<Note>, order: &mut Vec<String>, depth: usize)
    ensures
        texts(final(order)@) == refs_row(row@, notes@, texts(old(order)@), depth as nat),
    decreases depth, 1int, row,
{
    let ghost before = texts(order@);
    for i in 0..row.len()
        invariant
            texts(order@) == refs_row(row@.take(i as int), notes@, before, depth as nat),
    {
        assert(row@.take(i + 1).drop_last() =~= row@.take(i as int));
        assert(decreases_to!(row => row@[i as int]));
        let ghost now = texts(order@);
        if let CellSlot::Origin(cell) = &row[i] {
            assert(decreases_to!(row@[i as int] => cell));
            assert(decreases_to!(cell => cell.blocks));
            collect_note_refs(&cell.blocks, notes, order, depth);
        }
        assert(texts(order@) == refs_slot(row@[i as int], notes@, now, depth as nat));
    }
    assert(row@.take(row@.len() as int) =~= row@);
}

fn collect_table_refs(table: &Table, notes: &Vec<Note>, order: &mut Vec<String>, depth: usize)
    ensures
        texts(final(order)@) == refs_grid(table.grid@, notes@, texts(old(order)@), depth as nat),
    decreases depth, 1int, table,
{
    let ghost before = texts(order@);
    for i in 0..table.grid.len()
        invariant
            texts(order@) == refs_grid(
                table.grid@.take(i as int),
                notes@,
                before,
                depth as nat,
            ),
    {
        assert(table.grid@.take(i + 1).drop_last() =~= table.grid@.take(i as int));
        assert(decreases_to!(table => table.grid@[i as int]));
        collect_row_refs(&table.grid[i], notes, order, depth);
    }
    assert(table.grid@.take(table.grid@.len() as int) =~= table.grid@);
}

/// Appends the ids of the notes that `blocks` reference for the first time.
pub fn collect_note_refs(
    blocks: &Vec<Block>,
    notes: &Vec<Note>,
    order: &mut Vec<String>,
    depth: usize,
)
    ensures
        texts(final(order)@) == refs_blocks(blocks@, notes@, texts(old(order)@), depth as nat),
    decreases depth, 1int, blocks,
{
    let ghost before = texts(order@);
    for i in 0..blocks.len()
        invariant
            texts(order@) == refs_blocks(blocks@.take(i as int), notes@, before, depth as nat),
    {
        assert(blocks@.take(i + 1).drop_last() =~= blocks@.take(i as int));
        assert(decreases_to!(blocks => blocks@[i as int]));
        collect_block_refs(&blocks[i], notes, order, depth);
    }
    assert(blocks@.take(blocks@.len() as int) =~= blocks@);
}

/// Numbers the notes in first-reference order; unreferenced notes follow at the
/// end. The first note wins a duplicated id.
pub fn number_notes(doc: &Document) -> (r: Vec<String>)
    ensures
        texts(r@) == note_order(*doc),
{
    let mut order: Vec<String> = Vec::new();
    assert(texts(order@) =~= seq![]);
    collect_note_refs(&doc.blocks, &doc.notes, &mut order, doc.notes.len());
    let ghost referenced = texts(order@);
    for i in 0..doc.notes.len()
        invariant
            texts(order@) == add_unreferenced(doc.notes@, doc.notes@.take(i as int), referenced),
    {
        assert(doc.notes@.take(i + 1).drop_last() =~= doc.notes@.take(i as int));
        let id = &doc.notes[i].id;
        if find_visible_note(&doc.notes, id.as_str()).is_some() && !has_text(&order, id.as_str()) {
            order.push(id.clone());
        }
    }
    assert(doc.notes@.take(doc.notes@.len() as int) =~= doc.notes@);
    order
}

// ---------------------------------------------------------------------------
// Image assets
// ---------------------------------------------------------------------------
pub open spec fn inline_assets(inline: Inline) -> Seq<AssetId>
    decreases inline,
{
    match inline {
        Inline::Image { source, alt } => match source {
            ImageSource::Asset(id) => seq![id],
            ImageSource::External(url) => seq![],
        },
        Inline::Link { content, target } => inlines_assets(content@),
        _ => seq![],
    }
}

pub open spec fn inlines_assets(inlines: Seq<Inline>) -> Seq<AssetId>
    decreases inlines,
{
    if inlines.len() == 0 {
        seq![]
    } else {
        inlines_assets(inlines.drop_last()) + inline_assets(inlines.last())
    }
}

/// The embedded images that a block references, in reading order.
pub open spec fn block_assets(block: Block) -> Seq<AssetId>
    decreases block,
{
    match block {
        Block::Paragraph(inlines) => inlines_assets(inlines@),
        Block::Heading { level, content } => inlines_assets(content@),
        Block::List(list) => items_assets(list.items@),
        Block::Table(table) => grid_assets(table.grid@),
        Block::BlockQuote(blocks) => blocks_assets(blocks@),
        _ => seq![],
    }
}

pub open spec fn blocks_assets(blocks: Seq<Block>) -> Seq<AssetId>
    decreases blocks,
{
    if blocks.len() == 0 {
        seq![]
    } else {
        blocks_assets(blocks.drop_last()) + block_assets(blocks.last())
    }
}

pub open spec fn items_assets(items: Seq<ListItem>) -> Seq<AssetId>
    decreases items,
{
    if items.len() == 0 {
        seq![]
    } else {
        items_assets(items.drop_last()) + blocks_assets(items.last().blocks@)
    }
}

pub open spec fn slot_assets(slot: CellSlot) -> Seq<AssetId>
    decreases slot,
{
    match slot {
        CellSlot::Origin(cell) => blocks_assets(cell.blocks@),
        CellSlot::Covered { row, col } => seq![],
    }
}

pub open spec fn row_assets(row: Seq<CellSlot>) -> Seq<AssetId>
    decreases row,
{
    if row.len() == 0 { seq![] } else { row_assets(row.drop_last()) + slot_assets(row.last()) }
}

pub open spec fn grid_assets(grid: Seq<Vec<CellSlot>>) -> Seq<AssetId>
    decreases grid,
{
    if grid.len() == 0 { seq![] } else { grid_assets(grid.drop_last()) + row_assets(grid.last()@) }
}

/// The images of the notes with this id, in document order.
pub open spec fn id_assets(notes: Seq<Note>, id: Seq<char>) -> Seq<AssetId>
    decreases notes.len(),
{
    if notes.len() == 0 {
        seq![]
    } else {
        let before = id_assets(notes.drop_last(), id);
        if notes.last().id@ == id { before + blocks_assets(notes.last().blocks@) } else { before }
    }
}

/// The images of the notes with these ids, id by id.
pub open spec fn numbered_assets(notes: Seq<Note>, order: Seq<Seq<char>>) -> Seq<AssetId>
    decreases order.len(),
{
    if order.len() == 0 {
        seq![]
    } else {
        numbered_assets(notes, order.drop_last()) + id_assets(notes, order.last())
    }
}

/// The images of the notes with none of these ids, in document order.
pub open spec fn unnumbered_assets(notes: Seq<Note>, order: Seq<Seq<char>>) -> Seq<AssetId>
    decreases notes.len(),
{
    if notes.len() == 0 {
        seq![]
    } else {
        let before = unnumbered_assets(notes.drop_last(), order);
        if order.contains(notes.last().id@) {
            before
        } else {
            before + blocks_assets(notes.last().blocks@)
        }
    }
}

/// The ids that are not in `seen`, each at its first place only.
pub open spec fn fresh(ids: Seq<AssetId>, seen: Set<AssetId>) -> Seq<AssetId>
    decreases ids.len(),
{
    if ids.len() == 0 {
        seq![]
    } else {
        let before = fresh(ids.drop_last(), seen);
        let id = ids.last();
        if seen.contains(id) || before.contains(id) { before } else { before.push(id) }
    }
}

/// Every reference to an image asset, in the order in which a document is rendered:
/// its blocks, then its notes by their numbers. Notes without a number are not
/// rendered and follow at the end.
pub open spec fn asset_references(doc: Document) -> Seq<AssetId> {
    blocks_assets(doc.blocks@) + numbered_assets(doc.notes@, note_order(doc)) + unnumbered_assets(
        doc.notes@,
        note_order(doc),
    )
}

/// The image assets in the order of their figure numbers: first-reference order.
pub open spec fn asset_order(doc: Document) -> Seq<AssetId> {
    fresh(asset_references(doc), Set::empty())
}

fn collect_inline_assets(inline: &Inline, out: &mut Vec<AssetId>)
    ensures
        final(out)@ == old(out)@ + inline_assets(*inline),
    decreases inline,
{
    let ghost before = out@;
    match inline {
        Inline::Image { source, alt: _ } => {
            if let ImageSource::Asset(id) = source {
                out.push(*id);
            }
        },
        Inline::Link { content, target: _ } => collect_run_assets(content, out),
        _ => {},
    }
    assert(out@ =~= before + inline_assets(*inline));
}

fn collect_run_assets(inlines: &Vec<Inline>, out: &mut Vec<AssetId>)
    ensures
        final(out)@ == old(out)@ + inlines_assets(inlines@),
    decreases inlines,
{
    let ghost before = out@;
    assert(before =~= before + inlines_assets(inlines@.take(0)));
    for i in 0..inlines.len()
        invariant
            out@ == before + inlines_assets(inlines@.take(i as int)),
    {
        assert(inlines@.take(i + 1).drop_last() =~= inlines@.take(i as int));
        assert(decreases_to!(inlines => inlines@[i as int]));
        collect_inline_assets(&inlines[i], out);
        assert(out@ =~= before + inlines_assets(inlines@.take(i + 1)));
    }
    assert(inlines@.take(inlines@.len() as int) =~= inlines@);
}

fn collect_list_assets(list: &List, out: &mut Vec<AssetId>)
    ensures
        final(out)@ == old(out)@ + items_assets(list.items@),
    decreases list,
{
    let ghost before = out@;
    assert(before =~= before + items_assets(list.items@.take(0)));
    for i in 0..list.items.len()
        invariant
            out@ == before + items_assets(list.items@.take(i as int)),
    {
        assert(list.items@.take(i + 1).drop_last() =~= list.items@.take(i as int));
        let item = &list.items[i];
        assert(decreases_to!(list => list.items@[i as int]));
        assert(decreases_to!(item => item.blocks));
        collect_blocks_assets(&item.blocks, out);
        assert(out@ =~= before + items_assets(list.items@.take(i + 1)));
    }
    assert(list.items@.take(list.items@.len() as int) =~= list.items@);
}

fn collect_row_assets(row: &Vec<CellSlot>, out: &mut Vec<AssetId>)
    ensures
        final(out)@ == old(out)@ + row_assets(row@),
    decreases row,
{
    let ghost before = out@;
    assert(before =~= before + row_assets(row@.take(0)));
    for i in 0..row.len()
        invariant
            out@ == before + row_assets(row@.take(i as int)),
    {
        assert(row@.take(i + 1).drop_last() =~= row@.take(i as int));
        assert(decreases_to!(row => row@[i as int]));
        let ghost now = out@;
        if let CellSlot::Origin(cell) = &row[i] {
            assert(decreases_to!(row@[i as int] => cell));
            assert(decreases_to!(cell => cell.blocks));
            collect_blocks_assets(&cell.blocks, out);
        }
        assert(out@ =~= now + slot_assets(row@[i as int]));
        assert(out@ =~= before + row_assets(row@.take(i + 1)));
    }
    assert(row@.take(row@.len() as int) =~= row@);
}

fn collect_table_assets(table: &Table, out: &mut Vec<AssetId>)
    ensures
        final(out)@ == old(out)@ + grid_assets(table.grid@),
    decreases table,
{
    let ghost before = out@;
    assert(before =~= before + grid_assets(table.grid@.take(0)));
    for i in 0..table.grid.len()
        invariant
            out@ == before + grid_assets(table.grid@.take(i as int)),
    {
        assert(table.grid@.take(i + 1).drop_last() =~= table.grid@.take(i as int));
        assert(decreases_to!(table => table.grid@[i as int]));
        collect_row_assets(&table.grid[i], out);
        assert(out@ =~= before + grid_assets(table.grid@.take(i + 1)));
    }
    assert(table.grid@.take(table.grid@.len() as int) =~= table.grid@);
}

fn collect_block_assets(block: &Block, out: &mut Vec<AssetId>)
    ensures
        final(out)@ == old(out)@ + block_assets(*block),
    decreases block,
{
    let ghost before = out@;
    match block {
        Block::Paragraph(inlines) => collect_run_assets(inlines, out),
        Block::Heading { level: _, content } => collect_run_assets(content, out),
        Block::List(list) => collect_list_assets(list, out),
        Block::Table(table) => collect_table_assets(table, out),
        Block::BlockQuote(blocks) => collect_blocks_assets(blocks, out),
        _ => {},
    }
    assert(out@ =~= before + block_assets(*block));
}

fn collect_blocks_assets(blocks: &Vec<Block>, out: &mut Vec<AssetId>)
    ensures
        final(out)@ == old(out)@ + blocks_assets(blocks@),
    decreases blocks,
{
    let ghost before = out@;
    assert(before =~= before + blocks_assets(blocks@.take(0)));
    for i in 0..blocks.len()
        invariant
            out@ == before + blocks_assets(blocks@.take(i as int)),
    {
        assert(blocks@.take(i + 1).drop_last() =~= blocks@.take(i as int));
        assert(decreases_to!(blocks => blocks@[i as int]));
        collect_block_assets(&blocks[i], out);
        assert(out@ =~= before + blocks_assets(blocks@.take(i + 1)));
    }
    assert(blocks@.take(blocks@.len() as int) =~= blocks@);
}

/// Takes the ids that are not in `seen` yet, and puts them there.
fn take_fresh(ids: &Vec<AssetId>, seen: &mut HashSet<AssetId>) -> (r: Vec<AssetId>)
    ensures
        r@ == fresh(ids@, old(seen)@),
        final(seen)@ == old(seen)@.union(ids@.to_set()),
{
    let ghost start = seen@;
    let mut out: Vec<AssetId> = Vec::new();
    assert(start =~= start.union(ids@.take(0).to_set()));
    for i in 0..ids.len()
        invariant
            out@ == fresh(ids@.take(i as int), start),
            seen@ == start.union(ids@.take(i as int).to_set()),
    {
        let id = ids[i];
        proof {
            let s = ids@.take(i as int);
            let t = ids@.take(i + 1);
            assert(t.drop_last() =~= s);
            lemma_fresh_members(s, start);
            assert forall|x: AssetId| t.contains(x) <==> (s.contains(x) || x == id) by {
                assert(t[i as int] == id);
                if s.contains(x) {
                    let k = choose|k: int| 0 <= k < s.len() && s[k] == x;
                    assert(t[k] == x);
                }
            }
            assert(start.union(t.to_set()) =~= start.union(s.to_set()).insert(id));
        }
        if seen.insert(id) {
            out.push(id);
        }
    }
    assert(ids@.take(ids@.len() as int) =~= ids@);
    out
}

/// The fresh ids are the given ones that were not seen.
pub proof fn lemma_fresh_members(ids: Seq<AssetId>, seen: Set<AssetId>)
    ensures
        forall|x: AssetId|
            #[trigger] fresh(ids, seen).contains(x) <==> ids.contains(x) && !seen.contains(x),
        fresh(ids, seen).no_duplicates(),
    decreases ids.len(),
{
    if ids.len() > 0 {
        let head = ids.drop_last();
        lemma_fresh_members(head, seen);
        let before = fresh(head, seen);
        let now = fresh(ids, seen);
        assert forall|x: AssetId|
            #[trigger] now.contains(x) <==> ids.contains(x) && !seen.contains(x) by {
            assert(ids.contains(x) <==> head.contains(x) || x == ids.last()) by {
                if head.contains(x) {
                    let k = choose|k: int| 0 <= k < head.len() && head[k] == x;
                    assert(ids[k] == x);
                }
                if ids.contains(x) && x != ids.last() {
                    let k = choose|k: int| 0 <= k < ids.len() && ids[k] == x;
                    assert(head[k] == x);
                }
                assert(ids[ids.len() - 1] == ids.last());
            }
            assert(before.contains(x) <==> head.contains(x) && !seen.contains(x));
            if now.len() > before.len() {
                assert(now =~= before.push(ids.last()));
                assert(now.contains(x) <==> before.contains(x) || x == ids.last()) by {
                    if before.contains(x) {
                        let k = choose|k: int| 0 <= k < before.len() && before[k] == x;
                        assert(now[k] == x);
                    }
                    assert(now[before.len() as int] == ids.last());
                }
            } else {
                assert(now == before);
            }
        }
    } else {
        assert forall|x: AssetId|
            #[trigger] fresh(ids, seen).contains(x) <==> ids.contains(x) && !seen.contains(x) by {}
    }
}

fn collect_id_assets(notes: &Vec<Note>, id: &str, out: &mut Vec<AssetId>)
    ensures
        final(out)@ == old(out)@ + id_assets(notes@, id@),
{
    let ghost before = out@;
    assert(before =~= before + id_assets(notes@.take(0), id@));
    for i in 0..notes.len()
        invariant
            out@ == before + id_assets(notes@.take(i as int), id@),
    {
        assert(notes@.take(i + 1).drop_last() =~= notes@.take(i as int));
        if same_text(notes[i].id.as_str(), id) {
            collect_blocks_assets(&notes[i].blocks, out);
        }
        assert(out@ =~= before + id_assets(notes@.take(i + 1), id@));
    }
    assert(notes@.take(notes@.len() as int) =~= notes@);
}

fn collect_unnumbered_assets(notes: &Vec<Note>, order: &Vec<String>, out: &mut Vec<AssetId>)
    ensures
        final(out)@ == old(out)@ + unnumbered_assets(notes@, texts(order@)),
{
    let ghost before = out@;
    let ghost ids = texts(order@);
    assert(before =~= before + unnumbered_assets(notes@.take(0), ids));
    for i in 0..notes.len()
        invariant
            ids == texts(order@),
            out@ == before + unnumbered_assets(notes@.take(i as int), ids),
    {
        assert(notes@.take(i + 1).drop_last() =~= notes@.take(i as int));
        if !has_text(order, notes[i].id.as_str()) {
            collect_blocks_assets(&notes[i].blocks, out);
        }
        assert(out@ =~= before + unnumbered_assets(notes@.take(i + 1), ids));
    }
    assert(notes@.take(notes@.len() as int) =~= notes@);
}

/// Figure numbers for embedded images, in first-reference order: blocks first, then
/// note bodies by the numbers of the notes, matching render order.
pub fn number_assets(doc: &Document) -> (r: Vec<AssetId>)
    ensures
        r@ == asset_order(*doc),
{
    let order = number_notes(doc);
    let ghost all = note_order(*doc);
    let mut ids: Vec<AssetId> = Vec::new();
    collect_blocks_assets(&doc.blocks, &mut ids);
    let ghost head = blocks_assets(doc.blocks@);
    assert(ids@ =~= head + numbered_assets(doc.notes@, all.take(0)));
    for k in 0..order.len()
        invariant
            texts(order@) == all,
            ids@ == head + numbered_assets(doc.notes@, all.take(k as int)),
    {
        assert(all[k as int] == order@[k as int]@);
        assert(all.take(k + 1).drop_last() =~= all.take(k as int));
        collect_id_assets(&doc.notes, order[k].as_str(), &mut ids);
        assert(ids@ =~= head + numbered_assets(doc.notes@, all.take(k + 1)));
    }
    assert(all.take(order@.len() as int) =~= all);
    collect_unnumbered_assets(&doc.notes, &order, &mut ids);
    assert(ids@ =~= asset_references(*doc));
    let mut seen: HashSet<AssetId> = HashSet::new();
    assert(seen@ =~= Set::empty());
    take_fresh(&ids, &mut seen)
}

// ---------------------------------------------------------------------------
// Annotated blocks
// ---------------------------------------------------------------------------
/// The texts of the outcomes by asset id.
pub open spec fn outcome_texts(m: Map<AssetId, OcrOutcome>) -> Map<AssetId, Option<Seq<char>>> {
    m.map_values(|o: OcrOutcome| o.text())
}

/// The annotation blocks of these images; images without an outcome have none.
pub open spec fn annotations(
    ids: Seq<AssetId>,
    numbers: Numbers,
    ocr: Map<AssetId, Option<Seq<char>>>,
) -> Seq<Seq<char>>
    decreases ids.len(),
{
    if ids.len() == 0 {
        seq![]
    } else {
        let before = annotations(ids.drop_last(), numbers, ocr);
        let id = ids.last();
        match number_of(numbers.assets, id) {
            Some(n) => if ocr.dom().contains(id) {
                before.push(annotation(n, ocr[id]))
            } else {
                before
            },
            None => before,
        }
    }
}

/// The images that have been referenced by the visible blocks.
pub open spec fn shown_assets(blocks: Seq<Block>, numbers: Numbers) -> Seq<AssetId>
    decreases blocks.len(),
{
    if blocks.len() == 0 {
        seq![]
    } else {
        let before = shown_assets(blocks.drop_last(), numbers);
        if block_text(blocks.last(), numbers) is Some {
            before + block_assets(blocks.last())
        } else {
            before
        }
    }
}

/// The rendered blocks, each followed by the annotations of the images that it
/// references for the first time.
pub open spec fn annotated_blocks(
    blocks: Seq<Block>,
    numbers: Numbers,
    ocr: Map<AssetId, Option<Seq<char>>>,
    seen: Set<AssetId>,
) -> Seq<Seq<char>>
    decreases blocks.len(),
{
    if blocks.len() == 0 {
        seq![]
    } else {
        let head = blocks.drop_last();
        let before = annotated_blocks(head, numbers, ocr, seen);
        let seen_before = seen.union(shown_assets(head, numbers).to_set());
        match block_text(blocks.last(), numbers) {
            Some(t) => before.push(t) + annotations(
                fresh(block_assets(blocks.last()), seen_before),
                numbers,
                ocr,
            ),
            None => before,
        }
    }
}

fn push_annotations(
    parts: &mut Vec<String>,
    ids: &Vec<AssetId>,
    numbering: &Numbering,
    ocr: &HashMap<AssetId, OcrOutcome>,
)
    ensures
        texts(final(parts)@) == texts(old(parts)@) + annotations(ids@, numbering@, outcome_texts(ocr@)),
{
    let ghost before = texts(parts@);
    assert(before =~= before + annotations(ids@.take(0), numbering@, outcome_texts(ocr@)));
    for i in 0..ids.len()
        invariant
            texts(parts@) == before + annotations(ids@.take(i as int), numbering@, outcome_texts(ocr@)),
    {
        assert(ids@.take(i + 1).drop_last() =~= ids@.take(i as int));
        let id = ids[i];
        if let Some(n) = numbering.asset_number(id) {
            if let Some(outcome) = ocr.get(&id) {
                parts.push(ocr_annotation(n, outcome));
            }
        }
        assert(texts(parts@) =~= before + annotations(ids@.take(i + 1), numbering@, outcome_texts(ocr@)));
    }
    assert(ids@.take(ids@.len() as int) =~= ids@);
}

proof fn lemma_union_shown(seen: Set<AssetId>, a: Seq<AssetId>, b: Seq<AssetId>)
    ensures
        seen.union((a + b).to_set()) =~= seen.union(a.to_set()).union(b.to_set()),
{
    assert forall|x: AssetId| (a + b).contains(x) <==> a.contains(x) || b.contains(x) by {
        if a.contains(x) {
            let k = choose|k: int| 0 <= k < a.len() && a[k] == x;
            assert((a + b)[k] == x);
        }
        if b.contains(x) {
            let k = choose|k: int| 0 <= k < b.len() && b[k] == x;
            assert((a + b)[a.len() + k] == x);
        }
    }
}

/// Renders `blocks`, appending each image's annotation right after the block
/// that first references it. `seen` is shared across the whole document, so
/// that an image referenced repeatedly is annotated once.
pub fn render_blocks_with_annotations(
    blocks: &Vec<Block>,
    numbering: &Numbering,
    ocr: &HashMap<AssetId, OcrOutcome>,
    seen: &mut HashSet<AssetId>,
) -> (r: Vec<String>)
    ensures
        texts(r@) == annotated_blocks(blocks@, numbering@, outcome_texts(ocr@), old(seen)@),
        final(seen)@ == old(seen)@.union(shown_assets(blocks@, numbering@).to_set()),
{
    let ghost start = seen@;
    let mut parts: Vec<String> = Vec::new();
    assert(texts(parts@) =~= annotated_blocks(blocks@.take(0), numbering@, outcome_texts(ocr@), start));
    assert(start =~= start.union(shown_assets(blocks@.take(0), numbering@).to_set()));
    for i in 0..blocks.len()
        invariant
            texts(parts@) == annotated_blocks(
                blocks@.take(i as int),
                numbering@,
                outcome_texts(ocr@),
                start,
            ),
            seen@ == start.union(shown_assets(blocks@.take(i as int), numbering@).to_set()),
    {
        let ghost head = blocks@.take(i as int);
        assert(blocks@.take(i + 1).drop_last() =~= head);
        assert(blocks@.take(i + 1).last() == blocks@[i as int]);
        if let Some(text) = render_block(&blocks[i], numbering) {
            let mut ids: Vec<AssetId> = Vec::new();
            collect_block_assets(&blocks[i], &mut ids);
            assert(ids@ =~= block_assets(blocks@[i as int]));
            let new = take_fresh(&ids, seen);
            parts.push(text);
            push_annotations(&mut parts, &new, numbering, ocr);
            proof {
                lemma_union_shown(start, shown_assets(head, numbering@), ids@);
            }
        }
    }
    assert(blocks@.take(blocks@.len() as int) =~= blocks@);
    parts
}

// ---------------------------------------------------------------------------
// Documents
// ---------------------------------------------------------------------------
/// What rendering the notes has produced: the definitions, and the images that
/// have been annotated.
pub struct NotesState {
    pub parts: Seq<Seq<char>>,
    pub seen: Set<AssetId>,
    /// The definition of the current number has been written.
    pub defined: bool,
}

/// The definition of a note: its further lines are indented.
pub open spec fn note_definition(number: nat, body: Seq<char>) -> Seq<char> {
    hang("[^"@ + decimal(number) + "]: "@, "    "@, lines(body))
}

/// One note with the given number. The first visible definition wins.
pub open spec fn define_note(
    note: Note,
    number: nat,
    numbers: Numbers,
    ocr: Map<AssetId, Option<Seq<char>>>,
    state: NotesState,
) -> NotesState {
    let body = joined(annotated_blocks(note.blocks@, numbers, ocr, state.seen), "\n\n"@);
    let seen = state.seen.union(shown_assets(note.blocks@, numbers).to_set());
    if body.len() == 0 || state.defined {
        NotesState { seen, ..state }
    } else {
        NotesState {
            parts: state.parts.push(note_definition(number, body)),
            seen,
            defined: true,
        }
    }
}

/// The notes with the given id, in document order.
pub open spec fn define_id(
    notes: Seq<Note>,
    id: Seq<char>,
    number: nat,
    numbers: Numbers,
    ocr: Map<AssetId, Option<Seq<char>>>,
    state: NotesState,
) -> NotesState
    decreases notes.len(),
{
    if notes.len() == 0 {
        NotesState { defined: false, ..state }
    } else {
        let before = define_id(notes.drop_last(), id, number, numbers, ocr, state);
        if notes.last().id@ == id {
            define_note(notes.last(), number, numbers, ocr, before)
        } else {
            before
        }
    }
}

/// The first `n` numbers, in order.
pub open spec fn define_all(
    notes: Seq<Note>,
    n: nat,
    numbers: Numbers,
    ocr: Map<AssetId, Option<Seq<char>>>,
    state: NotesState,
) -> NotesState
    decreases n,
{
    if n == 0 {
        state
    } else {
        define_id(
            notes,
            numbers.notes[n - 1],
            n,
            numbers,
            ocr,
            define_all(notes, (n - 1) as nat, numbers, ocr, state),
        )
    }
}

pub open spec fn document_numbers(doc: Document) -> Numbers {
    Numbers { notes: note_order(doc), assets: asset_order(doc) }
}

/// The top-level pieces of a document: its blocks, then its note definitions.
pub open spec fn document_parts(doc: Document, ocr: Map<AssetId, Option<Seq<char>>>) -> Seq<Seq<char>> {
    let numbers = document_numbers(doc);
    define_all(
        doc.notes@,
        numbers.notes.len(),
        numbers,
        ocr,
        NotesState {
            parts: annotated_blocks(doc.blocks@, numbers, ocr, Set::empty()),
            seen: shown_assets(doc.blocks@, numbers).to_set(),
            defined: false,
        },
    ).parts
}

/// The Markdown of a document; a visible one ends with a line feed.
pub open spec fn document_text(doc: Document, ocr: Map<AssetId, Option<Seq<char>>>) -> Seq<char> {
    let out = joined(document_parts(doc, ocr), "\n\n"@);
    if out.len() == 0 { out } else { out.push('\n') }
}

fn render_note_definition(number: usize, body: &str) -> (r: String)
    ensures
        r@ == note_definition(number as nat, body@),
{
    let mut prefix = "[^".to_owned();
    push_decimal(&mut prefix, number as u64);
    prefix.push_str("]: ");
    hang_lines(prefix.as_str(), "    ", &lines_of(chars_of(body).as_slice()))
}

/// Renders the definitions of one number.
fn render_notes_with_id(
    notes: &Vec<Note>,
    id: &str,
    number: usize,
    numbering: &Numbering,
    ocr: &HashMap<AssetId, OcrOutcome>,
    parts: &mut Vec<String>,
    seen: &mut HashSet<AssetId>,
    Ghost(state): Ghost<NotesState>,
)
    requires
        texts(old(parts)@) == state.parts,
        old(seen)@ == state.seen,
    ensures
        texts(final(parts)@) == define_id(
            notes@,
            id@,
            number as nat,
            numbering@,
            outcome_texts(ocr@),
            state,
        ).parts,
        final(seen)@ == define_id(notes@, id@, number as nat, numbering@, outcome_texts(ocr@), state).seen,
{
    let mut defined = false;
    for i in 0..notes.len()
        invariant
            ({
                let now = define_id(
                    notes@.take(i as int),
                    id@,
                    number as nat,
                    numbering@,
                    outcome_texts(ocr@),
                    state,
                );
                texts(parts@) == now.parts && seen@ == now.seen && defined == now.defined
            }),
    {
        assert(notes@.take(i + 1).drop_last() =~= notes@.take(i as int));
        if same_text(notes[i].id.as_str(), id) {
            let blocks = render_blocks_with_annotations(&notes[i].blocks, numbering, ocr, seen);
            let body = join(&blocks, "\n\n");
            if chars_of(body.as_str()).len() > 0 && !defined {
                defined = true;
                parts.push(render_note_definition(number, body.as_str()));
            }
        }
    }
    assert(notes@.take(notes@.len() as int) =~= notes@);
}

/// Renders a document with annotation blocks for its recognized images.
pub fn document_to_markdown_with_ocr(doc: &Document, ocr: &HashMap<AssetId, OcrOutcome>) -> (r:
    String)
    ensures
        r@ == document_text(*doc, outcome_texts(ocr@)),
{
    let numbering = Numbering { notes: number_notes(doc), assets: number_assets(doc) };
    let ghost numbers = document_numbers(*doc);
    assert(numbering@ == numbers);
    let mut seen: HashSet<AssetId> = HashSet::new();
    assert(seen@ =~= Set::empty());
    let mut parts = render_blocks_with_annotations(&doc.blocks, &numbering, ocr, &mut seen);
    let ghost start = NotesState {
        parts: annotated_blocks(doc.blocks@, numbers, outcome_texts(ocr@), Set::empty()),
        seen: shown_assets(doc.blocks@, numbers).to_set(),
        defined: false,
    };
    assert(seen@ =~= start.seen);
    for k in 0..numbering.notes.len()
        invariant
            numbering@ == numbers,
            texts(parts@) == define_all(doc.notes@, k as nat, numbers, outcome_texts(ocr@), start).parts,
            seen@ == define_all(doc.notes@, k as nat, numbers, outcome_texts(ocr@), start).seen,
    {
        assert(numbers.notes[k as int] == numbering.notes@[k as int]@);
        render_notes_with_id(
            &doc.notes,
            numbering.notes[k].as_str(),
            k + 1,
            &numbering,
            ocr,
            &mut parts,
            &mut seen,
            Ghost(define_all(doc.notes@, k as nat, numbers, outcome_texts(ocr@), start)),
        );
    }
    let mut out = join(&parts, "\n\n");
    if chars_of(out.as_str()).len() > 0 {
        out.push('\n');
    }
    out
}

/// Renders a document without embedded-image OCR.
pub fn document_to_markdown(doc: &Document) -> (r: String)
    ensures
        r@ == document_text(*doc, Map::empty()),
{
    let ocr: HashMap<AssetId, OcrOutcome> = HashMap::new();
    assert(outcome_texts(ocr@) =~= Map::empty());
    document_to_markdown_with_ocr(doc, &ocr)
}

} // verus!
