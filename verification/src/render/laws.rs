//! What holds of every rendered document.

use crate::render::inline::Numbers;
use crate::render::markdown::{
    add_unreferenced, annotated_blocks, annotations, asset_order, asset_references, block_assets,
    block_text, blocks_assets, document_text, find_note, fresh, id_assets, lemma_fresh_members,
    note_order, numbered_assets, refs_block, refs_blocks, refs_grid, refs_inline, refs_inlines,
    refs_items, refs_row, refs_slot, rendered, shown_assets, unnumbered_assets,
};
use crate::render::model::{AssetId, Block, CellSlot, Document, Inline, ListItem, Note, Table};
use crate::render::table::{html_rows, html_table, spans, table_text};
use crate::text::{ends_with, starts_with};
use vstd::prelude::*;

verus! {

// ---------------------------------------------------------------------------
// Notes
// ---------------------------------------------------------------------------
/// Every id occurs once and belongs to a visible note.
pub open spec fn good_order(notes: Seq<Note>, order: Seq<Seq<char>>) -> bool {
    order.no_duplicates() && forall|i: int|
        0 <= i < order.len() ==> find_note(notes, #[trigger] order[i]) is Some
}

proof fn lemma_find_note_index(notes: Seq<Note>, id: Seq<char>) -> (k: int)
    requires
        find_note(notes, id) is Some,
    ensures
        0 <= k < notes.len(),
        notes[k].id@ == id,
    decreases notes.len(),
{
    if notes.first().id@ == id && !crate::render::markdown::note_blank(notes.first()) {
        0
    } else {
        lemma_find_note_index(notes.drop_first(), id) + 1
    }
}

pub open spec fn ids_of(notes: Seq<Note>) -> Seq<Seq<char>> {
    Seq::new(notes.len(), |i: int| notes[i].id@)
}

/// There are at most as many numbered ids as notes.
proof fn lemma_order_bounded(notes: Seq<Note>, order: Seq<Seq<char>>)
    requires
        good_order(notes, order),
    ensures
        order.len() <= notes.len(),
{
    let ids = ids_of(notes);
    assert forall|x: Seq<char>| order.to_set().contains(x) implies ids.to_set().contains(x) by {
        let i = choose|i: int| 0 <= i < order.len() && order[i] == x;
        assert(find_note(notes, order[i]) is Some);
        let k = lemma_find_note_index(notes, x);
        assert(ids[k] == x);
    }
    order.unique_seq_to_set();
    ids.lemma_cardinality_of_set();
    vstd::set_lib::lemma_len_subset(order.to_set(), ids.to_set());
}

proof fn lemma_good_push(notes: Seq<Note>, order: Seq<Seq<char>>, id: Seq<char>)
    requires
        good_order(notes, order),
        find_note(notes, id) is Some,
        !order.contains(id),
    ensures
        good_order(notes, order.push(id)),
{
    let next = order.push(id);
    assert forall|i: int, j: int| 0 <= i < next.len() && 0 <= j < next.len() && i != j implies next[i]
        != next[j] by {
        if i == order.len() {
            assert(next[j] == order[j]);
        } else if j == order.len() {
            assert(next[i] == order[i]);
        }
    }
}

/// What every walk over content does to the order of ids: it keeps it good and
/// only adds to it, and with enough depth more depth changes nothing.
pub open spec fn walk_ok(
    notes: Seq<Note>,
    order: Seq<Seq<char>>,
    depth: nat,
    result: Seq<Seq<char>>,
    deeper: Seq<Seq<char>>,
) -> bool {
    &&& good_order(notes, result)
    &&& result.len() >= order.len()
    &&& order.len() + depth >= notes.len() ==> deeper == result
}

proof fn lemma_walk_inline(
    inline: Inline,
    notes: Seq<Note>,
    order: Seq<Seq<char>>,
    depth: nat,
    extra: nat,
)
    requires
        good_order(notes, order),
    ensures
        walk_ok(
            notes,
            order,
            depth,
            refs_inline(inline, notes, order, depth),
            refs_inline(inline, notes, order, depth + extra),
        ),
    decreases depth, 0int, inline,
{
    match inline {
        Inline::NoteRef(id) => {
            if let Some(note) = find_note(notes, id@) {
                if !order.contains(id@) {
                    lemma_good_push(notes, order, id@);
                    lemma_order_bounded(notes, order.push(id@));
                    if depth > 0 {
                        lemma_walk_blocks(
                            note.blocks@,
                            notes,
                            order.push(id@),
                            (depth - 1) as nat,
                            extra,
                        );
                        assert(((depth + extra) - 1) as nat == (depth - 1) as nat + extra);
                    }
                }
            }
        },
        Inline::Link { content, target } => {
            lemma_walk_inlines(content@, notes, order, depth, extra);
        },
        _ => {},
    }
}

proof fn lemma_walk_inlines(
    inlines: Seq<Inline>,
    notes: Seq<Note>,
    order: Seq<Seq<char>>,
    depth: nat,
    extra: nat,
)
    requires
        good_order(notes, order),
    ensures
        walk_ok(
            notes,
            order,
            depth,
            refs_inlines(inlines, notes, order, depth),
            refs_inlines(inlines, notes, order, depth + extra),
        ),
    decreases depth, 0int, inlines,
{
    if inlines.len() > 0 {
        lemma_walk_inlines(inlines.drop_last(), notes, order, depth, extra);
        lemma_walk_inline(
            inlines.last(),
            notes,
            refs_inlines(inlines.drop_last(), notes, order, depth),
            depth,
            extra,
        );
    }
}

proof fn lemma_walk_block(
    block: Block,
    notes: Seq<Note>,
    order: Seq<Seq<char>>,
    depth: nat,
    extra: nat,
)
    requires
        good_order(notes, order),
    ensures
        walk_ok(
            notes,
            order,
            depth,
            refs_block(block, notes, order, depth),
            refs_block(block, notes, order, depth + extra),
        ),
    decreases depth, 1int, block,
{
    match block {
        Block::Paragraph(inlines) => lemma_walk_inlines(inlines@, notes, order, depth, extra),
        Block::Heading { level, content } => {
            lemma_walk_inlines(content@, notes, order, depth, extra)
        },
        Block::List(list) => lemma_walk_items(list.items@, notes, order, depth, extra),
        Block::Table(table) => lemma_walk_grid(table.grid@, notes, order, depth, extra),
        Block::BlockQuote(blocks) => lemma_walk_blocks(blocks@, notes, order, depth, extra),
        _ => {},
    }
}

proof fn lemma_walk_blocks(
    blocks: Seq<Block>,
    notes: Seq<Note>,
    order: Seq<Seq<char>>,
    depth: nat,
    extra: nat,
)
    requires
        good_order(notes, order),
    ensures
        walk_ok(
            notes,
            order,
            depth,
            refs_blocks(blocks, notes, order, depth),
            refs_blocks(blocks, notes, order, depth + extra),
        ),
    decreases depth, 1int, blocks,
{
    if blocks.len() > 0 {
        lemma_walk_blocks(blocks.drop_last(), notes, order, depth, extra);
        lemma_walk_block(
            blocks.last(),
            notes,
            refs_blocks(blocks.drop_last(), notes, order, depth),
            depth,
            extra,
        );
    }
}

proof fn lemma_walk_items(
    items: Seq<ListItem>,
    notes: Seq<Note>,
    order: Seq<Seq<char>>,
    depth: nat,
    extra: nat,
)
    requires
        good_order(notes, order),
    ensures
        walk_ok(
            notes,
            order,
            depth,
            refs_items(items, notes, order, depth),
            refs_items(items, notes, order, depth + extra),
        ),
    decreases depth, 1int, items,
{
    if items.len() > 0 {
        lemma_walk_items(items.drop_last(), notes, order, depth, extra);
        lemma_walk_blocks(
            items.last().blocks@,
            notes,
            refs_items(items.drop_last(), notes, order, depth),
            depth,
            extra,
        );
    }
}

proof fn lemma_walk_slot(
    slot: CellSlot,
    notes: Seq<Note>,
    order: Seq<Seq<char>>,
    depth: nat,
    extra: nat,
)
    requires
        good_order(notes, order),
    ensures
        walk_ok(
            notes,
            order,
            depth,
            refs_slot(slot, notes, order, depth),
            refs_slot(slot, notes, order, depth + extra),
        ),
    decreases depth, 1int, slot,
{
    if let CellSlot::Origin(cell) = slot {
        lemma_walk_blocks(cell.blocks@, notes, order, depth, extra);
    }
}

proof fn lemma_walk_row(
    row: Seq<CellSlot>,
    notes: Seq<Note>,
    order: Seq<Seq<char>>,
    depth: nat,
    extra: nat,
)
    requires
        good_order(notes, order),
    ensures
        walk_ok(
            notes,
            order,
            depth,
            refs_row(row, notes, order, depth),
            refs_row(row, notes, order, depth + extra),
        ),
    decreases depth, 1int, row,
{
    if row.len() > 0 {
        lemma_walk_row(row.drop_last(), notes, order, depth, extra);
        lemma_walk_slot(
            row.last(),
            notes,
            refs_row(row.drop_last(), notes, order, depth),
            depth,
            extra,
        );
    }
}

proof fn lemma_walk_grid(
    grid: Seq<Vec<CellSlot>>,
    notes: Seq<Note>,
    order: Seq<Seq<char>>,
    depth: nat,
    extra: nat,
)
    requires
        good_order(notes, order),
    ensures
        walk_ok(
            notes,
            order,
            depth,
            refs_grid(grid, notes, order, depth),
            refs_grid(grid, notes, order, depth + extra),
        ),
    decreases depth, 1int, grid,
{
    if grid.len() > 0 {
        lemma_walk_grid(grid.drop_last(), notes, order, depth, extra);
        lemma_walk_row(
            grid.last()@,
            notes,
            refs_grid(grid.drop_last(), notes, order, depth),
            depth,
            extra,
        );
    }
}

proof fn lemma_unreferenced_good(all: Seq<Note>, some: Seq<Note>, order: Seq<Seq<char>>)
    requires
        good_order(all, order),
    ensures
        good_order(all, add_unreferenced(all, some, order)),
        forall|i: int|
            0 <= i < some.len() && find_note(all, (#[trigger] some[i]).id@) is Some
                ==> add_unreferenced(all, some, order).contains(some[i].id@),
        forall|x: Seq<char>| order.contains(x) ==> #[trigger] add_unreferenced(
            all,
            some,
            order,
        ).contains(x),
    decreases some.len(),
{
    if some.len() > 0 {
        let head = some.drop_last();
        lemma_unreferenced_good(all, head, order);
        let before = add_unreferenced(all, head, order);
        let id = some.last().id@;
        let now = add_unreferenced(all, some, order);
        if find_note(all, id) is Some && !before.contains(id) {
            lemma_good_push(all, before, id);
            assert(now[before.len() as int] == id);
            assert forall|x: Seq<char>| before.contains(x) implies #[trigger] now.contains(x) by {
                let k = choose|k: int| 0 <= k < before.len() && before[k] == x;
                assert(now[k] == x);
            }
        }
        assert forall|i: int|
            0 <= i < some.len() && find_note(all, (#[trigger] some[i]).id@) is Some implies now.contains(
            some[i].id@,
        ) by {
            if i < head.len() {
                assert(head[i] == some[i]);
            }
        }
    }
}

/// Notes are numbered without gaps or repetitions: every number belongs to one
/// visible id, and every visible id has a number.
pub proof fn law_note_numbers_are_distinct(doc: Document)
    ensures
        note_order(doc).no_duplicates(),
        forall|i: int|
            0 <= i < note_order(doc).len() ==> find_note(doc.notes@, #[trigger] note_order(doc)[i])
                is Some,
        forall|i: int|
            0 <= i < doc.notes@.len() && find_note(doc.notes@, (#[trigger] doc.notes@[i]).id@)
                is Some ==> note_order(doc).contains(doc.notes@[i].id@),
{
    let notes = doc.notes@;
    lemma_walk_blocks(doc.blocks@, notes, seq![], notes.len(), 0);
    lemma_unreferenced_good(notes, notes, refs_blocks(doc.blocks@, notes, seq![], notes.len()));
}

/// The bound on the nesting of notes never cuts a chain of references short.
pub proof fn law_note_chains_are_followed(doc: Document, extra: nat)
    ensures
        refs_blocks(doc.blocks@, doc.notes@, seq![], doc.notes@.len()) == refs_blocks(
            doc.blocks@,
            doc.notes@,
            seq![],
            doc.notes@.len() + extra,
        ),
{
    lemma_walk_blocks(doc.blocks@, doc.notes@, seq![], doc.notes@.len(), extra);
}

// ---------------------------------------------------------------------------
// Images
// ---------------------------------------------------------------------------
/// Whether the body of some note references the image.
pub open spec fn in_some_note(notes: Seq<Note>, id: AssetId) -> bool {
    exists|i: int| 0 <= i < notes.len() && blocks_assets((#[trigger] notes[i]).blocks@).contains(id)
}

proof fn lemma_added(a: Seq<AssetId>, b: Seq<AssetId>, id: AssetId)
    ensures
        (a + b).contains(id) <==> a.contains(id) || b.contains(id),
{
    if a.contains(id) {
        let k = choose|k: int| 0 <= k < a.len() && a[k] == id;
        assert((a + b)[k] == id);
    }
    if b.contains(id) {
        let k = choose|k: int| 0 <= k < b.len() && b[k] == id;
        assert((a + b)[a.len() + k] == id);
    }
    if (a + b).contains(id) {
        let k = choose|k: int| 0 <= k < (a + b).len() && (a + b)[k] == id;
        if k < a.len() {
            assert(a[k] == id);
        } else {
            assert(b[k - a.len()] == id);
        }
    }
}

proof fn lemma_id_assets(notes: Seq<Note>, name: Seq<char>, id: AssetId)
    ensures
        id_assets(notes, name).contains(id) <==> exists|i: int|
            0 <= i < notes.len() && (#[trigger] notes[i]).id@ == name && blocks_assets(
                notes[i].blocks@,
            ).contains(id),
    decreases notes.len(),
{
    if notes.len() > 0 {
        let head = notes.drop_last();
        lemma_id_assets(head, name, id);
        lemma_added(id_assets(head, name), blocks_assets(notes.last().blocks@), id);
        assert forall|i: int| 0 <= i < head.len() implies head[i] == #[trigger] notes[i] by {}
        if id_assets(head, name).contains(id) {
            let i = choose|i: int|
                0 <= i < head.len() && (#[trigger] head[i]).id@ == name && blocks_assets(
                    head[i].blocks@,
                ).contains(id);
            assert(notes[i].id@ == name);
        }
        if id_assets(notes, name).contains(id) && !id_assets(head, name).contains(id) {
            assert(notes[notes.len() - 1].id@ == name);
        }
    }
}

proof fn lemma_numbered_assets(notes: Seq<Note>, order: Seq<Seq<char>>, id: AssetId)
    ensures
        numbered_assets(notes, order).contains(id) <==> exists|i: int|
            0 <= i < notes.len() && order.contains((#[trigger] notes[i]).id@) && blocks_assets(
                notes[i].blocks@,
            ).contains(id),
    decreases order.len(),
{
    if order.len() > 0 {
        let head = order.drop_last();
        lemma_numbered_assets(notes, head, id);
        lemma_id_assets(notes, order.last(), id);
        lemma_added(numbered_assets(notes, head), id_assets(notes, order.last()), id);
        assert forall|x: Seq<char>| #[trigger]
            order.contains(x) <==> head.contains(x) || x == order.last() by {
            if head.contains(x) {
                let k = choose|k: int| 0 <= k < head.len() && head[k] == x;
                assert(order[k] == x);
            }
            if order.contains(x) && x != order.last() {
                let k = choose|k: int| 0 <= k < order.len() && order[k] == x;
                assert(head[k] == x);
            }
            assert(order[order.len() - 1] == order.last());
        }
    }
}

proof fn lemma_unnumbered_assets(notes: Seq<Note>, order: Seq<Seq<char>>, id: AssetId)
    ensures
        unnumbered_assets(notes, order).contains(id) <==> exists|i: int|
            0 <= i < notes.len() && !order.contains((#[trigger] notes[i]).id@) && blocks_assets(
                notes[i].blocks@,
            ).contains(id),
    decreases notes.len(),
{
    if notes.len() > 0 {
        let head = notes.drop_last();
        lemma_unnumbered_assets(head, order, id);
        lemma_added(unnumbered_assets(head, order), blocks_assets(notes.last().blocks@), id);
        assert forall|i: int| 0 <= i < head.len() implies head[i] == #[trigger] notes[i] by {}
        if unnumbered_assets(head, order).contains(id) {
            let i = choose|i: int|
                0 <= i < head.len() && !order.contains((#[trigger] head[i]).id@) && blocks_assets(
                    head[i].blocks@,
                ).contains(id);
            assert(!order.contains(notes[i].id@));
        }
        if unnumbered_assets(notes, order).contains(id) && !unnumbered_assets(
            head,
            order,
        ).contains(id) {
            assert(!order.contains(notes[notes.len() - 1].id@));
        }
    }
}

/// Figures are numbered without gaps or repetitions: every number belongs to one
/// referenced image, and every image that a block or a note references has a number.
pub proof fn law_figure_numbers_are_distinct(doc: Document)
    ensures
        asset_order(doc).no_duplicates(),
        forall|id: AssetId|
            #[trigger] asset_order(doc).contains(id) <==> blocks_assets(doc.blocks@).contains(id)
                || in_some_note(doc.notes@, id),
{
    lemma_fresh_members(asset_references(doc), Set::empty());
    let order = note_order(doc);
    let body = blocks_assets(doc.blocks@);
    let numbered = numbered_assets(doc.notes@, order);
    let rest = unnumbered_assets(doc.notes@, order);
    assert forall|id: AssetId|
        #[trigger] asset_order(doc).contains(id) <==> body.contains(id) || in_some_note(
            doc.notes@,
            id,
        ) by {
        lemma_added(body, numbered, id);
        lemma_added(body + numbered, rest, id);
        lemma_numbered_assets(doc.notes@, order, id);
        lemma_unnumbered_assets(doc.notes@, order, id);
    }
}

/// Figures are numbered in the order of rendering: the images of the blocks come
/// first, then those of the notes, and a note with a smaller number comes before one
/// with a larger number.
pub proof fn law_figures_follow_the_notes(doc: Document, first: int, second: int)
    requires
        0 <= first < second < note_order(doc).len(),
    ensures
        ({
            let order = note_order(doc);
            let body = blocks_assets(doc.blocks@);
            let upto = fresh(body + numbered_assets(doc.notes@, order.take(first + 1)), Set::empty());
            let wider = fresh(
                body + numbered_assets(doc.notes@, order.take(second + 1)),
                Set::empty(),
            );
            &&& fresh(body, Set::empty()).is_prefix_of(upto)
            &&& upto.is_prefix_of(wider)
            &&& wider.is_prefix_of(asset_order(doc))
        }),
{
    let order = note_order(doc);
    let notes = doc.notes@;
    let body = blocks_assets(doc.blocks@);
    let a = order.take(first + 1);
    let b = order.take(second + 1);
    lemma_numbered_extends(notes, a, b);
    lemma_numbered_extends(notes, b, order);
    lemma_fresh_extends(body, numbered_assets(notes, a), Set::empty());
    let more = numbered_assets(notes, b).skip(numbered_assets(notes, a).len() as int);
    assert(body + numbered_assets(notes, a) + more =~= body + numbered_assets(notes, b));
    lemma_fresh_extends(body + numbered_assets(notes, a), more, Set::empty());
    let all = numbered_assets(notes, order);
    let last = all.skip(numbered_assets(notes, b).len() as int) + unnumbered_assets(notes, order);
    assert(body + numbered_assets(notes, b) + last =~= asset_references(doc));
    lemma_fresh_extends(body + numbered_assets(notes, b), last, Set::empty());
}

proof fn lemma_numbered_extends(notes: Seq<Note>, a: Seq<Seq<char>>, b: Seq<Seq<char>>)
    requires
        a.is_prefix_of(b),
    ensures
        numbered_assets(notes, a).is_prefix_of(numbered_assets(notes, b)),
    decreases b.len(),
{
    if a.len() < b.len() {
        assert(a.is_prefix_of(b.drop_last()));
        lemma_numbered_extends(notes, a, b.drop_last());
    } else {
        assert(a =~= b);
    }
}

proof fn lemma_fresh_extends(ids: Seq<AssetId>, more: Seq<AssetId>, seen: Set<AssetId>)
    ensures
        fresh(ids, seen).is_prefix_of(fresh(ids + more, seen)),
    decreases more.len(),
{
    if more.len() > 0 {
        lemma_fresh_extends(ids, more.drop_last(), seen);
        assert((ids + more).drop_last() =~= ids + more.drop_last());
    } else {
        assert(ids + more =~= ids);
    }
}

/// The images that get their annotation while these blocks are rendered.
pub open spec fn annotated_ids(blocks: Seq<Block>, numbers: Numbers, seen: Set<AssetId>) -> Seq<
    AssetId,
>
    decreases blocks.len(),
{
    if blocks.len() == 0 {
        seq![]
    } else {
        let head = blocks.drop_last();
        let before = annotated_ids(head, numbers, seen);
        if block_text(blocks.last(), numbers) is Some {
            before + fresh(
                block_assets(blocks.last()),
                seen.union(shown_assets(head, numbers).to_set()),
            )
        } else {
            before
        }
    }
}

/// An image that is referenced repeatedly is annotated once, and never again
/// after it has been seen.
pub proof fn law_images_are_annotated_once(blocks: Seq<Block>, numbers: Numbers, seen: Set<AssetId>)
    ensures
        annotated_ids(blocks, numbers, seen).no_duplicates(),
        forall|id: AssetId|
            #[trigger] annotated_ids(blocks, numbers, seen).contains(id) <==> shown_assets(
                blocks,
                numbers,
            ).contains(id) && !seen.contains(id),
    decreases blocks.len(),
{
    if blocks.len() > 0 {
        let head = blocks.drop_last();
        law_images_are_annotated_once(head, numbers, seen);
        if block_text(blocks.last(), numbers) is Some {
            let before = annotated_ids(head, numbers, seen);
            let shown = shown_assets(head, numbers);
            let ids = block_assets(blocks.last());
            let known = seen.union(shown.to_set());
            lemma_fresh_members(ids, known);
            let new = fresh(ids, known);
            let all = before + new;
            assert forall|id: AssetId| #[trigger] all.contains(id) <==> (shown + ids).contains(id)
                && !seen.contains(id) by {
                lemma_concat_contains(before, new, id);
                lemma_concat_contains(shown, ids, id);
                assert(known.contains(id) <==> seen.contains(id) || shown.contains(id));
            }
            assert forall|i: int, j: int|
                0 <= i < all.len() && 0 <= j < all.len() && i != j implies all[i] != all[j] by {
                lemma_disjoint_parts(before, new, shown, known, i, j);
            }
        }
    }
}

proof fn lemma_concat_contains(a: Seq<AssetId>, b: Seq<AssetId>, x: AssetId)
    ensures
        (a + b).contains(x) <==> a.contains(x) || b.contains(x),
{
    if a.contains(x) {
        let k = choose|k: int| 0 <= k < a.len() && a[k] == x;
        assert((a + b)[k] == x);
    }
    if b.contains(x) {
        let k = choose|k: int| 0 <= k < b.len() && b[k] == x;
        assert((a + b)[a.len() + k] == x);
    }
}

proof fn lemma_disjoint_parts(
    a: Seq<AssetId>,
    b: Seq<AssetId>,
    shown: Seq<AssetId>,
    known: Set<AssetId>,
    i: int,
    j: int,
)
    requires
        a.no_duplicates(),
        b.no_duplicates(),
        forall|id: AssetId| #[trigger] a.contains(id) ==> shown.contains(id),
        forall|id: AssetId| #[trigger] b.contains(id) ==> !known.contains(id),
        forall|id: AssetId| #[trigger] shown.contains(id) ==> known.contains(id),
        0 <= i < (a + b).len(),
        0 <= j < (a + b).len(),
        i != j,
    ensures
        (a + b)[i] != (a + b)[j],
{
    let n = a.len();
    if i < n && j >= n {
        assert(a.contains(a[i]));
        assert(b.contains(b[j - n]));
        assert(known.contains(a[i]));
    } else if j < n && i >= n {
        assert(a.contains(a[j]));
        assert(b.contains(b[i - n]));
        assert(known.contains(a[j]));
    }
}

proof fn lemma_no_outcome_no_annotation(ids: Seq<AssetId>, numbers: Numbers)
    ensures
        annotations(ids, numbers, Map::empty()) == Seq::<Seq<char>>::empty(),
    decreases ids.len(),
{
    if ids.len() > 0 {
        lemma_no_outcome_no_annotation(ids.drop_last(), numbers);
    }
}

/// Without outcomes the blocks render as they do without OCR.
pub proof fn law_no_outcome_no_annotation(blocks: Seq<Block>, numbers: Numbers, seen: Set<AssetId>)
    ensures
        annotated_blocks(blocks, numbers, Map::empty(), seen) == rendered(blocks, numbers),
    decreases blocks.len(),
{
    if blocks.len() > 0 {
        let head = blocks.drop_last();
        law_no_outcome_no_annotation(head, numbers, seen);
        lemma_no_outcome_no_annotation(
            fresh(block_assets(blocks.last()), seen.union(shown_assets(head, numbers).to_set())),
            numbers,
        );
        if let Some(t) = block_text(blocks.last(), numbers) {
            let before = rendered(head, numbers);
            assert(before.push(t) + Seq::<Seq<char>>::empty() =~= before.push(t));
        }
    }
}

// ---------------------------------------------------------------------------
// Tables and documents
// ---------------------------------------------------------------------------
proof fn lemma_html_rows_start(grid: Seq<Vec<CellSlot>>, header_rows: nat, numbers: Numbers)
    ensures
        starts_with(html_rows(grid, header_rows, numbers), "<table>"@),
    decreases grid.len(),
{
    let all = html_rows(grid, header_rows, numbers);
    if grid.len() == 0 {
        assert(all.subrange(0, "<table>"@.len() as int) =~= "<table>"@);
    } else {
        lemma_html_rows_start(grid.drop_last(), header_rows, numbers);
        let before = html_rows(grid.drop_last(), header_rows, numbers);
        let n = "<table>"@.len() as int;
        assert(all.subrange(0, n) =~= before.subrange(0, n));
    }
}

/// A table with merged cells renders as an HTML table, or not at all when it
/// shows nothing.
pub proof fn law_merged_cells_render_as_html(table: Table, numbers: Numbers)
    requires
        spans(table),
    ensures
        table_text(table, numbers) matches Some(t) ==> starts_with(t, "<table>"@) && ends_with(
            t,
            "\n</table>"@,
        ),
{
    if let Some(t) = html_table(table, numbers) {
        let rows = html_rows(table.grid@, table.header_rows as nat, numbers);
        lemma_html_rows_start(table.grid@, table.header_rows as nat, numbers);
        let n = "<table>"@.len() as int;
        assert(t.subrange(0, n) =~= rows.subrange(0, n));
        let m = "\n</table>"@.len() as int;
        assert(t.subrange(t.len() - m, t.len() as int) =~= "\n</table>"@);
    }
}

/// A document that shows anything ends with a line feed.
pub proof fn law_documents_end_with_a_line_feed(doc: Document, ocr: Map<AssetId, Option<Seq<char>>>)
    ensures
        document_text(doc, ocr).len() == 0 || document_text(doc, ocr).last() == '\n',
{
}

} // verus!
