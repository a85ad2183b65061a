//! What a document shows, block by block.

use crate::ocr::image_pass::annotation;
use crate::render::escape::{fence_len, InlineContext};
use crate::render::inline::{inlines_text, number_of, Numbers};
use crate::render::markdown::{
    annotated_blocks, annotations, block_assets, block_text, blocks_assets, define_all, define_id,
    define_note, document_numbers, document_parts, document_text, drop_leading_empty,
    drop_trailing_empty, find_note, fresh, hang, hang_upto, hard_break, inline_assets,
    inlines_assets, item_marker, items_text, loose, note_blank, note_definition, paragraph_line,
    paragraph_lines, paragraph_text, refs_blocks, refs_inline, refs_inlines, rendered, NotesState,
};
use crate::render::model::{
    AssetId, Block, Document, ImageSource, Inline, List, ListItem, MarkerKind, Note,
};
use crate::text::{
    decimal, is_blank, is_white, joined, lemma_trim_end_shape, lines, run, starts_with, trim,
    trim_end, trim_end_char, trim_start,
};
use vstd::prelude::*;

verus! {

// ---------------------------------------------------------------------------
// Blocks
// ---------------------------------------------------------------------------
/// The blocks of a document are shown one behind the other; a block that shows nothing
/// leaves no trace.
pub proof fn law_blocks_stand_in_order(a: Seq<Block>, b: Seq<Block>, block: Block, numbers: Numbers)
    ensures
        rendered(a + b, numbers) == rendered(a, numbers) + rendered(b, numbers),
        rendered(seq![block], numbers) == match block_text(block, numbers) {
            Some(t) => seq![t],
            None => Seq::<Seq<char>>::empty(),
        },
    decreases b.len(),
{
    assert(seq![block].drop_last() =~= Seq::<Block>::empty());
    assert(rendered(Seq::<Block>::empty(), numbers) =~= Seq::<Seq<char>>::empty());
    assert(seq![block].last() == block);
    if let Some(t) = block_text(block, numbers) {
        assert(rendered(seq![block], numbers) =~= seq![t]);
    }
    if b.len() == 0 {
        assert(a + b =~= a);
        assert(rendered(a, numbers) + rendered(b, numbers) =~= rendered(a, numbers));
    } else {
        assert((a + b).drop_last() =~= a + b.drop_last());
        assert((a + b).last() == b.last());
        law_blocks_stand_in_order(a, b.drop_last(), block, numbers);
        assert(rendered(a + b, numbers) =~= rendered(a, numbers) + rendered(b, numbers));
    }
}

/// A heading is as many number signs as its level, six at most and one at least, a blank,
/// and its text on one line; without text there is no heading.
pub proof fn law_headings_show_their_level(level: u8, content: Vec<Inline>, numbers: Numbers)
    ensures
        ({
            let text = trim(inlines_text(content@, InlineContext::Heading, numbers, true));
            let shown = block_text(Block::Heading { level, content }, numbers);
            &&& shown is None <==> text.len() == 0
            &&& shown matches Some(s) ==> exists|k: int| #[trigger]
                is_heading(s, k, text) && 1 <= k <= 6 && (1 <= level <= 6 ==> k == level) && (level
                    > 6 ==> k == 6) && (level == 0 ==> k == 1)
        }),
{
    reveal_strlit(" ");
    let text = trim(inlines_text(content@, InlineContext::Heading, numbers, true));
    if let Some(s) = block_text(Block::Heading { level, content }, numbers) {
        let k = crate::render::markdown::heading_level(level) as int;
        assert(s == run('#', k as nat) + " "@ + text);
        assert(s.skip(k + 1) =~= text);
        assert(is_heading(s, k, text));
    }
}

/// The line is a heading of the level with the text.
pub open spec fn is_heading(s: Seq<char>, k: int, text: Seq<char>) -> bool {
    &&& 0 <= k < s.len()
    &&& forall|i: int| 0 <= i < k ==> #[trigger] s[i] == '#'
    &&& s[k] == ' '
    &&& s.skip(k + 1) == text
}

/// A block of code is a fence of at least three backticks with the language behind it, the
/// text without the line feeds at its end, and the fence again, which the text does not
/// contain.
pub proof fn law_code_blocks_hold_their_text(
    lang: Option<String>,
    text: String,
    numbers: Numbers,
    k: nat,
    at: int,
)
    requires
        0 <= at,
        at + k <= text@.len(),
        forall|i: int| at <= i < at + k ==> #[trigger] text@[i] == '`',
    ensures
        ({
            let n = fence_len(text@, 3);
            let fence = run('`', n);
            let first = match lang {
                Some(l) => fence + l@,
                None => fence,
            };
            &&& n >= 3
            &&& k < n
            &&& block_text(Block::CodeBlock { lang, text }, numbers) == Some(
                joined(seq![first, trim_end_char(text@, '\n'), fence], "\n"@),
            )
            &&& trim_end_char(text@, '\n').len() <= text@.len()
            &&& trim_end_char(text@, '\n') == text@.take(trim_end_char(text@, '\n').len() as int)
            &&& forall|i: int|
                trim_end_char(text@, '\n').len() <= i < text@.len() ==> #[trigger] text@[i] == '\n'
        }),
{
    crate::render::inline_laws::law_fences_enclose(text@, 3, k, at);
    let n = fence_len(text@, 3);
    let fence = run('`', n);
    let first = match lang {
        Some(l) => fence + l@,
        None => fence,
    };
    let body = trim_end_char(text@, '\n');
    let parts = seq![first, body, fence];
    assert(parts.drop_last() =~= seq![first, body]);
    assert(seq![first, body].drop_last() =~= seq![first]);
    assert(joined(seq![first], "\n"@) == first);
    assert(joined(seq![first, body], "\n"@) == first + "\n"@ + body);
    assert(joined(parts, "\n"@) == first + "\n"@ + body + "\n"@ + fence);
    let shown = block_text(Block::CodeBlock { lang, text }, numbers)->0;
    assert(shown =~= first + "\n"@ + body + "\n"@ + fence);
    lemma_trim_end_char(text@, '\n');
}

proof fn lemma_trim_end_char(s: Seq<char>, c: char)
    ensures
        trim_end_char(s, c).len() <= s.len(),
        trim_end_char(s, c) == s.take(trim_end_char(s, c).len() as int),
        trim_end_char(s, c).len() > 0 ==> trim_end_char(s, c).last() != c,
        forall|i: int| trim_end_char(s, c).len() <= i < s.len() ==> #[trigger] s[i] == c,
    decreases s.len(),
{
    let t = trim_end_char(s, c);
    if s.len() > 0 && s.last() == c {
        let front = s.drop_last();
        lemma_trim_end_char(front, c);
        assert(t =~= s.take(t.len() as int));
        assert forall|i: int| t.len() <= i < s.len() implies #[trigger] s[i] == c by {
            if i < front.len() {
                assert(front[i] == s[i]);
            }
        }
    } else {
        assert(t =~= s.take(t.len() as int));
    }
}

/// A quote marks every line of what it holds: a mark and a blank before it, or the mark
/// alone where the line is empty.
pub proof fn law_quotes_mark_every_line(blocks: Vec<Block>, numbers: Numbers)
    ensures
        ({
            let inner = joined(rendered(blocks@, numbers), "\n\n"@);
            let shown = block_text(Block::BlockQuote(blocks), numbers);
            &&& shown is None <==> inner.len() == 0
            &&& shown matches Some(s) ==> exists|all: Seq<Seq<char>>|
                s == #[trigger] joined(all, "\n"@) && are_quoted(all, lines(inner))
        }),
{
    let inner = joined(rendered(blocks@, numbers), "\n\n"@);
    let all = crate::render::markdown::quote(lines(inner));
    assert(are_quoted(all, lines(inner)));
    if inner.len() > 0 {
        assert(block_text(Block::BlockQuote(blocks), numbers)->0 == joined(all, "\n"@));
    }
}

/// The lines with a mark before each.
pub open spec fn are_quoted(all: Seq<Seq<char>>, body: Seq<Seq<char>>) -> bool {
    &&& all.len() == body.len()
    &&& forall|i: int|
        0 <= i < body.len() ==> #[trigger] all[i] == if body[i].len() == 0 {
            ">"@
        } else {
            "> "@ + body[i]
        }
}

/// Formulas stand between lines of two dollar signs, without the white space around them;
/// without a formula there is nothing. A rule is three dashes.
pub proof fn law_formulas_and_rules(tex: String, numbers: Numbers)
    ensures
        is_blank(tex@) <==> block_text(Block::Math(tex), numbers) is None,
        block_text(Block::Math(tex), numbers) matches Some(s) ==> starts_with(s, "$$\n"@)
            && crate::text::ends_with(s, "\n$$"@) && s.len() >= trim(tex@).len() + 6,
        block_text(Block::Rule, numbers) == Some("---"@),
{
    reveal_strlit("$$\n");
    reveal_strlit("\n$$");
    if let Some(s) = block_text(Block::Math(tex), numbers) {
        let inner = crate::render::inline::dollars_escaped(trim(tex@));
        assert(s == "$$\n"@ + inner + "\n$$"@);
        assert(s.subrange(0, 3) =~= "$$\n"@);
        assert(s.skip(s.len() - 3) =~= "\n$$"@);
        lemma_dollars_grow(trim(tex@));
    }
}

proof fn lemma_dollars_grow(s: Seq<char>)
    ensures
        crate::render::inline::dollars_escaped(s).len() >= s.len(),
    decreases s.len(),
{
    if s.len() > 0 {
        lemma_dollars_grow(s.drop_last());
    }
}

// ---------------------------------------------------------------------------
// Lists
// ---------------------------------------------------------------------------
/// The text is its lines behind a prefix: the first right behind it, the others below it,
/// except that empty lines stay empty.
pub open spec fn hangs(
    out: Seq<char>,
    prefix: Seq<char>,
    indent: Seq<char>,
    body: Seq<Seq<char>>,
    all: Seq<Seq<char>>,
) -> bool {
    &&& out == joined(all, "\n"@)
    &&& body.len() == 0 ==> all == seq![prefix]
    &&& body.len() > 0 ==> {
        &&& all.len() == body.len()
        &&& all[0] == prefix + body[0]
        &&& forall|i: int|
            0 < i < body.len() ==> #[trigger] all[i] == if body[i].len() == 0 {
                Seq::<char>::empty()
            } else {
                indent + body[i]
            }
    }
}

proof fn lemma_hang(prefix: Seq<char>, indent: Seq<char>, body: Seq<Seq<char>>, n: nat) -> (all: Seq<
    Seq<char>,
>)
    requires
        n <= body.len(),
    ensures
        hangs(hang_upto(prefix, indent, body, n), prefix, indent, body.take(n as int), all),
    decreases n,
{
    if n == 0 {
        assert(joined(seq![prefix], "\n"@) == prefix);
        assert(body.take(0) =~= Seq::<Seq<char>>::empty());
        seq![prefix]
    } else if n == 1 {
        let all = seq![prefix + body[0]];
        assert(joined(all, "\n"@) == prefix + body[0]);
        all
    } else {
        let before = lemma_hang(prefix, indent, body, (n - 1) as nat);
        let line = if body[n - 1].len() == 0 {
            Seq::<char>::empty()
        } else {
            indent + body[n - 1]
        };
        let all = before.push(line);
        let out = hang_upto(prefix, indent, body, n);
        assert(all.drop_last() =~= before);
        assert(before.len() == n - 1);
        assert(joined(all, "\n"@) == joined(before, "\n"@) + "\n"@ + line);
        assert(out =~= joined(all, "\n"@));
        let some = body.take(n as int);
        let less = body.take(n - 1);
        assert(all[0] == before[0] && some[0] == less[0]);
        assert forall|i: int| 0 < i < some.len() implies #[trigger] all[i] == if some[i].len() == 0 {
            Seq::<char>::empty()
        } else {
            indent + some[i]
        } by {
            if i < n - 1 {
                assert(all[i] == before[i]);
                assert(some[i] == less[i]);
            }
        }
        all
    }
}

proof fn lemma_item(
    items: Seq<ListItem>,
    kind: MarkerKind,
    start: u64,
    numbers: Numbers,
    k: int,
)
    requires
        0 <= k < items.len(),
    ensures
        items_text(items, kind, start, numbers).len() == items.len(),
        ({
            let marker = item_marker(
                items[k].marker_label,
                kind,
                crate::render::table::item_number(start, k as nat),
            );
            items_text(items, kind, start, numbers)[k] == hang(
                marker,
                run(' ', marker.len()),
                lines(joined(rendered(items[k].blocks@, numbers), "\n\n"@)),
            )
        }),
    decreases items.len(),
{
    let front = items.drop_last();
    if front.len() > 0 {
        lemma_item(front, kind, start, numbers, if k < front.len() {
            k
        } else {
            0
        });
    } else {
        assert(items_text(front, kind, start, numbers) =~= Seq::<Seq<char>>::empty());
    }
    assert(items_text(front, kind, start, numbers).len() == front.len());
    if k < front.len() {
        assert(front[k] == items[k]);
        assert(items_text(items, kind, start, numbers)[k] == items_text(
            front,
            kind,
            start,
            numbers,
        )[k]);
    }
}

/// A list shows every item in its place: behind its marker, the lines below the first moved
/// in by the width of the marker. The items are a line apart, or two where one of them needs
/// room.
pub proof fn law_lists_show_every_item(list: List, numbers: Numbers, k: int) -> (all: Seq<Seq<char>>)
    requires
        0 <= k < list.items@.len(),
    ensures
        ({
            let shown = items_text(list.items@, list.marker, list.start, numbers);
            let marker = item_marker(
                list.items@[k].marker_label,
                list.marker,
                crate::render::table::item_number(list.start, k as nat),
            );
            &&& shown.len() == list.items@.len()
            &&& block_text(Block::List(list), numbers) == Some(
                joined(
                    shown,
                    if loose(list.items@, numbers) {
                        "\n\n"@
                    } else {
                        "\n"@
                    },
                ),
            )
            &&& hangs(
                shown[k],
                marker,
                run(' ', marker.len()),
                lines(joined(rendered(list.items@[k].blocks@, numbers), "\n\n"@)),
                all,
            )
        }),
{
    lemma_item(list.items@, list.marker, list.start, numbers, k);
    let marker = item_marker(
        list.items@[k].marker_label,
        list.marker,
        crate::render::table::item_number(list.start, k as nat),
    );
    let body = lines(joined(rendered(list.items@[k].blocks@, numbers), "\n\n"@));
    assert(body.take(body.len() as int) =~= body);
    lemma_hang(marker, run(' ', marker.len()), body, body.len())
}

/// The items of a numbered list count up from its start, as far as numbers go; those of
/// other lists get a dash, with the label behind it where there is one.
pub proof fn law_items_count_up(start: u64, k: nat, number: u64, label: String)
    requires
        number == crate::render::table::item_number(start, k),
    ensures
        number == start + k || (number == u64::MAX && start + k > u64::MAX),
        item_marker(None, MarkerKind::Decimal, number) == decimal(number as nat) + seq!['.', ' '],
        item_marker(None, MarkerKind::Bullet, number) == seq!['-', ' '],
        forall|kind: MarkerKind|
            !(kind is Decimal) && !(kind is Bullet) ==> #[trigger] item_marker(None, kind, number)
                == seq!['-', ' '] + crate::render::model::marker_text(kind, number) + seq![' '],
        forall|kind: MarkerKind| #[trigger]
            item_marker(Some(label), kind, number) == seq!['-', ' ']
                + crate::render::escape::escaped(label@, InlineContext::Block, true) + seq![' '],
{
    reveal_strlit("- ");
    reveal_strlit(". ");
    reveal_strlit(" ");
    assert("- "@ =~= seq!['-', ' ']);
    assert(". "@ =~= seq!['.', ' ']);
    assert(" "@ =~= seq![' ']);
}

/// An item needs room when it has more than one block, or an empty line inside.
pub proof fn law_items_with_room_make_a_loose_list(items: Seq<ListItem>, numbers: Numbers)
    ensures
        loose(items, numbers) <==> exists|k: int|
            0 <= k < items.len() && #[trigger] needs_room(items[k], numbers),
    decreases items.len(),
{
    if items.len() > 0 {
        let front = items.drop_last();
        let n = items.len() - 1;
        law_items_with_room_make_a_loose_list(front, numbers);
        if loose(front, numbers) {
            let k = choose|k: int| 0 <= k < front.len() && #[trigger] needs_room(front[k], numbers);
            assert(front[k] == items[k]);
            assert(needs_room(items[k], numbers));
        }
        if exists|k: int| 0 <= k < items.len() && #[trigger] needs_room(items[k], numbers) {
            let k = choose|k: int| 0 <= k < items.len() && #[trigger] needs_room(items[k], numbers);
            if k < n {
                assert(front[k] == items[k]);
                assert(needs_room(front[k], numbers));
            }
        }
        assert(items[n] == items.last());
        if needs_room(items[n], numbers) {
            assert(loose(items, numbers));
        }
    }
}

pub open spec fn needs_room(item: ListItem, numbers: Numbers) -> bool {
    let body = lines(joined(rendered(item.blocks@, numbers), "\n\n"@));
    item.blocks@.len() > 1 || exists|i: int| 1 <= i < body.len() && (#[trigger] body[i]).len() == 0
}

// ---------------------------------------------------------------------------
// Paragraphs
// ---------------------------------------------------------------------------
/// A line of a paragraph loses the white space around it, but not what makes it break; a
/// line of nothing but backslashes and white space is empty.
pub proof fn law_paragraph_lines_are_trimmed(line: Seq<char>)
    ensures
        paragraph_line(line).len() == 0 || paragraph_line(line) == trim_start(line)
            || paragraph_line(line) == trim(line),
        paragraph_line(line).len() > 0 && !hard_break(trim_start(line)) ==> paragraph_line(line)
            == trim(line),
        paragraph_line(line).len() > 0 && hard_break(trim_start(line)) ==> paragraph_line(line)
            == trim_start(line),
        paragraph_line(line).len() == 0 ==> forall|i: int|
            0 <= i < line.len() ==> is_white(#[trigger] line[i]) || line[i] == '\\',
{
    let start = trim_start(line);
    let t = if hard_break(start) {
        start
    } else {
        trim_end(start)
    };
    crate::text_laws::lemma_trim_start_shape(line);
    lemma_trim_end_shape(start);
    lemma_trim_end_char(t, '\\');
    if paragraph_line(line).len() == 0 {
        let core = trim_end_char(t, '\\');
        assert(is_blank(core) || t.len() == 0);
        assert forall|i: int| 0 <= i < line.len() implies is_white(#[trigger] line[i]) || line[i]
            == '\\' by {
            let d = line.len() - start.len();
            if i >= d {
                assert(line[i] == start[i - d]);
                if i - d < t.len() {
                    assert(t[i - d] == start[i - d]);
                    if i - d < core.len() {
                        assert(core[i - d] == t[i - d]);
                    }
                }
            }
        }
    }
}

proof fn lemma_drop_empty(all: Seq<Seq<char>>)
    ensures
        ({
            let a = drop_leading_empty(all);
            &&& a.len() <= all.len()
            &&& a == all.skip(all.len() - a.len())
            &&& a.len() > 0 ==> a[0].len() > 0
            &&& forall|i: int| 0 <= i < all.len() - a.len() ==> (#[trigger] all[i]).len() == 0
        }),
    decreases all.len(),
{
    let a = drop_leading_empty(all);
    if all.len() > 0 && all.first().len() == 0 {
        let rest = all.drop_first();
        lemma_drop_empty(rest);
        assert(a =~= all.skip(all.len() - a.len()));
        assert forall|i: int| 0 <= i < all.len() - a.len() implies (#[trigger] all[i]).len() == 0 by {
            if i > 0 {
                assert(rest[i - 1] == all[i]);
            }
        }
    } else {
        assert(a =~= all.skip(0));
    }
}

proof fn lemma_drop_trailing(all: Seq<Seq<char>>)
    ensures
        ({
            let a = drop_trailing_empty(all);
            &&& a.len() <= all.len()
            &&& a == all.take(a.len() as int)
            &&& a.len() > 0 ==> a.last().len() > 0
            &&& forall|i: int| a.len() <= i < all.len() ==> (#[trigger] all[i]).len() == 0
        }),
    decreases all.len(),
{
    let a = drop_trailing_empty(all);
    if all.len() > 0 && all.last().len() == 0 {
        let front = all.drop_last();
        lemma_drop_trailing(front);
        assert(a =~= all.take(a.len() as int));
        assert forall|i: int| a.len() <= i < all.len() implies (#[trigger] all[i]).len() == 0 by {
            if i < front.len() {
                assert(front[i] == all[i]);
            }
        }
    } else {
        assert(a =~= all.take(a.len() as int));
    }
}

/// A paragraph is its trimmed lines from the first that shows anything to the last, each on
/// a line of its own; a break at its very end is dropped.
pub proof fn law_paragraphs_keep_their_lines(text: Seq<char>) -> (range: (int, int))
    ensures
        ({
            let (from, to) = range;
            let all = lines(text);
            let core = Seq::new((to - from) as nat, |i: int| paragraph_line(all[from + i]));
            let whole = joined(core, "\n"@);
            &&& 0 <= from <= to <= all.len()
            &&& forall|i: int|
                0 <= i < from || to <= i < all.len() ==> paragraph_line(#[trigger] all[i]).len()
                    == 0
            &&& from < to ==> paragraph_line(all[from]).len() > 0 && paragraph_line(all[to - 1]).len()
                > 0
            &&& !hard_break(whole) ==> paragraph_text(text) == whole
            &&& hard_break(whole) ==> paragraph_text(text) == trim_end(whole.drop_last())
        }),
{
    let all = lines(text);
    let shown = paragraph_lines(all);
    let a = drop_leading_empty(shown);
    let b = drop_trailing_empty(a);
    lemma_drop_empty(shown);
    lemma_drop_trailing(a);
    let from = shown.len() - a.len();
    let to = from + b.len();
    let core = Seq::new((to - from) as nat, |i: int| paragraph_line(all[from + i]));
    assert(b =~= core) by {
        assert forall|i: int| 0 <= i < b.len() implies b[i] == core[i] by {
            assert(b[i] == a[i]);
            assert(a[i] == shown[from + i]);
        }
    }
    assert forall|i: int| 0 <= i < from || to <= i < all.len() implies paragraph_line(
        #[trigger] all[i],
    ).len() == 0 by {
        assert(shown[i] == paragraph_line(all[i]));
        if i >= to {
            assert(a[i - from] == shown[i]);
        }
    }
    if from < to {
        assert(a[0] == shown[from]);
        assert(b.last() == a[b.len() - 1]);
        assert(a[b.len() - 1] == shown[to - 1]);
        if b.len() > 0 {
            assert(a.len() > 0);
        }
    }
    (from, to)
}

// ---------------------------------------------------------------------------
// Notes
// ---------------------------------------------------------------------------
/// The note that a reference leads to is the first of that name that shows anything.
pub proof fn law_references_lead_to_the_first_note(notes: Seq<Note>, id: Seq<char>) -> (at: int)
    ensures
        match find_note(notes, id) {
            Some(note) => {
                &&& 0 <= at < notes.len()
                &&& notes[at] == note
                &&& note.id@ == id
                &&& !note_blank(note)
                &&& forall|i: int|
                    0 <= i < at ==> (#[trigger] notes[i]).id@ != id || note_blank(notes[i])
            },
            None => forall|i: int|
                0 <= i < notes.len() ==> (#[trigger] notes[i]).id@ != id || note_blank(notes[i]),
        },
    decreases notes.len(),
{
    if notes.len() == 0 {
        0
    } else if notes.first().id@ == id && !note_blank(notes.first()) {
        0
    } else {
        let rest = notes.drop_first();
        let at = law_references_lead_to_the_first_note(rest, id);
        match find_note(notes, id) {
            Some(note) => {
                assert(notes[at + 1] == rest[at]);
                assert forall|i: int| 0 <= i < at + 1 implies (#[trigger] notes[i]).id@ != id
                    || note_blank(notes[i]) by {
                    if i > 0 {
                        assert(rest[i - 1] == notes[i]);
                    }
                }
            },
            None => {
                assert forall|i: int| 0 <= i < notes.len() implies (#[trigger] notes[i]).id@ != id
                    || note_blank(notes[i]) by {
                    if i > 0 {
                        assert(rest[i - 1] == notes[i]);
                    }
                }
            },
        }
        at + 1
    }
}

/// Notes are numbered as they are referred to, from the beginning of the text to its end,
/// and a note right before those that it refers to itself.
pub proof fn law_notes_are_numbered_as_referred_to(
    a: Seq<Inline>,
    b: Seq<Inline>,
    c: Seq<Block>,
    d: Seq<Block>,
    notes: Seq<Note>,
    order: Seq<Seq<char>>,
    depth: nat,
    id: String,
)
    ensures
        refs_inlines(a + b, notes, order, depth) == refs_inlines(
            b,
            notes,
            refs_inlines(a, notes, order, depth),
            depth,
        ),
        refs_blocks(c + d, notes, order, depth) == refs_blocks(
            d,
            notes,
            refs_blocks(c, notes, order, depth),
            depth,
        ),
        find_note(notes, id@) is None || order.contains(id@) ==> refs_inline(
            Inline::NoteRef(id),
            notes,
            order,
            depth,
        ) == order,
        find_note(notes, id@) matches Some(note) ==> !order.contains(id@) && depth > 0
            ==> refs_inline(Inline::NoteRef(id), notes, order, depth) == refs_blocks(
            note.blocks@,
            notes,
            order + seq![id@],
            (depth - 1) as nat,
        ),
{
    lemma_refs_inlines(a, b, notes, order, depth);
    lemma_refs_blocks(c, d, notes, order, depth);
    assert(order.push(id@) =~= order + seq![id@]);
}

proof fn lemma_refs_inlines(
    a: Seq<Inline>,
    b: Seq<Inline>,
    notes: Seq<Note>,
    order: Seq<Seq<char>>,
    depth: nat,
)
    ensures
        refs_inlines(a + b, notes, order, depth) == refs_inlines(
            b,
            notes,
            refs_inlines(a, notes, order, depth),
            depth,
        ),
    decreases b.len(),
{
    if b.len() == 0 {
        assert(a + b =~= a);
    } else {
        assert((a + b).drop_last() =~= a + b.drop_last());
        assert((a + b).last() == b.last());
        lemma_refs_inlines(a, b.drop_last(), notes, order, depth);
    }
}

proof fn lemma_refs_blocks(
    a: Seq<Block>,
    b: Seq<Block>,
    notes: Seq<Note>,
    order: Seq<Seq<char>>,
    depth: nat,
)
    ensures
        refs_blocks(a + b, notes, order, depth) == refs_blocks(
            b,
            notes,
            refs_blocks(a, notes, order, depth),
            depth,
        ),
    decreases b.len(),
{
    if b.len() == 0 {
        assert(a + b =~= a);
    } else {
        assert((a + b).drop_last() =~= a + b.drop_last());
        assert((a + b).last() == b.last());
        lemma_refs_blocks(a, b.drop_last(), notes, order, depth);
    }
}

/// A part of the document that defines a note: its number, and the note of that number with
/// its lines moved in.
pub open spec fn is_definition(
    part: Seq<char>,
    n: nat,
    notes: Seq<Note>,
    numbers: Numbers,
    ocr: Map<AssetId, Option<Seq<char>>>,
) -> bool {
    exists|k: int, seen: Set<AssetId>, all: Seq<Seq<char>>|
        0 <= k < notes.len() && (#[trigger] notes[k]).id@ == numbers.notes[n - 1] && #[trigger] hangs(
            part,
            "[^"@ + decimal(n) + "]: "@,
            "    "@,
            lines(joined(annotated_blocks(notes[k].blocks@, numbers, ocr, seen), "\n\n"@)),
            all,
        )
}

/// The parts from `from` on define notes, in the order of their numbers.
pub open spec fn define_notes(
    parts: Seq<Seq<char>>,
    from: int,
    by: Seq<nat>,
    n: nat,
    notes: Seq<Note>,
    numbers: Numbers,
    ocr: Map<AssetId, Option<Seq<char>>>,
) -> bool {
    &&& 0 <= from
    &&& parts.len() == from + by.len()
    &&& forall|i: int, j: int| 0 <= i < j < by.len() ==> #[trigger] by[i] < #[trigger] by[j]
    &&& forall|i: int|
        0 <= i < by.len() ==> 1 <= #[trigger] by[i] <= n && is_definition(
            parts[from + i],
            by[i],
            notes,
            numbers,
            ocr,
        )
}

proof fn lemma_define_note(
    notes: Seq<Note>,
    k: int,
    number: nat,
    numbers: Numbers,
    ocr: Map<AssetId, Option<Seq<char>>>,
    state: NotesState,
)
    requires
        0 <= k < notes.len(),
        number > 0,
        notes[k].id@ == numbers.notes[number - 1],
    ensures
        ({
            let next = define_note(notes[k], number, numbers, ocr, state);
            ||| next.parts == state.parts && next.defined == state.defined
            ||| !state.defined && next.defined && next.parts.len() == state.parts.len() + 1
                && next.parts.drop_last() == state.parts && is_definition(
                next.parts.last(),
                number,
                notes,
                numbers,
                ocr,
            )
        }),
{
    let next = define_note(notes[k], number, numbers, ocr, state);
    let body = joined(annotated_blocks(notes[k].blocks@, numbers, ocr, state.seen), "\n\n"@);
    if body.len() > 0 && !state.defined {
        let prefix = "[^"@ + decimal(number) + "]: "@;
        let part = note_definition(number, body);
        assert(next.parts.drop_last() =~= state.parts);
        assert(lines(body).take(lines(body).len() as int) =~= lines(body));
        let all = lemma_hang(prefix, "    "@, lines(body), lines(body).len());
        assert(hangs(part, prefix, "    "@, lines(body), all));
    }
}

proof fn lemma_define_id(
    all: Seq<Note>,
    n: int,
    number: nat,
    numbers: Numbers,
    ocr: Map<AssetId, Option<Seq<char>>>,
    state: NotesState,
)
    requires
        0 <= n <= all.len(),
        number > 0,
    ensures
        ({
            let next = define_id(
                all.take(n),
                numbers.notes[number - 1],
                number,
                numbers,
                ocr,
                state,
            );
            ||| next.parts == state.parts && !next.defined
            ||| next.defined && next.parts.len() == state.parts.len() + 1 && next.parts.drop_last()
                == state.parts && is_definition(next.parts.last(), number, all, numbers, ocr)
        }),
    decreases n,
{
    let id = numbers.notes[number - 1];
    if n > 0 {
        lemma_define_id(all, n - 1, number, numbers, ocr, state);
        assert(all.take(n).drop_last() =~= all.take(n - 1));
        assert(all.take(n).last() == all[n - 1]);
        let before = define_id(all.take(n - 1), id, number, numbers, ocr, state);
        if all[n - 1].id@ == id {
            lemma_define_note(all, n - 1, number, numbers, ocr, before);
        }
    }
}

proof fn lemma_define_all(
    notes: Seq<Note>,
    n: nat,
    numbers: Numbers,
    ocr: Map<AssetId, Option<Seq<char>>>,
    state: NotesState,
) -> (by: Seq<nat>)
    requires
        n <= numbers.notes.len(),
    ensures
        define_notes(
            define_all(notes, n, numbers, ocr, state).parts,
            state.parts.len() as int,
            by,
            n,
            notes,
            numbers,
            ocr,
        ),
        define_all(notes, n, numbers, ocr, state).parts.take(state.parts.len() as int)
            == state.parts,
    decreases n,
{
    let from = state.parts.len() as int;
    if n == 0 {
        assert(state.parts.take(from) =~= state.parts);
        Seq::empty()
    } else {
        let before = lemma_define_all(notes, (n - 1) as nat, numbers, ocr, state);
        let mid = define_all(notes, (n - 1) as nat, numbers, ocr, state);
        let next = define_all(notes, n, numbers, ocr, state);
        assert(notes.take(notes.len() as int) =~= notes);
        lemma_define_id(notes, notes.len() as int, n, numbers, ocr, mid);
        if next.defined {
            let by = before.push(n);
            assert forall|i: int| 0 <= i < by.len() implies 1 <= #[trigger] by[i] <= n
                && is_definition(next.parts[from + i], by[i], notes, numbers, ocr) by {
                if i < before.len() {
                    assert(by[i] == before[i]);
                    assert(next.parts.drop_last()[from + i] == mid.parts[from + i]);
                } else {
                    assert(next.parts.last() == next.parts[from + i]);
                }
            }
            assert forall|i: int, j: int| 0 <= i < j < by.len() implies #[trigger] by[i]
                < #[trigger] by[j] by {
                assert(by[i] == before[i]);
                if j < before.len() {
                    assert(by[j] == before[j]);
                }
            }
            assert(next.parts.take(from) =~= next.parts.drop_last().take(from));
            by
        } else {
            assert forall|i: int| 0 <= i < before.len() implies 1 <= #[trigger] before[i] <= n
                && is_definition(next.parts[from + i], before[i], notes, numbers, ocr) by {}
            before
        }
    }
}

/// A document is its blocks, with the annotations of its pictures, and behind them its
/// notes in the order of their numbers, each defined at most once; an empty line separates
/// the parts, and a line feed ends the whole.
pub proof fn law_documents_are_their_parts(
    doc: Document,
    ocr: Map<AssetId, Option<Seq<char>>>,
) -> (by: Seq<nat>)
    ensures
        ({
            let parts = document_parts(doc, ocr);
            let numbers = document_numbers(doc);
            let text = annotated_blocks(doc.blocks@, numbers, ocr, Set::empty());
            let whole = joined(parts, "\n\n"@);
            &&& define_notes(
                parts,
                text.len() as int,
                by,
                numbers.notes.len(),
                doc.notes@,
                numbers,
                ocr,
            )
            &&& parts.take(text.len() as int) == text
            &&& whole.len() > 0 ==> document_text(doc, ocr) == whole + seq!['\n']
            &&& whole.len() == 0 ==> document_text(doc, ocr).len() == 0
        }),
{
    let numbers = document_numbers(doc);
    let state = NotesState {
        parts: annotated_blocks(doc.blocks@, numbers, ocr, Set::empty()),
        seen: crate::render::markdown::shown_assets(doc.blocks@, numbers).to_set(),
        defined: false,
    };
    let whole = joined(document_parts(doc, ocr), "\n\n"@);
    assert(whole.push('\n') =~= whole + seq!['\n']);
    lemma_define_all(doc.notes@, numbers.notes.len(), numbers, ocr, state)
}

// ---------------------------------------------------------------------------
// Pictures
// ---------------------------------------------------------------------------
/// The pictures of a text are those of its parts, one behind the other: an embedded picture
/// is one, a picture elsewhere none, and a link has those of its content.
pub proof fn law_pictures_stand_in_order(
    a: Seq<Inline>,
    b: Seq<Inline>,
    c: Seq<Block>,
    d: Seq<Block>,
    id: AssetId,
    alt: String,
    content: Vec<Inline>,
    target: String,
)
    ensures
        inlines_assets(a + b) == inlines_assets(a) + inlines_assets(b),
        blocks_assets(c + d) == blocks_assets(c) + blocks_assets(d),
        inline_assets(Inline::Image { source: ImageSource::Asset(id), alt }) == seq![id],
        inline_assets(Inline::Image { source: ImageSource::External(alt), alt }).len() == 0,
        inline_assets(Inline::Link { content, target }) == inlines_assets(content@),
        block_assets(Block::Paragraph(content)) == inlines_assets(content@),
        forall|level: u8| #[trigger]
            block_assets(Block::Heading { level, content }) == inlines_assets(content@),
{
    lemma_inlines_assets(a, b);
    lemma_blocks_assets(c, d);
}

proof fn lemma_inlines_assets(a: Seq<Inline>, b: Seq<Inline>)
    ensures
        inlines_assets(a + b) == inlines_assets(a) + inlines_assets(b),
    decreases b.len(),
{
    if b.len() == 0 {
        assert(a + b =~= a);
        assert(inlines_assets(a) + inlines_assets(b) =~= inlines_assets(a));
    } else {
        assert((a + b).drop_last() =~= a + b.drop_last());
        assert((a + b).last() == b.last());
        lemma_inlines_assets(a, b.drop_last());
        assert(inlines_assets(a + b) =~= inlines_assets(a) + inlines_assets(b));
    }
}

proof fn lemma_blocks_assets(a: Seq<Block>, b: Seq<Block>)
    ensures
        blocks_assets(a + b) == blocks_assets(a) + blocks_assets(b),
    decreases b.len(),
{
    if b.len() == 0 {
        assert(a + b =~= a);
        assert(blocks_assets(a) + blocks_assets(b) =~= blocks_assets(a));
    } else {
        assert((a + b).drop_last() =~= a + b.drop_last());
        assert((a + b).last() == b.last());
        lemma_blocks_assets(a, b.drop_last());
        assert(blocks_assets(a + b) =~= blocks_assets(a) + blocks_assets(b));
    }
}

/// Pictures are numbered as they first appear: what comes later changes no number, and a
/// picture that was there before gets no new one.
pub proof fn law_pictures_are_numbered_once(ids: Seq<AssetId>, seen: Set<AssetId>, id: AssetId)
    ensures
        fresh(Seq::empty(), seen).len() == 0,
        seen.contains(id) || ids.contains(id) ==> fresh(ids + seq![id], seen) == fresh(ids, seen),
        !seen.contains(id) && !ids.contains(id) ==> fresh(ids + seq![id], seen) == fresh(ids, seen)
            + seq![id],
{
    crate::render::markdown::lemma_fresh_members(ids, seen);
    let more = ids + seq![id];
    assert(more.drop_last() =~= ids);
    assert(more.last() == id);
    assert(fresh(ids, seen).push(id) =~= fresh(ids, seen) + seq![id]);
}

/// The annotations of a row of pictures stand one behind the other: for each that was
/// recognized, or should have been, the one with its number.
pub proof fn law_annotations_stand_in_order(
    a: Seq<AssetId>,
    b: Seq<AssetId>,
    id: AssetId,
    numbers: Numbers,
    ocr: Map<AssetId, Option<Seq<char>>>,
)
    ensures
        annotations(a + b, numbers, ocr) == annotations(a, numbers, ocr) + annotations(
            b,
            numbers,
            ocr,
        ),
        annotations(seq![id], numbers, ocr) == match number_of(numbers.assets, id) {
            Some(n) => if ocr.dom().contains(id) {
                seq![annotation(n, ocr[id])]
            } else {
                Seq::<Seq<char>>::empty()
            },
            None => Seq::<Seq<char>>::empty(),
        },
    decreases b.len(),
{
    assert(seq![id].drop_last() =~= Seq::<AssetId>::empty());
    assert(seq![id].last() == id);
    assert(annotations(Seq::<AssetId>::empty(), numbers, ocr) =~= Seq::<Seq<char>>::empty());
    if let Some(n) = number_of(numbers.assets, id) {
        if ocr.dom().contains(id) {
            assert(annotations(seq![id], numbers, ocr) =~= seq![annotation(n, ocr[id])]);
        }
    }
    if b.len() == 0 {
        assert(a + b =~= a);
        assert(annotations(a, numbers, ocr) + annotations(b, numbers, ocr) =~= annotations(
            a,
            numbers,
            ocr,
        ));
    } else {
        assert((a + b).drop_last() =~= a + b.drop_last());
        assert((a + b).last() == b.last());
        law_annotations_stand_in_order(a, b.drop_last(), id, numbers, ocr);
        assert(annotations(a + b, numbers, ocr) =~= annotations(a, numbers, ocr) + annotations(
            b,
            numbers,
            ocr,
        ));
    }
}

} // verus!
