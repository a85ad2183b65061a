//! How a Markdown reader sees the text that was written inside a block.

use crate::render::escape::{
    clean_char, escape_upto, escaped, fence_len, is_active, leading_digits, line_start_escape,
    longest_ticks, trailing_ticks, InlineContext,
};
use crate::render::inline::{
    code_char, code_span, code_text, dollars_escaped, math_char, math_span, math_text,
    trailing_backslashes, inline_text, inlines_text, opens_line, style_marks, style_marks_end,
    target_char, target_text, Numbers,
};
use crate::render::model::{
    alphabetic, letter, marker_text, roman, roman_unit, upper, upper_char, Inline, MarkerKind,
    TextStyle,
};
use crate::text::{decimal, is_blank, is_control_char, is_digit_char, run, trim};
use vstd::prelude::*;

verus! {

// ---------------------------------------------------------------------------
// Escaping
// ---------------------------------------------------------------------------
/// What a reader shows of a text in which a backslash takes the meaning from the character
/// behind it.
pub open spec fn read_back(s: Seq<char>) -> Seq<char>
    decreases s.len(),
{
    if s.len() == 0 {
        Seq::empty()
    } else if s[0] == '\\' && s.len() >= 2 {
        seq![s[1]] + read_back(s.skip(2))
    } else {
        seq![s[0]] + read_back(s.skip(1))
    }
}

/// The characters that a reader may give a meaning to: those behind no such backslash.
pub open spec fn left_bare(s: Seq<char>) -> Seq<char>
    decreases s.len(),
{
    if s.len() == 0 {
        Seq::empty()
    } else if s[0] == '\\' && s.len() >= 2 {
        left_bare(s.skip(2))
    } else {
        seq![s[0]] + left_bare(s.skip(1))
    }
}

/// No backslash is left over at the end.
pub open spec fn is_whole(s: Seq<char>) -> bool
    decreases s.len(),
{
    if s.len() == 0 {
        true
    } else if s[0] == '\\' {
        s.len() >= 2 && is_whole(s.skip(2))
    } else {
        is_whole(s.skip(1))
    }
}

/// A character that means something in Markdown text, or in the cell of a pipe table.
pub open spec fn has_meaning(c: char, in_cell: bool) -> bool {
    ||| c == '\\'
    ||| c == '`'
    ||| c == '*'
    ||| c == '_'
    ||| c == '['
    ||| c == ']'
    ||| c == '<'
    ||| c == '$'
    ||| c == '~'
    ||| in_cell && c == '|'
}

/// The text with a blank for every control character.
pub open spec fn is_cleaned(t: Seq<char>, s: Seq<char>) -> bool {
    &&& t.len() == s.len()
    &&& forall|i: int|
        0 <= i < s.len() ==> #[trigger] t[i] == if is_control_char(s[i]) {
            ' '
        } else {
            s[i]
        }
}

proof fn lemma_read_append(a: Seq<char>, b: Seq<char>)
    requires
        is_whole(a),
    ensures
        read_back(a + b) == read_back(a) + read_back(b),
        left_bare(a + b) == left_bare(a) + left_bare(b),
        is_whole(a + b) == is_whole(b),
    decreases a.len(),
{
    if a.len() == 0 {
        assert(a + b =~= b);
        assert(read_back(a) + read_back(b) =~= read_back(b));
        assert(left_bare(a) + left_bare(b) =~= left_bare(b));
    } else if a[0] == '\\' {
        assert((a + b).skip(2) =~= a.skip(2) + b);
        lemma_read_append(a.skip(2), b);
        assert(read_back(a + b) =~= read_back(a) + read_back(b));
    } else {
        assert((a + b).skip(1) =~= a.skip(1) + b);
        lemma_read_append(a.skip(1), b);
        assert(read_back(a + b) =~= read_back(a) + read_back(b));
        assert(left_bare(a + b) =~= left_bare(a) + left_bare(b));
    }
}

proof fn lemma_read_one(c: char)
    ensures
        c != '\\' ==> read_back(seq![c]) == seq![c] && left_bare(seq![c]) == seq![c] && is_whole(
            seq![c],
        ),
        read_back(seq!['\\', c]) == seq![c],
        left_bare(seq!['\\', c]) == Seq::<char>::empty(),
        is_whole(seq!['\\', c]),
{
    assert(seq![c].skip(1) =~= Seq::<char>::empty());
    assert(seq!['\\', c].skip(2) =~= Seq::<char>::empty());
    assert(read_back(Seq::<char>::empty()) =~= Seq::<char>::empty());
    assert(left_bare(Seq::<char>::empty()) =~= Seq::<char>::empty());
    assert(is_whole(Seq::<char>::empty()));
    assert(seq![c] + Seq::<char>::empty() =~= seq![c]);
}

proof fn lemma_escape_upto(s: Seq<char>, ctx: InlineContext, forced: Option<nat>, n: nat)
    requires
        n <= s.len(),
        !(ctx is HtmlCell),
    ensures
        ({
            let e = escape_upto(s, ctx, forced, n);
            &&& is_whole(e)
            &&& is_cleaned(read_back(e), s.take(n as int))
            &&& forall|i: int|
                0 <= i < left_bare(e).len() ==> !has_meaning(
                    #[trigger] left_bare(e)[i],
                    ctx is TableCell,
                )
        }),
    decreases n,
{
    let e = escape_upto(s, ctx, forced, n);
    if n > 0 {
        lemma_escape_upto(s, ctx, forced, (n - 1) as nat);
        let before = escape_upto(s, ctx, forced, (n - 1) as nat);
        let c = s[n - 1];
        let k = clean_char(c);
        lemma_read_one(k);
        let t = if is_active(c, ctx) || forced == Some((n - 1) as nat) {
            seq!['\\', k]
        } else {
            seq![k]
        };
        assert(e =~= before + t);
        assert(k == '\\' ==> c == '\\');
        lemma_read_append(before, t);
        let shown = read_back(e);
        assert(shown == read_back(before) + seq![k]);
        assert forall|i: int| 0 <= i < s.take(n as int).len() implies #[trigger] shown[i]
            == if is_control_char(s.take(n as int)[i]) {
            ' '
        } else {
            s.take(n as int)[i]
        } by {
            if i < n - 1 {
                assert(shown[i] == read_back(before)[i]);
                assert(s.take(n - 1)[i] == s[i]);
            }
        }
        let bare = left_bare(e);
        assert(bare == left_bare(before) + left_bare(t));
        assert forall|i: int| 0 <= i < bare.len() implies !has_meaning(
            #[trigger] bare[i],
            ctx is TableCell,
        ) by {
            if i < left_bare(before).len() {
                assert(bare[i] == left_bare(before)[i]);
            } else {
                assert(bare[i] == k);
            }
        }
    }
}

/// A Markdown reader shows escaped text as it was, with a blank for every control
/// character, and gives a meaning to no character of it.
pub proof fn law_escaped_text_reads_back(s: Seq<char>, ctx: InlineContext, at_line_start: bool)
    requires
        !(ctx is HtmlCell),
    ensures
        is_cleaned(read_back(escaped(s, ctx, at_line_start)), s),
        forall|i: int|
            0 <= i < left_bare(escaped(s, ctx, at_line_start)).len() ==> !has_meaning(
                #[trigger] left_bare(escaped(s, ctx, at_line_start))[i],
                ctx is TableCell,
            ),
{
    lemma_escape_upto(s, ctx, line_start_escape(s, ctx, at_line_start), s.len());
    assert(s.take(s.len() as int) =~= s);
}

proof fn lemma_escape_plain(s: Seq<char>, ctx: InlineContext, forced: Option<nat>, n: nat)
    requires
        n <= s.len(),
        forced matches Some(k) ==> k >= n,
        forall|i: int| 0 <= i < n ==> !is_active(#[trigger] s[i], ctx),
    ensures
        is_cleaned(escape_upto(s, ctx, forced, n), s.take(n as int)),
    decreases n,
{
    if n > 0 {
        lemma_escape_plain(s, ctx, forced, (n - 1) as nat);
        let e = escape_upto(s, ctx, forced, n);
        let before = escape_upto(s, ctx, forced, (n - 1) as nat);
        assert(!is_active(s[n - 1], ctx));
        assert(e == before.push(clean_char(s[n - 1])));
        assert forall|i: int| 0 <= i < s.take(n as int).len() implies #[trigger] e[i]
            == if is_control_char(s.take(n as int)[i]) {
            ' '
        } else {
            s.take(n as int)[i]
        } by {
            if i < n - 1 {
                assert(e[i] == before[i]);
                assert(s.take(n - 1)[i] == s[i]);
            }
        }
    }
}

/// Text without such a character needs no backslash inside a line, and no text does in an
/// HTML cell.
pub proof fn law_plain_text_is_left_alone(s: Seq<char>, ctx: InlineContext)
    requires
        ctx is HtmlCell || forall|i: int|
            0 <= i < s.len() ==> !has_meaning(#[trigger] s[i], ctx is TableCell),
    ensures
        is_cleaned(escaped(s, ctx, false), s),
{
    assert forall|i: int| 0 <= i < s.len() implies !is_active(#[trigger] s[i], ctx) by {
        if !(ctx is HtmlCell) {
            assert(!has_meaning(s[i], ctx is TableCell));
        }
    }
    lemma_escape_plain(s, ctx, None, s.len());
    assert(s.take(s.len() as int) =~= s);
}

proof fn lemma_leading_digits(s: Seq<char>)
    ensures
        leading_digits(s) <= s.len(),
        forall|i: int| 0 <= i < leading_digits(s) ==> is_digit_char(#[trigger] s[i]),
        leading_digits(s) < s.len() ==> !is_digit_char(s[leading_digits(s) as int]),
    decreases s.len(),
{
    if s.len() > 0 && is_digit_char(s.first()) {
        let rest = s.drop_first();
        lemma_leading_digits(rest);
        assert forall|i: int| 0 <= i < leading_digits(s) implies is_digit_char(#[trigger] s[i]) by {
            if i > 0 {
                assert(rest[i - 1] == s[i]);
            }
        }
        if leading_digits(s) < s.len() {
            assert(rest[leading_digits(rest) as int] == s[leading_digits(s) as int]);
        }
    }
}

/// The line opens no heading, quote, list or rule: it begins with no mark for one, and with
/// no number that a dot or a bracket follows.
pub open spec fn opens_nothing(s: Seq<char>) -> bool {
    &&& s.len() > 0 ==> s[0] != '#' && s[0] != '>' && s[0] != '-' && s[0] != '+' && s[0] != '='
    &&& forall|d: int|
        0 < d < s.len() && (#[trigger] s[d] == '.' || s[d] == ')') ==> exists|i: int|
            0 <= i < d && !is_digit_char(#[trigger] s[i])
}

proof fn lemma_escape_prefix(s: Seq<char>, ctx: InlineContext, forced: Option<nat>, d: nat, n: nat)
    requires
        d <= n <= s.len(),
    ensures
        escape_upto(s, ctx, forced, d).len() <= escape_upto(s, ctx, forced, n).len(),
        escape_upto(s, ctx, forced, n).take(escape_upto(s, ctx, forced, d).len() as int)
            == escape_upto(s, ctx, forced, d),
    decreases n,
{
    let a = escape_upto(s, ctx, forced, d);
    let b = escape_upto(s, ctx, forced, n);
    if d < n {
        lemma_escape_prefix(s, ctx, forced, d, (n - 1) as nat);
        let before = escape_upto(s, ctx, forced, (n - 1) as nat);
        assert(b.take(a.len() as int) =~= before.take(a.len() as int));
    } else {
        assert(b.take(a.len() as int) =~= a);
    }
}

/// Text at the start of a line of a block opens no other block.
pub proof fn law_text_opens_no_block(s: Seq<char>)
    ensures
        opens_nothing(escaped(s, InlineContext::Block, true)),
{
    let ctx = InlineContext::Block;
    let forced = line_start_escape(s, ctx, true);
    let e = escaped(s, ctx, true);
    lemma_leading_digits(s);
    let k = leading_digits(s);
    if s.len() > 0 {
        lemma_escape_prefix(s, ctx, forced, 1, s.len());
        let one = escape_upto(s, ctx, forced, 1);
        assert(escape_upto(s, ctx, forced, 0) =~= Seq::<char>::empty());
        assert(e.take(one.len() as int)[0] == e[0]);
        assert(one[0] == if is_active(s[0], ctx) || forced == Some(0nat) {
            '\\'
        } else {
            clean_char(s[0])
        });
        assert forall|d: int|
            0 < d < e.len() && (#[trigger] e[d] == '.' || e[d] == ')') implies exists|i: int|
            0 <= i < d && !is_digit_char(#[trigger] e[i]) by {
            if forced == Some(0nat) || is_active(s[0], ctx) || !is_digit_char(s[0]) {
                assert(!is_digit_char(e[0]));
            } else {
                // The digits come out as they are, and what follows them is not bare.
                assert(k > 0) by {
                    assert(s.first() == s[0]);
                }
                lemma_digits_stay(s, forced, k);
                lemma_escape_prefix(s, ctx, forced, k, s.len());
                assert forall|i: int| 0 <= i < k implies #[trigger] e[i] == s[i] by {
                    assert(e.take(k as int)[i] == s.take(k as int)[i]);
                }
                if d < k {
                    assert(is_digit_char(s[d]));
                    assert(e[d] == s[d]);
                } else {
                    lemma_escape_length(s, ctx, forced, s.len());
                    assert(k < s.len()) by {
                        if k == s.len() {
                            assert(e.len() == k);
                        }
                    }
                    lemma_escape_prefix(s, ctx, forced, k + 1, s.len());
                    let more = escape_upto(s, ctx, forced, k + 1);
                    assert(e.take(more.len() as int)[k as int] == more[k as int]);
                    let c = s[k as int];
                    assert(!is_digit_char(c));
                    assert(e[k as int] == if is_active(c, ctx) || forced == Some(k) {
                        '\\'
                    } else {
                        clean_char(c)
                    });
                    assert(!is_digit_char(e[k as int]));
                    if d == k {
                        assert(c == '.' || c == ')');
                        assert(forced == Some(k));
                    }
                }
            }
        }
    }
}

proof fn lemma_digits_stay(s: Seq<char>, forced: Option<nat>, n: nat)
    requires
        n <= s.len(),
        forced matches Some(k) ==> k >= n,
        forall|i: int| 0 <= i < n ==> is_digit_char(#[trigger] s[i]),
    ensures
        escape_upto(s, InlineContext::Block, forced, n) == s.take(n as int),
    decreases n,
{
    if n > 0 {
        lemma_digits_stay(s, forced, (n - 1) as nat);
        assert(is_digit_char(s[n - 1]));
        assert(s.take(n as int) =~= s.take(n - 1).push(s[n - 1]));
    } else {
        assert(s.take(0) =~= Seq::<char>::empty());
    }
}

proof fn lemma_escape_length(s: Seq<char>, ctx: InlineContext, forced: Option<nat>, n: nat)
    requires
        n <= s.len(),
    ensures
        escape_upto(s, ctx, forced, n).len() >= n,
    decreases n,
{
    if n > 0 {
        lemma_escape_length(s, ctx, forced, (n - 1) as nat);
    }
}

// ---------------------------------------------------------------------------
// Code
// ---------------------------------------------------------------------------
proof fn lemma_trailing_ticks(s: Seq<char>, k: nat)
    requires
        k <= s.len(),
        forall|i: int| s.len() - k <= i < s.len() ==> #[trigger] s[i] == '`',
    ensures
        trailing_ticks(s) >= k,
    decreases k,
{
    if k > 0 {
        assert(s[s.len() - 1] == '`');
        let front = s.drop_last();
        assert forall|i: int| front.len() - (k - 1) <= i < front.len() implies #[trigger] front[i]
            == '`' by {
            assert(front[i] == s[i]);
        }
        lemma_trailing_ticks(front, (k - 1) as nat);
    }
}

proof fn lemma_longest_ticks(s: Seq<char>, k: nat, at: int)
    requires
        0 <= at,
        at + k <= s.len(),
        forall|i: int| at <= i < at + k ==> #[trigger] s[i] == '`',
    ensures
        k <= longest_ticks(s),
    decreases s.len(),
{
    if s.len() > 0 {
        if at + k == s.len() {
            lemma_trailing_ticks(s, k);
        } else {
            let front = s.drop_last();
            assert forall|i: int| at <= i < at + k implies #[trigger] front[i] == '`' by {
                assert(front[i] == s[i]);
            }
            lemma_longest_ticks(front, k, at);
        }
    }
}

/// A fence is longer than every run of backticks in what it encloses, and as long as asked.
pub proof fn law_fences_enclose(s: Seq<char>, least: nat, k: nat, at: int)
    requires
        0 <= at,
        at + k <= s.len(),
        forall|i: int| at <= i < at + k ==> #[trigger] s[i] == '`',
    ensures
        k < fence_len(s, least),
        least <= fence_len(s, least),
{
    lemma_longest_ticks(s, k, at);
}

/// A code span is its text between two equal fences, a blank inside each where the text has
/// a backtick at either end. A bar in a pipe table gets a backslash, and a control character
/// is shown as a blank; nothing else changes.
pub proof fn law_code_spans_hold_their_text(s: Seq<char>, ctx: InlineContext)
    ensures
        ({
            let fence = run('`', fence_len(s, 1));
            let pad = if s.len() > 0 && (s[0] == '`' || s[s.len() - 1] == '`') {
                seq![' ']
            } else {
                Seq::<char>::empty()
            };
            code_span(s, ctx) == fence + pad + code_text(s, ctx) + pad + fence
        }),
        !(ctx is TableCell) ==> is_cleaned(code_text(s, ctx), s),
        ctx is TableCell && !s.contains('|') ==> is_cleaned(code_text(s, ctx), s),
        forall|a: Seq<char>, b: Seq<char>|
            s == #[trigger] (a.push('|') + b) && ctx is TableCell ==> code_text(s, ctx) == code_text(
                a,
                ctx,
            ) + seq!['\\', '|'] + code_text(b, ctx),
{
    if !(ctx is TableCell) || !s.contains('|') {
        lemma_code_text(s, ctx);
    }
    assert forall|a: Seq<char>, b: Seq<char>|
        s == #[trigger] (a.push('|') + b) && ctx is TableCell implies code_text(s, ctx)
        == code_text(a, ctx) + seq!['\\', '|'] + code_text(b, ctx) by {
        lemma_code_append(a.push('|'), b, ctx);
        assert(a.push('|').drop_last() =~= a);
    }
}

proof fn lemma_code_append(a: Seq<char>, b: Seq<char>, ctx: InlineContext)
    ensures
        code_text(a + b, ctx) == code_text(a, ctx) + code_text(b, ctx),
    decreases b.len(),
{
    if b.len() == 0 {
        assert(a + b =~= a);
        assert(code_text(a, ctx) + code_text(b, ctx) =~= code_text(a, ctx));
    } else {
        assert((a + b).drop_last() =~= a + b.drop_last());
        lemma_code_append(a, b.drop_last(), ctx);
        assert(code_text(a + b, ctx) =~= code_text(a, ctx) + code_text(b, ctx));
    }
}

proof fn lemma_code_text(s: Seq<char>, ctx: InlineContext)
    requires
        !(ctx is TableCell) || !s.contains('|'),
    ensures
        is_cleaned(code_text(s, ctx), s),
    decreases s.len(),
{
    if s.len() > 0 {
        let front = s.drop_last();
        if front.contains('|') {
            let i = choose|i: int| 0 <= i < front.len() && front[i] == '|';
            assert(s[i] == '|');
        }
        lemma_code_text(front, ctx);
        assert(s[s.len() - 1] == s.last());
        let t = code_text(s, ctx);
        assert(code_char(s.last(), ctx) == seq![clean_char(s.last())]);
        assert forall|i: int| 0 <= i < s.len() implies #[trigger] t[i] == if is_control_char(s[i]) {
            ' '
        } else {
            s[i]
        } by {
            if i < front.len() {
                assert(t[i] == code_text(front, ctx)[i]);
                assert(front[i] == s[i]);
            }
        }
    }
}

// ---------------------------------------------------------------------------
// Formulas
// ---------------------------------------------------------------------------
proof fn lemma_dollars_backslashes(s: Seq<char>)
    ensures
        trailing_backslashes(dollars_escaped(s)) == trailing_backslashes(s),
    decreases s.len(),
{
    if s.len() > 0 {
        let before = dollars_escaped(s.drop_last());
        lemma_dollars_backslashes(s.drop_last());
        if s.last() == '\\' {
            assert(dollars_escaped(s).drop_last() =~= before);
        }
    }
}

/// No dollar sign inside a formula ends it: an odd number of backslashes stands before each.
/// A formula without a dollar sign is left alone.
pub proof fn law_dollars_do_not_end_a_formula(s: Seq<char>)
    ensures
        forall|k: int|
            0 <= k < dollars_escaped(s).len() && #[trigger] dollars_escaped(s)[k] == '$'
                ==> trailing_backslashes(dollars_escaped(s).take(k)) % 2 == 1,
        !s.contains('$') ==> dollars_escaped(s) == s,
    decreases s.len(),
{
    if s.len() > 0 {
        let head = s.drop_last();
        let before = dollars_escaped(head);
        let all = dollars_escaped(s);
        law_dollars_do_not_end_a_formula(head);
        lemma_dollars_backslashes(head);
        assert forall|k: int| 0 <= k < all.len() && #[trigger] all[k] == '$' implies
            trailing_backslashes(all.take(k)) % 2 == 1 by {
            if k < before.len() {
                assert(all[k] == before[k]);
                assert(all.take(k) =~= before.take(k));
            } else if k == all.len() - 1 {
                if s.last() == '$' && trailing_backslashes(head) % 2 == 0 {
                    assert(all.take(k) =~= before.push('\\'));
                    assert(before.push('\\').drop_last() =~= before);
                } else {
                    assert(all.take(k) =~= before);
                }
            }
        }
        if !s.contains('$') {
            assert(s[s.len() - 1] != '$');
            if head.contains('$') {
                let i = choose|i: int| 0 <= i < head.len() && head[i] == '$';
                assert(s[i] == '$');
            }
            assert(all =~= s);
        }
    }
}

/// A formula stands between dollar signs, without the white space around it; in a pipe table
/// a bar is written as a command, so that it ends no cell.
pub proof fn law_formulas_stand_between_dollars(tex: Seq<char>, ctx: InlineContext, a: Seq<char>, b: Seq<
    char,
>)
    ensures
        math_span(tex, ctx) == seq!['$'] + math_text(dollars_escaped(trim(tex)), ctx) + seq!['$'],
        math_text(a + b, ctx) == math_text(a, ctx) + math_text(b, ctx),
        math_text(seq!['|'], InlineContext::TableCell) == "\\vert "@,
        !(ctx is TableCell) || !a.contains('|') ==> is_cleaned(math_text(a, ctx), a),
{
    lemma_math_append(a, b, ctx);
    assert(seq!['|'].drop_last() =~= Seq::<char>::empty());
    assert(seq!['|'].last() == '|');
    assert(math_text(Seq::<char>::empty(), InlineContext::TableCell) =~= Seq::<char>::empty());
    assert(math_text(seq!['|'], InlineContext::TableCell) =~= "\\vert "@);
    if !(ctx is TableCell) || !a.contains('|') {
        lemma_math_text(a, ctx);
    }
}

proof fn lemma_math_append(a: Seq<char>, b: Seq<char>, ctx: InlineContext)
    ensures
        math_text(a + b, ctx) == math_text(a, ctx) + math_text(b, ctx),
    decreases b.len(),
{
    if b.len() == 0 {
        assert(a + b =~= a);
        assert(math_text(a, ctx) + math_text(b, ctx) =~= math_text(a, ctx));
    } else {
        assert((a + b).drop_last() =~= a + b.drop_last());
        lemma_math_append(a, b.drop_last(), ctx);
        assert(math_text(a + b, ctx) =~= math_text(a, ctx) + math_text(b, ctx));
    }
}

proof fn lemma_math_text(s: Seq<char>, ctx: InlineContext)
    requires
        !(ctx is TableCell) || !s.contains('|'),
    ensures
        is_cleaned(math_text(s, ctx), s),
    decreases s.len(),
{
    if s.len() > 0 {
        let front = s.drop_last();
        if front.contains('|') {
            let i = choose|i: int| 0 <= i < front.len() && front[i] == '|';
            assert(s[i] == '|');
        }
        lemma_math_text(front, ctx);
        assert(s[s.len() - 1] == s.last());
        let t = math_text(s, ctx);
        assert(math_char(s.last(), ctx) == seq![clean_char(s.last())]);
        assert forall|i: int| 0 <= i < s.len() implies #[trigger] t[i] == if is_control_char(s[i]) {
            ' '
        } else {
            s[i]
        } by {
            if i < front.len() {
                assert(t[i] == math_text(front, ctx)[i]);
                assert(front[i] == s[i]);
            }
        }
    }
}

// ---------------------------------------------------------------------------
// Links
// ---------------------------------------------------------------------------
/// A character that would end the target of a link or break it.
pub open spec fn breaks_target(c: char) -> bool {
    c == ' ' || c == '(' || c == ')' || c == '<' || c == '>' || is_control_char(c)
}

proof fn lemma_target_char(c: char)
    ensures
        forall|i: int| 0 <= i < target_char(c).len() ==> !breaks_target(#[trigger] target_char(c)[i]),
        !breaks_target(c) ==> target_char(c) == seq![c],
        is_control_char(c) ==> target_char(c).len() == 0,
        !is_control_char(c) && breaks_target(c) ==> target_char(c).len() == 3 && target_char(c)[0]
            == '%',
{
    reveal_strlit("%20");
    reveal_strlit("%28");
    reveal_strlit("%29");
    reveal_strlit("%3C");
    reveal_strlit("%3E");
}

/// The target of a link holds nothing that would end it. One that holds nothing of the kind
/// is left alone, and the parts of a target come out one behind the other.
pub proof fn law_link_targets_are_safe(s: Seq<char>, a: Seq<char>, b: Seq<char>)
    ensures
        forall|i: int| 0 <= i < target_text(s).len() ==> !breaks_target(#[trigger] target_text(s)[i]),
        (forall|i: int| 0 <= i < s.len() ==> !breaks_target(#[trigger] s[i])) ==> target_text(s)
            == s,
        target_text(a + b) == target_text(a) + target_text(b),
        target_text(seq![' ']) == "%20"@,
        target_text(seq!['(']) == "%28"@,
        target_text(seq![')']) == "%29"@,
        target_text(seq!['<']) == "%3C"@,
        target_text(seq!['>']) == "%3E"@,
{
    lemma_target(s);
    lemma_target_append(a, b);
    lemma_target_one(' ');
    lemma_target_one('(');
    lemma_target_one(')');
    lemma_target_one('<');
    lemma_target_one('>');
}

proof fn lemma_target_one(c: char)
    ensures
        target_text(seq![c]) == target_char(c),
{
    assert(seq![c].drop_last() =~= Seq::<char>::empty());
    assert(target_text(Seq::<char>::empty()) =~= Seq::<char>::empty());
    assert(seq![c].last() == c);
    assert(target_text(seq![c]) =~= target_char(c));
}

proof fn lemma_target(s: Seq<char>)
    ensures
        forall|i: int| 0 <= i < target_text(s).len() ==> !breaks_target(#[trigger] target_text(s)[i]),
        (forall|i: int| 0 <= i < s.len() ==> !breaks_target(#[trigger] s[i])) ==> target_text(s)
            == s,
    decreases s.len(),
{
    if s.len() > 0 {
        let front = s.drop_last();
        lemma_target(front);
        lemma_target_char(s.last());
        let t = target_text(s);
        assert forall|i: int| 0 <= i < t.len() implies !breaks_target(#[trigger] t[i]) by {
            let n = target_text(front).len();
            if i < n {
                assert(t[i] == target_text(front)[i]);
            } else {
                assert(t[i] == target_char(s.last())[i - n]);
            }
        }
        if forall|i: int| 0 <= i < s.len() ==> !breaks_target(#[trigger] s[i]) {
            assert forall|i: int| 0 <= i < front.len() implies !breaks_target(#[trigger] front[i]) by {
                assert(front[i] == s[i]);
            }
            assert(!breaks_target(s[s.len() - 1]));
            assert(t =~= s);
        }
    }
}

proof fn lemma_target_append(a: Seq<char>, b: Seq<char>)
    ensures
        target_text(a + b) == target_text(a) + target_text(b),
    decreases b.len(),
{
    if b.len() == 0 {
        assert(a + b =~= a);
        assert(target_text(a) + target_text(b) =~= target_text(a));
    } else {
        assert((a + b).drop_last() =~= a + b.drop_last());
        lemma_target_append(a, b.drop_last());
        assert(target_text(a + b) =~= target_text(a) + target_text(b));
    }
}

// ---------------------------------------------------------------------------
// Runs of text
// ---------------------------------------------------------------------------
/// Styled text stands between marks that close in the opposite order: two tildes for
/// struck text outside, two stars for bold, one for italic inside. Blank text has none.
pub proof fn law_styles_enclose_the_text(
    text: String,
    style: TextStyle,
    ctx: InlineContext,
    numbers: Numbers,
)
    ensures
        ({
            let shown = inline_text(Inline::Text { text, style }, ctx, numbers, false);
            let marks = style_marks(style);
            &&& is_blank(text@) ==> shown == escaped(text@, ctx, false)
            &&& !is_blank(text@) ==> shown == marks + escaped(text@, ctx, false) + marks.reverse()
            &&& marks.len() == (if style.strike {
                2int
            } else {
                0
            }) + (if style.bold {
                2int
            } else {
                0
            }) + (if style.italic {
                1int
            } else {
                0
            })
            &&& forall|i: int|
                0 <= i < marks.len() ==> #[trigger] marks[i] == if style.strike && i < 2 {
                    '~'
                } else {
                    '*'
                }
        }),
{
    reveal_strlit("~~");
    reveal_strlit("**");
    reveal_strlit("*");
    assert(style_marks_end(style) =~= style_marks(style).reverse());
}

/// The parts of a run of text stand one behind the other, and the second knows whether it
/// begins a line.
pub proof fn law_inlines_stand_in_order(
    a: Seq<Inline>,
    b: Seq<Inline>,
    ctx: InlineContext,
    numbers: Numbers,
    at_start: bool,
)
    ensures
        ({
            let first = inlines_text(a, ctx, numbers, at_start);
            let starts = if first.len() == 0 {
                at_start
            } else {
                first[first.len() - 1] == '\n'
            };
            inlines_text(a + b, ctx, numbers, at_start) == first + inlines_text(
                b,
                ctx,
                numbers,
                starts,
            )
        }),
    decreases b.len(),
{
    let first = inlines_text(a, ctx, numbers, at_start);
    let starts = opens_line(first, at_start);
    if b.len() == 0 {
        assert(a + b =~= a);
        assert(first + inlines_text(b, ctx, numbers, starts) =~= first);
    } else {
        assert((a + b).drop_last() =~= a + b.drop_last());
        law_inlines_stand_in_order(a, b.drop_last(), ctx, numbers, at_start);
        let front = inlines_text(b.drop_last(), ctx, numbers, starts);
        let before = first + front;
        assert(inlines_text((a + b).drop_last(), ctx, numbers, at_start) == before);
        if front.len() > 0 {
            assert(before.last() == front.last());
        } else {
            assert(before =~= first);
        }
        assert(opens_line(before, at_start) == opens_line(front, starts));
        assert((a + b).last() == b.last());
        assert(inlines_text(a + b, ctx, numbers, at_start) =~= first + inlines_text(
            b,
            ctx,
            numbers,
            starts,
        ));
    }
}

// ---------------------------------------------------------------------------
// Labels
// ---------------------------------------------------------------------------
/// The number that letters count to: a to z, then aa to az, and so on.
pub open spec fn letters_value(s: Seq<char>) -> nat
    decreases s.len(),
{
    if s.len() == 0 {
        0
    } else {
        letters_value(s.drop_last()) * 26 + (s.last() as nat - 96) as nat
    }
}

/// A letter label counts to its number.
pub proof fn law_letters_count(n: nat)
    ensures
        letters_value(alphabetic(n)) == n,
        forall|i: int| 0 <= i < alphabetic(n).len() ==> 'a' <= #[trigger] alphabetic(n)[i] <= 'z',
        n > 0 ==> alphabetic(n).len() > 0,
    decreases n,
{
    if n > 0 {
        let rest = ((n - 1) / 26) as nat;
        let d = ((n - 1) % 26) as nat;
        law_letters_count(rest);
        let s = alphabetic(n);
        assert(s == alphabetic(rest).push(letter(d)));
        assert(s.drop_last() =~= alphabetic(rest));
        assert(0 <= d < 26);
        assert(letter(d) as nat == 97 + d);
        assert forall|i: int| 0 <= i < s.len() implies 'a' <= #[trigger] s[i] <= 'z' by {
            if i < alphabetic(rest).len() {
                assert(s[i] == alphabetic(rest)[i]);
            }
        }
        assert(rest * 26 + d == n - 1);
    }
}

/// The value of a Roman digit.
pub open spec fn digit_value(c: char) -> int {
    if c == 'm' {
        1000
    } else if c == 'd' {
        500
    } else if c == 'c' {
        100
    } else if c == 'l' {
        50
    } else if c == 'x' {
        10
    } else if c == 'v' {
        5
    } else {
        1
    }
}

/// The value of a Roman number: a digit before a larger one is taken off.
pub open spec fn roman_value(s: Seq<char>) -> int
    decreases s.len(),
{
    if s.len() == 0 {
        0
    } else if s.len() >= 2 && digit_value(s[0]) < digit_value(s[1]) {
        roman_value(s.skip(1)) - digit_value(s[0])
    } else {
        roman_value(s.skip(1)) + digit_value(s[0])
    }
}

/// A Roman label has the value that it stands for.
pub proof fn law_roman_numbers_have_their_value(n: nat)
    ensures
        roman_value(roman(n)) == n,
        n > 0 ==> roman(n).len() > 0 && digit_value(roman(n)[0]) <= n,
    decreases n,
{
    if n > 0 {
        let (value, letters) = roman_unit(n);
        let rest = (n - value) as nat;
        law_roman_numbers_have_their_value(rest);
        let s = roman(n);
        let t = roman(rest);
        assert(s == letters + t);
        if letters.len() == 1 {
            assert(s.skip(1) =~= t);
            assert(s[0] == letters[0]);
            if t.len() > 0 {
                assert(s[1] == t[0]);
                assert(rest > 0) by {
                    if rest == 0 {
                        assert(t.len() == 0);
                    }
                }
                assert(digit_value(t[0]) <= digit_value(s[0]));
            }
            assert(digit_value(s[0]) == value);
            assert(roman_value(s) == roman_value(t) + value);
        } else {
            assert(s[0] == letters[0] && s[1] == letters[1]);
            assert(s.skip(1).skip(1) =~= t);
            let tail = s.skip(1);
            assert(tail[0] == letters[1]);
            if t.len() > 0 {
                assert(tail[1] == t[0]);
                assert(rest > 0) by {
                    if rest == 0 {
                        assert(t.len() == 0);
                    }
                }
                assert(digit_value(t[0]) <= digit_value(tail[0]));
            }
            assert(roman_value(tail) == roman_value(t) + digit_value(letters[1]));
            assert(digit_value(letters[1]) - digit_value(letters[0]) == value);
            assert(roman_value(s) == roman_value(tail) - digit_value(letters[0]));
        }
    } else {
        assert(roman(0) =~= Seq::<char>::empty());
    }
}

/// A label is its number in the writing of its kind and a dot. Capitals are the small
/// letters of the same number; numbers that have no such writing are decimal.
pub proof fn law_labels_are_numbers(n: u64)
    ensures
        marker_text(MarkerKind::Decimal, n) == decimal(n as nat) + seq!['.'],
        n > 0 ==> marker_text(MarkerKind::LowerAlpha, n) == alphabetic(n as nat) + seq!['.'],
        1 <= n <= 3999 ==> marker_text(MarkerKind::LowerRoman, n) == roman(n as nat) + seq!['.'],
        !(1 <= n <= 3999) ==> marker_text(MarkerKind::LowerRoman, n) == marker_text(
            MarkerKind::Decimal,
            n,
        ) && marker_text(MarkerKind::UpperRoman, n) == marker_text(MarkerKind::Decimal, n),
        n == 0 ==> marker_text(MarkerKind::LowerAlpha, n) == marker_text(MarkerKind::Decimal, n)
            && marker_text(MarkerKind::UpperAlpha, n) == marker_text(MarkerKind::Decimal, n),
        n > 0 ==> is_capital_of(
            marker_text(MarkerKind::UpperAlpha, n),
            marker_text(MarkerKind::LowerAlpha, n),
        ),
        1 <= n <= 3999 ==> is_capital_of(
            marker_text(MarkerKind::UpperRoman, n),
            marker_text(MarkerKind::LowerRoman, n),
        ),
{
    assert(marker_text(MarkerKind::Decimal, n) =~= decimal(n as nat) + seq!['.']);
    if n > 0 {
        assert(marker_text(MarkerKind::LowerAlpha, n) =~= alphabetic(n as nat) + seq!['.']);
        lemma_capitals(alphabetic(n as nat));
    }
    if 1 <= n <= 3999 {
        assert(marker_text(MarkerKind::LowerRoman, n) =~= roman(n as nat) + seq!['.']);
        lemma_capitals(roman(n as nat));
    }
}

/// The same text with capitals for its small letters.
pub open spec fn is_capital_of(big: Seq<char>, small: Seq<char>) -> bool {
    &&& big.len() == small.len()
    &&& forall|i: int|
        0 <= i < small.len() ==> if 'a' <= small[i] <= 'z' {
            #[trigger] big[i] as int == small[i] as int - 32
        } else {
            big[i] == small[i]
        }
}

proof fn lemma_capitals(s: Seq<char>)
    ensures
        is_capital_of(upper(s).push('.'), s.push('.')),
{
    let big = upper(s).push('.');
    let small = s.push('.');
    assert forall|i: int| 0 <= i < small.len() implies if 'a' <= small[i] <= 'z' {
        #[trigger] big[i] as int == small[i] as int - 32
    } else {
        big[i] == small[i]
    } by {
        if i < s.len() {
            assert(big[i] == upper_char(s[i]));
            assert(small[i] == s[i]);
        }
    }
}

} // verus!
