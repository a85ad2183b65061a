//! What holds of trimming, splitting, joining, replacing and writing numbers.

use crate::text::{
    decimal, is_blank, is_digit_char, is_white, joined, last_index, lemma_decimal_digits,
    lemma_joined_front, lemma_trim_end_shape, lemma_until, lemma_word_len, lines, lower, lower_char,
    occurs_at, has_sub, replace_all, run, split, starts_with, strip_cr, trim, trim_start, until,
    word_len, words,
};
use vstd::prelude::*;

verus! {

// ---------------------------------------------------------------------------
// Trimming
// ---------------------------------------------------------------------------
pub(crate) proof fn lemma_trim_start_shape(s: Seq<char>)
    ensures
        trim_start(s).len() <= s.len(),
        trim_start(s) == s.skip(s.len() - trim_start(s).len()),
        trim_start(s).len() > 0 ==> !is_white(trim_start(s).first()),
        forall|i: int| 0 <= i < s.len() - trim_start(s).len() ==> is_white(#[trigger] s[i]),
    decreases s.len(),
{
    if s.len() > 0 && is_white(s.first()) {
        let t = s.drop_first();
        lemma_trim_start_shape(t);
        assert(trim_start(s) =~= s.skip(s.len() - trim_start(s).len()));
        assert forall|i: int| 0 <= i < s.len() - trim_start(s).len() implies is_white(
            #[trigger] s[i],
        ) by {
            if i > 0 {
                assert(t[i - 1] == s[i]);
            }
        }
    } else {
        assert(s.skip(0) =~= s);
    }
}

/// Trimming cuts white space off both ends, all of it and nothing else.
pub proof fn law_trimming_cuts_white_space_only(s: Seq<char>) -> (at: int)
    ensures
        0 <= at,
        at + trim(s).len() <= s.len(),
        occurs_at(s, trim(s), at),
        forall|i: int| 0 <= i < at ==> is_white(#[trigger] s[i]),
        forall|i: int| at + trim(s).len() <= i < s.len() ==> is_white(#[trigger] s[i]),
        trim(s).len() > 0 ==> !is_white(trim(s).first()) && !is_white(trim(s).last()),
        trim(s).len() == 0 <==> is_blank(s),
{
    let t = trim_start(s);
    lemma_trim_start_shape(s);
    lemma_trim_end_shape(t);
    let at = s.len() - t.len();
    assert(s.subrange(at, at + trim(s).len()) =~= trim(s));
    assert forall|i: int| at + trim(s).len() <= i < s.len() implies is_white(#[trigger] s[i]) by {
        assert(t[i - at] == s[i]);
    }
    if trim(s).len() > 0 {
        assert(trim(s)[0] == t[0]);
        assert(s[at] == t[0]);
    }
    at
}

// ---------------------------------------------------------------------------
// Lines, words and pieces
// ---------------------------------------------------------------------------
/// The pieces of a text, joined again, are the text; none of them holds what it was
/// split at.
pub proof fn law_split_pieces_join_again(s: Seq<char>, c: char)
    ensures
        split(s, c).len() > 0,
        joined(split(s, c), seq![c]) == s,
        forall|i: int| 0 <= i < split(s, c).len() ==> !(#[trigger] split(s, c)[i]).contains(c),
    decreases s.len(),
{
    lemma_until(s, c);
    let n = until(s, c) as int;
    let all = split(s, c);
    if n < s.len() {
        let rest = split(s.skip(n + 1), c);
        law_split_pieces_join_again(s.skip(n + 1), c);
        lemma_joined_front(all, seq![c]);
        assert(all.drop_first() =~= rest);
        assert(s =~= s.take(n) + seq![c] + s.skip(n + 1));
        assert forall|i: int| 0 <= i < all.len() implies !(#[trigger] all[i]).contains(c) by {
            if i > 0 {
                assert(all[i] == rest[i - 1]);
            }
        }
    }
}

/// Characters that are neither a line feed nor a carriage return.
pub open spec fn is_ink() -> spec_fn(char) -> bool {
    |c: char| c != '\n' && c != '\r'
}

pub open spec fn without_ends(s: Seq<char>) -> Seq<char> {
    s.filter(is_ink())
}

pub open spec fn flattened(parts: Seq<Seq<char>>) -> Seq<char>
    decreases parts.len(),
{
    if parts.len() == 0 {
        seq![]
    } else {
        parts[0] + flattened(parts.drop_first())
    }
}

proof fn lemma_filter_add(s: Seq<char>, t: Seq<char>, f: spec_fn(char) -> bool)
    ensures
        (s + t).filter(f) == s.filter(f) + t.filter(f),
{
    Seq::<char>::filter_distributes_over_add(s, t, f);
}

proof fn lemma_filter_one(c: char, f: spec_fn(char) -> bool)
    ensures
        seq![c].filter(f) == if f(c) {
            seq![c]
        } else {
            Seq::<char>::empty()
        },
{
    reveal(Seq::filter);
    assert(seq![c].drop_last() =~= Seq::<char>::empty());
    assert(Seq::<char>::empty().filter(f) =~= Seq::<char>::empty());
}

proof fn lemma_filter_empty(f: spec_fn(char) -> bool)
    ensures
        Seq::<char>::empty().filter(f) == Seq::<char>::empty(),
{
    reveal(Seq::filter);
}

/// Lines hold everything of a text but the line feeds and carriage returns, in order.
pub proof fn law_lines_keep_the_text(s: Seq<char>)
    ensures
        without_ends(flattened(lines(s))) == without_ends(s),
        forall|i: int| 0 <= i < lines(s).len() ==> !(#[trigger] lines(s)[i]).contains('\n'),
    decreases s.len(),
{
    crate::text::lemma_lines_have_no_feed(s);
    lemma_until(s, '\n');
    let n = until(s, '\n') as int;
    let f = is_ink();
    if s.len() == 0 {
        assert(flattened(lines(s)) =~= s);
    } else if n >= s.len() {
        assert(lines(s).drop_first() =~= Seq::<Seq<char>>::empty());
        assert(flattened(Seq::<Seq<char>>::empty()) =~= Seq::<char>::empty());
        assert(flattened(lines(s)) =~= s);
    } else {
        let rest = s.skip(n + 1);
        let first = s.take(n);
        law_lines_keep_the_text(rest);
        assert(lines(s).drop_first() =~= lines(rest));
        lemma_filter_add(strip_cr(first), flattened(lines(rest)), f);
        assert(s =~= first + seq!['\n'] + rest);
        lemma_filter_add(first + seq!['\n'], rest, f);
        lemma_filter_add(first, seq!['\n'], f);
        lemma_filter_one('\n', f);
        lemma_filter_one('\r', f);
        if first.len() > 0 && first.last() == '\r' {
            assert(first =~= strip_cr(first) + seq!['\r']);
            lemma_filter_add(strip_cr(first), seq!['\r'], f);
            assert(strip_cr(first).filter(f) + Seq::<char>::empty() =~= strip_cr(first).filter(f));
        }
        assert(first.filter(f) + Seq::<char>::empty() =~= first.filter(f));
    }
}

pub open spec fn is_visible() -> spec_fn(char) -> bool {
    |c: char| !is_white(c)
}

pub open spec fn visible(s: Seq<char>) -> Seq<char> {
    s.filter(is_visible())
}

/// What is visible of a text is part of it.
pub proof fn lemma_visible_chars(s: Seq<char>, c: char)
    requires
        visible(s).contains(c),
    ensures
        s.contains(c),
        !is_white(c),
    decreases s.len(),
{
    reveal(Seq::filter);
    let k = choose|k: int| 0 <= k < visible(s).len() && visible(s)[k] == c;
    if s.len() > 0 {
        let front = s.drop_last();
        if k < visible(front).len() {
            assert(visible(front)[k] == c);
            lemma_visible_chars(front, c);
            let j = choose|j: int| 0 <= j < front.len() && front[j] == c;
            assert(s[j] == c);
        } else {
            assert(s[s.len() - 1] == c);
        }
    }
}

/// A word: not empty, and without white space.
pub open spec fn is_word(s: Seq<char>) -> bool {
    s.len() > 0 && forall|i: int| 0 <= i < s.len() ==> !is_white(#[trigger] s[i])
}

proof fn lemma_word_chars(s: Seq<char>)
    ensures
        word_len(s) <= s.len(),
        forall|i: int| 0 <= i < word_len(s) ==> !is_white(#[trigger] s[i]),
        word_len(s) < s.len() ==> is_white(s[word_len(s) as int]),
    decreases s.len(),
{
    if s.len() > 0 && !is_white(s.first()) {
        let t = s.drop_first();
        lemma_word_chars(t);
        assert forall|i: int| 0 <= i < word_len(s) implies !is_white(#[trigger] s[i]) by {
            if i > 0 {
                assert(t[i - 1] == s[i]);
            }
        }
        if word_len(s) < s.len() {
            assert(t[word_len(t) as int] == s[word_len(s) as int]);
        }
    }
}

/// The words of a text hold its visible characters in order, and no white space.
pub proof fn law_words_keep_the_visible_text(s: Seq<char>)
    ensures
        flattened(words(s)) == visible(s),
        forall|i: int| 0 <= i < words(s).len() ==> is_word(#[trigger] words(s)[i]),
    decreases s.len(),
{
    let f = is_visible();
    lemma_filter_empty(f);
    if s.len() == 0 {
        assert(s =~= Seq::<char>::empty());
    } else if is_white(s.first()) {
        law_words_keep_the_visible_text(s.drop_first());
        assert(s =~= seq![s.first()] + s.drop_first());
        lemma_filter_add(seq![s.first()], s.drop_first(), f);
        lemma_filter_one(s.first(), f);
        assert(Seq::<char>::empty() + visible(s.drop_first()) =~= visible(s.drop_first()));
    } else {
        let n = word_len(s) as int;
        lemma_word_len(s);
        lemma_word_chars(s);
        let first = s.take(n);
        let rest = s.skip(n);
        law_words_keep_the_visible_text(rest);
        assert(words(s).drop_first() =~= words(rest));
        assert(words(s)[0] == first);
        assert(s =~= first + rest);
        lemma_filter_add(first, rest, f);
        lemma_all_kept(first, f);
        assert forall|i: int| 0 <= i < words(s).len() implies is_word(#[trigger] words(s)[i]) by {
            if i > 0 {
                assert(words(s)[i] == words(rest)[i - 1]);
            } else {
                assert(forall|k: int| 0 <= k < first.len() ==> first[k] == s[k]);
            }
        }
    }
}

proof fn lemma_all_kept(s: Seq<char>, f: spec_fn(char) -> bool)
    requires
        forall|i: int| 0 <= i < s.len() ==> f(#[trigger] s[i]),
    ensures
        s.filter(f) == s,
    decreases s.len(),
{
    reveal(Seq::filter);
    if s.len() > 0 {
        assert forall|i: int| 0 <= i < s.drop_last().len() implies f(#[trigger] s.drop_last()[i]) by {
            assert(s.drop_last()[i] == s[i]);
        }
        lemma_all_kept(s.drop_last(), f);
        assert(s.drop_last().push(s.last()) =~= s);
    } else {
        assert(s.filter(f) =~= s);
    }
}

/// Words that were joined by blanks are the words of the text.
pub proof fn law_joined_words_split_again(parts: Seq<Seq<char>>)
    requires
        forall|i: int| 0 <= i < parts.len() ==> is_word(#[trigger] parts[i]),
    ensures
        words(joined(parts, seq![' '])) == parts,
    decreases parts.len(),
{
    if parts.len() == 0 {
        assert(words(joined(parts, seq![' '])) =~= parts);
    } else {
        let first = parts[0];
        assert(is_word(first));
        let rest = parts.drop_first();
        assert forall|i: int| 0 <= i < rest.len() implies is_word(#[trigger] rest[i]) by {
            assert(rest[i] == parts[i + 1]);
        }
        law_joined_words_split_again(rest);
        let s = joined(parts, seq![' ']);
        if parts.len() == 1 {
            assert(rest =~= seq![]);
            lemma_word_then(first, seq![]);
            assert(first + Seq::<char>::empty() =~= first);
            assert(words(Seq::<char>::empty()) =~= seq![]);
        } else {
            lemma_joined_front(parts, seq![' ']);
            let tail = joined(rest, seq![' ']);
            lemma_word_then(first, seq![' '] + tail);
            assert(s =~= first + (seq![' '] + tail));
            assert((seq![' '] + tail).drop_first() =~= tail);
        }
        assert(words(s) =~= parts);
    }
}

proof fn lemma_word_then(first: Seq<char>, rest: Seq<char>)
    requires
        is_word(first),
        rest.len() == 0 || is_white(rest[0]),
    ensures
        words(first + rest) == seq![first] + words(rest),
{
    let s = first + rest;
    lemma_word_chars(s);
    lemma_word_len(s);
    let n = word_len(s) as int;
    assert(!is_white(first[0]));
    if n < first.len() {
        assert(s[n] == first[n]);
    }
    if n > first.len() {
        assert(s[first.len() as int] == rest[0]);
    }
    assert(s.take(n) =~= first);
    assert(s.skip(n) =~= rest);
}

/// What is joined stands in the text in its order, with the separator in between.
pub proof fn law_joined_parts_stand_in_order(parts: Seq<Seq<char>>, sep: Seq<char>, i: int) -> (at:
    int)
    requires
        0 <= i < parts.len(),
    ensures
        occurs_at(joined(parts, sep), parts[i], at),
        at == joined(parts.take(i), sep).len() + if i > 0 {
            sep.len()
        } else {
            0
        },
        i == 0 ==> at == 0,
        i == parts.len() - 1 ==> at + parts[i].len() == joined(parts, sep).len(),
        i < parts.len() - 1 ==> occurs_at(joined(parts, sep), sep, at + parts[i].len()),
    decreases parts.len(),
{
    let s = joined(parts, sep);
    let n = parts.len() as int;
    assert(parts.take(0) =~= seq![]);
    if n == 1 {
        assert(s.subrange(0, s.len() as int) =~= s);
        0
    } else {
        let front = parts.drop_last();
        let before = joined(front, sep);
        assert(parts.take(n - 1) =~= front);
        if i == n - 1 {
            let at = (before.len() + sep.len()) as int;
            assert(s.subrange(at, at + parts[i].len()) =~= parts[i]);
            at
        } else {
            let at = law_joined_parts_stand_in_order(front, sep, i);
            assert(front.take(i) =~= parts.take(i));
            assert(s.subrange(at, at + parts[i].len()) =~= before.subrange(at, at + parts[i].len()));
            let end = at + parts[i].len();
            if i < n - 2 {
                assert(s.subrange(end, end + sep.len()) =~= before.subrange(end, end + sep.len()));
            } else {
                assert(s.subrange(end, end + sep.len()) =~= sep);
            }
            at
        }
    }
}

// ---------------------------------------------------------------------------
// Replacing
// ---------------------------------------------------------------------------
/// A text without the pattern is left alone.
pub proof fn law_nothing_to_replace(s: Seq<char>, p: Seq<char>, with: Seq<char>)
    requires
        !has_sub(s, p),
    ensures
        replace_all(s, p, with) == s,
    decreases s.len(),
{
    if s.len() > 0 && p.len() > 0 {
        if starts_with(s, p) {
            assert(occurs_at(s, p, 0));
        }
        let t = s.drop_first();
        if has_sub(t, p) {
            let i = choose|i: int| #[trigger] occurs_at(t, p, i);
            assert(t.subrange(i, i + p.len()) =~= s.subrange(i + 1, i + 1 + p.len()));
            assert(occurs_at(s, p, i + 1));
        }
        law_nothing_to_replace(t, p, with);
        assert(seq![s[0]] + t =~= s);
    }
}

/// The first occurrence is replaced, what stands in front of it is kept, and the rest is
/// dealt with in the same way.
pub proof fn law_first_occurrence_is_replaced(
    s: Seq<char>,
    p: Seq<char>,
    with: Seq<char>,
    at: int,
)
    requires
        p.len() > 0,
        occurs_at(s, p, at),
        forall|j: int| 0 <= j < at ==> !#[trigger] occurs_at(s, p, j),
    ensures
        replace_all(s, p, with) == s.take(at) + with + replace_all(s.skip(at + p.len()), p, with),
    decreases s.len(),
{
    if at == 0 {
        assert(starts_with(s, p));
        assert(s.take(0) + with =~= with);
    } else {
        assert(!occurs_at(s, p, 0));
        let t = s.drop_first();
        assert(t.subrange(at - 1, at - 1 + p.len()) =~= s.subrange(at, at + p.len()));
        assert forall|j: int| 0 <= j < at - 1 implies !#[trigger] occurs_at(t, p, j) by {
            if occurs_at(t, p, j) {
                assert(s.subrange(j + 1, j + 1 + p.len()) =~= t.subrange(j, j + p.len()));
                assert(occurs_at(s, p, j + 1));
            }
        }
        law_first_occurrence_is_replaced(t, p, with, at - 1);
        assert(t.skip(at - 1 + p.len()) =~= s.skip(at + p.len()));
        assert(seq![s[0]] + t.take(at - 1) =~= s.take(at));
        let rest = replace_all(s.skip(at + p.len()), p, with);
        assert(seq![s[0]] + (t.take(at - 1) + with + rest) =~= s.take(at) + with + rest);
    }
}

// ---------------------------------------------------------------------------
// Numbers and letters
// ---------------------------------------------------------------------------
/// The value of decimal digits.
pub open spec fn number(s: Seq<char>) -> nat
    decreases s.len(),
{
    if s.len() == 0 {
        0
    } else {
        (10 * number(s.drop_last()) + (s.last() as u32 - 48)) as nat
    }
}

/// A number reads as it was written: in digits, without leading zeros.
pub proof fn law_numbers_read_as_written(n: nat)
    ensures
        number(decimal(n)) == n,
        decimal(n).len() > 0,
        forall|i: int| 0 <= i < decimal(n).len() ==> is_digit_char(#[trigger] decimal(n)[i]),
        n > 0 ==> decimal(n)[0] != '0',
    decreases n,
{
    lemma_decimal_digits(n);
    let s = decimal(n);
    if n >= 10 {
        law_numbers_read_as_written(n / 10);
        assert(s.drop_last() =~= decimal(n / 10));
        assert(s[0] == decimal(n / 10)[0]);
    } else {
        assert(s.drop_last() =~= seq![]);
        assert(number(Seq::<char>::empty()) == 0);
    }
}

/// Lower case keeps the length and every character but the capital letters of ASCII,
/// and once is enough.
pub proof fn law_lower_case_changes_capitals_only(s: Seq<char>)
    ensures
        lower(s).len() == s.len(),
        lower(lower(s)) == lower(s),
        forall|i: int|
            0 <= i < s.len() ==> {
                let c = #[trigger] lower(s)[i];
                if 'A' <= s[i] && s[i] <= 'Z' {
                    c as u32 == s[i] as u32 + 32
                } else {
                    c == s[i]
                }
            },
{
    assert forall|c: char| lower_char(#[trigger] lower_char(c)) == lower_char(c) by {}
    assert(lower(lower(s)) =~= lower(s));
}

/// The last place of a character is its last.
pub proof fn law_last_index_is_the_last(s: Seq<char>, c: char)
    ensures
        match last_index(s, c) {
            Some(i) => i < s.len() && s[i as int] == c && forall|j: int|
                i < j < s.len() ==> #[trigger] s[j] != c,
            None => !s.contains(c),
        },
    decreases s.len(),
{
    if s.len() > 0 && s.last() != c {
        law_last_index_is_the_last(s.drop_last(), c);
        let t = s.drop_last();
        match last_index(s, c) {
            Some(i) => {
                assert(t[i as int] == s[i as int]);
                assert forall|j: int| i < j < s.len() implies #[trigger] s[j] != c by {
                    if j < t.len() {
                        assert(t[j] == s[j]);
                    }
                }
            },
            None => {
                if s.contains(c) {
                    let j = choose|j: int| 0 <= j < s.len() && s[j] == c;
                    assert(t[j] == c);
                }
            },
        }
    }
}

/// A run is as long as it was asked for, and of one character.
pub proof fn law_runs_are_uniform(c: char, n: nat)
    ensures
        run(c, n).len() == n,
        forall|i: int| 0 <= i < n ==> #[trigger] run(c, n)[i] == c,
{
}

} // verus!
