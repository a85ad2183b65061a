//! Page numbers in the compact form `2-4,6`.

use crate::text::{
    decimal, join, joined, lemma_decimal_digits, lemma_decimal_injective, lemma_split_joined, lemma_until,
    push_decimal, split, texts,
};
use vstd::prelude::*;

verus! {

broadcast use crate::text::lemma_texts_push;

pub open spec fn ascending(s: Seq<u32>) -> bool {
    forall|i: int, j: int| 0 <= i < j < s.len() ==> #[trigger] s[i] < #[trigger] s[j]
}

/// `sorted` with `page` in its place; unchanged when it is there already.
pub open spec fn insert_page(sorted: Seq<u32>, page: u32) -> Seq<u32>
    decreases sorted.len(),
{
    if sorted.len() == 0 || sorted.last() < page {
        sorted.push(page)
    } else if sorted.last() == page {
        sorted
    } else {
        insert_page(sorted.drop_last(), page).push(sorted.last())
    }
}

/// The pages in ascending order, each once.
pub open spec fn sorted_pages(pages: Seq<u32>) -> Seq<u32>
    decreases pages.len(),
{
    if pages.len() == 0 {
        seq![]
    } else {
        insert_page(sorted_pages(pages.drop_last()), pages.last())
    }
}

proof fn lemma_insert_page(sorted: Seq<u32>, page: u32)
    requires
        ascending(sorted),
    ensures
        ascending(insert_page(sorted, page)),
        forall|p: u32|
            #[trigger] insert_page(sorted, page).contains(p) <==> sorted.contains(p) || p == page,
    decreases sorted.len(),
{
    let r = insert_page(sorted, page);
    if sorted.len() == 0 || sorted.last() < page {
        assert forall|p: u32| #[trigger] r.contains(p) <==> sorted.contains(p) || p == page by {
            assert(r[sorted.len() as int] == page);
            if sorted.contains(p) {
                let i = choose|i: int| 0 <= i < sorted.len() && sorted[i] == p;
                assert(r[i] == p);
            }
        }
        assert forall|i: int, j: int| 0 <= i < j < r.len() implies #[trigger] r[i] < #[trigger] r[j] by {
            if j == sorted.len() {
                assert(sorted[i] <= sorted[sorted.len() - 1]);
            }
        }
    } else if sorted.last() == page {
        assert(sorted[sorted.len() - 1] == page);
    } else {
        let head = sorted.drop_last();
        assert(ascending(head)) by {
            assert forall|i: int, j: int| 0 <= i < j < head.len() implies #[trigger] head[i]
                < #[trigger] head[j] by {
                assert(sorted[i] < sorted[j]);
            }
        }
        lemma_insert_page(head, page);
        let h = insert_page(head, page);
        let last = sorted.last();
        assert forall|p: u32| #[trigger] r.contains(p) <==> sorted.contains(p) || p == page by {
            assert(h.contains(p) <==> head.contains(p) || p == page);
            assert(r[h.len() as int] == last);
            if h.contains(p) {
                let i = choose|i: int| 0 <= i < h.len() && h[i] == p;
                assert(r[i] == p);
            }
            if r.contains(p) && p != last {
                let i = choose|i: int| 0 <= i < r.len() && r[i] == p;
                assert(h[i] == p);
            }
            if head.contains(p) {
                let i = choose|i: int| 0 <= i < head.len() && head[i] == p;
                assert(sorted[i] == p);
            }
            if sorted.contains(p) && p != last {
                let i = choose|i: int| 0 <= i < sorted.len() && sorted[i] == p;
                assert(head[i] == p);
            }
            assert(sorted[sorted.len() - 1] == last);
        }
        assert forall|i: int, j: int| 0 <= i < j < r.len() implies #[trigger] r[i] < #[trigger] r[j] by {
            if j < h.len() {
                assert(h[i] < h[j]);
            } else {
                assert(h.contains(h[i]));
                if h[i] != page {
                    let k = choose|k: int| 0 <= k < head.len() && head[k] == h[i];
                    assert(sorted[k] < sorted[sorted.len() - 1]);
                }
            }
        }
    }
}

/// Sorting keeps the set of pages and orders it strictly.
pub proof fn lemma_sorted_pages(pages: Seq<u32>)
    ensures
        ascending(sorted_pages(pages)),
        forall|p: u32| #[trigger] sorted_pages(pages).contains(p) <==> pages.contains(p),
    decreases pages.len(),
{
    if pages.len() > 0 {
        let head = pages.drop_last();
        lemma_sorted_pages(head);
        lemma_insert_page(sorted_pages(head), pages.last());
        assert forall|p: u32| #[trigger] sorted_pages(pages).contains(p) <==> pages.contains(p) by {
            assert(sorted_pages(head).contains(p) <==> head.contains(p));
            if head.contains(p) {
                let i = choose|i: int| 0 <= i < head.len() && head[i] == p;
                assert(pages[i] == p);
            }
            if pages.contains(p) && p != pages.last() {
                let i = choose|i: int| 0 <= i < pages.len() && pages[i] == p;
                assert(head[i] == p);
            }
            assert(pages[pages.len() - 1] == pages.last());
        }
    }
}

/// The page at `i` is the last of a run of consecutive pages.
pub open spec fn ends_run(s: Seq<u32>, i: int) -> bool {
    i + 1 == s.len() || s[i + 1] != s[i] + 1
}

/// The place of the first page of the run that `i` belongs to.
pub open spec fn run_start(s: Seq<u32>, i: int) -> int
    decreases i,
{
    if i > 0 && s[i] == s[i - 1] + 1 { run_start(s, i - 1) } else { i }
}

/// The runs that end among the first `n` pages: first and last page of each.
pub open spec fn runs_upto(s: Seq<u32>, n: nat) -> Seq<(u32, u32)>
    decreases n,
{
    if n == 0 {
        seq![]
    } else {
        let before = runs_upto(s, (n - 1) as nat);
        if ends_run(s, n - 1) { before.push((s[run_start(s, n - 1)], s[n - 1])) } else { before }
    }
}

/// The runs of consecutive pages.
pub open spec fn page_runs(pages: Seq<u32>) -> Seq<(u32, u32)> {
    runs_upto(sorted_pages(pages), sorted_pages(pages).len())
}

pub open spec fn run_text(run: (u32, u32)) -> Seq<char> {
    if run.0 == run.1 {
        decimal(run.0 as nat)
    } else {
        decimal(run.0 as nat) + "-"@ + decimal(run.1 as nat)
    }
}

pub open spec fn run_texts(runs: Seq<(u32, u32)>) -> Seq<Seq<char>> {
    Seq::new(runs.len(), |i: int| run_text(runs[i]))
}

/// The runs, separated by commas.
pub open spec fn page_ranges(pages: Seq<u32>) -> Seq<char> {
    joined(run_texts(page_runs(pages)), ","@)
}

proof fn lemma_run_start(s: Seq<u32>, i: int)
    requires
        ascending(s),
        0 <= i < s.len(),
    ensures
        0 <= run_start(s, i) <= i,
        s[run_start(s, i)] <= s[i],
        forall|k: int| run_start(s, i) <= k <= i ==> #[trigger] s[k] == s[i] - (i - k),
        forall|k: int| run_start(s, i) <= k < i ==> !#[trigger] ends_run(s, k),
    decreases i,
{
    if i > 0 && s[i] == s[i - 1] + 1 {
        lemma_run_start(s, i - 1);
        assert forall|k: int| run_start(s, i) <= k < i implies !#[trigger] ends_run(s, k) by {
            if k == i - 1 {
                assert(s[k + 1] == s[k] + 1);
            }
        }
    }
}

/// A page lies in one of the runs.
pub open spec fn covered(runs: Seq<(u32, u32)>, p: int) -> bool {
    exists|r: int| 0 <= r < runs.len() && (#[trigger] runs[r]).0 <= p <= runs[r].1
}

/// A gapless stretch of the pages, from place `i` to place `j`.
pub open spec fn is_run(s: Seq<u32>, run: (u32, u32), i: int, j: int) -> bool {
    0 <= i <= j < s.len() && run == (s[i], s[j]) && s[j] - s[i] == j - i
}

pub open spec fn some_run(s: Seq<u32>, run: (u32, u32)) -> bool {
    exists|i: int, j: int| #[trigger] is_run(s, run, i, j)
}

proof fn lemma_runs_cover(s: Seq<u32>, n: nat)
    requires
        ascending(s),
        n <= s.len(),
    ensures
        forall|r: int|
            0 <= r < runs_upto(s, n).len() ==> some_run(s, #[trigger] runs_upto(s, n)[r]),
        forall|i: int|
            0 <= i < n && (n == s.len() || exists|e: int| i <= e < n && #[trigger] ends_run(s, e))
                ==> covered(runs_upto(s, n), #[trigger] s[i] as int),
    decreases n,
{
    if n > 0 {
        let m = (n - 1) as nat;
        lemma_runs_cover(s, m);
        let before = runs_upto(s, m);
        let now = runs_upto(s, n);
        if ends_run(s, n - 1) {
            lemma_run_start(s, n - 1);
            let st = run_start(s, n - 1);
            assert(now[before.len() as int] == (s[st], s[n - 1]));
            assert(s[n - 1] - s[st] == (n - 1) - st);
        }
        assert forall|r: int| 0 <= r < now.len() implies some_run(s, #[trigger] now[r]) by {
            if r < before.len() {
                assert(now[r] == before[r]);
            } else {
                let st = run_start(s, n - 1);
                assert(is_run(s, now[r], st, n - 1));
            }
        }
        assert forall|i: int|
            0 <= i < n && (n == s.len() || exists|e: int|
                i <= e < n && #[trigger] ends_run(s, e)) implies covered(
            now,
            #[trigger] s[i] as int,
        ) by {
            if n == s.len() {
                assert(ends_run(s, n - 1));
            }
            let e = choose|e: int| i <= e < n && #[trigger] ends_run(s, e);
            if e < m {
                assert(covered(before, s[i] as int));
                let r = choose|r: int|
                    0 <= r < before.len() && (#[trigger] before[r]).0 <= s[i] <= before[r].1;
                assert(now[r] == before[r]);
            } else {
                let st = run_start(s, n - 1);
                lemma_run_start(s, n - 1);
                if i >= st {
                    assert(s[i] == s[n - 1] - ((n - 1) - i));
                    assert(now[before.len() as int].0 <= s[i] <= now[before.len() as int].1);
                } else {
                    assert(ends_run(s, st - 1)) by {
                        lemma_run_start_boundary(s, n - 1);
                    }
                    assert(covered(before, s[i] as int));
                    let r = choose|r: int|
                        0 <= r < before.len() && (#[trigger] before[r]).0 <= s[i] <= before[r].1;
                    assert(now[r] == before[r]);
                }
            }
        }
    }
}

proof fn lemma_run_start_boundary(s: Seq<u32>, i: int)
    requires
        0 <= i < s.len(),
    ensures
        run_start(s, i) > 0 ==> ends_run(s, run_start(s, i) - 1),
        0 <= run_start(s, i) <= i,
    decreases i,
{
    if i > 0 && s[i] == s[i - 1] + 1 {
        lemma_run_start_boundary(s, i - 1);
    }
}

proof fn lemma_covered_is_listed(s: Seq<u32>, run: (u32, u32), i: int, j: int, p: u32)
    requires
        ascending(s),
        is_run(s, run, i, j),
        run.0 <= p <= run.1,
    ensures
        s.contains(p),
{
    let k = i + (p - s[i]);
    lemma_gapless(s, i, j, k);
    assert(s[k] == p);
}

/// The ranges name exactly the given pages, whatever their order and however
/// often they are repeated.
pub proof fn law_ranges_cover_exactly_the_pages(pages: Seq<u32>, p: u32)
    ensures
        covered(page_runs(pages), p as int) <==> pages.contains(p),
{
    let s = sorted_pages(pages);
    let runs = page_runs(pages);
    lemma_sorted_pages(pages);
    assert(s.contains(p) <==> pages.contains(p));
    lemma_runs_cover(s, s.len());
    if s.contains(p) {
        let i = choose|i: int| 0 <= i < s.len() && s[i] == p;
        assert(covered(runs, s[i] as int));
    }
    if covered(runs, p as int) {
        let r = choose|r: int| 0 <= r < runs.len() && (#[trigger] runs[r]).0 <= p <= runs[r].1;
        assert(some_run(s, runs[r]));
        let (i, j) = choose|i: int, j: int| #[trigger] is_run(s, runs[r], i, j);
        lemma_covered_is_listed(s, runs[r], i, j, p);
    }
}

proof fn lemma_gapless(s: Seq<u32>, i: int, j: int, k: int)
    requires
        ascending(s),
        0 <= i <= k <= j < s.len(),
        s[j] - s[i] == j - i,
    ensures
        s[k] == s[i] + (k - i),
{
    lemma_rises(s, i, k);
    lemma_rises(s, k, j);
}

proof fn lemma_rises(s: Seq<u32>, a: int, b: int)
    requires
        ascending(s),
        0 <= a <= b < s.len(),
    ensures
        s[b] - s[a] >= b - a,
    decreases b - a,
{
    if a < b {
        lemma_rises(s, a, b - 1);
        assert(s[b - 1] < s[b]);
    }
}

proof fn lemma_runs_apart(s: Seq<u32>, n: nat)
    requires
        ascending(s),
        n <= s.len(),
    ensures
        ({
            let runs = runs_upto(s, n);
            &&& forall|r: int| 0 <= r < runs.len() ==> (#[trigger] runs[r]).0 <= runs[r].1
            &&& forall|r: int, q: int|
                0 <= r < q < runs.len() ==> (#[trigger] runs[r]).1 + 1 < (#[trigger] runs[q]).0
            &&& runs.len() > 0 ==> exists|e: int|
                0 <= e < n && #[trigger] ends_run(s, e) && runs.last().1 == s[e]
        }),
    decreases n,
{
    if n > 0 {
        let m = (n - 1) as nat;
        lemma_runs_apart(s, m);
        let before = runs_upto(s, m);
        let runs = runs_upto(s, n);
        if ends_run(s, n - 1) {
            let st = run_start(s, n - 1);
            lemma_run_start(s, n - 1);
            assert(runs.last().1 == s[n - 1]);
            if before.len() > 0 {
                let e = choose|e: int|
                    0 <= e < m && #[trigger] ends_run(s, e) && before.last().1 == s[e];
                assert(e < st);
                assert(s[e + 1] != s[e] + 1);
                assert(s[e] < s[e + 1]);
                if e + 1 < st {
                    assert(s[e + 1] < s[st]);
                }
                assert(before.last().1 + 1 < s[st]);
            }
            assert forall|r: int, q: int| 0 <= r < q < runs.len() implies (#[trigger] runs[r]).1 + 1
                < (#[trigger] runs[q]).0 by {
                if q < before.len() {
                    assert(runs[r] == before[r] && runs[q] == before[q]);
                } else if r < before.len() - 1 {
                    assert(before[r].1 + 1 < before[before.len() - 1].0);
                    assert(before[before.len() - 1].0 <= before[before.len() - 1].1);
                }
            }
            assert forall|r: int| 0 <= r < runs.len() implies (#[trigger] runs[r]).0 <= runs[r].1 by {
                if r < before.len() {
                    assert(runs[r] == before[r]);
                }
            }
        } else if before.len() > 0 {
            let e = choose|e: int|
                0 <= e < m && #[trigger] ends_run(s, e) && before.last().1 == s[e];
            assert(0 <= e < n && ends_run(s, e) && runs.last().1 == s[e]);
        }
    }
}

/// The ranges are in ascending order and as long as they can be: between two of them
/// at least one page is left out.
pub proof fn law_ranges_are_maximal(pages: Seq<u32>)
    ensures
        forall|r: int|
            0 <= r < page_runs(pages).len() ==> (#[trigger] page_runs(pages)[r]).0 <= page_runs(
                pages,
            )[r].1,
        forall|r: int, q: int|
            0 <= r < q < page_runs(pages).len() ==> (#[trigger] page_runs(pages)[r]).1 + 1 < (
            #[trigger] page_runs(pages)[q]).0,
{
    lemma_sorted_pages(pages);
    lemma_runs_apart(sorted_pages(pages), sorted_pages(pages).len());
}

proof fn lemma_same_members(a: Seq<u32>, b: Seq<u32>)
    requires
        ascending(a),
        ascending(b),
        forall|p: u32| #[trigger] a.contains(p) <==> b.contains(p),
    ensures
        a == b,
    decreases a.len(),
{
    if a.len() == 0 {
        if b.len() > 0 {
            assert(b.contains(b[0]));
            assert(a.contains(b[0]));
        }
        assert(a =~= b);
    } else {
        assert(a.contains(a[a.len() - 1]));
        assert(b.contains(a.last()));
        assert(b.contains(b[b.len() - 1]));
        assert(a.contains(b.last()));
        let i = choose|i: int| 0 <= i < b.len() && b[i] == a.last();
        let j = choose|j: int| 0 <= j < a.len() && a[j] == b.last();
        if i < b.len() - 1 {
            assert(b[i] < b[b.len() - 1]);
            if j < a.len() - 1 {
                assert(a[j] < a[a.len() - 1]);
            }
        }
        assert(a.last() == b.last());
        let x = a.drop_last();
        let y = b.drop_last();
        assert forall|p: u32| #[trigger] x.contains(p) <==> y.contains(p) by {
            lemma_before_last(a, p);
            lemma_before_last(b, p);
            assert(a.contains(p) <==> b.contains(p));
        }
        lemma_ascending_head(a);
        lemma_ascending_head(b);
        lemma_same_members(x, y);
        assert(a =~= x.push(a.last()));
        assert(b =~= y.push(b.last()));
    }
}

proof fn lemma_ascending_head(s: Seq<u32>)
    requires
        ascending(s),
        s.len() > 0,
    ensures
        ascending(s.drop_last()),
{
    let head = s.drop_last();
    assert forall|i: int, j: int| 0 <= i < j < head.len() implies #[trigger] head[i]
        < #[trigger] head[j] by {
        assert(s[i] < s[j]);
    }
}

proof fn lemma_before_last(s: Seq<u32>, p: u32)
    requires
        ascending(s),
        s.len() > 0,
    ensures
        s.drop_last().contains(p) <==> s.contains(p) && p != s.last(),
{
    let head = s.drop_last();
    if head.contains(p) {
        let i = choose|i: int| 0 <= i < head.len() && head[i] == p;
        assert(s[i] == p);
        assert(s[i] < s[s.len() - 1]);
    }
    if s.contains(p) && p != s.last() {
        let i = choose|i: int| 0 <= i < s.len() && s[i] == p;
        assert(head[i] == p);
    }
}

/// The text depends on the set of pages alone.
pub proof fn law_ranges_depend_on_the_set(pages: Seq<u32>, others: Seq<u32>)
    requires
        forall|p: u32| #[trigger] pages.contains(p) <==> others.contains(p),
    ensures
        page_ranges(pages) == page_ranges(others),
{
    lemma_sorted_pages(pages);
    lemma_sorted_pages(others);
    let a = sorted_pages(pages);
    let b = sorted_pages(others);
    assert forall|p: u32| #[trigger] a.contains(p) <==> b.contains(p) by {
        assert(a.contains(p) <==> pages.contains(p));
        assert(b.contains(p) <==> others.contains(p));
    }
    lemma_same_members(a, b);
}

// ---------------------------------------------------------------------------
// Reading back
// ---------------------------------------------------------------------------
/// An item `a` or `a-b` names the pages from `a` to `b`.
pub open spec fn item_names(item: Seq<char>, p: u32) -> bool {
    exists|run: (u32, u32)| item == #[trigger] run_text(run) && run.0 <= p <= run.1
}

/// A list of items, separated by commas, names what its items name.
pub open spec fn list_names(text: Seq<char>, p: u32) -> bool {
    exists|i: int| 0 <= i < split(text, ',').len() && item_names(#[trigger] split(text, ',')[i], p)
}

proof fn lemma_run_text(run: (u32, u32))
    ensures
        run_text(run).len() > 0,
        !run_text(run).contains(','),
        run.0 == run.1 ==> !run_text(run).contains('-'),
{
    reveal_strlit("-");
    lemma_decimal_digits(run.0 as nat);
    lemma_decimal_digits(run.1 as nat);
    let a = decimal(run.0 as nat);
    let b = decimal(run.1 as nat);
    let t = run_text(run);
    assert forall|k: int| 0 <= k < t.len() implies #[trigger] t[k] != ',' && (run.0 == run.1 ==> t[k]
        != '-') by {
        if k < a.len() {
            assert(t[k] == a[k]);
        } else if run.0 != run.1 && k > a.len() {
            assert(t[k] == b[k - a.len() - 1]);
        }
    }
}

proof fn lemma_run_text_injective(run: (u32, u32), other: (u32, u32))
    requires
        run_text(run) == run_text(other),
    ensures
        run == other,
{
    reveal_strlit("-");
    lemma_run_text(run);
    lemma_run_text(other);
    let s = run_text(run);
    let t = run_text(other);
    let a = decimal(run.0 as nat);
    let c = decimal(other.0 as nat);
    let b = decimal(run.1 as nat);
    let d = decimal(other.1 as nat);
    lemma_decimal_digits(run.0 as nat);
    lemma_decimal_digits(other.0 as nat);
    lemma_decimal_digits(run.1 as nat);
    lemma_decimal_digits(other.1 as nat);
    if run.0 != run.1 {
        assert(s[a.len() as int] == '-');
    }
    if other.0 != other.1 {
        assert(t[c.len() as int] == '-');
    }
    assert((run.0 == run.1) == (other.0 == other.1));
    if run.0 == run.1 {
        lemma_decimal_injective(run.0 as nat, other.0 as nat);
    } else {
        if a.len() < c.len() {
            assert(t[a.len() as int] == c[a.len() as int]);
        } else if c.len() < a.len() {
            assert(s[c.len() as int] == a[c.len() as int]);
        }
        assert(s.take(a.len() as int) =~= a);
        assert(t.take(c.len() as int) =~= c);
        assert(s.skip(a.len() as int + 1) =~= b);
        assert(t.skip(c.len() as int + 1) =~= d);
        lemma_decimal_injective(run.0 as nat, other.0 as nat);
        lemma_decimal_injective(run.1 as nat, other.1 as nat);
    }
}

/// The text names exactly the given pages when it is read back.
pub proof fn law_ranges_read_back(pages: Seq<u32>, p: u32)
    ensures
        list_names(page_ranges(pages), p) <==> pages.contains(p),
        page_ranges(pages).len() == 0 <==> pages.len() == 0,
{
    reveal_strlit(",");
    let runs = page_runs(pages);
    let parts = run_texts(runs);
    let text = page_ranges(pages);
    law_ranges_cover_exactly_the_pages(pages, p);
    assert forall|i: int| 0 <= i < parts.len() implies !(#[trigger] parts[i]).contains(',')
        && parts[i].len() > 0 by {
        lemma_run_text(runs[i]);
    }
    if pages.len() > 0 {
        assert(pages.contains(pages[0]));
        law_ranges_cover_exactly_the_pages(pages, pages[0]);
        assert(runs.len() > 0);
        assert(","@ =~= seq![',']);
        lemma_split_joined(parts, ',', ","@);
        assert(split(text, ',') == parts);
        if text.len() == 0 {
            lemma_until(text, ',');
            assert(split(text, ',')[0] == text);
            assert(parts[0].len() > 0);
        }
        if list_names(text, p) {
            let i = choose|i: int|
                0 <= i < split(text, ',').len() && item_names(#[trigger] split(text, ',')[i], p);
            let run = choose|run: (u32, u32)|
                parts[i] == #[trigger] run_text(run) && run.0 <= p <= run.1;
            lemma_run_text_injective(run, runs[i]);
            assert(covered(runs, p as int));
        }
        if covered(runs, p as int) {
            let r = choose|r: int| 0 <= r < runs.len() && (#[trigger] runs[r]).0 <= p <= runs[r].1;
            assert(item_names(parts[r], p)) by {
                assert(parts[r] == run_text(runs[r]));
            }
            assert(item_names(split(text, ',')[r], p));
        }
    } else {
        assert(sorted_pages(pages) =~= seq![]);
        assert(runs =~= seq![]);
        assert(parts =~= seq![]);
        lemma_until(text, ',');
        if list_names(text, p) {
            let i = choose|i: int|
                0 <= i < split(text, ',').len() && item_names(#[trigger] split(text, ',')[i], p);
            assert(split(text, ',')[i] == text);
            let run = choose|run: (u32, u32)| text == #[trigger] run_text(run) && run.0 <= p <= run.1;
            lemma_run_text(run);
        }
    }
}

fn sort_pages(pages: &[u32]) -> (r: Vec<u32>)
    ensures
        r@ == sorted_pages(pages@),
        ascending(r@),
{
    let mut out: Vec<u32> = Vec::new();
    for n in 0..pages.len()
        invariant
            out@ == sorted_pages(pages@.take(n as int)),
    {
        let page = pages[n];
        assert(pages@.take(n + 1).drop_last() =~= pages@.take(n as int));
        let ghost before = out@;
        let mut k: usize = out.len();
        assert(out@.take(k as int) =~= out@);
        assert(insert_page(out@, page) =~= insert_page(out@.take(k as int), page) + out@.skip(
            k as int,
        ));
        while k > 0 && out[k - 1] > page
            invariant
                k <= out.len(),
                out@ == before,
                insert_page(out@, page) == insert_page(out@.take(k as int), page) + out@.skip(
                    k as int,
                ),
            decreases k,
        {
            let ghost t = out@.take(k as int);
            assert(t.drop_last() =~= out@.take(k - 1));
            assert(t.last() == out@[k - 1]);
            k = k - 1;
            assert(insert_page(out@, page) =~= insert_page(out@.take(k as int), page) + out@.skip(
                k as int,
            ));
        }
        let ghost t = out@.take(k as int);
        assert(k > 0 ==> t.last() == out@[k - 1]);
        if k > 0 && out[k - 1] == page {
            assert(insert_page(t, page) == t);
            assert(t + out@.skip(k as int) =~= out@);
        } else {
            assert(insert_page(t, page) == t.push(page));
            out.insert(k, page);
            assert(out@ =~= t.push(page) + before.skip(k as int));
        }
    }
    assert(pages@.take(pages@.len() as int) =~= pages@);
    proof {
        lemma_sorted_pages(pages@);
    }
    out
}

/// Collapses page numbers into ranges: sorted, deduped, consecutive runs joined.
/// No pages give the empty text.
pub fn format_page_ranges(pages: &[u32]) -> (r: String)
    ensures
        r@ == page_ranges(pages@),
{
    let sorted = sort_pages(pages);
    let ghost s = sorted@;
    let mut parts: Vec<String> = Vec::new();
    let mut start: usize = 0;
    assert(texts(parts@) =~= run_texts(runs_upto(s, 0)));
    for i in 0..sorted.len()
        invariant
            s == sorted@,
            ascending(s),
            start <= i,
            i < sorted.len() ==> start == run_start(s, i as int),
            texts(parts@) == run_texts(runs_upto(s, i as nat)),
    {
        proof {
            lemma_run_start(s, i as int);
        }
        let ends = i + 1 == sorted.len() || sorted[i + 1] - sorted[i] != 1;
        assert(ends == ends_run(s, i as int));
        if ends {
            let mut part = String::new();
            push_decimal(&mut part, sorted[start] as u64);
            if sorted[start] != sorted[i] {
                part.push_str("-");
                push_decimal(&mut part, sorted[i] as u64);
            }
            assert(part@ =~= run_text((s[start as int], s[i as int])));
            let ghost before = runs_upto(s, i as nat);
            parts.push(part);
            assert(run_texts(runs_upto(s, (i + 1) as nat)) =~= run_texts(before).push(part@));
            start = i + 1;
        }
    }
    join(&parts, ",")
}

} // verus!
