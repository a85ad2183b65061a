//! What is recovered of stacked fractions.

use crate::fractions::{
    adjacent, by_x, candidate_bars, concat_text, contiguous, half, insert_by_x, is_fraction,
    is_half, left_edge, line_bar, line_bars, plan_bar, plan_bars, rect_bar, rect_bars, right_edge,
    sharing, snapped, snaps, take_fraction, unruled, with_baseline, Bar, PdfLine, PdfRect, PlanView,
    TextItem,
};
use crate::text::{is_white, occurs_at, starts_with};
use vstd::prelude::*;

verus! {

// ---------------------------------------------------------------------------
// What belongs to a fraction
// ---------------------------------------------------------------------------
/// The size of an item's letters: that of its font or its height, at least one point.
pub open spec fn letter_size(item: TextItem) -> int {
    if item.font_size >= item.height && item.font_size >= 1000 {
        item.font_size as int
    } else if item.height >= 1000 {
        item.height as int
    } else {
        1000
    }
}

/// Text of the page that shows anything.
pub open spec fn is_text_of(item: TextItem, page: u32) -> bool {
    &&& item.page == page
    &&& item.item_type is Text
    &&& exists|i: int| 0 <= i < item.text@.len() && !is_white(#[trigger] item.text@[i])
}

/// How much of the bar's span the item covers; negative when it lies beside it.
pub open spec fn covers(item: TextItem, bar: Bar) -> int {
    let right = if item.x + item.width <= bar.x2 {
        item.x + item.width
    } else {
        bar.x2 as int
    };
    let left = if item.x >= bar.x1 {
        item.x as int
    } else {
        bar.x1 as int
    };
    right - left
}

/// Part of a numerator: its baseline lies on the bar or at most 0.72 of a letter's size
/// above it, and the bar runs below at least half of it.
pub open spec fn in_numerator(item: TextItem, bar: Bar) -> bool {
    &&& is_text_of(item, bar.page)
    &&& 2 * item.y >= bar.y_twice
    &&& 100 * (2 * item.y - bar.y_twice) <= 144 * letter_size(item)
    &&& 2 * covers(item, bar) >= item.width
}

/// Part of a denominator: its baseline lies below the bar by at most 1.25 of a letter's
/// size, and the bar runs above at least half of it.
pub open spec fn in_denominator(item: TextItem, bar: Bar) -> bool {
    &&& is_text_of(item, bar.page)
    &&& 2 * item.y < bar.y_twice
    &&& 100 * (bar.y_twice - 2 * item.y) <= 250 * letter_size(item)
    &&& 2 * covers(item, bar) >= item.width
}

/// The item at `a` is read before the one at `b`: it starts further to the left, or comes
/// first in the stream.
pub open spec fn read_before(items: Seq<TextItem>, a: usize, b: usize) -> bool {
    items[a as int].x < items[b as int].x || (items[a as int].x == items[b as int].x && a < b)
}

/// The items are in reading order, each once.
pub open spec fn in_reading_order(items: Seq<TextItem>, idxs: Seq<usize>) -> bool {
    forall|a: int, b: int|
        0 <= a < b < idxs.len() ==> read_before(items, #[trigger] idxs[a], #[trigger] idxs[b])
}

/// The gap in front of an item is at most 0.8 of the size of the letters to its left.
pub open spec fn close_at(items: Seq<TextItem>, idxs: Seq<usize>, k: int) -> bool {
    let left = items[idxs[k - 1] as int];
    let right = items[idxs[k] as int];
    10 * (right.x - (left.x + left.width)) <= 8 * letter_size(left)
}

/// No gap between neighbours is wide.
pub open spec fn is_close_run(items: Seq<TextItem>, idxs: Seq<usize>) -> bool {
    forall|k: int| 0 < k < idxs.len() ==> #[trigger] close_at(items, idxs, k)
}

/// The items reach from `lo` to `hi`.
pub open spec fn reaches(items: Seq<TextItem>, idxs: Seq<usize>, lo: int, hi: int) -> bool {
    &&& forall|k: int|
        0 <= k < idxs.len() ==> lo <= items[#[trigger] idxs[k] as int].x && items[idxs[k] as int].x
            + items[idxs[k] as int].width <= hi
    &&& exists|k: int| 0 <= k < idxs.len() && items[#[trigger] idxs[k] as int].x == lo
    &&& exists|k: int|
        0 <= k < idxs.len() && items[#[trigger] idxs[k] as int].x + items[idxs[k] as int].width
            == hi
}

/// Two spans overlap by at least half of the narrower one, and the bar sticks out of both
/// by at most 12 points.
pub open spec fn lies_between(bar: Bar, n1: int, n2: int, d1: int, d2: int) -> bool {
    let overlap = (if n2 <= d2 {
        n2
    } else {
        d2
    }) - (if n1 >= d1 {
        n1
    } else {
        d1
    });
    &&& 2 * overlap >= n2 - n1 || 2 * overlap >= d2 - d1
    &&& bar.x1 + 12000 >= n1 || bar.x1 + 12000 >= d1
    &&& bar.x2 <= n2 + 12000 || bar.x2 <= d2 + 12000
}

/// The halves of a fraction, in reading order.
pub struct Fraction {
    pub nums: Seq<usize>,
    pub dens: Seq<usize>,
}

/// The halves are all the free items above and below the bar.
pub open spec fn has_halves(
    f: Fraction,
    items: Seq<TextItem>,
    used: Set<usize>,
    bar: Bar,
) -> bool {
    &&& in_reading_order(items, f.nums)
    &&& in_reading_order(items, f.dens)
    &&& forall|i: usize| #[trigger]
        f.nums.contains(i) <==> i < items.len() && !used.contains(i) && in_numerator(
            items[i as int],
            bar,
        )
    &&& forall|i: usize| #[trigger]
        f.dens.contains(i) <==> i < items.len() && !used.contains(i) && in_denominator(
            items[i as int],
            bar,
        )
}

/// The halves look like a fraction: both are there, each is one run, and they lie on top
/// of each other with the bar in between.
#[verifier::opaque]
pub open spec fn looks_stacked(f: Fraction, items: Seq<TextItem>, bar: Bar) -> bool {
    &&& f.nums.len() > 0
    &&& f.dens.len() > 0
    &&& is_close_run(items, f.nums)
    &&& is_close_run(items, f.dens)
    &&& exists|n1: int, n2: int, d1: int, d2: int|
        #![trigger reaches(items, f.nums, n1, n2), reaches(items, f.dens, d1, d2)]
        reaches(items, f.nums, n1, n2) && reaches(items, f.dens, d1, d2) && lies_between(
            bar,
            n1,
            n2,
            d1,
            d2,
        )
}

/// Where the text of a denominator starts: behind the numerator, the slash, and the texts
/// to the left of it.
pub open spec fn text_start(items: Seq<TextItem>, num: nat, dens: Seq<usize>, k: nat) -> nat
    decreases k,
{
    if k == 0 {
        num + 1
    } else {
        text_start(items, num, dens, (k - 1) as nat) + items[dens[k - 1] as int].text@.len()
    }
}

/// The text reads as the numerator, a slash, and the denominators in order.
pub open spec fn reads_as_fraction(
    text: Seq<char>,
    items: Seq<TextItem>,
    num: Seq<char>,
    dens: Seq<usize>,
) -> bool {
    &&& starts_with(text, num)
    &&& text[num.len() as int] == '/'
    &&& text.len() == text_start(items, num.len(), dens, dens.len())
    &&& forall|k: int|
        0 <= k < dens.len() ==> occurs_at(
            text,
            items[#[trigger] dens[k] as int].text@,
            text_start(items, num.len(), dens, k as nat) as int,
        )
}

/// Short text beside the bar, between the baselines of the halves and more than a point
/// away from each, at most two and a half letters away from the bar.
pub open spec fn stands_beside(item: TextItem, bar: Bar, upper: int, lower: int) -> bool {
    &&& is_text_of(item, bar.page)
    &&& item.text@.len() <= 8
    &&& item.y < upper - 1000
    &&& item.y > lower + 1000
    &&& 10 * (bar.x1 - (item.x + item.width)) <= 25 * letter_size(item)
    &&& 10 * (item.x - bar.x2) <= 25 * letter_size(item)
}

/// The item of a half that comes first in the stream.
pub open spec fn is_first(idxs: Seq<usize>, i: usize) -> bool {
    idxs.contains(i) && forall|j: usize| #[trigger] idxs.contains(j) ==> i <= j
}

/// The plan goes on with a fraction: the last numerator takes the whole text, the
/// denominators go, and the text beside the bar moves to the numerator's baseline.
pub open spec fn takes(
    f: Fraction,
    items: Seq<TextItem>,
    plan: PlanView,
    bar: Bar,
    num: usize,
    den: usize,
    next: PlanView,
) -> bool {
    let last = f.nums.last();
    let y = items[num as int].y;
    &&& is_first(f.nums, num)
    &&& is_first(f.dens, den)
    &&& next.edits.len() == plan.edits.len() + 1
    &&& next.edits.take(plan.edits.len() as int) == plan.edits
    &&& next.edits.last().0 == last
    &&& reads_as_fraction(next.edits.last().1, items, items[last as int].text@, f.dens)
    &&& forall|i: usize| #[trigger]
        next.dropped.contains(i) <==> plan.dropped.contains(i) || f.dens.contains(i)
    &&& next.y_snaps.len() >= plan.y_snaps.len()
    &&& next.y_snaps.take(plan.y_snaps.len() as int) == plan.y_snaps
    &&& forall|k: int|
        plan.y_snaps.len() <= k < next.y_snaps.len() ==> (#[trigger] next.y_snaps[k]).1 == y
    &&& forall|j: int, k: int|
        plan.y_snaps.len() <= j < k < next.y_snaps.len() ==> (#[trigger] next.y_snaps[j]).0 < (
        #[trigger] next.y_snaps[k]).0
    &&& forall|i: usize|
        moved(plan, next, i) <==> i < items.len() && !plan.used.contains(i) && !f.nums.contains(i)
            && !f.dens.contains(i) && #[trigger] stands_beside(
            items[i as int],
            bar,
            y as int,
            items[den as int].y as int,
        )
    &&& forall|i: usize| #[trigger]
        next.used.contains(i) <==> plan.used.contains(i) || f.nums.contains(i) || f.dens.contains(i)
            || moved(plan, next, i)
}

/// The item is moved by what was added to the plan.
pub open spec fn moved(plan: PlanView, next: PlanView, i: usize) -> bool {
    exists|k: int|
        plan.y_snaps.len() <= k < next.y_snaps.len() && (#[trigger] next.y_snaps[k]).0 == i
}

// ---------------------------------------------------------------------------
// Halves
// ---------------------------------------------------------------------------
proof fn lemma_text(item: TextItem, bar: Bar)
    ensures
        is_half(item, bar, true) <==> in_numerator(item, bar),
        is_half(item, bar, false) <==> in_denominator(item, bar),
{
    let shown = exists|i: int| 0 <= i < item.text@.len() && !is_white(#[trigger] item.text@[i]);
    assert(shown <==> !crate::text::is_blank(item.text@));
}

proof fn lemma_half(items: Seq<TextItem>, used: Set<usize>, bar: Bar, upper: bool, n: nat)
    requires
        n <= items.len() <= usize::MAX,
    ensures
        ({
            let all = half(items, used, bar, upper, n);
            &&& forall|i: usize| #[trigger]
                all.contains(i) <==> i < n && !used.contains(i) && is_half(
                    items[i as int],
                    bar,
                    upper,
                )
            &&& forall|a: int, b: int| 0 <= a < b < all.len() ==> #[trigger] all[a] < #[trigger] all[b]
        }),
    decreases n,
{
    let all = half(items, used, bar, upper, n);
    if n > 0 {
        lemma_half(items, used, bar, upper, (n - 1) as nat);
        let before = half(items, used, bar, upper, (n - 1) as nat);
        let last = (n - 1) as usize;
        let taken = !used.contains(last) && is_half(items[n - 1], bar, upper);
        assert forall|i: usize| #[trigger]
            all.contains(i) <==> i < n && !used.contains(i) && is_half(
                items[i as int],
                bar,
                upper,
            ) by {
            if before.contains(i) {
                let k = choose|k: int| 0 <= k < before.len() && before[k] == i;
                assert(all[k] == i);
            }
            if taken && i == last {
                assert(all[before.len() as int] == i);
            }
            if all.contains(i) {
                let k = choose|k: int| 0 <= k < all.len() && all[k] == i;
                if k < before.len() {
                    assert(before[k] == i);
                    assert(before.contains(i));
                }
            }
        }
        assert forall|a: int, b: int| 0 <= a < b < all.len() implies #[trigger] all[a]
            < #[trigger] all[b] by {
            assert(all[a] == before[a]);
            assert(before.contains(before[a]));
            if b < before.len() {
                assert(all[b] == before[b]);
            }
        }
    }
}

proof fn lemma_insert_ordered(items: Seq<TextItem>, idxs: Seq<usize>, i: usize)
    requires
        in_reading_order(items, idxs),
        forall|k: int| 0 <= k < idxs.len() ==> #[trigger] idxs[k] < i,
    ensures
        in_reading_order(items, insert_by_x(items, idxs, i)),
        insert_by_x(items, idxs, i).len() == idxs.len() + 1,
        forall|v: usize| #[trigger]
            insert_by_x(items, idxs, i).contains(v) <==> idxs.contains(v) || v == i,
    decreases idxs.len(),
{
    let r = insert_by_x(items, idxs, i);
    if idxs.len() > 0 && items[idxs.last() as int].x > items[i as int].x {
        let front = idxs.drop_last();
        let last = idxs.last();
        assert(idxs[idxs.len() - 1] == last);
        assert forall|a: int, b: int| 0 <= a < b < front.len() implies read_before(
            items,
            #[trigger] front[a],
            #[trigger] front[b],
        ) by {
            assert(front[a] == idxs[a] && front[b] == idxs[b]);
        }
        assert forall|k: int| 0 <= k < front.len() implies #[trigger] front[k] < i by {
            assert(front[k] == idxs[k]);
        }
        lemma_insert_ordered(items, front, i);
        let rf = insert_by_x(items, front, i);
        assert(r == rf.push(last));
        assert forall|v: usize| #[trigger] r.contains(v) <==> idxs.contains(v) || v == i by {
            assert(r[rf.len() as int] == last);
            if idxs.contains(v) && v != last {
                let k = choose|k: int| 0 <= k < idxs.len() && idxs[k] == v;
                assert(front[k] == v);
                assert(rf.contains(v));
            }
            if rf.contains(v) {
                let k = choose|k: int| 0 <= k < rf.len() && rf[k] == v;
                assert(r[k] == v);
                if front.contains(v) {
                    let j = choose|j: int| 0 <= j < front.len() && front[j] == v;
                    assert(idxs[j] == v);
                }
            }
            if r.contains(v) {
                let k = choose|k: int| 0 <= k < r.len() && r[k] == v;
                if k < rf.len() {
                    assert(rf[k] == v);
                }
            }
        }
        assert forall|a: int, b: int| 0 <= a < b < r.len() implies read_before(
            items,
            #[trigger] r[a],
            #[trigger] r[b],
        ) by {
            assert(r[a] == rf[a]);
            if b < rf.len() {
                assert(r[b] == rf[b]);
            } else {
                assert(rf.contains(rf[a]));
                if front.contains(rf[a]) {
                    let j = choose|j: int| 0 <= j < front.len() && front[j] == rf[a];
                    assert(idxs[j] == rf[a]);
                }
            }
        }
    } else {
        assert(r == idxs.push(i));
        assert forall|v: usize| #[trigger] r.contains(v) <==> idxs.contains(v) || v == i by {
            assert(r[idxs.len() as int] == i);
            if idxs.contains(v) {
                let k = choose|k: int| 0 <= k < idxs.len() && idxs[k] == v;
                assert(r[k] == v);
            }
        }
        assert forall|a: int, b: int| 0 <= a < b < r.len() implies read_before(
            items,
            #[trigger] r[a],
            #[trigger] r[b],
        ) by {
            assert(r[a] == idxs[a]);
            if b < idxs.len() {
                assert(r[b] == idxs[b]);
            } else {
                let n = idxs.len() - 1;
                assert(idxs[n] == idxs.last());
                if a < n {
                    assert(read_before(items, idxs[a], idxs[n]));
                }
            }
        }
    }
}

proof fn lemma_by_x_ordered(items: Seq<TextItem>, idxs: Seq<usize>)
    requires
        forall|a: int, b: int| 0 <= a < b < idxs.len() ==> #[trigger] idxs[a] < #[trigger] idxs[b],
    ensures
        in_reading_order(items, by_x(items, idxs)),
        by_x(items, idxs).len() == idxs.len(),
        forall|v: usize| #[trigger] by_x(items, idxs).contains(v) <==> idxs.contains(v),
    decreases idxs.len(),
{
    if idxs.len() > 0 {
        let front = idxs.drop_last();
        let last = idxs[idxs.len() - 1];
        assert forall|a: int, b: int| 0 <= a < b < front.len() implies #[trigger] front[a]
            < #[trigger] front[b] by {
            assert(front[a] == idxs[a] && front[b] == idxs[b]);
        }
        lemma_by_x_ordered(items, front);
        let sorted = by_x(items, front);
        assert forall|k: int| 0 <= k < sorted.len() implies #[trigger] sorted[k] < last by {
            assert(sorted.contains(sorted[k]));
            let j = choose|j: int| 0 <= j < front.len() && front[j] == sorted[k];
            assert(idxs[j] == sorted[k]);
        }
        lemma_insert_ordered(items, sorted, last);
        assert forall|v: usize| #[trigger] by_x(items, idxs).contains(v) <==> idxs.contains(v) by {
            if front.contains(v) {
                let j = choose|j: int| 0 <= j < front.len() && front[j] == v;
                assert(idxs[j] == v);
            }
            if idxs.contains(v) && v != last {
                let j = choose|j: int| 0 <= j < idxs.len() && idxs[j] == v;
                assert(front[j] == v);
            }
        }
    }
}

proof fn lemma_edges(items: Seq<TextItem>, idxs: Seq<usize>)
    requires
        idxs.len() > 0,
    ensures
        reaches(items, idxs, left_edge(items, idxs), right_edge(items, idxs)),
    decreases idxs.len(),
{
    let n = idxs.len() - 1;
    let lo = left_edge(items, idxs);
    let hi = right_edge(items, idxs);
    if n == 0 {
        assert(items[idxs[0] as int].x == lo);
        assert(items[idxs[0] as int].x + items[idxs[0] as int].width == hi);
    } else {
        let front = idxs.drop_last();
        lemma_edges(items, front);
        let flo = left_edge(items, front);
        let fhi = right_edge(items, front);
        let a = choose|k: int| 0 <= k < front.len() && items[#[trigger] front[k] as int].x == flo;
        let b = choose|k: int|
            0 <= k < front.len() && items[#[trigger] front[k] as int].x
                + items[front[k] as int].width == fhi;
        assert(idxs[a] == front[a] && idxs[b] == front[b] && idxs[n] == idxs.last());
        assert forall|k: int| 0 <= k < idxs.len() implies lo <= items[#[trigger] idxs[k] as int].x
            && items[idxs[k] as int].x + items[idxs[k] as int].width <= hi by {
            if k < n {
                assert(front[k] == idxs[k]);
            }
        }
        if lo == flo {
            assert(items[idxs[a] as int].x == lo);
        } else {
            assert(items[idxs[n] as int].x == lo);
        }
        if hi == fhi {
            assert(items[idxs[b] as int].x + items[idxs[b] as int].width == hi);
        } else {
            assert(items[idxs[n] as int].x + items[idxs[n] as int].width == hi);
        }
    }
}

/// A span is determined by the items that reach over it.
proof fn lemma_same_span(
    items: Seq<TextItem>,
    a: Seq<usize>,
    b: Seq<usize>,
    lo: int,
    hi: int,
    lo2: int,
    hi2: int,
)
    requires
        reaches(items, a, lo, hi),
        reaches(items, b, lo2, hi2),
        forall|v: usize| #[trigger] a.contains(v) <==> b.contains(v),
    ensures
        lo == lo2,
        hi == hi2,
{
    lemma_span_within(items, a, b, lo, hi, lo2, hi2);
    lemma_span_within(items, b, a, lo2, hi2, lo, hi);
}

proof fn lemma_span_within(
    items: Seq<TextItem>,
    a: Seq<usize>,
    b: Seq<usize>,
    lo: int,
    hi: int,
    lo2: int,
    hi2: int,
)
    requires
        reaches(items, a, lo, hi),
        reaches(items, b, lo2, hi2),
        forall|v: usize| #[trigger] a.contains(v) ==> b.contains(v),
    ensures
        lo2 <= lo,
        hi <= hi2,
{
    let i = choose|k: int| 0 <= k < a.len() && items[#[trigger] a[k] as int].x == lo;
    assert(a.contains(a[i]));
    let i2 = choose|k: int| 0 <= k < b.len() && b[k] == a[i];
    assert(lo2 <= items[b[i2] as int].x);
    let j = choose|k: int|
        0 <= k < a.len() && items[#[trigger] a[k] as int].x + items[a[k] as int].width == hi;
    assert(a.contains(a[j]));
    let j2 = choose|k: int| 0 <= k < b.len() && b[k] == a[j];
    assert(items[b[j2] as int].x + items[b[j2] as int].width <= hi2);
}

/// Two lists of the same items in reading order are the same list.
proof fn lemma_order_is_unique(items: Seq<TextItem>, a: Seq<usize>, b: Seq<usize>)
    requires
        in_reading_order(items, a),
        in_reading_order(items, b),
        forall|v: usize| #[trigger] a.contains(v) <==> b.contains(v),
    ensures
        a == b,
    decreases a.len(),
{
    if a.len() == 0 {
        if b.len() > 0 {
            assert(b.contains(b[0]));
            assert(a.contains(b[0]));
        }
        assert(a =~= b);
    } else {
        assert(a.contains(a[0]));
        assert(b.contains(a[0]));
        let j = choose|k: int| 0 <= k < b.len() && b[k] == a[0];
        assert(b.contains(b[0]));
        assert(a.contains(b[0]));
        let i = choose|k: int| 0 <= k < a.len() && a[k] == b[0];
        if j > 0 && i > 0 {
            assert(read_before(items, a[0], a[i]));
            assert(read_before(items, b[0], b[j]));
        }
        assert(a[0] == b[0]);
        let ra = a.drop_first();
        let rb = b.drop_first();
        assert forall|x: int, y: int| 0 <= x < y < ra.len() implies read_before(
            items,
            #[trigger] ra[x],
            #[trigger] ra[y],
        ) by {
            assert(ra[x] == a[x + 1] && ra[y] == a[y + 1]);
        }
        assert forall|x: int, y: int| 0 <= x < y < rb.len() implies read_before(
            items,
            #[trigger] rb[x],
            #[trigger] rb[y],
        ) by {
            assert(rb[x] == b[x + 1] && rb[y] == b[y + 1]);
        }
        assert forall|v: usize| #[trigger] ra.contains(v) <==> rb.contains(v) by {
            if ra.contains(v) {
                let k = choose|k: int| 0 <= k < ra.len() && ra[k] == v;
                assert(a[k + 1] == v);
                assert(read_before(items, a[0], a[k + 1]));
                assert(a.contains(v));
                assert(b.contains(v));
                let m = choose|m: int| 0 <= m < b.len() && b[m] == v;
                assert(m > 0);
                assert(rb[m - 1] == v);
            }
            if rb.contains(v) {
                let k = choose|k: int| 0 <= k < rb.len() && rb[k] == v;
                assert(b[k + 1] == v);
                assert(read_before(items, b[0], b[k + 1]));
                assert(b.contains(v));
                assert(a.contains(v));
                let m = choose|m: int| 0 <= m < a.len() && a[m] == v;
                assert(m > 0);
                assert(ra[m - 1] == v);
            }
        }
        lemma_order_is_unique(items, ra, rb);
        assert(a =~= seq![a[0]] + ra);
        assert(b =~= seq![b[0]] + rb);
    }
}

// ---------------------------------------------------------------------------
// The text of a fraction
// ---------------------------------------------------------------------------
proof fn lemma_text_start(items: Seq<TextItem>, num: nat, a: Seq<usize>, b: Seq<usize>, k: nat)
    requires
        k <= a.len(),
        k <= b.len(),
        forall|j: int| 0 <= j < k ==> a[j] == b[j],
    ensures
        text_start(items, num, a, k) == text_start(items, num, b, k),
    decreases k,
{
    if k > 0 {
        lemma_text_start(items, num, a, b, (k - 1) as nat);
    }
}

proof fn lemma_text_starts_inside(items: Seq<TextItem>, num: nat, dens: Seq<usize>, k: nat)
    requires
        k < dens.len(),
    ensures
        num + 1 <= text_start(items, num, dens, k),
        text_start(items, num, dens, k) + items[dens[k as int] as int].text@.len() <= text_start(
            items,
            num,
            dens,
            dens.len(),
        ),
    decreases dens.len() - k,
{
    lemma_text_start_grows(items, num, dens, k);
    if k + 1 < dens.len() {
        lemma_text_starts_inside(items, num, dens, k + 1);
    }
}

proof fn lemma_text_start_grows(items: Seq<TextItem>, num: nat, dens: Seq<usize>, k: nat)
    ensures
        num + 1 <= text_start(items, num, dens, k),
    decreases k,
{
    if k > 0 {
        lemma_text_start_grows(items, num, dens, (k - 1) as nat);
    }
}

/// A fraction reads as the numerator, a slash, and the denominators from left to right.
proof fn lemma_fraction_text(items: Seq<TextItem>, num: Seq<char>, dens: Seq<usize>)
    ensures
        reads_as_fraction(num + seq!['/'] + concat_text(items, dens), items, num, dens),
    decreases dens.len(),
{
    let text = num + seq!['/'] + concat_text(items, dens);
    assert(text.subrange(0, num.len() as int) =~= num);
    if dens.len() > 0 {
        let front = dens.drop_last();
        let before = num + seq!['/'] + concat_text(items, front);
        let last = items[dens.last() as int].text@;
        lemma_fraction_text(items, num, front);
        lemma_text_start(items, num.len(), front, dens, front.len());
        assert(text =~= before + last);
        assert forall|k: int| 0 <= k < dens.len() implies occurs_at(
            text,
            items[#[trigger] dens[k] as int].text@,
            text_start(items, num.len(), dens, k as nat) as int,
        ) by {
            let at = text_start(items, num.len(), dens, k as nat) as int;
            let t = items[dens[k] as int].text@;
            if k < front.len() {
                assert(front[k] == dens[k]);
                lemma_text_start(items, num.len(), front, dens, k as nat);
                lemma_text_starts_inside(items, num.len(), front, k as nat);
                assert(text.subrange(at, at + t.len()) =~= before.subrange(at, at + t.len()));
            } else {
                assert(text.subrange(at, at + t.len()) =~= t);
            }
        }
    }
}

// ---------------------------------------------------------------------------
// One bar
// ---------------------------------------------------------------------------
proof fn lemma_snapped(
    items: Seq<TextItem>,
    used: Set<usize>,
    bar: Bar,
    upper: int,
    lower: int,
    n: nat,
)
    requires
        n <= items.len() <= usize::MAX,
    ensures
        forall|i: usize| #[trigger]
            snapped(items, used, bar, upper, lower, n).contains(i) <==> i < n && !used.contains(i)
                && stands_beside(items[i as int], bar, upper, lower),
        forall|a: int, b: int|
            0 <= a < b < snapped(items, used, bar, upper, lower, n).len() ==> #[trigger] snapped(
                items,
                used,
                bar,
                upper,
                lower,
                n,
            )[a] < #[trigger] snapped(items, used, bar, upper, lower, n)[b],
    decreases n,
{
    let all = snapped(items, used, bar, upper, lower, n);
    if n > 0 {
        lemma_snapped(items, used, bar, upper, lower, (n - 1) as nat);
        let before = snapped(items, used, bar, upper, lower, (n - 1) as nat);
        let last = (n - 1) as usize;
        lemma_beside(items[n - 1], bar, upper, lower);
        assert forall|i: usize| #[trigger]
            all.contains(i) <==> i < n && !used.contains(i) && stands_beside(
                items[i as int],
                bar,
                upper,
                lower,
            ) by {
            if before.contains(i) {
                let k = choose|k: int| 0 <= k < before.len() && before[k] == i;
                assert(all[k] == i);
            }
            if all.len() > before.len() {
                assert(all[before.len() as int] == last);
            }
            if all.contains(i) {
                let k = choose|k: int| 0 <= k < all.len() && all[k] == i;
                if k < before.len() {
                    assert(before[k] == i);
                    assert(before.contains(i));
                }
            }
        }
        assert forall|a: int, b: int| 0 <= a < b < all.len() implies #[trigger] all[a]
            < #[trigger] all[b] by {
            assert(all[a] == before[a]);
            assert(before.contains(before[a]));
            if b < before.len() {
                assert(all[b] == before[b]);
            }
        }
    }
}

proof fn lemma_beside(item: TextItem, bar: Bar, upper: int, lower: int)
    ensures
        snaps(item, bar, upper, lower) <==> stands_beside(item, bar, upper, lower),
{
    let shown = exists|i: int| 0 <= i < item.text@.len() && !is_white(#[trigger] item.text@[i]);
    assert(shown <==> !crate::text::is_blank(item.text@));
}

/// What one bar does to the plan.
pub open spec fn bar_step(items: Seq<TextItem>, plan: PlanView, bar: Bar, next: PlanView) -> bool {
    exists|f: Fraction| #[trigger]
        has_halves(f, items, plan.used, bar) && if looks_stacked(f, items, bar) {
            exists|num: usize, den: usize| #[trigger]
                takes(f, items, plan, bar, num, den, next)
        } else {
            next == plan
        }
}

proof fn lemma_stacked(items: Seq<TextItem>, bar: Bar, nums: Seq<usize>, dens: Seq<usize>)
    requires
        forall|a: int, b: int| 0 <= a < b < nums.len() ==> #[trigger] nums[a] < #[trigger] nums[b],
        forall|a: int, b: int| 0 <= a < b < dens.len() ==> #[trigger] dens[a] < #[trigger] dens[b],
    ensures
        is_fraction(items, bar, nums, dens) <==> looks_stacked(
            (Fraction { nums: by_x(items, nums), dens: by_x(items, dens) }),
            items,
            bar,
        ),
{
    let f = Fraction { nums: by_x(items, nums), dens: by_x(items, dens) };
    reveal(looks_stacked);
    lemma_by_x_ordered(items, nums);
    lemma_by_x_ordered(items, dens);
    lemma_close(items, f.nums);
    lemma_close(items, f.dens);
    if nums.len() > 0 && dens.len() > 0 {
        let (n1, n2) = (left_edge(items, nums), right_edge(items, nums));
        let (d1, d2) = (left_edge(items, dens), right_edge(items, dens));
        lemma_edges_by_x(items, nums);
        lemma_edges_by_x(items, dens);
        if looks_stacked(f, items, bar) {
            let (a1, a2, b1, b2) = choose|a1: int, a2: int, b1: int, b2: int|
                #![trigger reaches(items, f.nums, a1, a2), reaches(items, f.dens, b1, b2)]
                reaches(items, f.nums, a1, a2) && reaches(items, f.dens, b1, b2) && lies_between(
                    bar,
                    a1,
                    a2,
                    b1,
                    b2,
                );
            lemma_same_span(items, f.nums, f.nums, n1, n2, a1, a2);
            lemma_same_span(items, f.dens, f.dens, d1, d2, b1, b2);
        }
    }
}

proof fn lemma_edges_by_x(items: Seq<TextItem>, idxs: Seq<usize>)
    requires
        idxs.len() > 0,
        forall|a: int, b: int| 0 <= a < b < idxs.len() ==> #[trigger] idxs[a] < #[trigger] idxs[b],
    ensures
        reaches(items, by_x(items, idxs), left_edge(items, idxs), right_edge(items, idxs)),
{
    let sorted = by_x(items, idxs);
    lemma_by_x_ordered(items, idxs);
    lemma_edges(items, idxs);
    lemma_edges(items, sorted);
    lemma_same_span(
        items,
        idxs,
        sorted,
        left_edge(items, idxs),
        right_edge(items, idxs),
        left_edge(items, sorted),
        right_edge(items, sorted),
    );
}

proof fn lemma_close(items: Seq<TextItem>, idxs: Seq<usize>)
    ensures
        is_close_run(items, idxs) <==> contiguous(items, idxs),
{
    if is_close_run(items, idxs) {
        assert forall|k: int| 0 < k < idxs.len() implies adjacent(
            items[idxs[k - 1] as int],
            items[#[trigger] idxs[k] as int],
        ) by {
            assert(close_at(items, idxs, k));
        }
    }
    if contiguous(items, idxs) {
        assert forall|k: int| 0 < k < idxs.len() implies #[trigger] close_at(items, idxs, k) by {
            assert(adjacent(items[idxs[k - 1] as int], items[idxs[k] as int]));
        }
    }
}

proof fn lemma_takes(
    items: Seq<TextItem>,
    plan: PlanView,
    bar: Bar,
    nums: Seq<usize>,
    dens: Seq<usize>,
)
    requires
        items.len() <= usize::MAX,
        nums == half(items, plan.used, bar, true, items.len()),
        dens == half(items, plan.used, bar, false, items.len()),
        nums.len() > 0,
        dens.len() > 0,
    ensures
        takes(
            (Fraction { nums: by_x(items, nums), dens: by_x(items, dens) }),
            items,
            plan,
            bar,
            nums[0],
            dens[0],
            take_fraction(items, plan, bar, nums, dens),
        ),
{
    let f = Fraction { nums: by_x(items, nums), dens: by_x(items, dens) };
    let next = take_fraction(items, plan, bar, nums, dens);
    lemma_half(items, plan.used, bar, true, items.len());
    lemma_half(items, plan.used, bar, false, items.len());
    lemma_by_x_ordered(items, nums);
    lemma_by_x_ordered(items, dens);
    assert(nums.contains(nums[0]) && dens.contains(dens[0]));
    assert(is_first(f.nums, nums[0])) by {
        assert forall|j: usize| #[trigger] f.nums.contains(j) implies nums[0] <= j by {
            assert(nums.contains(j));
            let k = choose|k: int| 0 <= k < nums.len() && nums[k] == j;
        }
    }
    assert(is_first(f.dens, dens[0])) by {
        assert forall|j: usize| #[trigger] f.dens.contains(j) implies dens[0] <= j by {
            assert(dens.contains(j));
            let k = choose|k: int| 0 <= k < dens.len() && dens[k] == j;
        }
    }
    let last = f.nums.last();
    lemma_fraction_text(items, items[last as int].text@, f.dens);
    let y = items[nums[0] as int].y;
    let low = items[dens[0] as int].y;
    let used = plan.used.union(nums.to_set()).union(dens.to_set());
    let snap = snapped(items, used, bar, y as int, low as int, items.len());
    lemma_snapped(items, used, bar, y as int, low as int, items.len());
    assert(next.edits.take(plan.edits.len() as int) =~= plan.edits);
    assert(next.y_snaps.take(plan.y_snaps.len() as int) =~= plan.y_snaps);
    let m = plan.y_snaps.len();
    assert forall|k: int| m <= k < next.y_snaps.len() implies (#[trigger] next.y_snaps[k]) == (
        snap[k - m],
        y,
    ) by {
        assert(next.y_snaps[k] == with_baseline(snap, y)[k - m]);
    }
    assert forall|i: usize| #[trigger] moved(plan, next, i) <==> snap.contains(i) by {
        if snap.contains(i) {
            let k = choose|k: int| 0 <= k < snap.len() && snap[k] == i;
            assert(next.y_snaps[k + m].0 == i);
        }
    }
    assert forall|j: int, k: int| m <= j < k < next.y_snaps.len() implies (
    #[trigger] next.y_snaps[j]).0 < (#[trigger] next.y_snaps[k]).0 by {
        assert(snap[j - m] < snap[k - m]);
    }
    assert forall|i: usize|
        moved(plan, next, i) <==> i < items.len() && !plan.used.contains(i) && !f.nums.contains(i)
            && !f.dens.contains(i) && #[trigger] stands_beside(
            items[i as int],
            bar,
            y as int,
            low as int,
        ) by {
        assert(moved(plan, next, i) <==> snap.contains(i));
        assert(f.nums.contains(i) <==> nums.contains(i));
        assert(f.dens.contains(i) <==> dens.contains(i));
    }
    assert forall|i: usize| #[trigger]
        next.used.contains(i) <==> plan.used.contains(i) || f.nums.contains(i) || f.dens.contains(i)
            || moved(plan, next, i) by {
        assert(moved(plan, next, i) <==> snap.contains(i));
        assert(f.nums.contains(i) <==> nums.contains(i));
        assert(f.dens.contains(i) <==> dens.contains(i));
    }
    assert forall|i: usize| #[trigger]
        next.dropped.contains(i) <==> plan.dropped.contains(i) || f.dens.contains(i) by {
        assert(f.dens.contains(i) <==> dens.contains(i));
    }
}

/// What a bar does. All the free text right above and right below it makes up the two
/// halves; if they look like a fraction, the last numerator takes its own text, a slash,
/// and the denominators' texts from left to right, each right behind the one before, the
/// denominators go, and the short text beside the bar moves to the numerator's baseline.
/// Otherwise nothing changes.
pub proof fn law_bars_take_stacked_text(
    items: Seq<TextItem>,
    plan: PlanView,
    bar: Bar,
    f: Fraction,
    next: PlanView,
)
    requires
        items.len() <= usize::MAX,
        has_halves(f, items, plan.used, bar),
        next == plan_bar(items, plan, bar),
    ensures
        looks_stacked(f, items, bar) ==> exists|num: usize, den: usize| #[trigger]
            takes(f, items, plan, bar, num, den, next),
        !looks_stacked(f, items, bar) ==> next == plan,
{
    let nums = half(items, plan.used, bar, true, items.len());
    let dens = half(items, plan.used, bar, false, items.len());
    lemma_has_halves(items, plan.used, bar);
    let g = Fraction { nums: by_x(items, nums), dens: by_x(items, dens) };
    lemma_order_is_unique(items, f.nums, g.nums);
    lemma_order_is_unique(items, f.dens, g.dens);
    lemma_half(items, plan.used, bar, true, items.len());
    lemma_half(items, plan.used, bar, false, items.len());
    lemma_stacked(items, bar, nums, dens);
    if is_fraction(items, bar, nums, dens) {
        lemma_takes(items, plan, bar, nums, dens);
    }
}

proof fn lemma_has_halves(items: Seq<TextItem>, used: Set<usize>, bar: Bar)
    requires
        items.len() <= usize::MAX,
    ensures
        has_halves(
            (Fraction {
                nums: by_x(items, half(items, used, bar, true, items.len())),
                dens: by_x(items, half(items, used, bar, false, items.len())),
            }),
            items,
            used,
            bar,
        ),
{
    let nums = half(items, used, bar, true, items.len());
    let dens = half(items, used, bar, false, items.len());
    lemma_half(items, used, bar, true, items.len());
    lemma_half(items, used, bar, false, items.len());
    lemma_by_x_ordered(items, nums);
    lemma_by_x_ordered(items, dens);
    assert forall|i: usize| #[trigger]
        by_x(items, nums).contains(i) <==> i < items.len() && !used.contains(i) && in_numerator(
            items[i as int],
            bar,
        ) by {
        assert(by_x(items, nums).contains(i) <==> nums.contains(i));
        lemma_text(items[i as int], bar);
    }
    assert forall|i: usize| #[trigger]
        by_x(items, dens).contains(i) <==> i < items.len() && !used.contains(i) && in_denominator(
            items[i as int],
            bar,
        ) by {
        assert(by_x(items, dens).contains(i) <==> dens.contains(i));
        lemma_text(items[i as int], bar);
    }
}

/// With two denominators the text is the numerator, a slash, the left one and the right
/// one, whatever their order in the stream.
pub proof fn law_two_denominators_are_read_left_to_right(
    items: Seq<TextItem>,
    plan: PlanView,
    bar: Bar,
    f: Fraction,
    left: usize,
    right: usize,
)
    requires
        items.len() <= usize::MAX,
        has_halves(f, items, plan.used, bar),
        looks_stacked(f, items, bar),
        f.dens.len() == 2,
        f.dens.contains(left),
        f.dens.contains(right),
        items[left as int].x < items[right as int].x,
    ensures
        plan_bar(items, plan, bar).edits.last() == (
            f.nums.last(),
            items[f.nums.last() as int].text@ + seq!['/'] + items[left as int].text@
                + items[right as int].text@,
        ),
{
    let next = plan_bar(items, plan, bar);
    law_bars_take_stacked_text(items, plan, bar, f, next);
    let a = choose|a: int| 0 <= a < 2 && f.dens[a] == left;
    let b = choose|b: int| 0 <= b < 2 && f.dens[b] == right;
    if a > b {
        assert(read_before(items, f.dens[b], f.dens[a]));
    }
    assert(a == 0 && b == 1);
    let text = next.edits.last().1;
    let num = items[f.nums.last() as int].text@;
    let l = items[left as int].text@;
    let r = items[right as int].text@;
    assert(text_start(items, num.len(), f.dens, 0) == num.len() + 1);
    assert(text_start(items, num.len(), f.dens, 1) == num.len() + 1 + l.len()) by {
        reveal_with_fuel(text_start, 2);
    }
    assert(text_start(items, num.len(), f.dens, 2) == num.len() + 1 + l.len() + r.len()) by {
        reveal_with_fuel(text_start, 3);
    }
    assert(f.dens[0] == left && f.dens[1] == right);
    assert(occurs_at(text, l, (num.len() + 1) as int));
    assert(occurs_at(text, r, (num.len() + 1 + l.len()) as int));
    lemma_three_parts(text, num, l, r);
}

proof fn lemma_three_parts(text: Seq<char>, num: Seq<char>, l: Seq<char>, r: Seq<char>)
    requires
        starts_with(text, num),
        text.len() == num.len() + 1 + l.len() + r.len(),
        text[num.len() as int] == '/',
        occurs_at(text, l, (num.len() + 1) as int),
        occurs_at(text, r, (num.len() + 1 + l.len()) as int),
    ensures
        text == num + seq!['/'] + l + r,
{
    let n = num.len() as int;
    let all = num + seq!['/'] + l + r;
    assert(all.len() == text.len());
    assert forall|i: int| 0 <= i < text.len() implies text[i] == all[i] by {
        if i < n {
            assert(text[i] == text.subrange(0, n)[i]);
        } else if n < i < n + 1 + l.len() {
            assert(text[i] == text.subrange(n + 1, n + 1 + l.len())[i - n - 1]);
        } else if i > n {
            let at = n + 1 + l.len();
            assert(text[i] == text.subrange(at, at + r.len())[i - at]);
        }
    }
    assert(text =~= all);
}

// ---------------------------------------------------------------------------
// All the bars
// ---------------------------------------------------------------------------
proof fn lemma_bar_step(items: Seq<TextItem>, plan: PlanView, bar: Bar)
    requires
        items.len() <= usize::MAX,
    ensures
        bar_step(items, plan, bar, plan_bar(items, plan, bar)),
{
    let f = Fraction {
        nums: by_x(items, half(items, plan.used, bar, true, items.len())),
        dens: by_x(items, half(items, plan.used, bar, false, items.len())),
    };
    lemma_has_halves(items, plan.used, bar);
    law_bars_take_stacked_text(items, plan, bar, f, plan_bar(items, plan, bar));
}

/// The bars are taken in order, each on what the ones before have left: from the empty
/// plan, step by step.
pub proof fn law_bars_are_taken_in_order(items: Seq<TextItem>, bars: Seq<Bar>, k: int)
    requires
        items.len() <= usize::MAX,
        0 <= k < bars.len(),
    ensures
        ({
            let first = plan_bars(items, bars.take(0));
            &&& first.edits.len() == 0
            &&& first.y_snaps.len() == 0
            &&& first.dropped == Set::<usize>::empty()
            &&& first.used == Set::<usize>::empty()
        }),
        bar_step(items, plan_bars(items, bars.take(k)), bars[k], plan_bars(items, bars.take(k + 1))),
        plan_bars(items, bars.take(bars.len() as int)) == plan_bars(items, bars),
{
    assert(bars.take(k + 1).drop_last() =~= bars.take(k));
    assert(bars.take(bars.len() as int) =~= bars);
    lemma_bar_step(items, plan_bars(items, bars.take(k)), bars[k]);
}

/// The text of an item stands in one of the new texts.
pub open spec fn stands_in_edit(items: Seq<TextItem>, plan: PlanView, i: usize) -> bool {
    exists|k: int, at: int|
        0 <= k < plan.edits.len() && #[trigger] occurs_at(
            plan.edits[k].1,
            items[i as int].text@,
            at,
        )
}

/// Nothing is lost: a changed item still begins with its own text, and the text of a
/// removed item stands in a changed one.
pub proof fn law_fractions_lose_no_text(items: Seq<TextItem>, bars: Seq<Bar>)
    requires
        items.len() <= usize::MAX,
    ensures
        forall|k: int|
            0 <= k < plan_bars(items, bars).edits.len() ==> starts_with(
                (#[trigger] plan_bars(items, bars).edits[k]).1,
                items[plan_bars(items, bars).edits[k].0 as int].text@,
            ),
        forall|i: usize| #[trigger]
            plan_bars(items, bars).dropped.contains(i) ==> stands_in_edit(
                items,
                plan_bars(items, bars),
                i,
            ),
    decreases bars.len(),
{
    if bars.len() > 0 {
        let plan = plan_bars(items, bars.drop_last());
        let bar = bars.last();
        let next = plan_bars(items, bars);
        law_fractions_lose_no_text(items, bars.drop_last());
        lemma_bar_step(items, plan, bar);
        let f = choose|f: Fraction| #[trigger]
            has_halves(f, items, plan.used, bar) && if looks_stacked(f, items, bar) {
                exists|num: usize, den: usize| #[trigger]
                    takes(f, items, plan, bar, num, den, next)
            } else {
                next == plan
            };
        if looks_stacked(f, items, bar) {
            let m = plan.edits.len() as int;
            assert forall|k: int| 0 <= k < next.edits.len() implies starts_with(
                (#[trigger] next.edits[k]).1,
                items[next.edits[k].0 as int].text@,
            ) by {
                if k < m {
                    assert(next.edits.take(m)[k] == plan.edits[k]);
                }
            }
            assert forall|i: usize| #[trigger] next.dropped.contains(i) implies stands_in_edit(
                items,
                next,
                i,
            ) by {
                if f.dens.contains(i) {
                    let d = choose|d: int| 0 <= d < f.dens.len() && f.dens[d] == i;
                    let num = items[f.nums.last() as int].text@;
                    assert(next.edits[m] == next.edits.last());
                    assert(occurs_at(
                        next.edits[m].1,
                        items[f.dens[d] as int].text@,
                        text_start(items, num.len(), f.dens, d as nat) as int,
                    ));
                } else {
                    assert(plan.dropped.contains(i));
                    let (k, at) = choose|k: int, at: int|
                        0 <= k < plan.edits.len() && #[trigger] occurs_at(
                            plan.edits[k].1,
                            items[i as int].text@,
                            at,
                        );
                    assert(next.edits.take(m)[k] == plan.edits[k]);
                    assert(occurs_at(next.edits[k].1, items[i as int].text@, at));
                }
            }
        }
    }
}

// ---------------------------------------------------------------------------
// Candidate bars
// ---------------------------------------------------------------------------
/// The bar runs between the two places and is 4 to 250 points long.
pub open spec fn runs_between(bar: Bar, a: int, b: int) -> bool {
    &&& (bar.x1 == a && bar.x2 == b) || (bar.x1 == b && bar.x2 == a)
    &&& 4_000 <= bar.x2 - bar.x1 <= 250_000
}

/// The bar that a line draws: one whose ends differ in height by at most 1.5 points.
pub open spec fn drawn_by_line(line: PdfLine, bar: Bar) -> bool {
    &&& bar.page == line.page
    &&& runs_between(bar, line.x1 as int, line.x2 as int)
    &&& -1_500 <= line.y1 - line.y2 <= 1_500
    &&& bar.y_twice == line.y1 + line.y1
}

/// The bar that a rectangle draws: one less than 2.5 points high, through its middle.
pub open spec fn drawn_by_rect(rect: PdfRect, bar: Bar) -> bool {
    &&& bar.page == rect.page
    &&& runs_between(bar, rect.x as int, rect.x + rect.width)
    &&& -2_500 < rect.height < 2_500
    &&& bar.y_twice == rect.y + (rect.y + rect.height)
}

/// The bar is drawn by the `n`-th shape, lines counted first.
pub open spec fn drawn_by(rects: Seq<PdfRect>, lines: Seq<PdfLine>, n: int, bar: Bar) -> bool {
    if n < lines.len() {
        drawn_by_line(lines[n], bar)
    } else {
        drawn_by_rect(rects[n - lines.len()], bar)
    }
}

/// The `n`-th shape draws a bar of the page whose ends lie within a point of this one's.
pub open spec fn draws_alike(rects: Seq<PdfRect>, lines: Seq<PdfLine>, n: int, bar: Bar) -> bool {
    exists|other: Bar| #[trigger]
        drawn_by(rects, lines, n, other) && other.page == bar.page && -1_000 <= other.x1 - bar.x1
            <= 1_000 && -1_000 <= other.x2 - bar.x2 <= 1_000
}

/// Three shapes draw bars with the same ends: the rulings of a table.
pub open spec fn is_ruling(rects: Seq<PdfRect>, lines: Seq<PdfLine>, bar: Bar) -> bool {
    exists|a: int, b: int, c: int|
        0 <= a < b < c < lines.len() + rects.len() && #[trigger] draws_alike(rects, lines, a, bar)
            && #[trigger] draws_alike(rects, lines, b, bar) && #[trigger] draws_alike(
            rects,
            lines,
            c,
            bar,
        )
}

/// The bars are those that the shapes `from` draw, in order, and these are all the shapes
/// among the first `n` that draw a bar and no ruling.
pub open spec fn are_bars_of(
    rects: Seq<PdfRect>,
    lines: Seq<PdfLine>,
    bars: Seq<Bar>,
    from: Seq<int>,
    n: int,
) -> bool {
    &&& from.len() == bars.len()
    &&& forall|a: int, b: int| 0 <= a < b < from.len() ==> #[trigger] from[a] < #[trigger] from[b]
    &&& forall|k: int|
        0 <= k < from.len() ==> 0 <= #[trigger] from[k] < n && drawn_by(
            rects,
            lines,
            from[k],
            bars[k],
        )
    &&& forall|m: int, bar: Bar| #[trigger]
        drawn_by(rects, lines, m, bar) && 0 <= m < n ==> (from.contains(m) <==> !is_ruling(
            rects,
            lines,
            bar,
        ))
}

spec fn bar_of(rects: Seq<PdfRect>, lines: Seq<PdfLine>, n: int) -> Option<Bar> {
    if n < lines.len() {
        line_bar(lines[n])
    } else {
        rect_bar(rects[n - lines.len()])
    }
}

proof fn lemma_bar_of(rects: Seq<PdfRect>, lines: Seq<PdfLine>, n: int, bar: Bar)
    ensures
        drawn_by(rects, lines, n, bar) <==> bar_of(rects, lines, n) == Some(bar),
{
}

/// The bars of the first `n` shapes.
spec fn bars_upto(rects: Seq<PdfRect>, lines: Seq<PdfLine>, n: int) -> Seq<Bar> {
    if n <= lines.len() {
        line_bars(lines.take(n))
    } else {
        line_bars(lines) + rect_bars(rects.take(n - lines.len()))
    }
}

proof fn lemma_bars_upto(rects: Seq<PdfRect>, lines: Seq<PdfLine>, n: int)
    requires
        0 < n <= lines.len() + rects.len(),
    ensures
        bars_upto(rects, lines, n) == crate::fractions::push_some(
            bars_upto(rects, lines, n - 1),
            bar_of(rects, lines, n - 1),
        ),
{
    if n <= lines.len() {
        assert(lines.take(n).drop_last() =~= lines.take(n - 1));
    } else {
        let k = n - lines.len();
        assert(rects.take(k).drop_last() =~= rects.take(k - 1));
        assert(lines.take(lines.len() as int) =~= lines);
        assert(rects.take(0) =~= Seq::<PdfRect>::empty());
        assert(line_bars(lines) + rect_bars(rects.take(k)) =~= crate::fractions::push_some(
            line_bars(lines) + rect_bars(rects.take(k - 1)),
            rect_bar(rects[k - 1]),
        ));
        if k == 1 {
            assert(line_bars(lines) + rect_bars(rects.take(0)) =~= line_bars(lines));
        }
    }
}

proof fn lemma_alike(rects: Seq<PdfRect>, lines: Seq<PdfLine>, n: int, bar: Bar)
    ensures
        draws_alike(rects, lines, n, bar) <==> (bar_of(rects, lines, n) matches Some(b)
            && crate::fractions::same_edges(b, bar)),
{
    if draws_alike(rects, lines, n, bar) {
        let other = choose|other: Bar| #[trigger]
            drawn_by(rects, lines, n, other) && other.page == bar.page && -1_000 <= other.x1
                - bar.x1 <= 1_000 && -1_000 <= other.x2 - bar.x2 <= 1_000;
        lemma_bar_of(rects, lines, n, other);
    }
    if let Some(b) = bar_of(rects, lines, n) {
        lemma_bar_of(rects, lines, n, b);
    }
}

proof fn lemma_sharing_step(rects: Seq<PdfRect>, lines: Seq<PdfLine>, n: int, bar: Bar)
    requires
        0 < n <= lines.len() + rects.len(),
    ensures
        sharing(bars_upto(rects, lines, n), bar) == sharing(bars_upto(rects, lines, n - 1), bar)
            + if draws_alike(rects, lines, n - 1, bar) {
            1int
        } else {
            0int
        },
{
    lemma_bars_upto(rects, lines, n);
    lemma_alike(rects, lines, n - 1, bar);
    let before = bars_upto(rects, lines, n - 1);
    if let Some(b) = bar_of(rects, lines, n - 1) {
        assert(before.push(b).drop_last() =~= before);
    }
}

proof fn lemma_sharing_grows(rects: Seq<PdfRect>, lines: Seq<PdfLine>, a: int, n: int, bar: Bar)
    requires
        0 <= a <= n <= lines.len() + rects.len(),
    ensures
        sharing(bars_upto(rects, lines, a), bar) <= sharing(bars_upto(rects, lines, n), bar),
    decreases n,
{
    if a < n {
        lemma_sharing_step(rects, lines, n, bar);
        lemma_sharing_grows(rects, lines, a, n - 1, bar);
    }
}

proof fn lemma_sharing_witness(rects: Seq<PdfRect>, lines: Seq<PdfLine>, n: int, bar: Bar) -> (k:
    int)
    requires
        0 <= n <= lines.len() + rects.len(),
        sharing(bars_upto(rects, lines, n), bar) > 0,
    ensures
        0 <= k < n,
        draws_alike(rects, lines, k, bar),
        sharing(bars_upto(rects, lines, k), bar) + 1 == sharing(bars_upto(rects, lines, n), bar),
    decreases n,
{
    if n == 0 {
        assert(lines.take(0) =~= Seq::<PdfLine>::empty());
        0
    } else {
        lemma_sharing_step(rects, lines, n, bar);
        if draws_alike(rects, lines, n - 1, bar) {
            n - 1
        } else {
            lemma_sharing_witness(rects, lines, n - 1, bar)
        }
    }
}

proof fn lemma_ruling(rects: Seq<PdfRect>, lines: Seq<PdfLine>, bar: Bar)
    ensures
        is_ruling(rects, lines, bar) <==> sharing(
            bars_upto(rects, lines, (lines.len() + rects.len()) as int),
            bar,
        ) >= 3,
{
    let n = (lines.len() + rects.len()) as int;
    if is_ruling(rects, lines, bar) {
        let (a, b, c) = choose|a: int, b: int, c: int|
            0 <= a < b < c < lines.len() + rects.len() && #[trigger] draws_alike(
                rects,
                lines,
                a,
                bar,
            ) && #[trigger] draws_alike(rects, lines, b, bar) && #[trigger] draws_alike(
                rects,
                lines,
                c,
                bar,
            );
        lemma_sharing_step(rects, lines, a + 1, bar);
        lemma_sharing_grows(rects, lines, a + 1, b, bar);
        lemma_sharing_step(rects, lines, b + 1, bar);
        lemma_sharing_grows(rects, lines, b + 1, c, bar);
        lemma_sharing_step(rects, lines, c + 1, bar);
        lemma_sharing_grows(rects, lines, c + 1, n, bar);
    }
    if sharing(bars_upto(rects, lines, n), bar) >= 3 {
        let c = lemma_sharing_witness(rects, lines, n, bar);
        let b = lemma_sharing_witness(rects, lines, c, bar);
        let a = lemma_sharing_witness(rects, lines, b, bar);
        assert(draws_alike(rects, lines, a, bar) && draws_alike(rects, lines, b, bar)
            && draws_alike(rects, lines, c, bar));
    }
}

proof fn lemma_bars_from(rects: Seq<PdfRect>, lines: Seq<PdfLine>, n: int) -> (from: Seq<int>)
    requires
        0 <= n <= lines.len() + rects.len(),
    ensures
        are_bars_of(
            rects,
            lines,
            unruled(
                bars_upto(rects, lines, (lines.len() + rects.len()) as int),
                bars_upto(rects, lines, n),
            ),
            from,
            n,
        ),
    decreases n,
{
    let all = bars_upto(rects, lines, (lines.len() + rects.len()) as int);
    if n == 0 {
        assert(lines.take(0) =~= Seq::<PdfLine>::empty());
        Seq::empty()
    } else {
        let before = lemma_bars_from(rects, lines, n - 1);
        let some = bars_upto(rects, lines, n - 1);
        let kept = unruled(all, some);
        lemma_bars_upto(rects, lines, n);
        match bar_of(rects, lines, n - 1) {
            None => {
                assert forall|m: int, bar: Bar| #[trigger]
                    drawn_by(rects, lines, m, bar) && 0 <= m < n implies (before.contains(m)
                    <==> !is_ruling(rects, lines, bar)) by {
                    lemma_bar_of(rects, lines, m, bar);
                }
                before
            },
            Some(b) => {
                lemma_bar_of(rects, lines, n - 1, b);
                lemma_ruling(rects, lines, b);
                assert(some.push(b).drop_last() =~= some);
                let from = if sharing(all, b) < 3 {
                    before.push(n - 1)
                } else {
                    before
                };
                assert forall|m: int, bar: Bar| #[trigger]
                    drawn_by(rects, lines, m, bar) && 0 <= m < n implies (from.contains(m)
                    <==> !is_ruling(rects, lines, bar)) by {
                    lemma_bar_of(rects, lines, m, bar);
                    if m == n - 1 {
                        assert(bar == b);
                        if sharing(all, b) < 3 {
                            assert(from[before.len() as int] == m);
                        } else if from.contains(m) {
                            let k = choose|k: int| 0 <= k < before.len() && before[k] == m;
                            assert(before[k] < n - 1);
                        }
                    } else {
                        if before.contains(m) {
                            let k = choose|k: int| 0 <= k < before.len() && before[k] == m;
                            assert(from[k] == m);
                        }
                        if from.contains(m) {
                            let k = choose|k: int| 0 <= k < from.len() && from[k] == m;
                            assert(k < before.len());
                            assert(before[k] == m);
                        }
                    }
                }
                from
            },
        }
    }
}

/// The candidate bars are exactly the bars that the shapes draw, lines before rectangles
/// and in order, without those that are the rulings of a table.
pub proof fn law_bars_are_drawn_and_no_rulings(rects: Seq<PdfRect>, lines: Seq<PdfLine>) -> (from:
    Seq<int>)
    ensures
        are_bars_of(
            rects,
            lines,
            candidate_bars(rects, lines),
            from,
            (lines.len() + rects.len()) as int,
        ),
{
    let n = (lines.len() + rects.len()) as int;
    assert(rects.take(rects.len() as int) =~= rects);
    assert(lines.take(lines.len() as int) =~= lines);
    if rects.len() == 0 {
        assert(line_bars(lines) + rect_bars(rects) =~= line_bars(lines));
    }
    assert(bars_upto(rects, lines, n) == line_bars(lines) + rect_bars(rects));
    lemma_bars_from(rects, lines, n)
}

} // verus!
