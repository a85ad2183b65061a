//! Inline fraction recovery.
//!
//! Word processors render equations with vertical fractions as numerator text,
//! a short horizontal rule, and denominator text. Recovering the triple lets
//! markdown carry the fraction inline as `numerator/denominator`.
//!
//! All lengths are in thousandths of a point, so that every comparison is exact.

use crate::text::{blank, chars_of, is_blank};
use std::collections::HashSet;
use vstd::prelude::*;

verus! {

/// Shortest rule considered as a fraction bar.
pub const MIN_BAR_LEN: i64 = 4_000;

/// Longest rule considered as a fraction bar. Table rulings and axes are far
/// wider than any equation.
pub const MAX_BAR_LEN: i64 = 250_000;

/// How far the bar may extend past the recovered text.
pub const BAR_TEXT_PAD: i64 = 12_000;

/// What an extracted item is.
#[derive(Clone, Copy, Debug, PartialEq, Eq, Structural)]
pub enum ItemType {
    Text,
    Image,
    Link,
    FormField,
}

/// A run of text placed on a page; `y` is its baseline and grows upwards.
#[derive(Debug)]
pub struct TextItem {
    pub text: String,
    pub x: i32,
    pub y: i32,
    pub width: i32,
    pub height: i32,
    pub font_size: i32,
    pub page: u32,
    pub item_type: ItemType,
}

/// A stroked line.
#[derive(Clone, Copy, Debug)]
pub struct PdfLine {
    pub x1: i32,
    pub y1: i32,
    pub x2: i32,
    pub y2: i32,
    pub page: u32,
}

/// A filled rectangle; width and height may be negative.
#[derive(Clone, Copy, Debug)]
pub struct PdfRect {
    pub x: i32,
    pub y: i32,
    pub width: i32,
    pub height: i32,
    pub page: u32,
}

/// A horizontal rule. `y_twice` is twice its height on the page, so that the
/// middle of a rectangle is an integer.
#[derive(Clone, Copy, Debug)]
pub struct Bar {
    pub page: u32,
    pub x1: i64,
    pub x2: i64,
    pub y_twice: i64,
}

impl Bar {
    /// The range of bars that come from lines and rectangles.
    pub open spec fn bounded(self) -> bool {
        &&& -0x2_0000_0000 <= self.x1 <= 0x2_0000_0000
        &&& -0x2_0000_0000 <= self.x2 <= 0x2_0000_0000
        &&& -0x4_0000_0000 <= self.y_twice <= 0x4_0000_0000
    }
}

pub open spec fn bars_bounded(bars: Seq<Bar>) -> bool {
    forall|i: int| 0 <= i < bars.len() ==> (#[trigger] bars[i]).bounded()
}

// ---------------------------------------------------------------------------
// Candidate bars
// ---------------------------------------------------------------------------
pub open spec fn min2(a: int, b: int) -> int {
    if a <= b { a } else { b }
}

pub open spec fn max2(a: int, b: int) -> int {
    if a >= b { a } else { b }
}

pub open spec fn abs(a: int) -> int {
    if a < 0 { -a } else { a }
}

pub open spec fn is_bar_len(len: int) -> bool {
    MIN_BAR_LEN <= len <= MAX_BAR_LEN
}

/// A nearly horizontal line of the right length is a bar.
pub open spec fn line_bar(l: PdfLine) -> Option<Bar> {
    let x1 = min2(l.x1 as int, l.x2 as int);
    let x2 = max2(l.x1 as int, l.x2 as int);
    if abs(l.y1 - l.y2) <= 1_500 && is_bar_len(x2 - x1) {
        Some(Bar { page: l.page, x1: x1 as i64, x2: x2 as i64, y_twice: (2 * l.y1) as i64 })
    } else {
        None
    }
}

/// A thin rectangle of the right length is a bar through its middle.
pub open spec fn rect_bar(r: PdfRect) -> Option<Bar> {
    let x1 = min2(r.x as int, r.x + r.width);
    let x2 = max2(r.x as int, r.x + r.width);
    if abs(r.height as int) < 2_500 && is_bar_len(x2 - x1) {
        Some(
            Bar { page: r.page, x1: x1 as i64, x2: x2 as i64, y_twice: (2 * r.y + r.height) as i64 },
        )
    } else {
        None
    }
}

pub open spec fn push_some(bars: Seq<Bar>, bar: Option<Bar>) -> Seq<Bar> {
    match bar {
        Some(b) => bars.push(b),
        None => bars,
    }
}

pub open spec fn line_bars(lines: Seq<PdfLine>) -> Seq<Bar>
    decreases lines.len(),
{
    if lines.len() == 0 {
        seq![]
    } else {
        push_some(line_bars(lines.drop_last()), line_bar(lines.last()))
    }
}

pub open spec fn rect_bars(rects: Seq<PdfRect>) -> Seq<Bar>
    decreases rects.len(),
{
    if rects.len() == 0 {
        seq![]
    } else {
        push_some(rect_bars(rects.drop_last()), rect_bar(rects.last()))
    }
}

/// Two bars of one page share both edges within a point.
pub open spec fn same_edges(a: Bar, b: Bar) -> bool {
    a.page == b.page && abs(a.x1 - b.x1) <= 1_000 && abs(a.x2 - b.x2) <= 1_000
}

/// How many bars share both edges with `b`.
pub open spec fn sharing(bars: Seq<Bar>, b: Bar) -> nat
    decreases bars.len(),
{
    if bars.len() == 0 {
        0
    } else {
        sharing(bars.drop_last(), b) + if same_edges(bars.last(), b) { 1nat } else { 0nat }
    }
}

/// The bars among `some` that fewer than three of `all` share both edges with:
/// table borders repeat with the same edges across rows, fraction bars do not.
pub open spec fn unruled(all: Seq<Bar>, some: Seq<Bar>) -> Seq<Bar>
    decreases some.len(),
{
    if some.len() == 0 {
        seq![]
    } else {
        let before = unruled(all, some.drop_last());
        if sharing(all, some.last()) < 3 { before.push(some.last()) } else { before }
    }
}

/// The bars that may be fraction bars, lines first.
pub open spec fn candidate_bars(rects: Seq<PdfRect>, lines: Seq<PdfLine>) -> Seq<Bar> {
    let all = line_bars(lines) + rect_bars(rects);
    unruled(all, all)
}

fn in_bar_len(len: i64) -> (b: bool)
    ensures
        b == is_bar_len(len as int),
{
    MIN_BAR_LEN <= len && len <= MAX_BAR_LEN
}

fn distance(a: i64, b: i64) -> (d: i64)
    requires
        -0x10_0000_0000 <= a <= 0x10_0000_0000,
        -0x10_0000_0000 <= b <= 0x10_0000_0000,
    ensures
        d == abs(a - b),
{
    if a < b { b - a } else { a - b }
}

fn bar_of_line(l: &PdfLine) -> (r: Option<Bar>)
    ensures
        r == line_bar(*l),
        r matches Some(b) ==> b.bounded(),
{
    let (x1, x2): (i64, i64) = if l.x1 <= l.x2 {
        (l.x1 as i64, l.x2 as i64)
    } else {
        (l.x2 as i64, l.x1 as i64)
    };
    if distance(l.y1 as i64, l.y2 as i64) <= 1_500 && in_bar_len(x2 - x1) {
        Some(Bar { page: l.page, x1, x2, y_twice: 2 * (l.y1 as i64) })
    } else {
        None
    }
}

fn bar_of_rect(r: &PdfRect) -> (b: Option<Bar>)
    ensures
        b == rect_bar(*r),
        b matches Some(b) ==> b.bounded(),
{
    let a: i64 = r.x as i64;
    let c: i64 = r.x as i64 + r.width as i64;
    let (x1, x2): (i64, i64) = if a <= c { (a, c) } else { (c, a) };
    if distance(r.height as i64, 0) < 2_500 && in_bar_len(x2 - x1) {
        Some(Bar { page: r.page, x1, x2, y_twice: 2 * (r.y as i64) + r.height as i64 })
    } else {
        None
    }
}

fn share_edges(a: &Bar, b: &Bar) -> (r: bool)
    requires
        a.bounded(),
        b.bounded(),
    ensures
        r == same_edges(*a, *b),
{
    a.page == b.page && distance(a.x1, b.x1) <= 1_000 && distance(a.x2, b.x2) <= 1_000
}

fn count_sharing(bars: &Vec<Bar>, b: &Bar) -> (n: usize)
    requires
        bars_bounded(bars@),
        b.bounded(),
    ensures
        n == sharing(bars@, *b),
{
    let mut n: usize = 0;
    for i in 0..bars.len()
        invariant
            bars_bounded(bars@),
            b.bounded(),
            n <= i,
            n == sharing(bars@.take(i as int), *b),
    {
        assert(bars@.take(i + 1).drop_last() =~= bars@.take(i as int));
        if share_edges(&bars[i], b) {
            n = n + 1;
        }
    }
    assert(bars@.take(bars@.len() as int) =~= bars@);
    n
}

/// The bars that may be fraction bars.
pub fn find_bars(rects: &[PdfRect], lines: &[PdfLine]) -> (r: Vec<Bar>)
    ensures
        r@ == candidate_bars(rects@, lines@),
        bars_bounded(r@),
{
    let mut all: Vec<Bar> = Vec::new();
    for i in 0..lines.len()
        invariant
            all@ == line_bars(lines@.take(i as int)),
            bars_bounded(all@),
    {
        assert(lines@.take(i + 1).drop_last() =~= lines@.take(i as int));
        if let Some(b) = bar_of_line(&lines[i]) {
            all.push(b);
        }
    }
    assert(lines@.take(lines@.len() as int) =~= lines@);
    let ghost first = all@;
    for i in 0..rects.len()
        invariant
            all@ == first + rect_bars(rects@.take(i as int)),
            bars_bounded(all@),
    {
        assert(rects@.take(i + 1).drop_last() =~= rects@.take(i as int));
        if let Some(b) = bar_of_rect(&rects[i]) {
            all.push(b);
        }
    }
    assert(rects@.take(rects@.len() as int) =~= rects@);
    let mut out: Vec<Bar> = Vec::new();
    for i in 0..all.len()
        invariant
            bars_bounded(all@),
            bars_bounded(out@),
            out@ == unruled(all@, all@.take(i as int)),
    {
        assert(all@.take(i + 1).drop_last() =~= all@.take(i as int));
        if count_sharing(&all, &all[i]) < 3 {
            out.push(all[i]);
        }
    }
    assert(all@.take(all@.len() as int) =~= all@);
    out
}

// ---------------------------------------------------------------------------
// The halves of a fraction
// ---------------------------------------------------------------------------
/// The size that vertical and horizontal windows are measured in.
pub open spec fn em(item: TextItem) -> int {
    max2(max2(item.font_size as int, item.height as int), 1_000)
}

pub open spec fn visible(item: TextItem, page: u32) -> bool {
    item.page == page && item.item_type == ItemType::Text && !is_blank(item.text@)
}

/// Twice the height of the baseline over the bar.
pub open spec fn rise_twice(item: TextItem, bar: Bar) -> int {
    2 * item.y - bar.y_twice
}

/// The baseline lies above the bar by at most 0.72 em.
pub open spec fn above(item: TextItem, bar: Bar) -> bool {
    0 <= rise_twice(item, bar) && rise_twice(item, bar) * 25 <= em(item) * 36
}

/// The baseline lies below the bar by at most 1.25 em.
pub open spec fn below(item: TextItem, bar: Bar) -> bool {
    rise_twice(item, bar) < 0 && -rise_twice(item, bar) * 2 <= em(item) * 5
}

/// At least half of the item's width lies inside the span of the bar.
pub open spec fn under_bar(item: TextItem, bar: Bar) -> bool {
    (min2(item.x + item.width, bar.x2 as int) - max2(item.x as int, bar.x1 as int)) * 2
        >= item.width
}

pub open spec fn is_half(item: TextItem, bar: Bar, upper: bool) -> bool {
    &&& visible(item, bar.page)
    &&& if upper { above(item, bar) } else { below(item, bar) }
    &&& under_bar(item, bar)
}

/// The free items among the first `n` that make up one half of the fraction.
pub open spec fn half(
    items: Seq<TextItem>,
    used: Set<usize>,
    bar: Bar,
    upper: bool,
    n: nat,
) -> Seq<usize>
    decreases n,
{
    if n == 0 {
        seq![]
    } else {
        let i = (n - 1) as usize;
        let before = half(items, used, bar, upper, (n - 1) as nat);
        if !used.contains(i) && is_half(items[n - 1], bar, upper) { before.push(i) } else { before }
    }
}

/// `idxs` with `i` put behind every item that does not start to the right of it.
pub open spec fn insert_by_x(items: Seq<TextItem>, idxs: Seq<usize>, i: usize) -> Seq<usize>
    decreases idxs.len(),
{
    if idxs.len() == 0 || items[idxs.last() as int].x <= items[i as int].x {
        idxs.push(i)
    } else {
        insert_by_x(items, idxs.drop_last(), i).push(idxs.last())
    }
}

/// The items from left to right; items that start at the same place keep their order.
pub open spec fn by_x(items: Seq<TextItem>, idxs: Seq<usize>) -> Seq<usize>
    decreases idxs.len(),
{
    if idxs.len() == 0 {
        seq![]
    } else {
        insert_by_x(items, by_x(items, idxs.drop_last()), idxs.last())
    }
}

/// The gap between two items is at most 0.8 em of the left one.
pub open spec fn adjacent(a: TextItem, b: TextItem) -> bool {
    (b.x - (a.x + a.width)) * 5 <= em(a) * 4
}

/// Neighbours of a left-to-right run are adjacent.
pub open spec fn contiguous(items: Seq<TextItem>, sorted: Seq<usize>) -> bool {
    forall|k: int|
        0 < k < sorted.len() ==> adjacent(
            items[sorted[k - 1] as int],
            items[#[trigger] sorted[k] as int],
        )
}

pub open spec fn left_edge(items: Seq<TextItem>, idxs: Seq<usize>) -> int
    decreases idxs.len(),
{
    if idxs.len() <= 1 {
        items[idxs[0] as int].x as int
    } else {
        min2(left_edge(items, idxs.drop_last()), items[idxs.last() as int].x as int)
    }
}

pub open spec fn right_edge(items: Seq<TextItem>, idxs: Seq<usize>) -> int
    decreases idxs.len(),
{
    if idxs.len() <= 1 {
        items[idxs[0] as int].x + items[idxs[0] as int].width
    } else {
        max2(
            right_edge(items, idxs.drop_last()),
            items[idxs.last() as int].x + items[idxs.last() as int].width,
        )
    }
}

/// The halves overlap by at least half of the narrower one.
pub open spec fn aligned(n1: int, n2: int, d1: int, d2: int) -> bool {
    (min2(n2, d2) - max2(n1, d1)) * 2 >= min2(n2 - n1, d2 - d1)
}

/// The bar tracks the fraction text, not the page.
pub open spec fn tracks(bar: Bar, n1: int, n2: int, d1: int, d2: int) -> bool {
    bar.x1 >= min2(n1, d1) - BAR_TEXT_PAD && bar.x2 <= max2(n2, d2) + BAR_TEXT_PAD
}

pub open spec fn is_fraction(
    items: Seq<TextItem>,
    bar: Bar,
    nums: Seq<usize>,
    dens: Seq<usize>,
) -> bool {
    &&& nums.len() > 0
    &&& dens.len() > 0
    &&& contiguous(items, by_x(items, nums))
    &&& contiguous(items, by_x(items, dens))
    &&& aligned(
        left_edge(items, nums),
        right_edge(items, nums),
        left_edge(items, dens),
        right_edge(items, dens),
    )
    &&& tracks(
        bar,
        left_edge(items, nums),
        right_edge(items, nums),
        left_edge(items, dens),
        right_edge(items, dens),
    )
}

/// How far an item lies beside the bar; zero when they meet.
pub open spec fn beside(item: TextItem, bar: Bar) -> int {
    max2(0, max2(bar.x1 - (item.x + item.width), item.x - bar.x2))
}

/// A short item between the two baselines and within 2.5 em of the bar.
pub open spec fn snaps(item: TextItem, bar: Bar, num_baseline: int, den_baseline: int) -> bool {
    &&& visible(item, bar.page)
    &&& item.text@.len() <= 8
    &&& den_baseline + 1_000 < item.y < num_baseline - 1_000
    &&& beside(item, bar) * 2 <= em(item) * 5
}

pub open spec fn snapped(
    items: Seq<TextItem>,
    used: Set<usize>,
    bar: Bar,
    num_baseline: int,
    den_baseline: int,
    n: nat,
) -> Seq<usize>
    decreases n,
{
    if n == 0 {
        seq![]
    } else {
        let i = (n - 1) as usize;
        let before = snapped(items, used, bar, num_baseline, den_baseline, (n - 1) as nat);
        if !used.contains(i) && snaps(items[n - 1], bar, num_baseline, den_baseline) {
            before.push(i)
        } else {
            before
        }
    }
}

pub open spec fn concat_text(items: Seq<TextItem>, idxs: Seq<usize>) -> Seq<char>
    decreases idxs.len(),
{
    if idxs.len() == 0 {
        seq![]
    } else {
        concat_text(items, idxs.drop_last()) + items[idxs.last() as int].text@
    }
}

// ---------------------------------------------------------------------------
// The plan
// ---------------------------------------------------------------------------
/// What has been decided: replacement texts, removed items, and new baselines.
/// `used` holds every item that a fraction has claimed.
pub struct PlanView {
    pub edits: Seq<(usize, Seq<char>)>,
    pub dropped: Set<usize>,
    pub y_snaps: Seq<(usize, i32)>,
    pub used: Set<usize>,
}

pub open spec fn empty_plan() -> PlanView {
    PlanView { edits: seq![], dropped: Set::empty(), y_snaps: seq![], used: Set::empty() }
}

pub open spec fn with_baseline(idxs: Seq<usize>, y: i32) -> Seq<(usize, i32)> {
    Seq::new(idxs.len(), |k: int| (idxs[k], y))
}

/// The plan after the fraction with these halves has been taken.
pub open spec fn take_fraction(
    items: Seq<TextItem>,
    plan: PlanView,
    bar: Bar,
    nums: Seq<usize>,
    dens: Seq<usize>,
) -> PlanView {
    let used = plan.used.union(nums.to_set()).union(dens.to_set());
    let num_baseline = items[nums[0] as int].y;
    let den_baseline = items[dens[0] as int].y;
    let snap = snapped(
        items,
        used,
        bar,
        num_baseline as int,
        den_baseline as int,
        items.len(),
    );
    let last = by_x(items, nums).last();
    let text = items[last as int].text@ + seq!['/'] + concat_text(items, by_x(items, dens));
    PlanView {
        edits: plan.edits.push((last, text)),
        dropped: plan.dropped.union(dens.to_set()),
        y_snaps: plan.y_snaps + with_baseline(snap, num_baseline),
        used: used.union(snap.to_set()),
    }
}

/// The plan after one more bar.
pub open spec fn plan_bar(items: Seq<TextItem>, plan: PlanView, bar: Bar) -> PlanView {
    let nums = half(items, plan.used, bar, true, items.len());
    let dens = half(items, plan.used, bar, false, items.len());
    if is_fraction(items, bar, nums, dens) {
        take_fraction(items, plan, bar, nums, dens)
    } else {
        plan
    }
}

/// The plan after all the bars, taken in order.
pub open spec fn plan_bars(items: Seq<TextItem>, bars: Seq<Bar>) -> PlanView
    decreases bars.len(),
{
    if bars.len() == 0 {
        empty_plan()
    } else {
        plan_bar(items, plan_bars(items, bars.drop_last()), bars.last())
    }
}

/// What [`plan_inline_fractions`] returns.
#[derive(Debug)]
pub struct FractionPlan {
    /// Replacement for the trailing numerator item of each recovered fraction.
    pub edits: Vec<(usize, String)>,
    /// Denominator items that were absorbed into a numerator.
    pub dropped: HashSet<usize>,
    /// Items beside a fraction, with the numerator baseline to move them to.
    pub y_snaps: Vec<(usize, i32)>,
}

pub open spec fn edit_texts(edits: Seq<(usize, String)>) -> Seq<(usize, Seq<char>)> {
    Seq::new(edits.len(), |k: int| (edits[k].0, edits[k].1@))
}

impl FractionPlan {
    pub open spec fn is_plan(&self, plan: PlanView) -> bool {
        &&& edit_texts(self.edits@) == plan.edits
        &&& self.dropped@ == plan.dropped
        &&& self.y_snaps@ == plan.y_snaps
    }
}

fn em_of(item: &TextItem) -> (r: i64)
    ensures
        r == em(*item),
        1_000 <= r <= 0x8000_0000,
{
    let m: i32 = if item.font_size >= item.height { item.font_size } else { item.height };
    if m >= 1_000 { m as i64 } else { 1_000 }
}

fn is_visible(item: &TextItem, page: u32) -> (b: bool)
    ensures
        b == visible(*item, page),
{
    item.page == page && item.item_type == ItemType::Text && !blank(
        chars_of(item.text.as_str()).as_slice(),
    )
}

fn is_under_bar(item: &TextItem, bar: &Bar) -> (b: bool)
    requires
        bar.bounded(),
    ensures
        b == under_bar(*item, *bar),
{
    let right: i64 = item.x as i64 + item.width as i64;
    let hi: i64 = if right <= bar.x2 { right } else { bar.x2 };
    let lo: i64 = if item.x as i64 >= bar.x1 { item.x as i64 } else { bar.x1 };
    (hi - lo) * 2 >= item.width as i64
}

fn matches_half(item: &TextItem, bar: &Bar, upper: bool) -> (b: bool)
    requires
        bar.bounded(),
    ensures
        b == is_half(*item, *bar, upper),
{
    if !is_visible(item, bar.page) {
        return false;
    }
    let e: i64 = em_of(item);
    let rise: i64 = 2 * (item.y as i64) - bar.y_twice;
    let near = if upper {
        rise >= 0 && rise * 25 <= e * 36
    } else {
        rise < 0 && -rise * 2 <= e * 5
    };
    near && is_under_bar(item, bar)
}

/// `used` marks exactly the items of `claimed`.
pub open spec fn marks(used: Seq<bool>, claimed: Set<usize>) -> bool {
    forall|i: usize|
        #![trigger used[i as int]]
        #![trigger claimed.contains(i)]
        (i < used.len() && used[i as int]) <==> claimed.contains(i)
}

fn collect_half(
    items: &[TextItem],
    used: &Vec<bool>,
    bar: &Bar,
    upper: bool,
    Ghost(claimed): Ghost<Set<usize>>,
) -> (r: Vec<usize>)
    requires
        bar.bounded(),
        used.len() == items.len(),
        marks(used@, claimed),
    ensures
        r@ == half(items@, claimed, *bar, upper, items@.len()),
        in_range(r@, items@.len()),
{
    let mut out: Vec<usize> = Vec::new();
    for i in 0..items.len()
        invariant
            bar.bounded(),
            used.len() == items.len(),
            marks(used@, claimed),
            out@ == half(items@, claimed, *bar, upper, i as nat),
            in_range(out@, items@.len()),
    {
        if !used[i] && matches_half(&items[i], bar, upper) {
            assert(!claimed.contains(i));
            out.push(i);
        }
    }
    out
}

pub open spec fn in_range(idxs: Seq<usize>, n: nat) -> bool {
    forall|k: int| 0 <= k < idxs.len() ==> (#[trigger] idxs[k]) < n
}

/// Sorting moves items around and changes nothing else.
pub proof fn lemma_insert_by_x(items: Seq<TextItem>, idxs: Seq<usize>, i: usize)
    ensures
        insert_by_x(items, idxs, i).to_multiset() == idxs.push(i).to_multiset(),
        insert_by_x(items, idxs, i).len() == idxs.len() + 1,
    decreases idxs.len(),
{
    broadcast use vstd::seq_lib::group_to_multiset_ensures;

    if idxs.len() > 0 && items[idxs.last() as int].x > items[i as int].x {
        lemma_insert_by_x(items, idxs.drop_last(), i);
        assert(idxs =~= idxs.drop_last().push(idxs.last()));
        assert(insert_by_x(items, idxs, i).to_multiset() =~= idxs.push(i).to_multiset());
    }
}

/// The left-to-right order is a rearrangement of the given items.
pub proof fn lemma_by_x_permutes(items: Seq<TextItem>, idxs: Seq<usize>)
    ensures
        by_x(items, idxs).to_multiset() == idxs.to_multiset(),
        by_x(items, idxs).len() == idxs.len(),
    decreases idxs.len(),
{
    broadcast use vstd::seq_lib::group_to_multiset_ensures;

    if idxs.len() > 0 {
        lemma_by_x_permutes(items, idxs.drop_last());
        lemma_insert_by_x(items, by_x(items, idxs.drop_last()), idxs.last());
        assert(idxs =~= idxs.drop_last().push(idxs.last()));
        assert(by_x(items, idxs).to_multiset() =~= idxs.to_multiset());
    }
}

pub open spec fn x_sorted(items: Seq<TextItem>, idxs: Seq<usize>) -> bool {
    forall|a: int, b: int|
        0 <= a <= b < idxs.len() ==> items[#[trigger] idxs[a] as int].x <= items[#[trigger] idxs[b] as int].x
}

proof fn lemma_insert_sorted(items: Seq<TextItem>, idxs: Seq<usize>, i: usize)
    requires
        x_sorted(items, idxs),
    ensures
        x_sorted(items, insert_by_x(items, idxs, i)),
        insert_by_x(items, idxs, i).len() == idxs.len() + 1,
        idxs.len() > 0 && items[idxs.last() as int].x > items[i as int].x ==> insert_by_x(
            items,
            idxs,
            i,
        ).last() == idxs.last(),
        forall|k: int|
            0 <= k <= idxs.len() ==> (#[trigger] insert_by_x(items, idxs, i)[k] == i
                || exists|j: int| 0 <= j < idxs.len() && insert_by_x(items, idxs, i)[k] == #[trigger] idxs[j]),
    decreases idxs.len(),
{
    if idxs.len() > 0 && items[idxs.last() as int].x > items[i as int].x {
        let head = idxs.drop_last();
        lemma_insert_sorted(items, head, i);
        let r = insert_by_x(items, idxs, i);
        let rh = insert_by_x(items, head, i);
        assert forall|k: int| 0 <= k <= idxs.len() implies (#[trigger] r[k] == i || exists|j: int|
            0 <= j < idxs.len() && r[k] == #[trigger] idxs[j]) by {
            if k < idxs.len() {
                assert(r[k] == rh[k]);
                if rh[k] != i {
                    let j = choose|j: int| 0 <= j < head.len() && rh[k] == #[trigger] head[j];
                    assert(idxs[j] == rh[k]);
                }
            } else {
                assert(r[k] == idxs[idxs.len() - 1]);
            }
        }
        assert forall|a: int, b: int| 0 <= a <= b < r.len() implies items[#[trigger] r[a] as int].x
            <= items[#[trigger] r[b] as int].x by {
            if b < idxs.len() {
                assert(r[a] == rh[a] && r[b] == rh[b]);
            } else if a < idxs.len() {
                assert(r[a] == rh[a]);
                if rh[a] != i {
                    let j = choose|j: int| 0 <= j < head.len() && rh[a] == #[trigger] head[j];
                    assert(idxs[j] == rh[a]);
                    assert(idxs[idxs.len() - 1] == r[b]);
                }
            }
        }
    } else {
        let r = insert_by_x(items, idxs, i);
        assert(r =~= idxs.push(i));
        assert forall|k: int| 0 <= k <= idxs.len() implies (#[trigger] r[k] == i || exists|j: int|
            0 <= j < idxs.len() && r[k] == #[trigger] idxs[j]) by {
            if k < idxs.len() {
                assert(r[k] == idxs[k]);
            }
        }
        assert forall|a: int, b: int| 0 <= a <= b < r.len() implies items[#[trigger] r[a] as int].x
            <= items[#[trigger] r[b] as int].x by {
            if b < idxs.len() {
                assert(r[a] == idxs[a] && r[b] == idxs[b]);
            } else if a < idxs.len() {
                assert(r[a] == idxs[a]);
                assert(idxs[idxs.len() - 1] == idxs.last());
            }
        }
    }
}

/// The items of a line are taken in the order of their left edges.
pub proof fn law_lines_are_read_left_to_right(items: Seq<TextItem>, idxs: Seq<usize>)
    ensures
        x_sorted(items, by_x(items, idxs)),
    decreases idxs.len(),
{
    if idxs.len() > 0 {
        law_lines_are_read_left_to_right(items, idxs.drop_last());
        lemma_insert_sorted(items, by_x(items, idxs.drop_last()), idxs.last());
    }
}

proof fn lemma_by_x_range(items: Seq<TextItem>, idxs: Seq<usize>, n: nat)
    requires
        in_range(idxs, n),
    ensures
        in_range(by_x(items, idxs), n),
        by_x(items, idxs).len() == idxs.len(),
        by_x(items, idxs).to_set() =~= idxs.to_set(),
{
    broadcast use vstd::seq_lib::group_to_multiset_ensures;

    lemma_by_x_permutes(items, idxs);
    let s = by_x(items, idxs);
    assert forall|v: usize| s.contains(v) == idxs.contains(v) by {
        assert(s.to_multiset().count(v) == idxs.to_multiset().count(v));
    }
    assert forall|k: int| 0 <= k < s.len() implies (#[trigger] s[k]) < n by {
        assert(s.contains(s[k]));
        assert(idxs.contains(s[k]));
        let j = choose|j: int| 0 <= j < idxs.len() && idxs[j] == s[k];
        assert(idxs[j] < n);
    }
}

fn sort_by_x(items: &[TextItem], idxs: &Vec<usize>) -> (r: Vec<usize>)
    requires
        in_range(idxs@, items@.len()),
    ensures
        r@ == by_x(items@, idxs@),
        in_range(r@, items@.len()),
        r@.len() == idxs@.len(),
{
    let mut out: Vec<usize> = Vec::new();
    for n in 0..idxs.len()
        invariant
            in_range(idxs@, items@.len()),
            out@ == by_x(items@, idxs@.take(n as int)),
    {
        let i: usize = idxs[n];
        let ghost before = out@;
        let mut k: usize = out.len();
        proof {
            lemma_by_x_range(items@, idxs@.take(n as int), items@.len());
            assert(out@.take(k as int) =~= out@);
            assert(insert_by_x(items@, out@, i) =~= insert_by_x(items@, out@.take(k as int), i)
                + out@.skip(k as int));
        }
        while k > 0 && items[out[k - 1]].x > items[i].x
            invariant
                k <= out.len(),
                i < items.len(),
                in_range(out@, items@.len()),
                insert_by_x(items@, out@, i) == insert_by_x(items@, out@.take(k as int), i)
                    + out@.skip(k as int),
            decreases k,
        {
            let ghost t = out@.take(k as int);
            assert(t.drop_last() =~= out@.take(k - 1));
            assert(t.last() == out@[k - 1]);
            k = k - 1;
            assert(insert_by_x(items@, out@, i) =~= insert_by_x(items@, out@.take(k as int), i)
                + out@.skip(k as int));
        }
        assert(insert_by_x(items@, out@.take(k as int), i) == out@.take(k as int).push(i));
        out.insert(k, i);
        assert(out@ =~= before.take(k as int).push(i) + before.skip(k as int));
        assert(idxs@.take(n + 1).drop_last() =~= idxs@.take(n as int));
    }
    assert(idxs@.take(idxs@.len() as int) =~= idxs@);
    proof { lemma_by_x_range(items@, idxs@, items@.len()); }
    out
}

fn is_contiguous(items: &[TextItem], sorted: &Vec<usize>) -> (b: bool)
    requires
        in_range(sorted@, items@.len()),
    ensures
        b == contiguous(items@, sorted@),
{
    let mut k: usize = 1;
    while k < sorted.len()
        invariant
            1 <= k,
            in_range(sorted@, items@.len()),
            forall|j: int|
                0 < j < k && j < sorted@.len() ==> adjacent(
                    items@[sorted@[j - 1] as int],
                    items@[#[trigger] sorted@[j] as int],
                ),
        decreases sorted.len() - k,
    {
        let a = &items[sorted[k - 1]];
        let b = &items[sorted[k]];
        if (b.x as i64 - (a.x as i64 + a.width as i64)) * 5 > em_of(a) * 4 {
            assert(!adjacent(items@[sorted@[k - 1] as int], items@[sorted@[k as int] as int]));
            return false;
        }
        k = k + 1;
    }
    true
}

fn span(items: &[TextItem], idxs: &Vec<usize>) -> (r: (i64, i64))
    requires
        in_range(idxs@, items@.len()),
        idxs.len() > 0,
    ensures
        r.0 == left_edge(items@, idxs@),
        r.1 == right_edge(items@, idxs@),
        -0x1_0000_0000 <= r.0 <= 0x1_0000_0000,
        -0x1_0000_0000 <= r.1 <= 0x1_0000_0000,
{
    let mut lo: i64 = items[idxs[0]].x as i64;
    let mut hi: i64 = items[idxs[0]].x as i64 + items[idxs[0]].width as i64;
    let mut k: usize = 1;
    while k < idxs.len()
        invariant
            1 <= k <= idxs.len(),
            in_range(idxs@, items@.len()),
            lo == left_edge(items@, idxs@.take(k as int)),
            hi == right_edge(items@, idxs@.take(k as int)),
            -0x1_0000_0000 <= lo <= 0x1_0000_0000,
            -0x1_0000_0000 <= hi <= 0x1_0000_0000,
        decreases idxs.len() - k,
    {
        assert(idxs@.take(k + 1).drop_last() =~= idxs@.take(k as int));
        let item = &items[idxs[k]];
        let right: i64 = item.x as i64 + item.width as i64;
        if (item.x as i64) < lo {
            lo = item.x as i64;
        }
        if right > hi {
            hi = right;
        }
        k = k + 1;
    }
    assert(idxs@.take(k as int) =~= idxs@);
    (lo, hi)
}

fn fits(bar: &Bar, n: (i64, i64), d: (i64, i64)) -> (b: bool)
    requires
        bar.bounded(),
        -0x1_0000_0000 <= n.0 <= 0x1_0000_0000,
        -0x1_0000_0000 <= n.1 <= 0x1_0000_0000,
        -0x1_0000_0000 <= d.0 <= 0x1_0000_0000,
        -0x1_0000_0000 <= d.1 <= 0x1_0000_0000,
    ensures
        b == (aligned(n.0 as int, n.1 as int, d.0 as int, d.1 as int) && tracks(
            *bar,
            n.0 as int,
            n.1 as int,
            d.0 as int,
            d.1 as int,
        )),
{
    let right: i64 = if n.1 <= d.1 { n.1 } else { d.1 };
    let left: i64 = if n.0 >= d.0 { n.0 } else { d.0 };
    let nw: i64 = n.1 - n.0;
    let dw: i64 = d.1 - d.0;
    let shorter: i64 = if nw <= dw { nw } else { dw };
    let all_min: i64 = if n.0 <= d.0 { n.0 } else { d.0 };
    let all_max: i64 = if n.1 >= d.1 { n.1 } else { d.1 };
    (right - left) * 2 >= shorter && bar.x1 >= all_min - BAR_TEXT_PAD && bar.x2 <= all_max
        + BAR_TEXT_PAD
}

fn does_snap(item: &TextItem, bar: &Bar, num_baseline: i32, den_baseline: i32) -> (b: bool)
    requires
        bar.bounded(),
    ensures
        b == snaps(*item, *bar, num_baseline as int, den_baseline as int),
{
    if !is_visible(item, bar.page) || chars_of(item.text.as_str()).len() > 8 {
        return false;
    }
    let y: i64 = item.y as i64;
    if y >= num_baseline as i64 - 1_000 || y <= den_baseline as i64 + 1_000 {
        return false;
    }
    let left_gap: i64 = bar.x1 - (item.x as i64 + item.width as i64);
    let right_gap: i64 = item.x as i64 - bar.x2;
    let gap: i64 = if left_gap >= right_gap { left_gap } else { right_gap };
    let dist: i64 = if gap > 0 { gap } else { 0 };
    dist * 2 <= em_of(item) * 5
}

fn mark_all(used: &mut Vec<bool>, idxs: &Vec<usize>, Ghost(claimed): Ghost<Set<usize>>)
    requires
        marks(old(used)@, claimed),
        in_range(idxs@, old(used)@.len()),
    ensures
        final(used)@.len() == old(used)@.len(),
        marks(final(used)@, claimed.union(idxs@.to_set())),
{
    let ghost len = used@.len();
    assert(claimed.union(idxs@.take(0).to_set()) =~= claimed);
    for k in 0..idxs.len()
        invariant
            used@.len() == len,
            in_range(idxs@, len),
            marks(used@, claimed.union(idxs@.take(k as int).to_set())),
    {
        let i: usize = idxs[k];
        let ghost before = used@;
        used.set(i, true);
        proof {
            let s = idxs@.take(k as int);
            let t = idxs@.take(k + 1);
            assert(t =~= s.push(i));
            assert forall|j: usize| t.contains(j) <==> (s.contains(j) || j == i) by {
                assert(t[k as int] == i);
                if s.contains(j) {
                    let m = choose|m: int| 0 <= m < s.len() && s[m] == j;
                    assert(t[m] == j);
                }
            }
            assert forall|j: usize|
                #![trigger used@[j as int]]
                #![trigger claimed.union(t.to_set()).contains(j)]
                (j < used@.len() && used@[j as int]) <==> claimed.union(t.to_set()).contains(
                    j,
                ) by {
                if j < len {
                    assert(before[j as int] <==> claimed.union(s.to_set()).contains(j));
                } else {
                    assert(!claimed.union(s.to_set()).contains(j));
                }
            }
        }
    }
    assert(idxs@.take(idxs@.len() as int) =~= idxs@);
}

fn join_text(items: &[TextItem], idxs: &Vec<usize>) -> (r: String)
    requires
        in_range(idxs@, items@.len()),
    ensures
        r@ == concat_text(items@, idxs@),
{
    let mut out = String::new();
    for k in 0..idxs.len()
        invariant
            in_range(idxs@, items@.len()),
            out@ == concat_text(items@, idxs@.take(k as int)),
    {
        assert(idxs@.take(k + 1).drop_last() =~= idxs@.take(k as int));
        out.push_str(items[idxs[k]].text.as_str());
    }
    assert(idxs@.take(idxs@.len() as int) =~= idxs@);
    out
}

fn drop_items(dropped: &mut HashSet<usize>, idxs: &Vec<usize>)
    ensures
        final(dropped)@ == old(dropped)@.union(idxs@.to_set()),
{
    broadcast use vstd::std_specs::hash::group_hash_axioms;

    let ghost before = dropped@;
    assert(before.union(idxs@.take(0).to_set()) =~= before);
    for k in 0..idxs.len()
        invariant
            dropped@ == before.union(idxs@.take(k as int).to_set()),
    {
        let i: usize = idxs[k];
        dropped.insert(i);
        proof {
            let s = idxs@.take(k as int);
            let t = idxs@.take(k + 1);
            assert(t =~= s.push(i));
            assert forall|j: usize| t.contains(j) <==> (s.contains(j) || j == i) by {
                assert(t[k as int] == i);
                if s.contains(j) {
                    let m = choose|m: int| 0 <= m < s.len() && s[m] == j;
                    assert(t[m] == j);
                }
            }
            assert(dropped@ =~= before.union(t.to_set()));
        }
    }
    assert(idxs@.take(idxs@.len() as int) =~= idxs@);
}

fn snap_items(
    items: &[TextItem],
    used: &Vec<bool>,
    bar: &Bar,
    num_baseline: i32,
    den_baseline: i32,
    Ghost(claimed): Ghost<Set<usize>>,
) -> (r: Vec<usize>)
    requires
        bar.bounded(),
        used.len() == items.len(),
        marks(used@, claimed),
    ensures
        r@ == snapped(
            items@,
            claimed,
            *bar,
            num_baseline as int,
            den_baseline as int,
            items@.len(),
        ),
        in_range(r@, items@.len()),
{
    let mut out: Vec<usize> = Vec::new();
    for i in 0..items.len()
        invariant
            bar.bounded(),
            used.len() == items.len(),
            marks(used@, claimed),
            out@ == snapped(
                items@,
                claimed,
                *bar,
                num_baseline as int,
                den_baseline as int,
                i as nat,
            ),
            in_range(out@, items@.len()),
    {
        if !used[i] && does_snap(&items[i], bar, num_baseline, den_baseline) {
            assert(!claimed.contains(i));
            out.push(i);
        }
    }
    out
}

fn push_snaps(out: &mut Vec<(usize, i32)>, idxs: &Vec<usize>, y: i32)
    ensures
        final(out)@ == old(out)@ + with_baseline(idxs@, y),
{
    let ghost before = out@;
    for k in 0..idxs.len()
        invariant
            out@ == before + with_baseline(idxs@.take(k as int), y),
    {
        out.push((idxs[k], y));
        assert(out@ =~= before + with_baseline(idxs@.take(k + 1), y));
    }
    assert(idxs@.take(idxs@.len() as int) =~= idxs@);
}

/// Takes the fraction around one bar, if there is one.
fn apply_bar(
    items: &[TextItem],
    bar: &Bar,
    used: &mut Vec<bool>,
    plan: &mut FractionPlan,
    Ghost(view): Ghost<PlanView>,
)
    requires
        bar.bounded(),
        old(used)@.len() == items@.len(),
        marks(old(used)@, view.used),
        old(plan).is_plan(view),
    ensures
        final(used)@.len() == items@.len(),
        marks(final(used)@, plan_bar(items@, view, *bar).used),
        final(plan).is_plan(plan_bar(items@, view, *bar)),
{
    let nums = collect_half(items, used, bar, true, Ghost(view.used));
    let dens = collect_half(items, used, bar, false, Ghost(view.used));
    if nums.len() == 0 || dens.len() == 0 {
        return;
    }
    let sorted_nums = sort_by_x(items, &nums);
    let sorted_dens = sort_by_x(items, &dens);
    if !is_contiguous(items, &sorted_nums) || !is_contiguous(items, &sorted_dens) {
        return;
    }
    if !fits(bar, span(items, &nums), span(items, &dens)) {
        return;
    }
    let ghost used0 = view.used;
    mark_all(used, &nums, Ghost(used0));
    let ghost used1 = used0.union(nums@.to_set());
    mark_all(used, &dens, Ghost(used1));
    let ghost used2 = used1.union(dens@.to_set());
    let num_baseline: i32 = items[nums[0]].y;
    let den_baseline: i32 = items[dens[0]].y;
    let snap = snap_items(items, used, bar, num_baseline, den_baseline, Ghost(used2));
    mark_all(used, &snap, Ghost(used2));
    push_snaps(&mut plan.y_snaps, &snap, num_baseline);
    let last: usize = sorted_nums[sorted_nums.len() - 1];
    let mut text = items[last].text.clone();
    text.push('/');
    text.push_str(join_text(items, &sorted_dens).as_str());
    let ghost before = plan.edits@;
    assert(text@ =~= items@[last as int].text@ + seq!['/'] + concat_text(items@, sorted_dens@));
    plan.edits.push((last, text));
    assert(edit_texts(plan.edits@) =~= edit_texts(before).push((last, text@)));
    drop_items(&mut plan.dropped, &sorted_dens);
    proof {
        lemma_by_x_range(items@, dens@, items@.len());
        assert(is_fraction(items@, *bar, nums@, dens@));
    }
}

/// Plans the inline-fraction merges of a page stream.
///
/// Bars are taken in order. Every fraction claims its items, so that no item
/// takes part in two fractions.
pub fn plan_inline_fractions(items: &[TextItem], rects: &[PdfRect], lines: &[PdfLine]) -> (r:
    FractionPlan)
    ensures
        r.is_plan(plan_bars(items@, candidate_bars(rects@, lines@))),
{
    broadcast use vstd::std_specs::hash::group_hash_axioms;

    let bars = find_bars(rects, lines);
    let mut used: Vec<bool> = Vec::new();
    for i in 0..items.len()
        invariant
            used@.len() == i,
            forall|j: int| 0 <= j < i ==> !used@[j],
    {
        used.push(false);
    }
    let mut plan = FractionPlan { edits: Vec::new(), dropped: HashSet::new(), y_snaps: Vec::new() };
    let ghost mut view = empty_plan();
    assert(edit_texts(plan.edits@) =~= view.edits);
    for b in 0..bars.len()
        invariant
            bars_bounded(bars@),
            used.len() == items.len(),
            marks(used@, view.used),
            view == plan_bars(items@, bars@.take(b as int)),
            plan.is_plan(view),
    {
        assert(bars@.take(b + 1).drop_last() =~= bars@.take(b as int));
        apply_bar(items, &bars[b], &mut used, &mut plan, Ghost(view));
        proof {
            view = plan_bar(items@, view, bars@[b as int]);
        }
    }
    assert(bars@.take(bars@.len() as int) =~= bars@);
    plan
}

// ---------------------------------------------------------------------------
// What holds of every plan
// ---------------------------------------------------------------------------
proof fn lemma_half_members(
    items: Seq<TextItem>,
    used: Set<usize>,
    bar: Bar,
    upper: bool,
    n: nat,
)
    requires
        n <= items.len() <= usize::MAX,
    ensures
        forall|k: int|
            0 <= k < half(items, used, bar, upper, n).len() ==> {
                let i = #[trigger] half(items, used, bar, upper, n)[k];
                i < n && !used.contains(i) && is_half(items[i as int], bar, upper)
            },
    decreases n,
{
    if n > 0 {
        lemma_half_members(items, used, bar, upper, (n - 1) as nat);
        let before = half(items, used, bar, upper, (n - 1) as nat);
        let now = half(items, used, bar, upper, n);
        assert forall|k: int| 0 <= k < now.len() implies {
            let i = #[trigger] now[k];
            i < n && !used.contains(i) && is_half(items[i as int], bar, upper)
        } by {
            if k < before.len() {
                assert(now[k] == before[k]);
            }
        }
    }
}

proof fn lemma_snapped_members(
    items: Seq<TextItem>,
    used: Set<usize>,
    bar: Bar,
    nb: int,
    db: int,
    n: nat,
)
    requires
        n <= items.len() <= usize::MAX,
    ensures
        forall|k: int|
            0 <= k < snapped(items, used, bar, nb, db, n).len() ==> {
                let i = #[trigger] snapped(items, used, bar, nb, db, n)[k];
                i < n && !used.contains(i) && snaps(items[i as int], bar, nb, db)
            },
        forall|j: int, k: int|
            0 <= j < k < snapped(items, used, bar, nb, db, n).len() ==> #[trigger] snapped(
                items,
                used,
                bar,
                nb,
                db,
                n,
            )[j] < #[trigger] snapped(items, used, bar, nb, db, n)[k],
    decreases n,
{
    if n > 0 {
        lemma_snapped_members(items, used, bar, nb, db, (n - 1) as nat);
        let before = snapped(items, used, bar, nb, db, (n - 1) as nat);
        let now = snapped(items, used, bar, nb, db, n);
        assert forall|k: int| 0 <= k < now.len() implies {
            let i = #[trigger] now[k];
            i < n && !used.contains(i) && snaps(items[i as int], bar, nb, db)
        } by {
            if k < before.len() {
                assert(now[k] == before[k]);
            }
        }
        assert forall|j: int, k: int| 0 <= j < k < now.len() implies #[trigger] now[j]
            < #[trigger] now[k] by {
            assert(now[j] == before[j]);
            if k < before.len() {
                assert(now[k] == before[k]);
            }
        }
    }
}

/// Every item is claimed by at most one fraction, and in one role only.
pub open spec fn claims_once(plan: PlanView, n: nat) -> bool {
    &&& forall|i: usize| #[trigger] plan.used.contains(i) ==> i < n
    &&& forall|i: usize| #[trigger] plan.dropped.contains(i) ==> plan.used.contains(i)
    &&& forall|k: int|
        0 <= k < plan.edits.len() ==> plan.used.contains((#[trigger] plan.edits[k]).0)
            && !plan.dropped.contains(plan.edits[k].0)
    &&& forall|k: int|
        0 <= k < plan.y_snaps.len() ==> plan.used.contains((#[trigger] plan.y_snaps[k]).0)
            && !plan.dropped.contains(plan.y_snaps[k].0)
    &&& forall|j: int, k: int|
        0 <= j < k < plan.edits.len() ==> (#[trigger] plan.edits[j]).0 != (#[trigger] plan.edits[k]).0
    &&& forall|j: int, k: int|
        0 <= j < k < plan.y_snaps.len() ==> (#[trigger] plan.y_snaps[j]).0 != (
        #[trigger] plan.y_snaps[k]).0
    &&& forall|j: int, k: int|
        0 <= j < plan.edits.len() && 0 <= k < plan.y_snaps.len() ==> (#[trigger] plan.edits[j]).0
            != (#[trigger] plan.y_snaps[k]).0
}

proof fn lemma_bar_claims_once(items: Seq<TextItem>, plan: PlanView, bar: Bar)
    requires
        items.len() <= usize::MAX,
        claims_once(plan, items.len()),
    ensures
        claims_once(plan_bar(items, plan, bar), items.len()),
{
    let n = items.len();
    let nums = half(items, plan.used, bar, true, n);
    let dens = half(items, plan.used, bar, false, n);
    if is_fraction(items, bar, nums, dens) {
        lemma_half_members(items, plan.used, bar, true, n);
        lemma_half_members(items, plan.used, bar, false, n);
        lemma_by_x_range(items, nums, n);
        let used = plan.used.union(nums.to_set()).union(dens.to_set());
        let nb = items[nums[0] as int].y as int;
        let db = items[dens[0] as int].y as int;
        lemma_snapped_members(items, used, bar, nb, db, n);
        let last = by_x(items, nums).last();
        assert(by_x(items, nums).contains(last));
        assert(by_x(items, nums).to_set().contains(last));
        assert(nums.to_set().contains(last));
        assert(nums.contains(last));
        let next = plan_bar(items, plan, bar);
        let snap = snapped(items, used, bar, nb, db, n);
        assert forall|k: int| 0 <= k < snap.len() implies next.used.contains(#[trigger] snap[k]) by {
            assert(snap.contains(snap[k]));
        }
        assert(!dens.contains(last)) by {
            if dens.contains(last) {
                let a = choose|a: int| 0 <= a < dens.len() && dens[a] == last;
                let b = choose|b: int| 0 <= b < nums.len() && nums[b] == last;
                assert(is_half(items[dens[a] as int], bar, false));
                assert(is_half(items[nums[b] as int], bar, true));
            }
        }
        assert forall|k: int| 0 <= k < next.y_snaps.len() implies next.used.contains(
            (#[trigger] next.y_snaps[k]).0,
        ) && !next.dropped.contains(next.y_snaps[k].0) by {
            if k >= plan.y_snaps.len() {
                assert(next.y_snaps[k].0 == snap[k - plan.y_snaps.len()]);
            } else {
                assert(next.y_snaps[k] == plan.y_snaps[k]);
            }
        }
        assert forall|j: int, k: int| 0 <= j < k < next.y_snaps.len() implies (
        #[trigger] next.y_snaps[j]).0 != (#[trigger] next.y_snaps[k]).0 by {
            let m = plan.y_snaps.len();
            if k >= m {
                assert(next.y_snaps[k].0 == snap[k - m]);
                if j >= m {
                    assert(next.y_snaps[j].0 == snap[j - m]);
                } else {
                    assert(next.y_snaps[j] == plan.y_snaps[j]);
                }
            } else {
                assert(next.y_snaps[j] == plan.y_snaps[j]);
                assert(next.y_snaps[k] == plan.y_snaps[k]);
            }
        }
        assert forall|j: int, k: int|
            0 <= j < next.edits.len() && 0 <= k < next.y_snaps.len() implies (
        #[trigger] next.edits[j]).0 != (#[trigger] next.y_snaps[k]).0 by {
            let m = plan.y_snaps.len();
            if k >= m {
                assert(next.y_snaps[k].0 == snap[k - m]);
            } else {
                assert(next.y_snaps[k] == plan.y_snaps[k]);
            }
            if j < plan.edits.len() {
                assert(next.edits[j] == plan.edits[j]);
            }
        }
        assert forall|j: int| 0 <= j < next.edits.len() implies next.used.contains(
            (#[trigger] next.edits[j]).0,
        ) && !next.dropped.contains(next.edits[j].0) by {
            if j < plan.edits.len() {
                assert(next.edits[j] == plan.edits[j]);
            }
        }
    }
}

/// No item takes part in two fractions: replaced, removed and moved items are
/// all different, and every index is that of an item.
pub proof fn law_items_are_claimed_once(items: Seq<TextItem>, bars: Seq<Bar>)
    requires
        items.len() <= usize::MAX,
    ensures
        claims_once(plan_bars(items, bars), items.len()),
    decreases bars.len(),
{
    if bars.len() > 0 {
        law_items_are_claimed_once(items, bars.drop_last());
        lemma_bar_claims_once(items, plan_bars(items, bars.drop_last()), bars.last());
    }
}

/// Without a bar there is no fraction, whatever the text.
pub proof fn law_no_bar_no_fraction(items: Seq<TextItem>)
    ensures
        plan_bars(items, candidate_bars(seq![], seq![])) == empty_plan(),
{
    assert(candidate_bars(seq![], seq![]) =~= seq![]);
}

} // verus!
