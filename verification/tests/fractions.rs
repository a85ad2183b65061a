use vento_agent_runtime::fractions::{
    find_bars, plan_inline_fractions, ItemType, PdfLine, PdfRect, TextItem,
};

fn item(text: &str, x: i32, y: i32, w: i32) -> TextItem {
    TextItem {
        text: text.to_string(),
        x,
        y,
        width: w,
        height: 14_000,
        font_size: 14_000,
        page: 1,
        item_type: ItemType::Text,
    }
}

fn bar(x1: i32, y: i32, x2: i32) -> PdfLine {
    PdfLine {
        x1,
        y1: y,
        x2,
        y2: y,
        page: 1,
    }
}

#[test]
fn merges_simple_fraction() {
    let items = vec![
        item("950", 279_000, 699_400, 27_000),
        item("19.6", 277_700, 679_500, 31_200),
    ];
    let lines = vec![bar(277_700, 692_900, 308_800)];
    let plan = plan_inline_fractions(&items, &[], &lines);
    assert_eq!(plan.edits.len(), 1);
    assert_eq!(plan.edits[0].1, "950/19.6");
    assert_eq!(plan.dropped.len(), 1);
    assert!(plan.dropped.contains(&1));
    assert!(plan.y_snaps.is_empty());
}

#[test]
fn snaps_beside_text_onto_numerator_line() {
    let items = vec![
        item("950", 279_000, 699_400, 27_000),
        item("19.6", 277_700, 679_500, 31_200),
        item("得分 =", 230_800, 688_900, 43_000),
        item("= 48.5", 312_700, 688_900, 46_100),
    ];
    let lines = vec![bar(277_700, 692_900, 308_800)];
    let plan = plan_inline_fractions(&items, &[], &lines);
    assert_eq!(plan.edits.len(), 1);
    assert_eq!(plan.edits[0].1, "950/19.6");
    assert_eq!(plan.y_snaps.len(), 2);
    for &(idx, y) in &plan.y_snaps {
        assert_eq!(y, 699_400);
        assert!(idx == 2 || idx == 3);
    }
    assert!(plan.dropped.len() == 1 && plan.dropped.contains(&1));
}

#[test]
fn ignores_underline_without_text_below() {
    let items = vec![
        item("强调", 100_000, 700_000, 30_000),
        item("下一行", 100_000, 650_000, 40_000),
    ];
    let lines = vec![bar(100_000, 694_000, 130_000)];
    let plan = plan_inline_fractions(&items, &[], &lines);
    assert!(plan.edits.is_empty());
    assert!(plan.dropped.is_empty());
}

#[test]
fn ignores_table_ruling() {
    // A wide ruling with the next row's text 20.8 points below (1.48 em), beyond
    // the denominator window.
    let items = vec![
        item("塑料连接件", 70_000, 207_900, 70_000),
        item("胶带", 70_000, 176_200, 28_000),
    ];
    let lines = vec![bar(64_700, 197_000, 491_200)];
    let plan = plan_inline_fractions(&items, &[], &lines);
    assert!(plan.edits.is_empty());
    assert!(plan.dropped.is_empty());
}

#[test]
fn misaligned_halves_do_not_merge() {
    // "得分 =" sits beside the bar, not under it; it must not join as a
    // denominator even when it grazes the bar's range.
    let items = vec![
        item("950", 279_000, 699_400, 27_000),
        item("19.6", 277_700, 679_500, 31_200),
        item("得分 =", 240_000, 688_900, 43_000),
    ];
    let lines = vec![bar(277_700, 692_900, 308_800)];
    let plan = plan_inline_fractions(&items, &[], &lines);
    assert_eq!(plan.edits.len(), 1);
    assert_eq!(plan.edits[0].1, "950/19.6");
    assert!(!plan.dropped.contains(&2));
}

#[test]
fn a_thin_rectangle_is_a_bar() {
    let rect = PdfRect {
        x: 277_700,
        y: 692_800,
        width: 31_100,
        height: 200,
        page: 1,
    };
    let bars = find_bars(&[rect], &[]);
    assert_eq!(bars.len(), 1);
    assert_eq!(bars[0].y_twice, 2 * 692_900);
    let thick = PdfRect { height: 2_500, ..rect };
    assert!(find_bars(&[thick], &[]).is_empty());
    let items = vec![
        item("950", 279_000, 699_400, 27_000),
        item("19.6", 277_700, 679_500, 31_200),
    ];
    let plan = plan_inline_fractions(&items, &[rect], &[]);
    assert_eq!(plan.edits[0].1, "950/19.6");
}

#[test]
fn without_a_bar_nothing_is_merged() {
    let items = vec![
        item("950", 279_000, 699_400, 27_000),
        item("19.6", 277_700, 679_500, 31_200),
    ];
    let plan = plan_inline_fractions(&items, &[], &[]);
    assert!(plan.edits.is_empty() && plan.dropped.is_empty() && plan.y_snaps.is_empty());
}

#[test]
fn an_item_joins_one_fraction_only() {
    let items = vec![
        item("950", 279_000, 699_400, 27_000),
        item("19.6", 277_700, 679_500, 31_200),
    ];
    let lines = vec![bar(277_700, 692_900, 308_800), bar(277_700, 692_900, 308_800)];
    let plan = plan_inline_fractions(&items, &[], &lines);
    assert_eq!(plan.edits.len(), 1);
    assert_eq!(plan.dropped.len(), 1);
}
