use std::collections::HashMap;

use vento_agent_runtime::ocr::image_pass::OcrOutcome;
use vento_agent_runtime::render::markdown::{
    document_to_markdown, document_to_markdown_with_ocr, number_assets,
};
use vento_agent_runtime::render::model::{
    Asset, Block, Cell, CellSlot, Document, ImageSource, Inline, List, ListItem, MarkerKind, Note,
    Table, TableKind, TextStyle,
};

fn styled(text: &str, bold: bool, italic: bool) -> Inline {
    Inline::Text {
        text: text.into(),
        style: TextStyle {
            bold,
            italic,
            strike: false,
        },
    }
}

fn plain(text: &str) -> Inline {
    styled(text, false, false)
}

fn paragraph(text: &str) -> Block {
    Block::Paragraph(vec![plain(text)])
}

fn document(blocks: Vec<Block>) -> Document {
    Document {
        blocks,
        notes: Vec::new(),
        assets: Vec::new(),
    }
}

fn cell(text: &str) -> CellSlot {
    CellSlot::Origin(Cell {
        blocks: vec![paragraph(text)],
        col_span: 1,
        row_span: 1,
    })
}

fn image(id: u64, alt: &str) -> Inline {
    Inline::Image {
        source: ImageSource::Asset(id),
        alt: alt.into(),
    }
}

fn asset(id: u64) -> Asset {
    Asset {
        id,
        media_type: "image/png".into(),
        origin_part: format!("word/media/image{id}.png"),
        bytes: vec![id as u8],
    }
}

#[test]
fn blocks_are_separated_by_blank_lines() {
    let doc = document(vec![
        Block::Heading {
            level: 2,
            content: vec![plain("Title")],
        },
        paragraph("one"),
        Block::Rule,
        Block::Paragraph(vec![plain("a "), styled("b", true, false)]),
    ]);
    assert_eq!(
        document_to_markdown(&doc),
        "## Title\n\none\n\n---\n\na **b**\n"
    );
}

#[test]
fn an_empty_document_is_empty() {
    assert_eq!(document_to_markdown(&document(vec![])), "");
}

#[test]
fn lists_are_marked() {
    let list = |marker: MarkerKind, start: u64| {
        Block::List(List {
            items: vec![
                ListItem {
                    blocks: vec![paragraph("x")],
                    marker_label: None,
                },
                ListItem {
                    blocks: vec![paragraph("y")],
                    marker_label: None,
                },
            ],
            marker,
            start,
        })
    };
    assert_eq!(
        document_to_markdown(&document(vec![list(MarkerKind::Bullet, 1)])),
        "- x\n- y\n"
    );
    assert_eq!(
        document_to_markdown(&document(vec![list(MarkerKind::Decimal, 3)])),
        "3. x\n4. y\n"
    );
    assert_eq!(MarkerKind::LowerAlpha.label(28), "ab.");
    assert_eq!(MarkerKind::UpperRoman.label(1994), "MCMXCIV.");
}

#[test]
fn tables_are_piped_unless_cells_are_merged() {
    let table = |grid: Vec<Vec<CellSlot>>| {
        Block::Table(Table {
            grid,
            header_rows: 1,
            kind: TableKind::Data,
        })
    };
    let simple = table(vec![
        vec![cell("a"), cell("b")],
        vec![cell("1"), cell("2")],
    ]);
    assert_eq!(
        document_to_markdown(&document(vec![simple])),
        "| a | b |\n| --- | --- |\n| 1 | 2 |\n"
    );
    let merged = table(vec![
        vec![
            CellSlot::Origin(Cell {
                blocks: vec![paragraph("wide")],
                col_span: 2,
                row_span: 1,
            }),
            CellSlot::Covered { row: 0, col: 0 },
        ],
        vec![cell("1"), cell("2")],
    ]);
    let html = document_to_markdown(&document(vec![merged]));
    assert!(html.contains("<table>"), "{html}");
    assert!(html.contains("colspan=\"2\""), "{html}");
}

#[test]
fn notes_are_numbered_as_they_are_met() {
    let mut doc = document(vec![Block::Paragraph(vec![
        plain("text"),
        Inline::NoteRef("n2".into()),
        Inline::NoteRef("n1".into()),
        Inline::NoteRef("n2".into()),
    ])]);
    doc.notes = vec![
        Note {
            id: "n1".into(),
            blocks: vec![paragraph("first")],
        },
        Note {
            id: "n2".into(),
            blocks: vec![paragraph("second")],
        },
    ];
    let text = document_to_markdown(&doc);
    assert!(text.contains("text[^1][^2][^1]"), "{text}");
    assert!(text.contains("[^1]: second"), "{text}");
    assert!(text.contains("[^2]: first"), "{text}");
}

#[test]
fn figures_in_notes_follow_the_numbers_of_the_notes() {
    let mut doc = document(vec![Block::Paragraph(vec![
        plain("text"),
        Inline::NoteRef("b".into()),
        Inline::NoteRef("a".into()),
    ])]);
    let note = |id: &str, asset: u64| Note {
        id: id.into(),
        blocks: vec![Block::Paragraph(vec![plain("see "), image(asset, "")])],
    };
    doc.notes = vec![note("a", 10), note("b", 20)];
    assert_eq!(number_assets(&doc), vec![20, 10]);
    let text = document_to_markdown(&doc);
    let first = text.find("[^1]: see ![图片1]").expect("note b");
    let second = text.find("[^2]: see ![图片2]").expect("note a");
    assert!(first < second);
}

#[test]
fn figures_are_annotated_once() {
    let mut doc = document(vec![
        Block::Paragraph(vec![image(1, "")]),
        Block::Paragraph(vec![image(2, "chart")]),
        Block::Paragraph(vec![image(1, "")]),
    ]);
    doc.assets = vec![asset(1), asset(2)];
    let mut outcomes = HashMap::new();
    outcomes.insert(1, OcrOutcome::Text("recognized".into()));
    let text = document_to_markdown_with_ocr(&doc, &outcomes);
    assert_eq!(text.matches("> recognized").count(), 1, "{text}");
    assert!(text.contains("图片1"), "{text}");
    assert!(text.contains("图片2：chart"), "{text}");
    assert!(!document_to_markdown(&doc).contains("OCR解析结果"));
}

#[test]
fn documents_end_with_one_line_feed() {
    let doc = document(vec![paragraph("a"), Block::CodeBlock { lang: Some("rs".into()), text: "let x;".into() }]);
    let text = document_to_markdown(&doc);
    assert_eq!(text, "a\n\n```rs\nlet x;\n```\n");
}

#[test]
fn markup_in_text_is_escaped() {
    let text = document_to_markdown(&document(vec![paragraph("# not *a* heading")]));
    assert_ne!(text, "# not *a* heading\n");
    assert!(text.contains("not"));
    assert!(text.contains("\\*a\\*"), "{text}");
}
