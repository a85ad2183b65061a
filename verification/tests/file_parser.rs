use vento_agent_runtime::file_parser::figures::find_figures;
use vento_agent_runtime::file_parser::error::ConvertError;
use vento_agent_runtime::file_parser::format::{
    extension_of, file_stem, mime_for, supported_formats, Format,
};
use vento_agent_runtime::file_parser::html::{decode_entities, strip_tags};
use vento_agent_runtime::file_parser::pdf::{
    flagged_pages, map_error, to_markdown_with_images, PdfError, PdfExtraction, PdfImage,
    PdfMarkdown,
};
use vento_agent_runtime::file_parser::runtime::{
    convert_document, convert_image, convert_pages, convert_pdf, finish,
    pdf_targets, route, ConvertOptions, FileParser, PdfStep, Route,
    RuntimeError, Step,
};
use vento_agent_runtime::ocr::image_pass::{content_hash, ImageOutcomes, OcrOutcome};
use vento_agent_runtime::ocr::provider::{OcrError, OcrOutput};
use vento_agent_runtime::render::model::{Asset, Block, Document, ImageSource, Inline};

fn output(markdown: &str) -> OcrOutput {
    OcrOutput {
        markdown: markdown.into(),
        confidence: None,
        provider: "paddleocr".into(),
    }
}

fn figure(name: &str, data: &[u8]) -> PdfImage {
    PdfImage {
        name: name.into(),
        mime_type: "image/png".into(),
        data: data.to_vec(),
    }
}

#[test]
fn text_passes_through() {
    let parser = FileParser::new();
    let options = ConvertOptions::default();
    match parser.begin(&options, "a.md", b"# hello", None) {
        Ok(Step::Done(converted)) => {
            assert_eq!(converted.markdown, "# hello");
            let result = finish(converted, "a.md", "bytes", 7, 2);
            assert_eq!(result.title, "a");
            assert_eq!(result.source.source_type, "bytes");
            assert_eq!(result.source.size, 7);
        }
        other => panic!("{other:?}"),
    }
    assert!(matches!(
        parser.begin(&options, "a.txt", b"\xff", None),
        Err(RuntimeError::Unsupported(_))
    ));
    assert!(matches!(
        parser.begin(&options, "a.xyz", b"x", None),
        Err(RuntimeError::Unsupported(_))
    ));
}

#[test]
fn content_goes_before_the_extension() {
    assert!(matches!(route(Some(Format::Pdf), "a.txt"), Some(Route::Pdf)));
    assert!(matches!(
        route(None, "a.docx"),
        Some(Route::Document(Format::Docx))
    ));
    assert!(matches!(route(None, "a.HTM"), Some(Route::Html)));
    assert!(matches!(route(None, "a.jpeg"), Some(Route::Image)));
    assert!(route(None, "a.unknown").is_none());
    assert_eq!(extension_of("A.TXT"), "txt");
    assert_eq!(file_stem("a.b.c"), "a.b");
    assert_eq!(mime_for("a.pdf"), "application/pdf");
}

#[test]
fn inputs_are_accepted_within_limits() {
    let parser = FileParser::new()
        .with_max_input_bytes(10)
        .with_allowed_roots(vec!["/data".into()]);
    let options = ConvertOptions::default();
    assert_eq!(parser.accept(&options, "a.txt", 10).unwrap(), "a.txt");
    let error = parser.accept(&options, "a.txt", 11).unwrap_err();
    assert_eq!(error.code(), "RESOURCE_LIMIT");
    assert_eq!(
        parser.accept(&options, "dir/a.txt", 1).unwrap_err().message(),
        "unsafe file name: dir/a.txt"
    );
    let wider = ConvertOptions {
        max_input_bytes: Some(20),
        ..ConvertOptions::default()
    };
    assert!(parser.accept(&wider, "a.txt", 11).is_ok());
    assert!(parser.authorize_path(&options, "a", "/data/a").is_ok());
    let denied = parser.authorize_path(&options, "a", "/other/a").unwrap_err();
    assert_eq!(denied.code(), "ACCESS_DENIED");
}

#[test]
fn images_need_a_recognizer() {
    let options = ConvertOptions::default();
    match FileParser::new().begin(&options, "a.png", b"x", None) {
        Err(RuntimeError::OcrRequired { pages }) => assert!(pages.is_empty()),
        other => panic!("{other:?}"),
    }
    match FileParser::new().with_ocr().begin(&options, "a.png", b"x", None) {
        Ok(Step::RecognizeImage(call)) => {
            assert_eq!(call.request.bytes, b"x");
            assert_eq!(call.request.file_name, "a.png");
        }
        other => panic!("{other:?}"),
    }
    let converted = convert_image("a.png", Ok(output("text"))).unwrap();
    assert_eq!(converted.markdown, "text");
    assert_eq!(converted.decisions[0].action, "ocr");
    let failed = convert_image("a.png", Err(OcrError::new("transient", "down".into(), true)));
    let failed = failed.unwrap_err();
    assert_eq!(failed.code(), "OCR_ERROR");
    assert!(failed.message().contains("down"));
}

#[test]
fn scanned_pages_go_to_the_recognizer() {
    let options = ConvertOptions::default();
    let needs = || ConvertError::NeedsOcr {
        pages: vec![2, 3],
        page_count: 5,
    };
    match FileParser::new().after_pdf(&options, "a.pdf", b"x", Err(needs())) {
        Err(RuntimeError::OcrRequired { pages }) => assert_eq!(pages, vec![2, 3]),
        other => panic!("{other:?}"),
    }
    match FileParser::new()
        .with_ocr()
        .after_pdf(&options, "a.pdf", b"x", Err(needs()))
    {
        Ok(PdfStep::RecognizePages {
            call,
            pages,
            page_count,
        }) => {
            assert_eq!(call.options.page_numbers, vec![2, 3]);
            let converted = convert_pages(&pages, page_count, Ok(output("scan"))).unwrap();
            assert_eq!(converted.markdown, "## OCR 补充\n\nscan\n");
            assert_eq!(converted.metadata.page_count, Some(5));
            assert_eq!(converted.decisions.len(), 2);
            assert_eq!(converted.decisions[0].target, "page:2");
        }
        other => panic!("{other:?}"),
    }
    assert!(matches!(
        FileParser::new().after_pdf(&options, "a.pdf", b"x", Err(ConvertError::Encrypted)),
        Err(RuntimeError::Conversion(_))
    ));
}

#[test]
fn extractions_are_mapped() {
    let extraction = |markdown: Option<&str>, kind: &str, pages: Vec<u32>| PdfExtraction {
        markdown: markdown.map(str::to_string),
        images: Vec::new(),
        page_count: 3,
        pdf_type: kind.into(),
        pages_needing_ocr: pages,
    };
    let good = extraction(Some("text"), "text_based", vec![]);
    assert_eq!(flagged_pages(&good), Vec::<u32>::new());
    assert_eq!(to_markdown_with_images(good, vec![]).unwrap().markdown, "text\n");
    let mixed = extraction(Some("text"), "mixed", vec![2]);
    match to_markdown_with_images(mixed, vec![2]) {
        Err(ConvertError::NeedsOcr { pages, page_count }) => {
            assert_eq!(pages, vec![2]);
            assert_eq!(page_count, 3);
        }
        other => panic!("{other:?}"),
    }
    assert!(matches!(map_error(PdfError::Encrypted), ConvertError::Encrypted));
}

#[test]
fn figures_keep_their_numbers_and_are_prefixed() {
    let pdf = PdfMarkdown {
        markdown: "Before ![图片8](image-1.png) after\n\n![图片9](image-2.png)\n".into(),
        images: vec![figure("image-1.png", b"one"), figure("image-2.png", b"two")],
    };
    let targets = pdf_targets(&pdf.images);
    assert_eq!(targets.len(), 2);
    let mut outcomes = ImageOutcomes::new();
    outcomes.insert(content_hash(b"two"), OcrOutcome::Text("words".into()));
    let converted = convert_pdf(&pdf, &outcomes, "report.pdf");
    assert_eq!(
        converted.markdown,
        "Before ![图片8](report-image-1.png) after\n\n![图片9](report-image-2.png)\n\n\
         > 图片9的OCR解析结果如下：\n>\n> words\n"
    );
    assert_eq!(converted.images[0].name, "report-image-1.png");
    assert_eq!(converted.images[1].name, "report-image-2.png");
    assert_eq!(converted.images[0].data_base64, "b25l");
}

#[test]
fn figures_without_an_image_keep_their_number() {
    let pdf = PdfMarkdown {
        markdown: "![图片1](image-1)\n\n![图片2](image-2.png) and [a link](image-2.png)".into(),
        images: vec![figure("image-2.png", b"two")],
    };
    let mut outcomes = ImageOutcomes::new();
    outcomes.insert(content_hash(b"two"), OcrOutcome::Failed);
    assert_eq!(
        convert_pdf(&pdf, &outcomes, "r.pdf").markdown,
        "![图片1](r-image-1)\n\n![图片2](r-image-2.png)\n\n> 图片2的OCR解析结果如下：\n>\n\
         > （OCR识别失败）\n\n and [a link](r-image-2.png)"
    );
}

#[test]
fn recognized_text_stays_in_its_quote() {
    let pdf = PdfMarkdown {
        markdown: "![图片1](image-1)\n\n![图片2](image-2)\n".into(),
        images: vec![figure("image-1", b"one"), figure("image-2", b"two")],
    };
    let mut outcomes = ImageOutcomes::new();
    outcomes.insert(
        content_hash(b"one"),
        OcrOutcome::Text("![图片2](image-2)# H".into()),
    );
    outcomes.insert(content_hash(b"two"), OcrOutcome::Text("two".into()));
    assert_eq!(
        convert_pdf(&pdf, &outcomes, "r.pdf").markdown,
        "![图片1](r-image-1)\n\n> 图片1的OCR解析结果如下：\n>\n> ![图片2](image-2)# H\n\n\
         ![图片2](r-image-2)\n\n> 图片2的OCR解析结果如下：\n>\n> two\n"
    );
}

#[test]
fn repeated_figures_are_annotated_once() {
    let pdf = PdfMarkdown {
        markdown: "![图片1](image-1)![图片2](image-1)".into(),
        images: vec![figure("image-1", b"one")],
    };
    let mut outcomes = ImageOutcomes::new();
    outcomes.insert(content_hash(b"one"), OcrOutcome::Text("one".into()));
    assert_eq!(
        convert_pdf(&pdf, &outcomes, "r.pdf").markdown,
        "![图片1](r-image-1)\n\n> 图片1的OCR解析结果如下：\n>\n> one\n\n![图片2](r-image-1)"
    );
    let chars: Vec<char> = pdf.markdown.chars().collect();
    let found = find_figures(&chars, &pdf.images);
    assert_eq!(found.len(), 2);
    assert_eq!((found[1].start, found[1].end), (15, 30));
    assert_eq!(found[1].label, "2");
    assert_eq!(found[1].image, 0);
    let unnumbered: Vec<char> = "![图片](image-1) ![图片x](image-1) [图片1](image-1)".chars().collect();
    assert!(find_figures(&unnumbered, &pdf.images).is_empty());
}

#[test]
fn documents_are_rendered_with_their_figures() {
    let doc = Document {
        blocks: vec![Block::Paragraph(vec![Inline::Image {
            source: ImageSource::Asset(1),
            alt: String::new(),
        }])],
        notes: Vec::new(),
        assets: vec![Asset {
            id: 1,
            media_type: "image/png".into(),
            origin_part: "word/media/image1.png".into(),
            bytes: b"one".to_vec(),
        }],
    };
    let mut outcomes = ImageOutcomes::new();
    outcomes.insert(content_hash(b"one"), OcrOutcome::Text("seen".into()));
    let converted = convert_document(&doc, &outcomes, "a.docx");
    assert!(converted.markdown.contains("> seen"), "{}", converted.markdown);
    assert_eq!(converted.decisions[0].target, "a.docx");
}

#[test]
fn markup_is_taken_out() {
    assert_eq!(strip_tags("<b>x</b> y"), "x y");
    assert_eq!(decode_entities("a &amp; b"), "a & b");
    let formats = supported_formats();
    assert_eq!(formats.len(), 5);
    assert_eq!(formats[3].category, "html");
    assert_eq!(formats[3].extensions, vec!["html", "htm", "xhtml"]);
    assert!(formats[4].requires_provider);
    assert!(!formats[3].requires_provider);
}

#[test]
fn options_have_defaults() {
    let config = ConvertOptions::default().image_config();
    assert!(config.enabled);
    assert_eq!(config.max_dimension, 1024);
    assert_eq!(config.concurrency, 4);
    assert_eq!(config.timeout_ms, 60_000);
}
