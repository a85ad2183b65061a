use vento_agent_runtime::ocr::image_pass::{
    compose_alt, downscale, ocr_annotation, push_escaped, replace_extension, OcrOutcome,
};
use vento_agent_runtime::ocr::page_ranges::format_page_ranges;

#[test]
fn downscale_respects_cap_and_aspect() {
    // 2000x1000 RGB PNG → long side capped at 1000, aspect kept, PNG out.
    let img = image::RgbImage::from_pixel(2000, 1000, image::Rgb([200, 30, 30]));
    let mut bytes = Vec::new();
    let encoder = image::codecs::png::PngEncoder::new(&mut bytes);
    image::DynamicImage::ImageRgb8(img)
        .write_with_encoder(encoder)
        .unwrap();
    let (out, ext) = downscale(&bytes, 1000).expect("oversized image is resized");
    assert_eq!(ext, "png");
    let decoded = image::load_from_memory(&out).unwrap();
    assert_eq!((decoded.width(), decoded.height()), (1000, 500));
}

#[test]
fn downscale_leaves_small_images_untouched() {
    let img = image::RgbImage::from_pixel(64, 64, image::Rgb([1, 2, 3]));
    let mut bytes = Vec::new();
    let encoder = image::codecs::png::PngEncoder::new(&mut bytes);
    image::DynamicImage::ImageRgb8(img)
        .write_with_encoder(encoder)
        .unwrap();
    assert!(downscale(&bytes, 1024).is_none());
}

#[test]
fn downscale_passes_undecodable_bytes_through() {
    assert!(downscale(b"not-an-image", 1024).is_none());
}

#[test]
fn extension_replacement() {
    assert_eq!(replace_extension("image-1", "jpg"), "image-1.jpg");
    assert_eq!(replace_extension("image-1.wmf", "png"), "image-1.png");
    assert_eq!(
        replace_extension("word/media/image1.png", "png"),
        "word/media/image1.png"
    );
    assert_eq!(replace_extension("a.b.c.png", "jpg"), "a.b.c.jpg");
}

#[test]
fn compose_alt_templates() {
    assert_eq!(compose_alt("", Some(3)), "图片3");
    assert_eq!(compose_alt("", None), "图片");
    // Original alt is kept, whitespace collapsed, brackets escaped.
    assert_eq!(compose_alt("a [b]", Some(3)), "图片3：a \\[b\\]");
}

#[test]
fn annotation_quotes_every_line() {
    let annotation = ocr_annotation(3, &OcrOutcome::Text("# 标题\n\n| a | b |".into()));
    assert_eq!(
        annotation,
        "> 图片3的OCR解析结果如下：\n>\n> # 标题\n>\n> | a | b |"
    );
    // Nothing in the quoted block can open a heading or a table at the
    // document level.
    for line in annotation.lines() {
        assert!(line == ">" || line.starts_with("> "), "unquoted: {line}");
    }
}

#[test]
fn annotation_reports_failure_and_empty_text() {
    assert_eq!(
        ocr_annotation(1, &OcrOutcome::Failed),
        "> 图片1的OCR解析结果如下：\n>\n> （OCR识别失败）"
    );
    assert_eq!(
        ocr_annotation(1, &OcrOutcome::Text("  \n".into())),
        "> 图片1的OCR解析结果如下：\n>\n> （OCR识别失败）"
    );
}

#[test]
fn page_ranges_formatting() {
    assert_eq!(format_page_ranges(&[]), "");
    assert_eq!(format_page_ranges(&[1]), "1");
    assert_eq!(format_page_ranges(&[2, 3, 4, 6]), "2-4,6");
    // Unsorted + duplicated input collapses the same way.
    assert_eq!(format_page_ranges(&[6, 2, 3, 4, 2]), "2-4,6");
    assert_eq!(format_page_ranges(&[1, 2, 3, 5, 6, 7, 9]), "1-3,5-7,9");
}

#[test]
fn brackets_that_are_escaped_stay_as_they_are() {
    assert_eq!(compose_alt("x\\]", None), "图片：x\\]");
    assert_eq!(compose_alt("x\\\\]", None), "图片：x\\\\\\]");
    let mut out = String::new();
    push_escaped(&mut out, "[a]\\[");
    assert_eq!(out, "\\[a\\]\\[");
}
