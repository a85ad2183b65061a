use vento_agent_runtime::ocr::image_pass::{
    content_hash, ensure_image_extension, image_call, outcome_of, plan_downscale, plan_image_ocr,
    prepare_image, Encoding, ImageOcrConfig, ImageOutcomes, OcrImage, OcrOutcome, Recognition,
};
use vento_agent_runtime::ocr::provider::{OcrError, OcrOutput};

fn config() -> ImageOcrConfig {
    ImageOcrConfig {
        enabled: true,
        max_dimension: 1024,
        concurrency: 4,
        timeout_ms: 60_000,
    }
}

fn image(bytes: &[u8], name: &str) -> OcrImage {
    OcrImage {
        bytes: bytes.to_vec(),
        file_name: name.into(),
    }
}

fn answer() -> OcrOutput {
    OcrOutput {
        markdown: "识别结果".into(),
        confidence: None,
        provider: "counting".into(),
    }
}

#[test]
fn dedups_identical_bytes() {
    let images = vec![
        image(b"aaa", "a.png"),
        image(b"bbb", "b.png"),
        image(b"aaa", "c.png"),
    ];
    let tasks = plan_image_ocr(&images, &config(), true);
    assert_eq!(tasks.len(), 2);
    let mut outcomes = ImageOutcomes::new();
    let mut calls = 0;
    for task in &tasks {
        calls += 1;
        outcomes.insert(task.hash, outcome_of(Recognition::Answered(answer())));
    }
    assert_eq!(calls, 2);
    for image in &images {
        assert!(matches!(
            outcomes.lookup(&image.bytes),
            Some(OcrOutcome::Text(_))
        ));
    }
    assert!(outcomes.lookup(b"ccc").is_none());
}

#[test]
fn timeout_marks_failure() {
    let mut cfg = config();
    cfg.timeout_ms = 20;
    let images = vec![image(b"aaa", "a.png")];
    let tasks = plan_image_ocr(&images, &cfg, true);
    let mut outcomes = ImageOutcomes::new();
    outcomes.insert(tasks[0].hash, outcome_of(Recognition::TimedOut));
    assert!(matches!(
        outcomes.lookup(b"aaa"),
        Some(OcrOutcome::Failed)
    ));
}

#[test]
fn no_provider_is_a_noop() {
    let images = vec![image(b"aaa", "a.png")];
    assert!(plan_image_ocr(&images, &config(), false).is_empty());
}

#[test]
fn a_disabled_pass_is_a_noop() {
    let images = vec![image(b"aaa", "a.png")];
    let mut cfg = config();
    cfg.enabled = false;
    assert!(plan_image_ocr(&images, &cfg, true).is_empty());
    let refused = OcrError::new("transient", "down".into(), true);
    assert!(matches!(
        outcome_of(Recognition::Refused(refused)),
        OcrOutcome::Failed
    ));
    assert!(matches!(
        outcome_of(Recognition::Unprepared),
        OcrOutcome::Failed
    ));
}

#[test]
fn contents_are_told_apart_by_their_digest() {
    let hash = content_hash(b"abc");
    assert_eq!(
        hash[..4].to_vec(),
        vec![0xba, 0x78, 0x16, 0xbf],
        "digest of abc"
    );
    assert_ne!(content_hash(b"abd"), hash);
}

#[test]
fn the_long_side_is_capped() {
    let jpeg = Encoding::Jpeg { quality: 85 };
    assert_eq!(
        plan_downscale(Some((2000, 1000, false)), true, 1000),
        Some((1000, 500, Encoding::Png))
    );
    assert_eq!(plan_downscale(Some((1000, 2000, false)), false, 1000), Some((500, 1000, jpeg)));
    assert_eq!(plan_downscale(Some((1000, 1000, false)), true, 1000), None);
    assert_eq!(plan_downscale(None, false, 1000), None);
    assert_eq!(plan_downscale(Some((4000, 1, true)), false, 1000), Some((1000, 1, Encoding::Png)));
}

#[test]
fn sides_are_rounded_as_doubles_are() {
    let jpeg = Encoding::Jpeg { quality: 85 };
    assert_eq!(plan_downscale(Some((94, 47, false)), false, 3), Some((3, 1, jpeg)));
    assert_eq!(plan_downscale(Some((100, 50, false)), false, 29), Some((29, 14, jpeg)));
    assert_eq!(plan_downscale(Some((10, 5, false)), false, 5), Some((5, 3, jpeg)));
    assert_eq!(plan_downscale(Some((10, 5, false)), false, 0), Some((1, 1, jpeg)));
    for long in 2..120u32 {
        for max in 1..long {
            for side in 0..=long {
                let scale = f64::from(max) / f64::from(long);
                let expected = ((f64::from(side) * scale).round() as u32).max(1);
                let (width, height, _) = plan_downscale(Some((long, side, false)), false, max).unwrap();
                assert_eq!((width, height), (max, expected), "{side} of {long} to {max}");
            }
        }
    }
}

#[test]
fn prepared_images_have_a_fitting_name() {
    let big = image::RgbImage::from_pixel(40, 20, image::Rgb([9, 9, 9]));
    let mut bytes = Vec::new();
    let encoder = image::codecs::png::PngEncoder::new(&mut bytes);
    image::DynamicImage::ImageRgb8(big)
        .write_with_encoder(encoder)
        .unwrap();
    let (out, name) = prepare_image(&bytes, "scan.dat", 10);
    assert_eq!(name, "scan.png");
    let decoded = image::load_from_memory(&out).unwrap();
    assert_eq!((decoded.width(), decoded.height()), (10, 5));
    let photo = image::RgbImage::from_pixel(40, 20, image::Rgb([9, 9, 9]));
    let mut jpeg = Vec::new();
    let encoder = image::codecs::jpeg::JpegEncoder::new_with_quality(&mut jpeg, 90);
    photo.write_with_encoder(encoder).unwrap();
    let (out, name) = prepare_image(&jpeg, "photo.png", 10);
    assert_eq!(name, "photo.jpg");
    let decoded = image::load_from_memory(&out).unwrap();
    assert_eq!((decoded.width(), decoded.height()), (10, 5));
    assert!(!decoded.color().has_alpha());
    let (same, name) = prepare_image(b"raw", "scan.dat", 10);
    assert_eq!(same, b"raw");
    assert_eq!(name, "scan.dat");
    assert_eq!(ensure_image_extension("word/image1", "image/png"), "word/image1.png");
    assert_eq!(ensure_image_extension("a.bin", "text/plain"), "a.bin");
}

#[test]
fn calls_carry_the_language() {
    let call = image_call(b"x".to_vec(), "a.png".into(), &Some("ch".into()));
    assert_eq!(call.request.language.as_deref(), Some("ch"));
    assert_eq!(call.options.language.as_deref(), Some("ch"));
    assert!(call.options.page_numbers.is_empty());
}
