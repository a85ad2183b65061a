use vento_agent_runtime::document::fetch::{
    after_body, after_head, blocked_ip, check_addresses, follow_redirect, lookup_target,
    name_from_headers, start_fetch, FetchStep, IpAddress, ReplyHead, UrlParts,
};
use vento_agent_runtime::document::names::{category_for, mime_for, Category};
use vento_agent_runtime::document::provider::{OcrOptions, ProviderError, ProviderInput, ProviderOutput};
use vento_agent_runtime::document::providers::{
    after_describe, after_recognize, after_transcribe, check_extra_params, paddle_request,
    parse_paddle_response, read_description, read_transcription, validate_extra_params, vision_request,
    OpenAiCompatibleConfig, PaddleOcrConfig, RecognizeStep,
};
use vento_agent_runtime::document::runtime::{
    convert_image, convert_media, convert_pages, convert_parsed, finish, get_supported_formats,
    html_to_markdown, inspect, safe_file_name, ConvertOptions, DocumentRuntime, PdfStep, PdfText,
    RuntimeError, Step,
};
use vento_agent_runtime::file_parser::error::ConvertError;
use vento_agent_runtime::file_parser::format::Format;
use vento_agent_runtime::http::{Exchange, HttpBody, HttpReply};
use vento_agent_runtime::json::Json;
use vento_agent_runtime::ocr::provider::Confidence;

fn v4(a: u8, b: u8, c: u8, d: u8) -> IpAddress {
    IpAddress::V4([a, b, c, d])
}

fn text(value: &str) -> Json {
    Json::Text(value.to_string())
}

fn object(fields: Vec<(&str, Json)>) -> Json {
    Json::Object(fields.into_iter().map(|(k, v)| (k.to_string(), v)).collect())
}

fn reply(status: u16, status_text: &str, body: &str) -> Exchange {
    Exchange::Reply(HttpReply {
        status,
        status_text: status_text.into(),
        body: HttpBody::Bytes(body.as_bytes().to_vec()),
    })
}

fn output(markdown: &str) -> ProviderOutput {
    ProviderOutput {
        markdown: markdown.into(),
        confidence: None,
        provider: "test".into(),
        metadata: Vec::new(),
    }
}

#[test]
fn converts_utf8_text() {
    let runtime = DocumentRuntime::new();
    let input = runtime
        .resolve(b"# hello".to_vec(), "a.md", "bytes", None)
        .expect("text should resolve");
    let content = match runtime.begin(&input, &ConvertOptions::default()) {
        Ok(Step::Done(content)) => content,
        other => panic!("text should convert: {other:?}"),
    };
    let result = finish(content, input, 3);
    assert_eq!(result.markdown, "# hello");
    assert_eq!(result.title, "a");
    assert_eq!(result.source.mime_type, "text/markdown");
    assert_eq!(result.duration_ms, 3);
    assert!(result.warnings.is_empty());
}

#[test]
fn blocks_private_networks() {
    assert!(blocked_ip(v4(127, 0, 0, 1)));
    assert!(blocked_ip(v4(169, 254, 169, 254)));
    assert!(!blocked_ip(v4(1, 1, 1, 1)));
}

#[test]
fn rejects_path_components_in_names() {
    assert_eq!(
        safe_file_name("../../safe.txt").expect("basename"),
        "safe.txt"
    );
}

#[test]
fn protected_paddle_fields_cannot_be_overridden() {
    let mut config = PaddleOcrConfig::default();
    config.extra_params.push(("file".into(), text("bad")));
    assert!(validate_extra_params(&config.extra_params).is_err());
}

#[test]
fn parses_paddle_text_arrays() {
    let output = parse_paddle_response(&object(vec![
        ("errorCode", Json::Number("0".into())),
        (
            "result",
            object(vec![(
                "ocrResults",
                Json::Array(vec![object(vec![
                    ("rec_texts", Json::Array(vec![text("hello"), text("world")])),
                    (
                        "rec_scores",
                        Json::Array(vec![
                            Json::Number("0.9".into()),
                            Json::Number("0.8".into()),
                        ]),
                    ),
                ])]),
            )]),
        ),
    ]))
    .expect("valid response");
    assert!(output.markdown.contains("hello\nworld"));
    assert_eq!(output.markdown, "## Page 1\n\nhello\nworld");
    assert_eq!(output.scores, vec!["0.9", "0.8"]);
    assert_eq!(output.provider, "paddleocr");
}

#[test]
fn private_and_special_networks_are_blocked() {
    for ip in [
        v4(10, 0, 0, 1),
        v4(172, 16, 0, 1),
        v4(172, 31, 255, 255),
        v4(192, 168, 1, 1),
        v4(0, 0, 0, 0),
        v4(255, 255, 255, 255),
        v4(192, 0, 2, 1),
        v4(203, 0, 113, 9),
        IpAddress::V6([0, 0, 0, 0, 0, 0, 0, 1]),
        IpAddress::V6([0, 0, 0, 0, 0, 0, 0, 0]),
        IpAddress::V6([0xfd00, 0, 0, 0, 0, 0, 0, 1]),
        IpAddress::V6([0xfe80, 0, 0, 0, 0, 0, 0, 1]),
    ] {
        assert!(blocked_ip(ip), "{ip:?}");
    }
    for ip in [
        v4(172, 32, 0, 1),
        v4(8, 8, 8, 8),
        IpAddress::V6([0x2606, 0x4700, 0, 0, 0, 0, 0, 1]),
    ] {
        assert!(!blocked_ip(ip), "{ip:?}");
    }
    assert!(check_addresses(Ok(vec![v4(8, 8, 8, 8)])).is_ok());
    assert!(check_addresses(Ok(vec![v4(8, 8, 8, 8), v4(10, 0, 0, 1)])).is_err());
    assert!(check_addresses(Ok(vec![])).is_err());
    assert_eq!(
        check_addresses(Err("no name".into())).unwrap_err().message(),
        "DNS lookup failed: no name"
    );
}

#[test]
fn urls_are_looked_up_and_followed() {
    let url = start_fetch("https://example.test:8443/a/b.pdf?x=1").unwrap();
    assert_eq!(lookup_target(&url).unwrap(), ("example.test".to_string(), 8443));
    assert_eq!(url.last_segment.as_deref(), Some("b.pdf"));
    let url = start_fetch("http://example.test/a").unwrap();
    assert_eq!(lookup_target(&url).unwrap().1, 80);
    assert!(start_fetch("not a url").is_err());
    let file = start_fetch("file:///etc/passwd").unwrap();
    assert_eq!(
        lookup_target(&file).unwrap_err().message(),
        "only HTTP(S) URLs are allowed"
    );
    let head = |status: u16, location: Option<&str>, length: Option<u64>| ReplyHead {
        status,
        status_text: format!("{status} Status"),
        location: location.map(str::to_string),
        content_length: length,
    };
    match after_head(&head(302, Some("/c.pdf"), None), &url, 0, 10) {
        Ok(FetchStep::Follow(next)) => assert_eq!(next.text, "http://example.test/c.pdf"),
        other => panic!("{other:?}"),
    }
    assert!(after_head(&head(302, Some("/c.pdf"), None), &url, 5, 10).is_err());
    assert!(after_head(&head(302, None, None), &url, 0, 10).is_err());
    assert!(matches!(
        after_head(&head(200, None, Some(10)), &url, 0, 10),
        Ok(FetchStep::Read)
    ));
    assert_eq!(
        after_head(&head(200, None, Some(11)), &url, 0, 10)
            .unwrap_err()
            .message(),
        "remote content is too large"
    );
    assert_eq!(
        after_head(&head(404, None, None), &url, 0, 10)
            .unwrap_err()
            .message(),
        "source returned HTTP 404 Status"
    );
    assert!(follow_redirect(Err("bad port".into()), 0).is_err());
}

#[test]
fn downloads_are_named() {
    let url = |segment: Option<&str>| UrlParts {
        text: "http://h/".into(),
        scheme: "http".into(),
        host: Some("h".into()),
        port: Some(80),
        last_segment: segment.map(str::to_string),
    };
    assert_eq!(
        name_from_headers("attachment; filename=\"report.pdf\"").as_deref(),
        Some("report.pdf")
    );
    assert_eq!(name_from_headers("inline"), None);
    let header = Some("attachment; filename=\"r.pdf\"".to_string());
    assert_eq!(after_body(1, 2, &header, &url(Some("b.txt"))).unwrap(), "r.pdf");
    assert_eq!(after_body(1, 2, &None, &url(Some("b.txt"))).unwrap(), "b.txt");
    assert_eq!(after_body(1, 2, &None, &url(Some(""))).unwrap(), "download.bin");
    assert_eq!(after_body(1, 2, &None, &url(None)).unwrap(), "download.bin");
    assert!(after_body(3, 2, &None, &url(None)).is_err());
}

#[test]
fn inputs_are_named_and_limited() {
    let runtime = DocumentRuntime::new().with_max_input_bytes(4);
    assert_eq!(
        runtime
            .resolve(vec![0; 5], "a.md", "bytes", None)
            .unwrap_err()
            .message(),
        "input has 5 bytes; maximum is 4"
    );
    assert_eq!(
        runtime
            .resolve(vec![0; 1], "..", "bytes", None)
            .unwrap_err()
            .message(),
        "invalid file name"
    );
    let rooted = DocumentRuntime::new().with_allowed_roots(vec!["/data".into()]);
    assert!(rooted.authorize_path("/data/a.txt").is_ok());
    assert!(rooted.authorize_path("/database/a.txt").is_err());
    assert!(DocumentRuntime::new().authorize_path("/data/a.txt").is_err());
}

#[test]
fn categories_decide_the_way() {
    let bare = DocumentRuntime::new();
    let options = ConvertOptions::default();
    let begin = |runtime: &DocumentRuntime, name: &str, data: &[u8]| {
        let input = runtime.resolve(data.to_vec(), name, "bytes", None).unwrap();
        runtime.begin(&input, &options)
    };
    assert!(matches!(
        begin(&bare, "a.png", b"x"),
        Err(RuntimeError::ProviderRequired("OCR"))
    ));
    assert!(matches!(
        begin(&bare, "a.mp3", b"x"),
        Err(RuntimeError::ProviderRequired("transcription"))
    ));
    assert!(matches!(begin(&bare, "a.xyz", b"x"), Err(RuntimeError::Unsupported(_))));
    assert!(matches!(begin(&bare, "a.pdf", b"x"), Ok(Step::ExtractPdf)));
    assert!(matches!(
        begin(&bare, "a.docx", b"x"),
        Ok(Step::ParseDocument(Some(Format::Docx)))
    ));
    assert!(matches!(
        begin(&bare, "a.txt", b"\xff"),
        Err(RuntimeError::InvalidInput(_))
    ));
    match begin(&bare, "a.html", b"<p>one <b>two</b></p>") {
        Ok(Step::Done(content)) => assert_eq!(content.markdown, "one two"),
        other => panic!("{other:?}"),
    }
    let full = DocumentRuntime::new().with_ocr().with_transcription();
    assert!(matches!(begin(&full, "a.png", b"x"), Ok(Step::Recognize { .. })));
    assert!(matches!(begin(&full, "a.mp4", b"x"), Ok(Step::Transcribe)));
    assert_eq!(html_to_markdown("<a>x</a>\n y"), "x y");
    assert_eq!(category_for("a.CSV"), Category::Document);
    assert_eq!(mime_for("a.png"), "image/png");
}

#[test]
fn scanned_pages_are_recognized() {
    let text = |pages: Vec<u32>| PdfText {
        markdown: Some("body".into()),
        page_count: 2,
        pdf_type: "mixed".into(),
        confidence: Confidence { bits: 0 },
        pages_needing_ocr: pages,
    };
    let bare = DocumentRuntime::new();
    let input = bare.resolve(b"x".to_vec(), "a.pdf", "bytes", None).unwrap();
    let options = ConvertOptions::default();
    match bare.after_pdf(&input, &options, Ok(text(vec![]))) {
        Ok(PdfStep::Done(content)) => {
            assert_eq!(content.markdown, "body");
            assert_eq!(content.metadata.unwrap().page_count, 2);
        }
        other => panic!("{other:?}"),
    }
    assert!(matches!(
        bare.after_pdf(&input, &options, Ok(text(vec![2]))),
        Err(RuntimeError::ProviderRequired("OCR"))
    ));
    assert!(matches!(
        bare.after_pdf(&input, &options, Err("broken".into())),
        Err(RuntimeError::Unsupported(_))
    ));
    let with_ocr = DocumentRuntime::new().with_ocr();
    match with_ocr.after_pdf(&input, &options, Ok(text(vec![2]))) {
        Ok(PdfStep::Recognize { options, text, .. }) => {
            assert_eq!(options.page_numbers, vec![2]);
            let content = convert_pages(text, Ok(output("scan"))).unwrap();
            assert!(content.markdown.contains("scan"));
        }
        other => panic!("{other:?}"),
    }
}

#[test]
fn provider_answers_become_content() {
    assert_eq!(convert_image("a.png", Ok(output("t"))).unwrap().markdown, "t");
    assert_eq!(convert_media("a.mp3", Ok(output("t"))).unwrap().markdown, "t");
    let error = ProviderError::new("PROVIDER_UNAVAILABLE", "down".into(), true);
    let failed = convert_image("a.png", Err(error)).unwrap_err();
    assert_eq!(failed.code(), "PROVIDER_UNAVAILABLE");
    assert_eq!(failed.message(), "provider failed: down");
    assert_eq!(convert_parsed(Ok("m".into())).unwrap().markdown, "m");
    assert!(convert_parsed(Err(ConvertError::Encrypted)).is_err());
}

#[test]
fn inspection_names_the_category() {
    let runtime = DocumentRuntime::new();
    let look = |name: &str| inspect(runtime.resolve(vec![], name, "bytes", None).unwrap());
    assert!(look("a.png").requires_provider);
    assert!(look("a.png").supported);
    assert!(!look("a.xyz").supported);
    assert_eq!(look("a.pdf").format, "pdf");
    let formats = get_supported_formats();
    assert_eq!(formats.len(), 6);
    assert_eq!(formats[4].category, "audio");
    assert!(formats[4].requires_provider);
}

#[test]
fn the_inventory_agrees_with_inspection() {
    let runtime = DocumentRuntime::new();
    let mut seen: Vec<String> = Vec::new();
    let mut categories: Vec<String> = Vec::new();
    for group in get_supported_formats() {
        for extension in &group.extensions {
            let name = format!("x.{extension}");
            let look = inspect(runtime.resolve(vec![], &name, "bytes", None).unwrap());
            assert_eq!(look.format, group.category);
            assert_eq!(look.requires_provider, group.requires_provider);
            assert!(!seen.contains(extension), "{extension}");
            seen.push(extension.clone());
        }
        categories.push(group.category);
    }
    assert_eq!(categories, vec!["text", "document", "pdf", "image", "audio", "video"]);
    assert_eq!(seen.len(), 48);
}

#[test]
fn extra_parameters_stay_small() {
    let flat = vec![("a".to_string(), text("b"))];
    assert!(validate_extra_params(&flat).is_ok());
    assert!(check_extra_params(&flat, 16 * 1024).is_ok());
    assert!(check_extra_params(&flat, 16 * 1024 + 1).is_err());
    let fits = vec![("a".to_string(), text(&"b".repeat(16 * 1024 - 8)))];
    assert!(validate_extra_params(&fits).is_ok());
    let large = vec![("a".to_string(), text(&"b".repeat(16 * 1024 - 7)))];
    assert!(validate_extra_params(&large).is_err());
    let mut deep = text("x");
    for _ in 0..6 {
        deep = object(vec![("n", deep)]);
    }
    let error = validate_extra_params(&vec![("a".to_string(), deep)]).unwrap_err();
    assert_eq!(error.message, "extraParams exceed size or depth limit");
    assert_eq!(error.code, "INVALID_PROVIDER_CONFIG");
}

#[test]
fn recognition_requests_carry_the_file() {
    let mut config = PaddleOcrConfig::default();
    assert_eq!(config.attempts(), 3);
    config.use_doc_unwarping = Some(true);
    config.extra_params.push(("lang".into(), text("en")));
    let input = ProviderInput {
        bytes: b"hello".to_vec(),
        file_name: "a.pdf".into(),
        mime_type: "application/pdf".into(),
    };
    let options = OcrOptions {
        language: Some("ch".into()),
        page_numbers: vec![1, 2],
        ..OcrOptions::default()
    };
    let body = paddle_request(config, &input, &options);
    assert!(matches!(body.get("file"), Some(Json::Text(t)) if t == "aGVsbG8="));
    assert!(matches!(body.get("fileType"), Some(Json::Number(n)) if n == "0"));
    assert!(matches!(body.get("lang"), Some(Json::Text(t)) if t == "ch"));
    assert!(matches!(body.get("useDocUnwarping"), Some(Json::Bool(true))));
    assert!(matches!(body.get("pageNumbers"), Some(Json::Array(a)) if a.len() == 2));
    assert!(body.get("useTextlineOrientation").is_none());
}

#[test]
fn recognition_is_retried_with_a_growing_delay() {
    assert!(matches!(
        after_recognize(&Exchange::Broken("reset".into()), 1, 3),
        RecognizeStep::RetryAfter(200)
    ));
    match after_recognize(&Exchange::Broken("reset".into()), 2, 3) {
        RecognizeStep::Done(Err(error)) => assert_eq!(error.code, "PROVIDER_UNAVAILABLE"),
        other => panic!("{other:?}"),
    }
    match after_recognize(&reply(400, "400 Bad Request", ""), 0, 3) {
        RecognizeStep::Done(Err(error)) => {
            assert_eq!(error.message, "PaddleOCR returned HTTP 400 Bad Request")
        }
        other => panic!("{other:?}"),
    }
    let body = "{\"errorCode\":0,\"result\":{\"ocrResults\":[{\"text\":\"t\"}]}}";
    match after_recognize(&reply(200, "200 OK", body), 0, 3) {
        RecognizeStep::Done(Ok(output)) => assert_eq!(output.markdown, "## Page 1\n\nt"),
        other => panic!("{other:?}"),
    }
    match after_recognize(&reply(200, "200 OK", "{\"errorCode\":7}"), 0, 3) {
        RecognizeStep::Done(Err(_)) => {}
        other => panic!("{other:?}"),
    }
    match after_recognize(&reply(200, "200 OK", "nonsense"), 0, 3) {
        RecognizeStep::Done(Err(error)) => {
            assert_eq!(error.code, "PROVIDER_RESPONSE_INVALID");
            assert_eq!(error.message, "error decoding response body");
            assert!(!error.retryable);
        }
        other => panic!("{other:?}"),
    }
}

#[test]
fn images_are_described_and_audio_transcribed() {
    let config = OpenAiCompatibleConfig {
        endpoint: "https://api.test/v1".into(),
        api_key: "k".into(),
        model: "vision-1".into(),
        timeout_ms: 1_000,
    };
    let input = ProviderInput {
        bytes: b"hello".to_vec(),
        file_name: "a.png".into(),
        mime_type: "image/png".into(),
    };
    let body = vision_request(&config, &input);
    assert!(matches!(body.get("model"), Some(Json::Text(t)) if t == "vision-1"));
    let url = body.pointer(&["messages", "0", "content", "1", "image_url", "url"]);
    assert!(matches!(url, Some(Json::Text(t)) if t == "data:image/png;base64,aGVsbG8="));
    let answer = "{\"choices\":[{\"message\":{\"content\":\"a cat\"}}]}";
    assert_eq!(
        after_describe(&reply(200, "200 OK", answer)).unwrap().markdown,
        "a cat"
    );
    assert!(after_describe(&reply(200, "200 OK", "{}")).is_err());
    assert!(read_description(&object(vec![])).is_err());
    assert_eq!(
        after_transcribe(&reply(200, "200 OK", "{\"text\":\"words\"}"))
            .unwrap()
            .markdown,
        "words"
    );
    assert!(after_transcribe(&Exchange::Broken("x".into())).is_err());
    assert_eq!(
        read_transcription(&object(vec![("text", text("w"))])).unwrap().markdown,
        "w"
    );
}

#[test]
fn provider_headers_are_checked_after_the_parameters() {
    let with = |name: &str, value: &str| PaddleOcrConfig {
        headers: vec![(name.to_string(), value.to_string())],
        ..PaddleOcrConfig::default()
    };
    assert!(with("Authorization", "token t").validate().is_ok());
    let error = with("a b", "v").validate().unwrap_err();
    assert_eq!(error.code, "INVALID_PROVIDER_CONFIG");
    assert_eq!(error.message, "invalid header name");
    let error = with("a", "v\r\n").validate().unwrap_err();
    assert_eq!(error.message, "invalid header value");
    let mut both = with("a b", "v");
    both.extra_params = vec![("file".to_string(), text("x"))];
    assert_eq!(
        both.validate().unwrap_err().message,
        "extraParams cannot override file or fileType"
    );
}
