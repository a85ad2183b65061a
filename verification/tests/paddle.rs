use vento_agent_runtime::http::{Exchange, HttpBody, HttpReply};
use vento_agent_runtime::json::Json;
use vento_agent_runtime::ocr::paddle::{
    after_download, after_poll, after_submit, begin_recognition, budget_spent, fill_form, join_pages,
    on_poll_event, parse_jsonl_markdown, read_job_id, read_job_state, Download, PaddleOcrConfig, PollAction, PollEvent,
    PollStep,
    SubmitStep,
};
use vento_agent_runtime::ocr::page_ranges::format_page_ranges;
use vento_agent_runtime::ocr::provider::{OcrCall, OcrOptions, OcrRequest};

fn config(model: Option<&str>, payload: &[(&str, &str)]) -> PaddleOcrConfig {
    PaddleOcrConfig {
        endpoint: "https://example.test/jobs".into(),
        model: model.map(str::to_string),
        optional_payload: payload
            .iter()
            .map(|(key, value)| (key.to_string(), Json::Text(value.to_string())))
            .collect(),
        ..PaddleOcrConfig::default()
    }
}

fn reply(status: u16, status_text: &str, body: &str) -> Exchange {
    Exchange::Reply(HttpReply {
        status,
        status_text: status_text.into(),
        body: HttpBody::Bytes(body.as_bytes().to_vec()),
    })
}

fn call(bytes: &[u8], name: &str, pages: Vec<u32>) -> OcrCall {
    OcrCall {
        request: OcrRequest {
            bytes: bytes.to_vec(),
            file_name: name.into(),
            language: None,
        },
        options: OcrOptions {
            language: None,
            page_numbers: pages,
        },
    }
}

fn object(fields: Vec<(&str, Json)>) -> Json {
    Json::Object(fields.into_iter().map(|(k, v)| (k.to_string(), v)).collect())
}

fn text(value: &str) -> Json {
    Json::Text(value.to_string())
}

#[test]
fn parses_multi_page_jsonl() {
    let body = format!(
        "{}{}{}",
        "{\"result\":{\"layoutParsingResults\":[{\"markdown\":{\"text\":\"# 第一页\\n\"}}]}}\n",
        "{\"result\":{\"layoutParsingResults\":[{\"markdown\":{\"text\":\"第二页\"}}]}}\n",
        "\n"
    );
    let output = parse_jsonl_markdown(&body).unwrap();
    assert_eq!(output.markdown, "# 第一页\n\n第二页\n");
    assert_eq!(output.provider, "paddleocr");
}

#[test]
fn rejects_result_without_text() {
    let body = "{\"result\":{\"layoutParsingResults\":[]}}\n";
    assert!(parse_jsonl_markdown(body).is_err());
}

#[test]
fn config_requires_endpoint() {
    let error = PaddleOcrConfig::default().validate().unwrap_err();
    assert_eq!(error.code, "invalid_config");
}

#[test]
fn config_rejects_reserved_payload_keys() {
    let error = config(None, &[("model", "other")]).validate().unwrap_err();
    assert!(error.message.contains("reserved"));
    let error = config(None, &[("pageRanges", "1-2")]).validate().unwrap_err();
    assert!(error.message.contains("reserved"));
}

#[test]
fn config_rejects_markdown_incapable_models() {
    for model in ["PP-OCRv5", "PaddleOCR-X", "paddleocr-vl-1.6"] {
        let error = config(Some(model), &[]).validate().unwrap_err();
        assert_eq!(
            error.code, "invalid_config",
            "model {model} should be rejected"
        );
    }
}

#[test]
fn config_accepts_markdown_capable_models() {
    for model in [
        None,
        Some("PaddleOCR-VL"),
        Some("PaddleOCR-VL-1.6"),
        Some("PP-StructureV3"),
    ] {
        config(model, &[])
            .validate()
            .expect("markdown-capable model should validate");
    }
}

#[test]
fn other_payload_fields_pass() {
    assert!(config(None, &[("useDocUnwarping", "yes")]).validate().is_ok());
    let config = config(None, &[]);
    assert_eq!(config.attempts(), 2);
    assert_eq!(config.budget_ms(), 300_000);
    assert_eq!(config.job_url("j1"), "https://example.test/jobs/j1");
}

#[test]
fn forms_carry_the_payload_as_json() {
    let config = config(None, &[("useDocUnwarping", "say \"yes\"")]);
    let form = begin_recognition(&config, &call(b"x", "a.pdf", vec![])).unwrap();
    assert_eq!(form.optional_payload, "{\"useDocUnwarping\":\"say \\\"yes\\\"\"}");
    let form = fill_form(&config, "{}".into(), &call(b"x", "a.pdf", vec![])).unwrap();
    assert_eq!(form.optional_payload, "{}");
}

#[test]
fn forms_carry_model_pages_and_mime() {
    let config = config(None, &[]);
    let form = begin_recognition(&config, &call(b"x", "a.PDF", vec![3, 1, 2])).unwrap();
    assert_eq!(form.model, "PaddleOCR-VL-1.6");
    assert_eq!(form.page_ranges.as_deref(), Some("1-3"));
    assert_eq!(form.file_mime, "application/pdf");
    assert_eq!(form.optional_payload, "{}");
    let form = begin_recognition(&config, &call(b"x", "a.jpeg", vec![])).unwrap();
    assert_eq!(form.page_ranges, None);
    assert_eq!(form.file_mime, "image/jpeg");
    let error = begin_recognition(&config, &call(b"", "a.pdf", vec![])).unwrap_err();
    assert_eq!(error.code, "invalid_input");
    assert_eq!(error.message, "OCR input is empty");
}

#[test]
fn submits_are_retried_until_the_last() {
    assert!(matches!(
        after_submit(&Exchange::Broken("reset".into()), 0, 2),
        SubmitStep::Retry
    ));
    match after_submit(&Exchange::Broken("reset".into()), 1, 2) {
        SubmitStep::Done(Err(error)) => {
            assert_eq!(error.code, "transient");
            assert!(error.retryable);
        }
        other => panic!("{other:?}"),
    }
    assert!(matches!(
        after_submit(&reply(503, "503 Service Unavailable", ""), 0, 2),
        SubmitStep::Retry
    ));
    match after_submit(&reply(400, "400 Bad Request", "no"), 0, 2) {
        SubmitStep::Done(Err(error)) => {
            assert_eq!(error.code, "upstream_error");
            assert_eq!(
                error.message,
                "paddleOcr submit returned HTTP 400 Bad Request: no"
            );
            assert!(!error.retryable);
        }
        other => panic!("{other:?}"),
    }
    match after_submit(&reply(200, "200 OK", "{\"data\":{\"jobId\":\"j1\"}}"), 0, 2) {
        SubmitStep::Done(Ok(id)) => assert_eq!(id, "j1"),
        other => panic!("{other:?}"),
    }
    match after_submit(&reply(200, "200 OK", "{"), 0, 2) {
        SubmitStep::Done(Err(error)) => {
            assert_eq!(
                error.message,
                "paddleOcr submit returned invalid JSON: error decoding response body"
            );
            assert!(error.retryable);
        }
        other => panic!("{other:?}"),
    }
    assert!(read_job_id(&object(vec![])).is_err());
}

#[test]
fn job_states_are_read() {
    let state = |fields: Vec<(&str, Json)>| object(vec![("data", object(fields))]);
    assert!(matches!(
        read_job_state(&state(vec![("state", text("running"))])),
        PollStep::Wait(2_000)
    ));
    match read_job_state(&state(vec![
        ("state", text("done")),
        ("resultUrl", object(vec![("jsonUrl", text("https://r.test/1"))])),
    ])) {
        PollStep::Done(Ok(url)) => assert_eq!(url, "https://r.test/1"),
        other => panic!("{other:?}"),
    }
    assert!(matches!(
        read_job_state(&state(vec![("state", text("failed"))])),
        PollStep::Done(Err(_))
    ));
    assert!(matches!(
        after_poll(&reply(429, "429 Too Many Requests", "")),
        PollStep::Wait(5_000)
    ));
    assert!(matches!(
        after_poll(&Exchange::Broken("reset".into())),
        PollStep::Wait(2_000)
    ));
    assert!(budget_spent().retryable);
}

#[test]
fn waiting_ends_with_the_budget() {
    assert!(matches!(
        on_poll_event(&PollEvent::Woken { spent: false }),
        PollAction::Ask
    ));
    match on_poll_event(&PollEvent::Woken { spent: true }) {
        PollAction::Done(Err(error)) => {
            assert_eq!(error.code, "timeout");
            assert_eq!(error.message, "paddleOcr job did not finish within timeoutMs");
        }
        other => panic!("{other:?}"),
    }
    assert!(matches!(
        on_poll_event(&PollEvent::Asked(Exchange::Broken("reset".into()))),
        PollAction::Wait(2_000)
    ));
    match on_poll_event(&PollEvent::Asked(reply(
        200,
        "200 OK",
        "{\"data\":{\"state\":\"done\",\"resultUrl\":{\"jsonUrl\":\"u\"}}}",
    ))) {
        PollAction::Done(Ok(url)) => assert_eq!(url, "u"),
        other => panic!("{other:?}"),
    }
}

#[test]
fn page_ranges_depend_on_the_set() {
    assert_eq!(format_page_ranges(&[6, 2, 3, 4, 2]), "2-4,6");
    assert_eq!(format_page_ranges(&[4, 6, 3, 2, 6]), "2-4,6");
    assert_eq!(format_page_ranges(&[u32::MAX, u32::MAX - 1]), "4294967294-4294967295");
    assert_eq!(format_page_ranges(&[]), "");
}

#[test]
fn downloads_become_pages() {
    let output = join_pages(&vec!["one".to_string(), "two".to_string()]).unwrap();
    assert_eq!(output.markdown, "one\n\ntwo\n");
    assert!(join_pages(&vec![]).is_err());
    assert!(after_download(&Download::Broken("reset".into())).is_err());
    assert!(after_download(&Download::BadStatus("404 Not Found".into())).is_err());
    assert!(after_download(&Download::Unreadable("cut".into())).is_err());
    let body = "{\"result\":{\"layoutParsingResults\":[{\"markdown\":{\"text\":\"p\"}}]}}";
    assert_eq!(
        after_download(&Download::Body(body.into())).unwrap().markdown,
        "p\n"
    );
}

#[test]
fn ranges_name_exactly_the_pages() {
    assert_eq!(format_page_ranges(&[0, 4294967295]), "0,4294967295");
    assert_eq!(format_page_ranges(&[5, 4, 3]), "3-5");
    assert_eq!(format_page_ranges(&[1, 3, 5]), "1,3,5");
}

#[test]
fn jobs_are_submitted_as_often_as_configured() {
    let config = PaddleOcrConfig {
        retries: 3,
        ..PaddleOcrConfig::default()
    };
    let attempts = config.attempts();
    let busy = reply(429, "429 Too Many Requests", "slow down");
    let mut sent = 0u8;
    let error = loop {
        let step = after_submit(&busy, sent, attempts);
        sent += 1;
        match step {
            SubmitStep::Retry => {}
            SubmitStep::Done(answer) => break answer.unwrap_err(),
        }
    };
    assert_eq!(sent, 3);
    assert_eq!(
        error.message,
        "paddleOcr submit returned HTTP 429 Too Many Requests: slow down"
    );
}

#[test]
fn bodies_that_cannot_be_read_are_told_apart() {
    let with = |status: u16, body: HttpBody| {
        Exchange::Reply(HttpReply {
            status,
            status_text: "200 OK".into(),
            body,
        })
    };
    match after_poll(&with(200, HttpBody::Bytes(vec![b'"', 0xFF, b'"']))) {
        PollStep::Done(Err(error)) => assert_eq!(
            error.message,
            "paddleOcr poll returned invalid JSON: error decoding response body"
        ),
        other => panic!("{other:?}"),
    }
    match after_poll(&with(200, HttpBody::Unreadable("connection reset".into()))) {
        PollStep::Done(Err(error)) => assert_eq!(
            error.message,
            "paddleOcr poll returned invalid JSON: connection reset"
        ),
        other => panic!("{other:?}"),
    }
    match after_poll(&with(404, HttpBody::Text("gone".into()))) {
        PollStep::Done(Err(error)) => {
            assert_eq!(error.message, "paddleOcr poll returned HTTP 200 OK: gone")
        }
        other => panic!("{other:?}"),
    }
    assert_eq!(HttpBody::Bytes(vec![b'a', 0xFF]).text(), "a\u{FFFD}");
    assert_eq!(HttpBody::Unreadable("x".into()).text(), "");
    assert!(HttpBody::Text("[]".into()).json().is_ok());
}

#[test]
fn headers_that_cannot_be_sent_are_named() {
    let with = |name: &str, value: &str| PaddleOcrConfig {
        headers: vec![
            ("X-First".to_string(), "ok\t\u{e9}".to_string()),
            (name.to_string(), value.to_string()),
        ],
        ..PaddleOcrConfig::default()
    };
    assert!(with("Authorization", "bearer t").check_headers().is_ok());
    assert!(with("!#$%&'*+-.^_`|~09azAZ", "").check_headers().is_ok());
    assert!(with(&"a".repeat(65_535), "").check_headers().is_ok());
    for name in ["", "a b", "a:b", "\"", "(", ")", ",", "/", "[", "{", "}", "\u{e9}"] {
        let error = with(name, "v").check_headers().unwrap_err();
        assert_eq!(error.code, "invalid_config");
        assert_eq!(
            error.message,
            format!("invalid header '{name}': invalid HTTP header name")
        );
    }
    assert!(with(&"a".repeat(65_536), "").check_headers().is_err());
    for value in ["a\nb", "\0", "\u{7f}"] {
        let error = with("X-Key", value).check_headers().unwrap_err();
        assert_eq!(
            error.message,
            "invalid header value for 'X-Key': failed to parse header value"
        );
    }
}
