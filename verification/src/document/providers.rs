//! HTTP providers: a PaddleOCR service, and an OpenAI-compatible service for
//! vision and transcription. The caller performs the requests; the functions
//! here build the bodies and read the replies.

use crate::document::provider::{
    provider_error, OcrOptions, ProviderError, ProviderErrorView, ProviderInput, ProviderOutput,
};
use crate::file_parser::runtime::{base64_text, encode_base64};
use crate::http::{
    body_json, header_name_fault, header_value_fault, is_header_name, is_header_value, is_server_error,
    is_success, server_error, success, Exchange,
};
use crate::json::{
    any_field_deeper, as_items, as_text, encode_object, fields_depth, fields_view, find_field,
    has_field, insert_field, items_of, items_view, json_get, json_pointer,
    lemma_fields_push, lemma_items_view, object_text, put_field, text_of, Json,
    JsonView,
};
use crate::text::{
    chars_of, decimal, decimal_of, join, joined, push_chars, push_decimal, same_text, texts, trim,
    trim_of,
};
use vstd::prelude::*;
use vstd::utf8::encode_utf8;

verus! {

broadcast use crate::text::lemma_texts_push;

/// How deeply extra parameters may be nested.
pub const MAX_EXTRA_DEPTH: usize = 4;

/// How large extra parameters may be when they are encoded.
pub const MAX_EXTRA_BYTES: usize = 16 * 1024;

#[derive(Debug)]
pub struct PaddleOcrConfig {
    pub endpoint: String,
    pub headers: Vec<(String, String)>,
    pub timeout_ms: u64,
    pub retries: u8,
    pub use_doc_orientation_classify: Option<bool>,
    pub use_doc_unwarping: Option<bool>,
    pub use_textline_orientation: Option<bool>,
    pub extra_params: Vec<(String, Json)>,
}

impl Default for PaddleOcrConfig {
    fn default() -> (r: Self)
        ensures
            r.endpoint@ == "http://127.0.0.1:8080/ocr"@,
            r.headers@.len() == 0,
            r.timeout_ms == 30_000,
            r.retries == 2,
            r.use_doc_orientation_classify is None,
            r.use_doc_unwarping is None,
            r.use_textline_orientation is None,
            r.extra_params@.len() == 0,
    {
        PaddleOcrConfig {
            endpoint: "http://127.0.0.1:8080/ocr".to_owned(),
            headers: Vec::new(),
            timeout_ms: 30_000,
            retries: 2,
            use_doc_orientation_classify: None,
            use_doc_unwarping: None,
            use_textline_orientation: None,
            extra_params: Vec::new(),
        }
    }
}

/// Why extra parameters cannot be used, if they cannot. `encoded_len` is their
/// size as JSON text.
pub open spec fn extra_error(params: Seq<(String, Json)>, encoded_len: nat) -> Option<
    ProviderErrorView,
> {
    if find_field(fields_view(params), "file"@) is Some || find_field(
        fields_view(params),
        "fileType"@,
    ) is Some {
        Some(
            provider_error(
                "INVALID_PROVIDER_CONFIG",
                "extraParams cannot override file or fileType"@,
                false,
            ),
        )
    } else if encoded_len > MAX_EXTRA_BYTES || fields_depth(params) > MAX_EXTRA_DEPTH {
        Some(
            provider_error(
                "INVALID_PROVIDER_CONFIG",
                "extraParams exceed size or depth limit"@,
                false,
            ),
        )
    } else {
        None
    }
}

/// Checks that extra parameters leave the protected fields alone and stay small.
pub fn validate_extra_params(params: &Vec<(String, Json)>) -> (r: Result<(), ProviderError>)
    ensures
        ({
            let encoded = encode_utf8(object_text(fields_view(params@)));
            match r {
                Ok(_) => extra_error(params@, encoded.len()) is None,
                Err(e) => extra_error(params@, encoded.len()) == Some(e@),
            }
        }),
{
    let encoded = encode_object(params);
    check_extra_params(params, encoded.as_str().as_bytes().len())
}

/// Why the first header that cannot be sent cannot be sent.
pub open spec fn header_error(headers: Seq<(String, String)>) -> Option<ProviderErrorView>
    decreases headers.len(),
{
    if headers.len() == 0 {
        None
    } else if !is_header_name(headers[0].0@) {
        Some(provider_error("INVALID_PROVIDER_CONFIG", "invalid header name"@, false))
    } else if !is_header_value(headers[0].1@) {
        Some(provider_error("INVALID_PROVIDER_CONFIG", "invalid header value"@, false))
    } else {
        header_error(headers.drop_first())
    }
}

fn check_headers(headers: &Vec<(String, String)>) -> (r: Result<(), ProviderError>)
    ensures
        match r {
            Ok(_) => header_error(headers@) is None,
            Err(e) => header_error(headers@) == Some(e@),
        },
{
    assert(headers@.skip(0) =~= headers@);
    for i in 0..headers.len()
        invariant
            header_error(headers@) == header_error(headers@.skip(i as int)),
    {
        assert(headers@.skip(i as int).drop_first() =~= headers@.skip(i + 1));
        if header_name_fault(headers[i].0.as_str()).is_some() {
            return Err(
                ProviderError::new(
                    "INVALID_PROVIDER_CONFIG",
                    "invalid header name".to_owned(),
                    false,
                ),
            );
        }
        if header_value_fault(headers[i].1.as_str()).is_some() {
            return Err(
                ProviderError::new(
                    "INVALID_PROVIDER_CONFIG",
                    "invalid header value".to_owned(),
                    false,
                ),
            );
        }
    }
    Ok(())
}

/// Checks extra parameters that take up `encoded_len` bytes as JSON text.
pub fn check_extra_params(params: &Vec<(String, Json)>, encoded_len: usize) -> (r: Result<
    (),
    ProviderError,
>)
    ensures
        match r {
            Ok(_) => extra_error(params@, encoded_len as nat) is None,
            Err(e) => extra_error(params@, encoded_len as nat) == Some(e@),
        },
{
    if has_field(params, "file") || has_field(params, "fileType") {
        return Err(
            ProviderError::new(
                "INVALID_PROVIDER_CONFIG",
                "extraParams cannot override file or fileType".to_owned(),
                false,
            ),
        );
    }
    if encoded_len > MAX_EXTRA_BYTES || any_field_deeper(params, MAX_EXTRA_DEPTH) {
        return Err(
            ProviderError::new(
                "INVALID_PROVIDER_CONFIG",
                "extraParams exceed size or depth limit".to_owned(),
                false,
            ),
        );
    }
    Ok(())
}

// ---------------------------------------------------------------------------
// PaddleOCR
// ---------------------------------------------------------------------------
pub open spec fn put_optional(
    fields: Seq<(Seq<char>, JsonView)>,
    key: &str,
    value: Option<bool>,
) -> Seq<(Seq<char>, JsonView)> {
    match value {
        Some(b) => put_field(fields, key@, JsonView::Bool(b)),
        None => fields,
    }
}

pub open spec fn page_numbers(pages: Seq<u32>) -> Seq<JsonView> {
    Seq::new(pages.len(), |i: int| JsonView::Number(decimal(pages[i] as nat)))
}

/// The fields of a request: the extra parameters, then the file and the options.
pub open spec fn request_fields(config: PaddleOcrConfig, input: ProviderInput, options: OcrOptions) -> Seq<
    (Seq<char>, JsonView),
> {
    let f1 = put_field(
        fields_view(config.extra_params@),
        "file"@,
        JsonView::Text(base64_text(input.bytes@)),
    );
    let f2 = put_field(
        f1,
        "fileType"@,
        JsonView::Number(decimal(if input.mime_type@ == "application/pdf"@ { 0 } else { 1 })),
    );
    let f3 = put_optional(f2, "useDocOrientationClassify", config.use_doc_orientation_classify);
    let f4 = put_optional(f3, "useDocUnwarping", config.use_doc_unwarping);
    let f5 = put_optional(f4, "useTextlineOrientation", config.use_textline_orientation);
    let f6 = match options.language {
        Some(language) => put_field(f5, "lang"@, JsonView::Text(language@)),
        None => f5,
    };
    if options.page_numbers@.len() == 0 {
        f6
    } else {
        put_field(f6, "pageNumbers"@, JsonView::Array(page_numbers(options.page_numbers@)))
    }
}

fn insert_optional(fields: &mut Vec<(String, Json)>, key: &str, value: Option<bool>)
    ensures
        fields_view(final(fields)@) == put_optional(fields_view(old(fields)@), key, value),
{
    if let Some(b) = value {
        insert_field(fields, key, Json::Bool(b));
    }
}

fn number_pages(pages: &Vec<u32>) -> (r: Vec<Json>)
    ensures
        items_view(r@) == page_numbers(pages@),
{
    let mut out: Vec<Json> = Vec::new();
    let ghost all = page_numbers(pages@);
    assert(items_view(out@) =~= all.take(0));
    for i in 0..pages.len()
        invariant
            all == page_numbers(pages@),
            items_view(out@) == all.take(i as int),
    {
        let ghost before = out@;
        let n = Json::Number(decimal_of(pages[i] as u64));
        out.push(n);
        assert(out@.drop_last() =~= before);
        assert(n@ == all[i as int]);
        assert(items_view(out@) =~= all.take(i + 1));
    }
    assert(all.take(all.len() as int) =~= all);
    out
}

/// Builds the body of a recognition request. The configured extra parameters are
/// consumed.
pub fn paddle_request(config: PaddleOcrConfig, input: &ProviderInput, options: &OcrOptions) -> (r: Json)
    ensures
        r@ == JsonView::Object(request_fields(config, *input, *options)),
{
    let mut fields = config.extra_params;
    let encoded = encode_base64(input.bytes.as_slice());
    insert_field(&mut fields, "file", Json::Text(encoded));
    let kind: u64 = if same_text(input.mime_type.as_str(), "application/pdf") { 0 } else { 1 };
    insert_field(&mut fields, "fileType", Json::Number(decimal_of(kind)));
    insert_optional(
        &mut fields,
        "useDocOrientationClassify",
        config.use_doc_orientation_classify,
    );
    insert_optional(&mut fields, "useDocUnwarping", config.use_doc_unwarping);
    insert_optional(&mut fields, "useTextlineOrientation", config.use_textline_orientation);
    if let Some(language) = &options.language {
        insert_field(&mut fields, "lang", Json::Text(language.clone()));
    }
    if options.page_numbers.len() > 0 {
        let pages = number_pages(&options.page_numbers);
        insert_field(&mut fields, "pageNumbers", Json::Array(pages));
    }
    Json::Object(fields)
}

/// The text of one recognized page: its markdown, or its recognized lines.
pub open spec fn page_body(result: JsonView) -> Seq<char> {
    let value = match json_get(result, "markdown"@) {
        Some(v) => Some(v),
        None => match json_get(result, "rec_texts"@) {
            Some(v) => Some(v),
            None => json_get(result, "text"@),
        },
    };
    match value {
        Some(JsonView::Text(t)) => t,
        Some(JsonView::Array(items)) => joined(text_items(items), "\n"@),
        _ => seq![],
    }
}

/// The string items of an array.
pub open spec fn text_items(items: Seq<JsonView>) -> Seq<Seq<char>>
    decreases items.len(),
{
    if items.len() == 0 {
        seq![]
    } else {
        match as_text(Some(items.last())) {
            Some(t) => text_items(items.drop_last()).push(t),
            None => text_items(items.drop_last()),
        }
    }
}

/// The number items of an array, as they are written.
pub open spec fn number_items(items: Seq<JsonView>) -> Seq<Seq<char>>
    decreases items.len(),
{
    if items.len() == 0 {
        seq![]
    } else {
        match items.last() {
            JsonView::Number(n) => number_items(items.drop_last()).push(n),
            _ => number_items(items.drop_last()),
        }
    }
}

pub open spec fn page_sections(results: Seq<JsonView>) -> Seq<Seq<char>> {
    Seq::new(
        results.len(),
        |i: int| "## Page "@ + decimal((i + 1) as nat) + "\n\n"@ + trim(page_body(results[i])),
    )
}

pub open spec fn page_scores(results: Seq<JsonView>) -> Seq<Seq<char>>
    decreases results.len(),
{
    if results.len() == 0 {
        seq![]
    } else {
        let before = page_scores(results.drop_last());
        match as_items(json_get(results.last(), "rec_scores"@)) {
            Some(items) => before + number_items(items),
            None => before,
        }
    }
}

/// The service reports success: its error code is zero, missing or no integer.
pub open spec fn accepted(value: JsonView) -> bool {
    match json_get(value, "errorCode"@) {
        Some(JsonView::Number(n)) => !nonzero_integer(n),
        _ => true,
    }
}

pub open spec fn is_negative(n: Seq<char>) -> bool {
    n.len() > 0 && n[0] == '-'
}

pub open spec fn without_sign(n: Seq<char>) -> Seq<char> {
    if is_negative(n) { n.drop_first() } else { n }
}

pub open spec fn has_nonzero_digit(digits: Seq<char>) -> bool {
    exists|i: int| 0 <= i < digits.len() && #[trigger] digits[i] != '0'
}

/// The text is an integer other than zero, small enough for 64 bits.
pub open spec fn nonzero_integer(n: Seq<char>) -> bool {
    all_digits(without_sign(n)) && fits_i64(without_sign(n), is_negative(n)) && has_nonzero_digit(
        without_sign(n),
    )
}

pub open spec fn all_digits(s: Seq<char>) -> bool {
    s.len() > 0 && forall|i: int| 0 <= i < s.len() ==> crate::text::is_digit_char(#[trigger] s[i])
}

/// The value of a digit string.
pub open spec fn digits_value(s: Seq<char>) -> nat
    decreases s.len(),
{
    if s.len() == 0 {
        0
    } else {
        10 * digits_value(s.drop_last()) + (s.last() as u32 - '0' as u32) as nat
    }
}

pub open spec fn fits_i64(digits: Seq<char>, negative: bool) -> bool {
    digits_value(digits) <= if negative { 0x8000_0000_0000_0000nat } else { 0x7fff_ffff_ffff_ffffnat }
}

/// What a reply yields: the markdown and the scores as they are written, or an
/// error.
pub open spec fn paddle_reply(value: JsonView) -> Result<PaddleView, ProviderErrorView> {
    if !accepted(value) {
        Err(
            provider_error(
                "PROVIDER_REJECTED",
                match as_text(json_get(value, "errorMsg"@)) {
                    Some(m) => m,
                    None => "PaddleOCR rejected input"@,
                },
                false,
            ),
        )
    } else {
        match as_items(json_pointer(value, seq!["result", "ocrResults"])) {
            Some(results) => Ok(
                PaddleView {
                    markdown: joined(page_sections(results), "\n\n"@),
                    scores: page_scores(results),
                    provider: "paddleocr"@,
                },
            ),
            None => Err(
                provider_error("PROVIDER_RESPONSE_INVALID", "missing result.ocrResults"@, false),
            ),
        }
    }
}

/// A recognized document: its markdown, and the scores of its lines as they are
/// written in the reply.
#[derive(Debug)]
pub struct PaddleOutput {
    pub markdown: String,
    pub scores: Vec<String>,
    /// Provider name that produced this output.
    pub provider: &'static str,
}

/// The mathematical counterpart of [`PaddleOutput`].
pub struct PaddleView {
    pub markdown: Seq<char>,
    pub scores: Seq<Seq<char>>,
    pub provider: Seq<char>,
}

impl View for PaddleOutput {
    type V = PaddleView;

    open spec fn view(&self) -> PaddleView {
        PaddleView {
            markdown: self.markdown@,
            scores: texts(self.scores@),
            provider: self.provider@,
        }
    }
}

pub open spec fn paddle_result(r: Result<PaddleOutput, ProviderError>) -> Result<
    PaddleView,
    ProviderErrorView,
> {
    match r {
        Ok(output) => Ok(output@),
        Err(e) => Err(e@),
    }
}

fn is_digits(s: &[char]) -> (b: bool)
    ensures
        b == all_digits(s@),
{
    if s.len() == 0 {
        return false;
    }
    for i in 0..s.len()
        invariant
            forall|j: int| 0 <= j < i ==> crate::text::is_digit_char(#[trigger] s@[j]),
    {
        if !crate::text::is_ascii_digit(s[i]) {
            return false;
        }
    }
    true
}

proof fn lemma_digits_value_grows(s: Seq<char>, n: int)
    requires
        0 <= n <= s.len(),
        forall|j: int| 0 <= j < s.len() ==> crate::text::is_digit_char(#[trigger] s[j]),
    ensures
        digits_value(s.take(n)) <= digits_value(s),
    decreases s.len() - n,
{
    if n < s.len() {
        lemma_digits_value_grows(s, n + 1);
        assert(s.take(n + 1).drop_last() =~= s.take(n));
    } else {
        assert(s.take(n) =~= s);
    }
}

fn within_i64(digits: &[char], negative: bool) -> (b: bool)
    requires
        all_digits(digits@),
    ensures
        b == fits_i64(digits@, negative),
{
    let limit: u64 = if negative { 0x8000_0000_0000_0000 } else { 0x7fff_ffff_ffff_ffff };
    let mut value: u64 = 0;
    for i in 0..digits.len()
        invariant
            all_digits(digits@),
            limit <= 0x8000_0000_0000_0000,
            limit == if negative { 0x8000_0000_0000_0000u64 } else { 0x7fff_ffff_ffff_ffffu64 },
            value == digits_value(digits@.take(i as int)),
            value <= limit,
    {
        assert(digits@.take(i + 1).drop_last() =~= digits@.take(i as int));
        let c = digits[i];
        assert(crate::text::is_digit_char(digits@[i as int]));
        let d: u64 = (c as u32 - '0' as u32) as u64;
        if value > limit / 10 || value * 10 > limit - d {
            proof {
                lemma_digits_value_grows(digits@, i + 1);
            }
            return false;
        }
        value = value * 10 + d;
    }
    assert(digits@.take(digits@.len() as int) =~= digits@);
    true
}

fn is_nonzero_integer(n: &str) -> (b: bool)
    ensures
        b == nonzero_integer(n@),
{
    let s = chars_of(n);
    let negative = s.len() > 0 && s[0] == '-';
    let start: usize = if negative { 1 } else { 0 };
    let digits = vstd::slice::slice_subrange(s.as_slice(), start, s.len());
    assert(digits@ =~= without_sign(n@));
    if !is_digits(digits) || !within_i64(digits, negative) {
        return false;
    }
    for i in 0..digits.len()
        invariant
            nonzero_integer(n@) == has_nonzero_digit(digits@),
            forall|j: int| 0 <= j < i ==> #[trigger] digits@[j] == '0',
    {
        if digits[i] != '0' {
            assert(digits@[i as int] != '0');
            return true;
        }
    }
    false
}

fn render_items(items: &Vec<Json>) -> (r: Vec<String>)
    ensures
        texts(r@) == text_items(items_view(items@)),
{
    let mut out: Vec<String> = Vec::new();
    let ghost all = items_view(items@);
    proof {
        lemma_items_view(items@);
    }
    assert(texts(out@) =~= text_items(all.take(0)));
    for i in 0..items.len()
        invariant
            all.len() == items@.len(),
            forall|k: int| 0 <= k < items@.len() ==> #[trigger] all[k] == items@[k]@,
            texts(out@) == text_items(all.take(i as int)),
    {
        assert(all.take(i + 1).drop_last() =~= all.take(i as int));
        assert(all.take(i + 1).last() == items@[i as int]@);
        if let Json::Text(t) = &items[i] {
            out.push(t.clone());
        }
    }
    assert(all.take(all.len() as int) =~= all);
    out
}

fn push_numbers(out: &mut Vec<String>, items: &Vec<Json>)
    ensures
        texts(final(out)@) == texts(old(out)@) + number_items(items_view(items@)),
{
    let ghost before = texts(out@);
    let ghost all = items_view(items@);
    proof {
        lemma_items_view(items@);
    }
    assert(before =~= before + number_items(all.take(0)));
    for i in 0..items.len()
        invariant
            all.len() == items@.len(),
            forall|k: int| 0 <= k < items@.len() ==> #[trigger] all[k] == items@[k]@,
            texts(out@) == before + number_items(all.take(i as int)),
    {
        assert(all.take(i + 1).drop_last() =~= all.take(i as int));
        assert(all.take(i + 1).last() == items@[i as int]@);
        if let Json::Number(n) = &items[i] {
            out.push(n.clone());
        }
        assert(texts(out@) =~= before + number_items(all.take(i + 1)));
    }
    assert(all.take(all.len() as int) =~= all);
}

fn render_page(result: &Json) -> (r: String)
    ensures
        r@ == page_body(result@),
{
    let value = match result.get("markdown") {
        Some(v) => Some(v),
        None => match result.get("rec_texts") {
            Some(v) => Some(v),
            None => result.get("text"),
        },
    };
    match value {
        Some(Json::Text(t)) => t.clone(),
        Some(Json::Array(items)) => join(&render_items(items), "\n"),
        _ => {
            let out = String::new();
            assert(out@ =~= seq![]);
            out
        },
    }
}

/// Reads a recognition reply.
pub fn parse_paddle_response(value: &Json) -> (r: Result<PaddleOutput, ProviderError>)
    ensures
        paddle_result(r) == paddle_reply(value@),
{
    let rejected = match value.get("errorCode") {
        Some(Json::Number(n)) => is_nonzero_integer(n.as_str()),
        _ => false,
    };
    if rejected {
        let m = match text_of(value.get("errorMsg")) {
            Some(m) => m,
            None => "PaddleOCR rejected input".to_owned(),
        };
        return Err(ProviderError::new("PROVIDER_REJECTED", m, false));
    }
    let path: [&'static str; 2] = ["result", "ocrResults"];
    assert(path@ =~= seq!["result", "ocrResults"]);
    match items_of(value.pointer(path.as_slice())) {
        Some(results) => {
            let ghost all = items_view(results@);
            proof {
                lemma_items_view(results@);
            }
            let mut pages: Vec<String> = Vec::new();
            let mut scores: Vec<String> = Vec::new();
            assert(texts(pages@) =~= page_sections(all).take(0));
            assert(texts(scores@) =~= page_scores(all.take(0)));
            for i in 0..results.len()
                invariant
                    all.len() == results@.len(),
                    forall|k: int| 0 <= k < results@.len() ==> #[trigger] all[k] == results@[k]@,
                    texts(pages@) == page_sections(all).take(i as int),
                    texts(scores@) == page_scores(all.take(i as int)),
            {
                assert(all.take(i + 1).drop_last() =~= all.take(i as int));
                assert(all.take(i + 1).last() == results@[i as int]@);
                assert(all[i as int] == results@[i as int]@);
                let body = chars_of(render_page(&results[i]).as_str());
                if let Some(items) = items_of(results[i].get("rec_scores")) {
                    push_numbers(&mut scores, items);
                }
                let mut page = "## Page ".to_owned();
                push_decimal(&mut page, (i + 1) as u64);
                page.push_str("\n\n");
                push_chars(&mut page, trim_of(body.as_slice()));
                assert(page@ =~= page_sections(all)[i as int]);
                pages.push(page);
                assert(texts(pages@) =~= page_sections(all).take(i + 1));
            }
            assert(page_sections(all).take(all.len() as int) =~= page_sections(all));
            assert(all.take(all.len() as int) =~= all);
            Ok(
                PaddleOutput { markdown: join(&pages, "\n\n"), scores, provider: "paddleocr" },
            )
        },
        None => Err(
            ProviderError::new(
                "PROVIDER_RESPONSE_INVALID",
                "missing result.ocrResults".to_owned(),
                false,
            ),
        ),
    }
}

/// What to do after a recognition request.
#[derive(Debug)]
pub enum RecognizeStep {
    /// Send it again after this many milliseconds.
    RetryAfter(u64),
    Done(Result<PaddleOutput, ProviderError>),
}

/// The mathematical counterpart of [`RecognizeStep`].
pub enum RecognizeView {
    RetryAfter(u64),
    Done(Result<PaddleView, ProviderErrorView>),
}

impl View for RecognizeStep {
    type V = RecognizeView;

    open spec fn view(&self) -> RecognizeView {
        match *self {
            RecognizeStep::RetryAfter(ms) => RecognizeView::RetryAfter(ms),
            RecognizeStep::Done(r) => RecognizeView::Done(paddle_result(r)),
        }
    }
}

/// The failure of one attempt: retried with a growing delay until none is left.
pub open spec fn retried(attempt: u8, attempts: u8, e: ProviderErrorView) -> RecognizeView {
    if e.retryable && attempt + 1 < attempts {
        RecognizeView::RetryAfter((100 * (attempt + 1)) as u64)
    } else {
        RecognizeView::Done(Err(e))
    }
}

/// What attempt number `attempt`, counted from zero, means.
pub open spec fn recognize_outcome(exchange: Exchange, attempt: u8, attempts: u8) -> RecognizeView {
    match exchange {
        Exchange::Reply(reply) => if is_success(reply.status) {
            RecognizeView::Done(
                match body_json(reply.body) {
                    Ok(value) => paddle_reply(value),
                    Err(e) => Err(provider_error("PROVIDER_RESPONSE_INVALID", e, false)),
                },
            )
        } else {
            retried(
                attempt,
                attempts,
                provider_error(
                    "PROVIDER_HTTP_ERROR",
                    "PaddleOCR returned HTTP "@ + reply.status_text@,
                    is_server_error(reply.status) || reply.status == 429,
                ),
            )
        },
        Exchange::Broken(e) => retried(
            attempt,
            attempts,
            provider_error("PROVIDER_UNAVAILABLE", e@, true),
        ),
    }
}

impl PaddleOcrConfig {
    /// Checks the extra parameters, then the headers.
    pub fn validate(&self) -> (r: Result<(), ProviderError>)
        ensures
            ({
                let encoded = encode_utf8(object_text(fields_view(self.extra_params@)));
                let expected = match extra_error(self.extra_params@, encoded.len()) {
                    Some(e) => Some(e),
                    None => header_error(self.headers@),
                };
                match r {
                    Ok(_) => expected is None,
                    Err(e) => expected == Some(e@),
                }
            }),
    {
        match validate_extra_params(&self.extra_params) {
            Ok(_) => check_headers(&self.headers),
            Err(e) => Err(e),
        }
    }

    /// How often a request is sent before giving up.
    pub fn attempts(&self) -> (n: u8)
        ensures
            n == if self.retries == 255 { 255 } else { self.retries + 1 },
    {
        self.retries.saturating_add(1)
    }
}

fn retry_or_fail(attempt: u8, attempts: u8, e: ProviderError) -> (r: RecognizeStep)
    ensures
        r@ == retried(attempt, attempts, e@),
{
    if e.retryable && (attempt as u16) + 1 < attempts as u16 {
        RecognizeStep::RetryAfter(100 * (attempt as u64 + 1))
    } else {
        RecognizeStep::Done(Err(e))
    }
}

/// Decides what a recognition request means.
pub fn after_recognize(exchange: &Exchange, attempt: u8, attempts: u8) -> (r: RecognizeStep)
    ensures
        r@ == recognize_outcome(*exchange, attempt, attempts),
{
    match exchange {
        Exchange::Reply(reply) => {
            if success(reply.status) {
                match reply.body.json() {
                    Ok(value) => RecognizeStep::Done(parse_paddle_response(&value)),
                    Err(e) => RecognizeStep::Done(
                        Err(ProviderError::new("PROVIDER_RESPONSE_INVALID", e, false)),
                    ),
                }
            } else {
                let retryable = server_error(reply.status) || reply.status == 429;
                let mut m = "PaddleOCR returned HTTP ".to_owned();
                m.push_str(reply.status_text.as_str());
                retry_or_fail(
                    attempt,
                    attempts,
                    ProviderError::new("PROVIDER_HTTP_ERROR", m, retryable),
                )
            }
        },
        Exchange::Broken(e) => retry_or_fail(
            attempt,
            attempts,
            ProviderError::new("PROVIDER_UNAVAILABLE", e.clone(), true),
        ),
    }
}

/// The delay before a retry grows with every attempt, and no attempt is made
/// beyond the configured number.
pub proof fn law_retries_are_bounded(exchange: Exchange, attempt: u8, attempts: u8)
    ensures
        recognize_outcome(exchange, attempt, attempts) matches RecognizeView::RetryAfter(ms) ==> {
            attempt + 1 < attempts && ms == 100 * (attempt + 1)
        },
{
}

// ---------------------------------------------------------------------------
// OpenAI-compatible services
// ---------------------------------------------------------------------------
#[derive(Debug)]
pub struct OpenAiCompatibleConfig {
    pub endpoint: String,
    pub api_key: String,
    pub model: String,
    pub timeout_ms: u64,
}

pub open spec fn field(key: &str, value: JsonView) -> (Seq<char>, JsonView) {
    (key@, value)
}

/// The image as a `data:` URL.
pub open spec fn data_url(input: ProviderInput) -> Seq<char> {
    "data:"@ + input.mime_type@ + ";base64,"@ + base64_text(input.bytes@)
}

/// The body of a request to describe an image.
pub open spec fn vision_body(model: Seq<char>, url: Seq<char>) -> JsonView {
    let text = JsonView::Object(
        seq![
            field("type", JsonView::Text("text"@)),
            field(
                "text",
                JsonView::Text(
                    "Describe this image as concise Markdown. Preserve visible text, structure, charts and tables."@,
                ),
            ),
        ],
    );
    let image = JsonView::Object(
        seq![
            field("type", JsonView::Text("image_url"@)),
            field("image_url", JsonView::Object(seq![field("url", JsonView::Text(url))])),
        ],
    );
    let message = JsonView::Object(
        seq![
            field("role", JsonView::Text("user"@)),
            field("content", JsonView::Array(seq![text, image])),
        ],
    );
    JsonView::Object(
        seq![
            field("model", JsonView::Text(model)),
            field("messages", JsonView::Array(seq![message])),
        ],
    )
}

fn object1(key: &str, value: Json) -> (r: Json)
    ensures
        r@ == JsonView::Object(seq![field(key, value@)]),
{
    let mut fields: Vec<(String, Json)> = Vec::new();
    let entry = (key.to_owned(), value);
    proof {
        lemma_fields_push(fields@, entry);
    }
    fields.push(entry);
    assert(fields_view(fields@) =~= seq![field(key, value@)]);
    Json::Object(fields)
}

fn object2(key: &str, value: Json, key2: &str, value2: Json) -> (r: Json)
    ensures
        r@ == JsonView::Object(seq![field(key, value@), field(key2, value2@)]),
{
    let mut fields: Vec<(String, Json)> = Vec::new();
    let entry = (key.to_owned(), value);
    let entry2 = (key2.to_owned(), value2);
    proof {
        lemma_fields_push(fields@, entry);
        lemma_fields_push(fields@.push(entry), entry2);
    }
    fields.push(entry);
    fields.push(entry2);
    assert(fields_view(fields@) =~= seq![field(key, value@), field(key2, value2@)]);
    Json::Object(fields)
}

fn text(s: &str) -> (r: Json)
    ensures
        r@ == JsonView::Text(s@),
{
    Json::Text(s.to_owned())
}

/// Builds the body of a request to describe an image.
pub fn vision_request(config: &OpenAiCompatibleConfig, input: &ProviderInput) -> (r: Json)
    ensures
        r@ == vision_body(config.model@, data_url(*input)),
{
    let mut url = "data:".to_owned();
    url.push_str(input.mime_type.as_str());
    url.push_str(";base64,");
    url.push_str(encode_base64(input.bytes.as_slice()).as_str());
    let prompt = object2(
        "type",
        text("text"),
        "text",
        text(
            "Describe this image as concise Markdown. Preserve visible text, structure, charts and tables.",
        ),
    );
    let image = object2(
        "type",
        text("image_url"),
        "image_url",
        object1("url", Json::Text(url)),
    );
    let mut content: Vec<Json> = Vec::new();
    content.push(prompt);
    content.push(image);
    proof {
        lemma_items_view(content@);
        assert(items_view(content@) =~= seq![prompt@, image@]);
    }
    let message = object2("role", text("user"), "content", Json::Array(content));
    let mut messages: Vec<Json> = Vec::new();
    messages.push(message);
    proof {
        lemma_items_view(messages@);
        assert(items_view(messages@) =~= seq![message@]);
    }
    object2("model", text(config.model.as_str()), "messages", Json::Array(messages))
}

/// The parsed body of a reply, or the error that the exchange stands for.
pub open spec fn reply_value(exchange: Exchange, what: Seq<char>) -> Result<
    JsonView,
    ProviderErrorView,
> {
    match exchange {
        Exchange::Reply(reply) => if is_success(reply.status) {
            match body_json(reply.body) {
                Ok(value) => Ok(value),
                Err(e) => Err(provider_error("PROVIDER_RESPONSE_INVALID", e, false)),
            }
        } else {
            Err(
                provider_error(
                    "PROVIDER_HTTP_ERROR",
                    what + " returned HTTP "@ + reply.status_text@,
                    is_server_error(reply.status),
                ),
            )
        },
        Exchange::Broken(e) => Err(provider_error("PROVIDER_UNAVAILABLE", e@, true)),
    }
}

fn read_reply(exchange: &Exchange, what: &str) -> (r: Result<Json, ProviderError>)
    ensures
        match (r, reply_value(*exchange, what@)) {
            (Ok(value), Ok(expected)) => value@ == expected,
            (Err(e), Err(expected)) => e@ == expected,
            _ => false,
        },
{
    match exchange {
        Exchange::Reply(reply) => {
            if success(reply.status) {
                match reply.body.json() {
                    Ok(value) => Ok(value),
                    Err(e) => Err(ProviderError::new("PROVIDER_RESPONSE_INVALID", e, false)),
                }
            } else {
                let mut m = what.to_owned();
                m.push_str(" returned HTTP ");
                m.push_str(reply.status_text.as_str());
                Err(ProviderError::new("PROVIDER_HTTP_ERROR", m, server_error(reply.status)))
            }
        },
        Exchange::Broken(e) => Err(ProviderError::new("PROVIDER_UNAVAILABLE", e.clone(), true)),
    }
}

pub open spec fn output_result(r: Result<ProviderOutput, ProviderError>) -> Result<
    (Seq<char>, Seq<char>),
    ProviderErrorView,
> {
    match r {
        Ok(output) => Ok((output.markdown@, output.provider@)),
        Err(e) => Err(e@),
    }
}

/// Without a confidence and without metadata.
pub open spec fn is_bare(r: Result<ProviderOutput, ProviderError>) -> bool {
    r matches Ok(output) ==> output.confidence is None && output.metadata@.len() == 0
}

fn provider_output(markdown: String, provider: &str) -> (r: ProviderOutput)
    ensures
        r.markdown@ == markdown@,
        r.provider@ == provider@,
        r.confidence is None,
        r.metadata@.len() == 0,
{
    ProviderOutput { markdown, confidence: None, provider: provider.to_owned(), metadata: Vec::new() }
}

/// The description in a vision reply.
pub open spec fn vision_reply(value: JsonView) -> Result<(Seq<char>, Seq<char>), ProviderErrorView> {
    match as_text(json_pointer(value, seq!["choices", "0", "message", "content"])) {
        Some(t) => Ok((t, "openai-compatible-vision"@)),
        None => Err(
            provider_error("PROVIDER_RESPONSE_INVALID", "missing vision content"@, false),
        ),
    }
}

/// Reads the description out of a vision reply.
pub fn read_description(value: &Json) -> (r: Result<ProviderOutput, ProviderError>)
    ensures
        output_result(r) == vision_reply(value@),
        is_bare(r),
{
    let path: [&'static str; 4] = ["choices", "0", "message", "content"];
    assert(path@ =~= seq!["choices", "0", "message", "content"]);
    match text_of(value.pointer(path.as_slice())) {
        Some(t) => Ok(provider_output(t, "openai-compatible-vision")),
        None => Err(
            ProviderError::new(
                "PROVIDER_RESPONSE_INVALID",
                "missing vision content".to_owned(),
                false,
            ),
        ),
    }
}

/// Decides what a vision request means.
pub fn after_describe(exchange: &Exchange) -> (r: Result<ProviderOutput, ProviderError>)
    ensures
        output_result(r) == match reply_value(*exchange, "provider"@) {
            Ok(value) => vision_reply(value),
            Err(e) => Err(e),
        },
        is_bare(r),
{
    match read_reply(exchange, "provider") {
        Ok(value) => read_description(&value),
        Err(e) => Err(e),
    }
}

/// The text in a transcription reply.
pub open spec fn transcription_reply(value: JsonView) -> Result<
    (Seq<char>, Seq<char>),
    ProviderErrorView,
> {
    match as_text(json_get(value, "text"@)) {
        Some(t) => Ok((t, "openai-compatible-transcription"@)),
        None => Err(
            provider_error("PROVIDER_RESPONSE_INVALID", "missing transcription text"@, false),
        ),
    }
}

/// Reads the text out of a transcription reply.
pub fn read_transcription(value: &Json) -> (r: Result<ProviderOutput, ProviderError>)
    ensures
        output_result(r) == transcription_reply(value@),
        is_bare(r),
{
    match text_of(value.get("text")) {
        Some(t) => Ok(provider_output(t, "openai-compatible-transcription")),
        None => Err(
            ProviderError::new(
                "PROVIDER_RESPONSE_INVALID",
                "missing transcription text".to_owned(),
                false,
            ),
        ),
    }
}

/// Decides what a transcription request means.
pub fn after_transcribe(exchange: &Exchange) -> (r: Result<ProviderOutput, ProviderError>)
    ensures
        output_result(r) == match reply_value(*exchange, "transcription"@) {
            Ok(value) => transcription_reply(value),
            Err(e) => Err(e),
        },
        is_bare(r),
{
    match read_reply(exchange, "transcription") {
        Ok(value) => read_transcription(&value),
        Err(e) => Err(e),
    }
}

} // verus!
