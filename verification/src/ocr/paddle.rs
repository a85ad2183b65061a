//! PaddleOCR job protocol: submit the file, poll the job until it completes,
//! then download the JSONL result and join the markdown of its pages.
//!
//! The caller performs the requests; the functions here say what each reply
//! means and what to do next.

use crate::file_parser::format::{extension, extension_of};
use crate::http::{
    body_json, body_text, header_name_fault, header_value_fault, is_header_name, is_header_value,
    is_server_error, is_success, server_error, success, Exchange, HttpReply,
};
use crate::json::{
    as_items, as_text, encode_object, fields_view, items_of, items_view, json_parsed, json_pointer,
    lemma_items_view, object_text, parse_json, text_of, Json, JsonView,
};
use crate::ocr::page_ranges::{format_page_ranges, page_ranges};
use crate::ocr::provider::{ocr_error, OcrCall, OcrError, OcrErrorView, OcrOutput};
use crate::text::{
    blank, chars_of, is_blank, join, joined, lines, lines_of, matches_at, same_text, starts_with,
    string_of, texts, trim, trim_of,
};
use vstd::prelude::*;

verus! {

broadcast use crate::text::lemma_texts_push;

/// Delay between job-state polls, in milliseconds.
pub const POLL_INTERVAL_MS: u64 = 2_000;

/// Backoff when the upstream rate-limits, in milliseconds.
pub const RATE_LIMIT_BACKOFF_MS: u64 = 5_000;

/// Connection settings for the PaddleOCR job service.
#[derive(Debug)]
pub struct PaddleOcrConfig {
    /// Job-collection URL; a job is polled at `{endpoint}/{jobId}`.
    pub endpoint: String,
    /// Extra HTTP headers.
    pub headers: Vec<(String, String)>,
    /// Model name; defaults to `PaddleOCR-VL-1.6`.
    pub model: Option<String>,
    /// Total budget for submit, poll and result download, in milliseconds.
    pub timeout_ms: u64,
    /// Submit attempts, including the first.
    pub retries: u8,
    /// Fields merged into the request's `optionalPayload`. The reserved ones are
    /// rejected, so that callers cannot desynchronize the markdown contract.
    pub optional_payload: Vec<(String, Json)>,
}

impl Default for PaddleOcrConfig {
    fn default() -> (r: Self)
        ensures
            r.endpoint@.len() == 0,
            r.headers@.len() == 0,
            r.model is None,
            r.timeout_ms == 300_000,
            r.retries == 2,
            r.optional_payload@.len() == 0,
    {
        PaddleOcrConfig {
            endpoint: String::new(),
            headers: Vec::new(),
            model: None,
            timeout_ms: 300_000,
            retries: 2,
            optional_payload: Vec::new(),
        }
    }
}

/// Models whose results carry markdown for every page.
pub open spec fn supported_model(model: Seq<char>) -> bool {
    starts_with(trim(model), "PaddleOCR-VL"@) || starts_with(trim(model), "PP-StructureV3"@)
}

pub fn is_supported_model(model: &str) -> (b: bool)
    ensures
        b == supported_model(model@),
{
    let chars = chars_of(model);
    let t = trim_of(chars.as_slice());
    matches_at(t, chars_of("PaddleOCR-VL").as_slice(), 0) || matches_at(
        t,
        chars_of("PP-StructureV3").as_slice(),
        0,
    )
}

pub open spec fn reserved_key(key: Seq<char>) -> bool {
    key == "file"@ || key == "fileUrl"@ || key == "model"@ || key == "lang"@ || key
        == "pageRanges"@
}

pub fn is_reserved_payload_key(key: &str) -> (b: bool)
    ensures
        b == reserved_key(key@),
{
    same_text(key, "file") || same_text(key, "fileUrl") || same_text(key, "model") || same_text(
        key,
        "lang",
    ) || same_text(key, "pageRanges")
}

/// The first reserved key among the fields.
pub open spec fn first_reserved(fields: Seq<(String, Json)>) -> Option<Seq<char>>
    decreases fields.len(),
{
    if fields.len() == 0 {
        None
    } else if reserved_key(fields.first().0@) {
        Some(fields.first().0@)
    } else {
        first_reserved(fields.drop_first())
    }
}

/// Why a configuration cannot be used, if it cannot.
pub open spec fn config_error(config: PaddleOcrConfig) -> Option<OcrErrorView> {
    if is_blank(config.endpoint@) {
        Some(ocr_error("invalid_config", "paddleOcr.endpoint is required"@, false))
    } else if config.model matches Some(model) && !supported_model(model@) {
        Some(
            ocr_error(
                "invalid_config",
                "paddleOcr.model '"@ + config.model->0@
                    + "' is not supported: only PaddleOCR-VL* and PP-StructureV3* return layoutParsingResults markdown (PP-OCRv5 returns ocrResults, which the markdown contract cannot consume)"@,
                false,
            ),
        )
    } else {
        match first_reserved(config.optional_payload@) {
            Some(key) => Some(
                ocr_error(
                    "invalid_config",
                    "paddleOcr.optionalPayload."@ + key + " is reserved and cannot be set"@,
                    false,
                ),
            ),
            None => None,
        }
    }
}

/// Why the first header that cannot be sent cannot be sent.
pub open spec fn header_error(headers: Seq<(String, String)>) -> Option<OcrErrorView>
    decreases headers.len(),
{
    if headers.len() == 0 {
        None
    } else {
        let (name, value) = headers[0];
        if !is_header_name(name@) {
            Some(
                ocr_error(
                    "invalid_config",
                    "invalid header '"@ + name@ + "': "@ + "invalid HTTP header name"@,
                    false,
                ),
            )
        } else if !is_header_value(value@) {
            Some(
                ocr_error(
                    "invalid_config",
                    "invalid header value for '"@ + name@ + "': "@ + "failed to parse header value"@,
                    false,
                ),
            )
        } else {
            header_error(headers.drop_first())
        }
    }
}

fn header_failure(what: &str, name: &str, detail: &str) -> (r: OcrError)
    ensures
        r@ == ocr_error("invalid_config", what@ + name@ + "': "@ + detail@, false),
{
    let mut m = what.to_owned();
    m.push_str(name);
    m.push_str("': ");
    m.push_str(detail);
    OcrError::new("invalid_config", m, false)
}

impl PaddleOcrConfig {
    pub fn validate(&self) -> (r: Result<(), OcrError>)
        ensures
            match r {
                Ok(_) => config_error(*self) is None,
                Err(e) => config_error(*self) == Some(e@),
            },
    {
        if blank(chars_of(self.endpoint.as_str()).as_slice()) {
            return Err(
                OcrError::new("invalid_config", "paddleOcr.endpoint is required".to_owned(), false),
            );
        }
        if let Some(model) = &self.model {
            if !is_supported_model(model.as_str()) {
                let mut m = "paddleOcr.model '".to_owned();
                m.push_str(model.as_str());
                m.push_str(
                    "' is not supported: only PaddleOCR-VL* and PP-StructureV3* return layoutParsingResults markdown (PP-OCRv5 returns ocrResults, which the markdown contract cannot consume)",
                );
                return Err(OcrError::new("invalid_config", m, false));
            }
        }
        let ghost all = self.optional_payload@;
        assert(all.skip(0) =~= all);
        for i in 0..self.optional_payload.len()
            invariant
                all == self.optional_payload@,
                first_reserved(all) == first_reserved(all.skip(i as int)),
                !is_blank(self.endpoint@),
                self.model matches Some(model) ==> supported_model(model@),
        {
            assert(all.skip(i as int).drop_first() =~= all.skip(i + 1));
            let key = self.optional_payload[i].0.as_str();
            if is_reserved_payload_key(key) {
                let mut m = "paddleOcr.optionalPayload.".to_owned();
                m.push_str(key);
                m.push_str(" is reserved and cannot be set");
                return Err(OcrError::new("invalid_config", m, false));
            }
        }
        Ok(())
    }

    /// Checks that the configured headers can be sent.
    pub fn check_headers(&self) -> (r: Result<(), OcrError>)
        ensures
            match r {
                Ok(_) => header_error(self.headers@) is None,
                Err(e) => header_error(self.headers@) == Some(e@),
            },
    {
        let ghost all = self.headers@;
        assert(all.skip(0) =~= all);
        for i in 0..self.headers.len()
            invariant
                all == self.headers@,
                header_error(all) == header_error(all.skip(i as int)),
        {
            assert(all.skip(i as int).drop_first() =~= all.skip(i + 1));
            let name = self.headers[i].0.as_str();
            if let Some(detail) = header_name_fault(name) {
                return Err(header_failure("invalid header '", name, detail.as_str()));
            }
            if let Some(detail) = header_value_fault(self.headers[i].1.as_str()) {
                return Err(header_failure("invalid header value for '", name, detail.as_str()));
            }
        }
        Ok(())
    }

    /// How often the job is submitted before giving up.
    pub fn attempts(&self) -> (n: u8)
        ensures
            n == if self.retries < 1 { 1 } else { self.retries },
    {
        if self.retries < 1 { 1 } else { self.retries }
    }

    /// The total budget in milliseconds, at least one second.
    pub fn budget_ms(&self) -> (n: u64)
        ensures
            n == if self.timeout_ms < 1_000 { 1_000 } else { self.timeout_ms },
    {
        if self.timeout_ms < 1_000 { 1_000 } else { self.timeout_ms }
    }

    /// Where a job is polled.
    pub fn job_url(&self, job_id: &str) -> (r: String)
        ensures
            r@ == self.endpoint@ + "/"@ + job_id@,
    {
        let mut out = self.endpoint.clone();
        out.push_str("/");
        out.push_str(job_id);
        out
    }
}

// ---------------------------------------------------------------------------
// Submitting
// ---------------------------------------------------------------------------
/// The MIME type of the file part.
pub open spec fn part_mime(ext: Seq<char>) -> Seq<char> {
    if ext == "pdf"@ {
        "application/pdf"@
    } else if ext == "png"@ {
        "image/png"@
    } else if ext == "jpg"@ || ext == "jpeg"@ {
        "image/jpeg"@
    } else if ext == "webp"@ {
        "image/webp"@
    } else if ext == "bmp"@ {
        "image/bmp"@
    } else if ext == "tif"@ || ext == "tiff"@ {
        "image/tiff"@
    } else {
        "application/octet-stream"@
    }
}

fn mime_for(file_name: &str) -> (r: &'static str)
    ensures
        r@ == part_mime(extension(file_name@)),
{
    let ext = extension_of(file_name);
    let e = ext.as_str();
    if same_text(e, "pdf") {
        "application/pdf"
    } else if same_text(e, "png") {
        "image/png"
    } else if same_text(e, "jpg") || same_text(e, "jpeg") {
        "image/jpeg"
    } else if same_text(e, "webp") {
        "image/webp"
    } else if same_text(e, "bmp") {
        "image/bmp"
    } else if same_text(e, "tif") || same_text(e, "tiff") {
        "image/tiff"
    } else {
        "application/octet-stream"
    }
}

/// The multipart form that submits a file: text fields, then the file part.
#[derive(Debug)]
pub struct SubmitForm {
    pub model: String,
    pub optional_payload: String,
    /// Left out when every page is wanted.
    pub page_ranges: Option<String>,
    pub file_mime: &'static str,
}

/// What the form holds for a call.
pub open spec fn form_for(
    form: SubmitForm,
    config: PaddleOcrConfig,
    payload: Seq<char>,
    call: OcrCall,
) -> bool {
    &&& form.model@ == match config.model {
        Some(m) => m@,
        None => "PaddleOCR-VL-1.6"@,
    }
    &&& form.optional_payload@ == payload
    &&& form.page_ranges matches Some(ranges) ==> ranges@ == page_ranges(
        call.options.page_numbers@,
    )
    &&& form.page_ranges is None <==> page_ranges(call.options.page_numbers@).len() == 0
    &&& form.file_mime@ == part_mime(extension(call.request.file_name@))
}

/// Checks a call and fills in the form for it.
pub fn begin_recognition(config: &PaddleOcrConfig, call: &OcrCall) -> (r: Result<
    SubmitForm,
    OcrError,
>)
    ensures
        match r {
            Ok(form) => call.request.bytes@.len() > 0 && form_for(
                form,
                *config,
                object_text(fields_view(config.optional_payload@)),
                *call,
            ),
            Err(e) => call.request.bytes@.len() == 0 && e@ == ocr_error(
                "invalid_input",
                "OCR input is empty"@,
                false,
            ),
        },
{
    fill_form(config, encode_object(&config.optional_payload), call)
}

/// Checks a call and fills in the form for it. `payload` is the configured
/// `optionalPayload` as JSON text.
pub fn fill_form(config: &PaddleOcrConfig, payload: String, call: &OcrCall) -> (r: Result<
    SubmitForm,
    OcrError,
>)
    ensures
        match r {
            Ok(form) => call.request.bytes@.len() > 0 && form_for(form, *config, payload@, *call),
            Err(e) => call.request.bytes@.len() == 0 && e@ == ocr_error(
                "invalid_input",
                "OCR input is empty"@,
                false,
            ),
        },
{
    if call.request.bytes.len() == 0 {
        return Err(OcrError::new("invalid_input", "OCR input is empty".to_owned(), false));
    }
    let ranges = format_page_ranges(call.options.page_numbers.as_slice());
    let has_ranges = chars_of(ranges.as_str()).len() > 0;
    Ok(
        SubmitForm {
            model: match &config.model {
                Some(m) => m.clone(),
                None => "PaddleOCR-VL-1.6".to_owned(),
            },
            optional_payload: payload,
            page_ranges: if has_ranges { Some(ranges) } else { None },
            file_mime: mime_for(call.request.file_name.as_str()),
        },
    )
}

/// What a step of the protocol yields: a text to go on with, or an error.
pub open spec fn text_result(r: Result<String, OcrError>) -> Result<Seq<char>, OcrErrorView> {
    match r {
        Ok(s) => Ok(s@),
        Err(e) => Err(e@),
    }
}

/// What to do after a submit.
#[derive(Debug)]
pub enum SubmitStep {
    /// Submit again.
    Retry,
    /// The job id, or why there is none.
    Done(Result<String, OcrError>),
}

/// The mathematical counterpart of [`SubmitStep`]; `None` means to retry.
pub open spec fn submit_view(step: SubmitStep) -> Option<Result<Seq<char>, OcrErrorView>> {
    match step {
        SubmitStep::Retry => None,
        SubmitStep::Done(r) => Some(text_result(r)),
    }
}

pub open spec fn text_or(value: Option<JsonView>, missing: Seq<char>) -> Result<
    Seq<char>,
    OcrErrorView,
> {
    match as_text(value) {
        Some(t) => Ok(t),
        None => Err(ocr_error("upstream_error", missing, false)),
    }
}

/// The job id in a submit reply.
pub open spec fn job_id(value: JsonView) -> Result<Seq<char>, OcrErrorView> {
    text_or(
        json_pointer(value, seq!["data", "jobId"]),
        "paddleOcr submit response missing data.jobId"@,
    )
}

pub open spec fn submit_reply(reply: HttpReply, last: bool) -> Option<
    Result<Seq<char>, OcrErrorView>,
> {
    if !is_success(reply.status) {
        let retryable = is_server_error(reply.status) || reply.status == 429;
        if retryable && !last {
            None
        } else {
            Some(
                Err(
                    ocr_error(
                        "upstream_error",
                        "paddleOcr submit returned HTTP "@ + reply.status_text@ + ": "@
                            + body_text(reply.body),
                        retryable,
                    ),
                ),
            )
        }
    } else {
        Some(
            match body_json(reply.body) {
                Ok(value) => job_id(value),
                Err(e) => Err(
                    ocr_error(
                        "upstream_error",
                        "paddleOcr submit returned invalid JSON: "@ + e,
                        true,
                    ),
                ),
            },
        )
    }
}

/// What a submit means: transient failures are retried until the last attempt.
pub open spec fn submit_outcome(exchange: Exchange, last: bool) -> Option<
    Result<Seq<char>, OcrErrorView>,
> {
    match exchange {
        Exchange::Reply(reply) => submit_reply(reply, last),
        Exchange::Broken(e) => if last {
            Some(Err(ocr_error("transient", "paddleOcr submit failed: "@ + e@, true)))
        } else {
            None
        },
    }
}

/// Whether no attempt is left behind number `attempt`, counted from zero.
pub open spec fn is_last(attempt: u8, attempts: u8) -> bool {
    attempt + 1 >= attempts
}

/// A job is submitted again only after a transient failure, and never more often
/// than configured.
pub proof fn law_submits_are_bounded(exchange: Exchange, attempt: u8, attempts: u8)
    ensures
        submit_outcome(exchange, is_last(attempt, attempts)) is None <==> {
            &&& attempt + 1 < attempts
            &&& match exchange {
                Exchange::Reply(reply) => is_server_error(reply.status) || reply.status == 429,
                Exchange::Broken(_) => true,
            }
        },
{
}

fn text_at(value: &Json, first: &'static str, second: &'static str) -> (r: Option<String>)
    ensures
        crate::text::opt_text(r) == as_text(json_pointer(value@, seq![first, second])),
{
    let path: [&'static str; 2] = [first, second];
    assert(path@ =~= seq![first, second]);
    text_of(value.pointer(path.as_slice()))
}

fn upstream(message: &str, retryable: bool) -> (r: OcrError)
    ensures
        r@ == ocr_error("upstream_error", message@, retryable),
{
    OcrError::new("upstream_error", message.to_owned(), retryable)
}

fn failure(code: &'static str, message: &str, detail: &str, retryable: bool) -> (r: OcrError)
    ensures
        r@ == ocr_error(code, message@ + detail@, retryable),
{
    let mut m = message.to_owned();
    m.push_str(detail);
    OcrError::new(code, m, retryable)
}

fn status_failure(message: &str, reply: &HttpReply, retryable: bool) -> (r: OcrError)
    ensures
        r@ == ocr_error(
            "upstream_error",
            message@ + reply.status_text@ + ": "@ + body_text(reply.body),
            retryable,
        ),
{
    let mut m = message.to_owned();
    m.push_str(reply.status_text.as_str());
    m.push_str(": ");
    m.push_str(reply.body.text().as_str());
    OcrError::new("upstream_error", m, retryable)
}

/// Reads the job id out of a submit reply.
pub fn read_job_id(value: &Json) -> (r: Result<String, OcrError>)
    ensures
        text_result(r) == job_id(value@),
{
    match text_at(value, "data", "jobId") {
        Some(id) => Ok(id),
        None => Err(upstream("paddleOcr submit response missing data.jobId", false)),
    }
}

/// Decides what attempt number `attempt`, counted from zero, means.
pub fn after_submit(exchange: &Exchange, attempt: u8, attempts: u8) -> (r: SubmitStep)
    ensures
        submit_view(r) == submit_outcome(*exchange, is_last(attempt, attempts)),
{
    let last = (attempt as u16) + 1 >= attempts as u16;
    match exchange {
        Exchange::Reply(reply) => {
            if !success(reply.status) {
                let retryable = server_error(reply.status) || reply.status == 429;
                if retryable && !last {
                    return SubmitStep::Retry;
                }
                return SubmitStep::Done(
                    Err(status_failure("paddleOcr submit returned HTTP ", reply, retryable)),
                );
            }
            match reply.body.json() {
                Ok(value) => SubmitStep::Done(read_job_id(&value)),
                Err(e) => SubmitStep::Done(
                    Err(
                        failure(
                            "upstream_error",
                            "paddleOcr submit returned invalid JSON: ",
                            e.as_str(),
                            true,
                        ),
                    ),
                ),
            }
        },
        Exchange::Broken(e) => {
            if last {
                SubmitStep::Done(
                    Err(failure("transient", "paddleOcr submit failed: ", e.as_str(), true)),
                )
            } else {
                SubmitStep::Retry
            }
        },
    }
}

// ---------------------------------------------------------------------------
// Polling
// ---------------------------------------------------------------------------
/// What to do after a poll.
#[derive(Debug)]
pub enum PollStep {
    /// Poll again after this many milliseconds.
    Wait(u64),
    /// The URL of the result, or why there is none.
    Done(Result<String, OcrError>),
}

/// The mathematical counterpart of [`PollStep`].
pub enum PollView {
    Wait(u64),
    Done(Result<Seq<char>, OcrErrorView>),
}

impl View for PollStep {
    type V = PollView;

    open spec fn view(&self) -> PollView {
        match *self {
            PollStep::Wait(ms) => PollView::Wait(ms),
            PollStep::Done(r) => PollView::Done(text_result(r)),
        }
    }
}

/// What the state of a job means.
pub open spec fn job_state(value: JsonView) -> PollView {
    match as_text(json_pointer(value, seq!["data", "state"])) {
        Some(state) => if state == "done"@ {
            PollView::Done(
                text_or(
                    json_pointer(value, seq!["data", "resultUrl", "jsonUrl"]),
                    "paddleOcr done response missing data.resultUrl.jsonUrl"@,
                ),
            )
        } else if state == "failed"@ {
            PollView::Done(
                Err(
                    ocr_error(
                        "upstream_error",
                        "paddleOcr job failed: "@ + match as_text(
                            json_pointer(value, seq!["data", "errorMsg"]),
                        ) {
                            Some(m) => m,
                            None => "unknown error"@,
                        },
                        false,
                    ),
                ),
            )
        } else {
            PollView::Wait(POLL_INTERVAL_MS)
        },
        None => PollView::Wait(POLL_INTERVAL_MS),
    }
}

/// What a poll means. Network hiccups and server errors keep polling, and a
/// rate limit backs off longer: the job itself is unaffected.
pub open spec fn poll_outcome(exchange: Exchange) -> PollView {
    match exchange {
        Exchange::Broken(e) => PollView::Wait(POLL_INTERVAL_MS),
        Exchange::Reply(reply) => if is_success(reply.status) {
            match body_json(reply.body) {
                Ok(value) => job_state(value),
                Err(e) => PollView::Done(
                    Err(
                        ocr_error(
                            "upstream_error",
                            "paddleOcr poll returned invalid JSON: "@ + e,
                            true,
                        ),
                    ),
                ),
            }
        } else if reply.status == 429 {
            PollView::Wait(RATE_LIMIT_BACKOFF_MS)
        } else if is_server_error(reply.status) {
            PollView::Wait(POLL_INTERVAL_MS)
        } else {
            PollView::Done(
                Err(
                    ocr_error(
                        "upstream_error",
                        "paddleOcr poll returned HTTP "@ + reply.status_text@ + ": "@ + body_text(reply.body),
                        false,
                    ),
                ),
            )
        },
    }
}

/// Decides what the state of a job means.
pub fn read_job_state(value: &Json) -> (r: PollStep)
    ensures
        r@ == job_state(value@),
{
    match text_at(value, "data", "state") {
        Some(state) => {
            if same_text(state.as_str(), "done") {
                let path: [&'static str; 3] = ["data", "resultUrl", "jsonUrl"];
                assert(path@ =~= seq!["data", "resultUrl", "jsonUrl"]);
                match text_of(value.pointer(path.as_slice())) {
                    Some(url) => PollStep::Done(Ok(url)),
                    None => PollStep::Done(
                        Err(
                            upstream(
                                "paddleOcr done response missing data.resultUrl.jsonUrl",
                                false,
                            ),
                        ),
                    ),
                }
            } else if same_text(state.as_str(), "failed") {
                let detail = match text_at(value, "data", "errorMsg") {
                    Some(m) => m,
                    None => "unknown error".to_owned(),
                };
                PollStep::Done(
                    Err(
                        failure(
                            "upstream_error",
                            "paddleOcr job failed: ",
                            detail.as_str(),
                            false,
                        ),
                    ),
                )
            } else {
                PollStep::Wait(POLL_INTERVAL_MS)
            }
        },
        None => PollStep::Wait(POLL_INTERVAL_MS),
    }
}

pub open spec fn out_of_budget() -> OcrErrorView {
    ocr_error("timeout", "paddleOcr job did not finish within timeoutMs"@, true)
}

/// The error when the budget is spent before the job is done.
pub fn budget_spent() -> (r: OcrError)
    ensures
        r@ == out_of_budget(),
{
    OcrError::new("timeout", "paddleOcr job did not finish within timeoutMs".to_owned(), true)
}

/// Decides what a poll means.
pub fn after_poll(exchange: &Exchange) -> (r: PollStep)
    ensures
        r@ == poll_outcome(*exchange),
{
    match exchange {
        Exchange::Broken(_) => PollStep::Wait(POLL_INTERVAL_MS),
        Exchange::Reply(reply) => {
            if success(reply.status) {
                match reply.body.json() {
                    Ok(value) => read_job_state(&value),
                    Err(e) => PollStep::Done(
                        Err(
                            failure(
                                "upstream_error",
                                "paddleOcr poll returned invalid JSON: ",
                                e.as_str(),
                                true,
                            ),
                        ),
                    ),
                }
            } else if reply.status == 429 {
                PollStep::Wait(RATE_LIMIT_BACKOFF_MS)
            } else if server_error(reply.status) {
                PollStep::Wait(POLL_INTERVAL_MS)
            } else {
                PollStep::Done(Err(status_failure("paddleOcr poll returned HTTP ", reply, false)))
            }
        },
    }
}

/// What happened to somebody who waits for a job.
#[derive(Debug)]
pub enum PollEvent {
    /// It is time to ask again; `spent` says whether the budget is used up.
    Woken { spent: bool },
    /// The job was asked about.
    Asked(Exchange),
}

/// What somebody who waits for a job does next.
#[derive(Debug)]
pub enum PollAction {
    /// Ask about the job.
    Ask,
    /// Do nothing for this many milliseconds.
    Wait(u64),
    /// The URL of the result, or why there is none.
    Done(Result<String, OcrError>),
}

/// Decides what somebody who waits for a job does next. Nothing is asked any more once
/// the budget is spent; an answer that came counts.
pub fn on_poll_event(event: &PollEvent) -> (r: PollAction)
    ensures
        match *event {
            PollEvent::Woken { spent: true } => r matches PollAction::Done(Err(e)) && e@
                == out_of_budget(),
            PollEvent::Woken { spent: false } => r is Ask,
            PollEvent::Asked(exchange) => match poll_outcome(exchange) {
                PollView::Wait(ms) => r == PollAction::Wait(ms),
                PollView::Done(answer) => r matches PollAction::Done(x) && text_result(x) == answer,
            },
        },
{
    match event {
        PollEvent::Woken { spent } => if *spent {
            PollAction::Done(Err(budget_spent()))
        } else {
            PollAction::Ask
        },
        PollEvent::Asked(exchange) => match after_poll(exchange) {
            PollStep::Wait(ms) => PollAction::Wait(ms),
            PollStep::Done(answer) => PollAction::Done(answer),
        },
    }
}

// ---------------------------------------------------------------------------
// Results
// ---------------------------------------------------------------------------
/// The visible markdown texts of one line's pages.
pub open spec fn item_texts(items: Seq<JsonView>) -> Seq<Seq<char>>
    decreases items.len(),
{
    if items.len() == 0 {
        seq![]
    } else {
        let before = item_texts(items.drop_last());
        match as_text(json_pointer(items.last(), seq!["markdown", "text"])) {
            Some(t) => if is_blank(t) { before } else { before.push(trim(t)) },
            None => before,
        }
    }
}

/// The page texts of one line of the result.
pub open spec fn line_pages(value: JsonView) -> Result<Seq<Seq<char>>, OcrErrorView> {
    match as_items(json_pointer(value, seq!["result", "layoutParsingResults"])) {
        Some(items) => Ok(item_texts(items)),
        None => Err(
            ocr_error(
                "upstream_error",
                "paddleOcr result missing result.layoutParsingResults"@,
                false,
            ),
        ),
    }
}

/// The page texts of the first `n` lines; blank lines are skipped.
pub open spec fn pages_upto(all: Seq<Seq<char>>, n: nat) -> Result<Seq<Seq<char>>, OcrErrorView>
    decreases n,
{
    if n == 0 {
        Ok(seq![])
    } else {
        match pages_upto(all, (n - 1) as nat) {
            Ok(before) => if is_blank(all[n - 1]) {
                Ok(before)
            } else {
                match json_parsed(trim(all[n - 1])) {
                    Ok(value) => match line_pages(value) {
                        Ok(pages) => Ok(before + pages),
                        Err(e) => Err(e),
                    },
                    Err(e) => Err(
                        ocr_error(
                            "upstream_error",
                            "paddleOcr result line is not JSON: "@ + e,
                            false,
                        ),
                    ),
                }
            },
            Err(e) => Err(e),
        }
    }
}

/// The markdown of the collected pages.
pub open spec fn pages_markdown(pages: Seq<Seq<char>>) -> Result<Seq<char>, OcrErrorView> {
    if pages.len() == 0 {
        Err(
            ocr_error("upstream_error", "paddleOcr result contained no recognized text"@, false),
        )
    } else {
        Ok(joined(pages, "\n\n"@) + "\n"@)
    }
}

/// What a downloaded result yields.
pub open spec fn jsonl_markdown(body: Seq<char>) -> Result<Seq<char>, OcrErrorView> {
    match pages_upto(lines(body), lines(body).len()) {
        Ok(pages) => pages_markdown(pages),
        Err(e) => Err(e),
    }
}

/// The output holds this markdown, from this provider, without a confidence.
pub open spec fn output_result(r: Result<OcrOutput, OcrError>) -> Result<Seq<char>, OcrErrorView> {
    match r {
        Ok(output) => Ok(output.markdown@),
        Err(e) => Err(e@),
    }
}

pub open spec fn is_paddle_output(r: Result<OcrOutput, OcrError>) -> bool {
    r matches Ok(output) ==> output.provider@ == "paddleocr"@ && output.confidence is None
}

/// Appends the page texts of one line of the result.
pub fn push_line_pages(pages: &mut Vec<String>, value: &Json) -> (r: Result<(), OcrError>)
    ensures
        match r {
            Ok(_) => line_pages(value@) matches Ok(new) && texts(final(pages)@) == texts(
                old(pages)@,
            ) + new,
            Err(e) => line_pages(value@) == Err::<Seq<Seq<char>>, OcrErrorView>(e@),
        },
{
    let path: [&'static str; 2] = ["result", "layoutParsingResults"];
    assert(path@ =~= seq!["result", "layoutParsingResults"]);
    match items_of(value.pointer(path.as_slice())) {
        Some(items) => {
            let ghost before = texts(pages@);
            let ghost all = items_view(items@);
            proof {
                lemma_items_view(items@);
            }
            assert(before =~= before + item_texts(all.take(0)));
            for i in 0..items.len()
                invariant
                    all.len() == items@.len(),
                    forall|k: int| 0 <= k < items@.len() ==> #[trigger] all[k] == items@[k]@,
                    texts(pages@) == before + item_texts(all.take(i as int)),
            {
                assert(all.take(i + 1).drop_last() =~= all.take(i as int));
                assert(all.take(i + 1).last() == items@[i as int]@);
                if let Some(text) = text_at(&items[i], "markdown", "text") {
                    let chars = chars_of(text.as_str());
                    if !blank(chars.as_slice()) {
                        pages.push(string_of(trim_of(chars.as_slice())));
                    }
                }
                assert(texts(pages@) =~= before + item_texts(all.take(i + 1)));
            }
            assert(all.take(all.len() as int) =~= all);
            Ok(())
        },
        None => Err(upstream("paddleOcr result missing result.layoutParsingResults", false)),
    }
}

/// Joins the collected pages.
pub fn join_pages(pages: &Vec<String>) -> (r: Result<OcrOutput, OcrError>)
    ensures
        output_result(r) == pages_markdown(texts(pages@)),
        is_paddle_output(r),
{
    if pages.len() == 0 {
        return Err(upstream("paddleOcr result contained no recognized text", false));
    }
    let mut markdown = join(pages, "\n\n");
    markdown.push_str("\n");
    Ok(OcrOutput { markdown, confidence: None, provider: "paddleocr".to_owned() })
}

/// Parses the job's JSONL result: one object per line, each carrying the
/// markdown texts of its pages.
pub fn parse_jsonl_markdown(body: &str) -> (r: Result<OcrOutput, OcrError>)
    ensures
        output_result(r) == jsonl_markdown(body@),
        is_paddle_output(r),
{
    let all = lines_of(chars_of(body).as_slice());
    let ghost source = lines(body@);
    let mut pages: Vec<String> = Vec::new();
    assert(texts(pages@) =~= seq![]);
    for i in 0..all.len()
        invariant
            source == lines(body@),
            texts(all@) == source,
            pages_upto(source, i as nat) == Ok::<Seq<Seq<char>>, OcrErrorView>(texts(pages@)),
    {
        assert(source[i as int] == all@[i as int]@);
        let chars = chars_of(all[i].as_str());
        if !blank(chars.as_slice()) {
            let line = string_of(trim_of(chars.as_slice()));
            match parse_json(line.as_str()) {
                Ok(value) => {
                    if let Err(e) = push_line_pages(&mut pages, &value) {
                        proof {
                            lemma_pages_stop(source, (i + 1) as nat, source.len());
                        }
                        return Err(e);
                    }
                },
                Err(e) => {
                    proof {
                        lemma_pages_stop(source, (i + 1) as nat, source.len());
                    }
                    return Err(
                        failure(
                            "upstream_error",
                            "paddleOcr result line is not JSON: ",
                            e.as_str(),
                            false,
                        ),
                    );
                },
            }
        }
    }
    join_pages(&pages)
}

/// The first bad line decides.
proof fn lemma_pages_stop(all: Seq<Seq<char>>, n: nat, m: nat)
    requires
        n <= m,
        pages_upto(all, n) is Err,
    ensures
        pages_upto(all, m) == pages_upto(all, n),
    decreases m,
{
    if n < m {
        lemma_pages_stop(all, n, (m - 1) as nat);
    }
}

/// How the download of a result ended.
#[derive(Debug)]
pub enum Download {
    Body(String),
    /// The request failed.
    Broken(String),
    /// The reply has an error status.
    BadStatus(String),
    /// The body could not be read.
    Unreadable(String),
}

pub open spec fn download_outcome(download: Download) -> Result<Seq<char>, OcrErrorView> {
    match download {
        Download::Body(body) => jsonl_markdown(body@),
        Download::Broken(e) => Err(
            ocr_error("transient", "paddleOcr result fetch failed: "@ + e@, true),
        ),
        Download::BadStatus(e) => Err(
            ocr_error("upstream_error", "paddleOcr result fetch: "@ + e@, true),
        ),
        Download::Unreadable(e) => Err(
            ocr_error("upstream_error", "paddleOcr result read failed: "@ + e@, true),
        ),
    }
}

/// Decides what the download of a result means.
pub fn after_download(download: &Download) -> (r: Result<OcrOutput, OcrError>)
    ensures
        output_result(r) == download_outcome(*download),
        is_paddle_output(r),
{
    match download {
        Download::Body(body) => parse_jsonl_markdown(body.as_str()),
        Download::Broken(e) => Err(
            failure("transient", "paddleOcr result fetch failed: ", e.as_str(), true),
        ),
        Download::BadStatus(e) => Err(
            failure("upstream_error", "paddleOcr result fetch: ", e.as_str(), true),
        ),
        Download::Unreadable(e) => Err(
            failure("upstream_error", "paddleOcr result read failed: ", e.as_str(), true),
        ),
    }
}

} // verus!
