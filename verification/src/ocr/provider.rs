//! What an OCR provider is asked and what it answers.

use crate::text::opt_text;
use vstd::prelude::*;

verus! {

/// A recognition confidence in `[0, 1]`, as the bits of a 32-bit float. The
/// library carries it from the provider to the caller and never looks inside.
#[derive(Clone, Copy, Debug, PartialEq, Eq, Structural)]
pub struct Confidence {
    pub bits: u32,
}

/// A single OCR job: the file (image or PDF) plus its name and language.
#[derive(Debug)]
pub struct OcrRequest {
    /// File content (image or whole PDF).
    pub bytes: Vec<u8>,
    /// File name; used for file-type inference by providers.
    pub file_name: String,
    /// Per-request language override.
    pub language: Option<String>,
}

/// Provider recognition result.
#[derive(Debug)]
pub struct OcrOutput {
    /// Recognized text as markdown.
    pub markdown: String,
    /// Mean recognition confidence, when the provider reports it.
    pub confidence: Option<Confidence>,
    /// Provider name that produced this output.
    pub provider: String,
}

/// Provider failure. `code` is stable for programmatic handling.
#[derive(Debug)]
pub struct OcrError {
    /// Stable error code, such as `invalid_config` or `transient`.
    pub code: &'static str,
    /// Human-readable message.
    pub message: String,
    /// Whether retrying the same request could succeed.
    pub retryable: bool,
}

/// The mathematical counterpart of [`OcrError`].
pub struct OcrErrorView {
    pub code: Seq<char>,
    pub message: Seq<char>,
    pub retryable: bool,
}

impl View for OcrError {
    type V = OcrErrorView;

    open spec fn view(&self) -> OcrErrorView {
        OcrErrorView {
            code: self.code@,
            message: self.message@,
            retryable: self.retryable,
        }
    }
}

pub open spec fn ocr_error(code: &str, message: Seq<char>, retryable: bool) -> OcrErrorView {
    OcrErrorView { code: code@, message, retryable }
}

impl OcrError {
    pub fn new(code: &'static str, message: String, retryable: bool) -> (r: Self)
        ensures
            r@ == ocr_error(code, message@, retryable),
    {
        OcrError { code, message, retryable }
    }
}

/// Per-call provider options.
#[derive(Debug)]
pub struct OcrOptions {
    /// Language hint; falls back to the provider configuration.
    pub language: Option<String>,
    /// For PDFs: the pages to recognize. Empty means the whole input.
    pub page_numbers: Vec<u32>,
}

/// What is handed to a provider: the request and its options.
#[derive(Debug)]
pub struct OcrCall {
    pub request: OcrRequest,
    pub options: OcrOptions,
}

impl OcrCall {
    /// The call for this file: the language goes to both places.
    pub open spec fn is_for(
        self,
        bytes: Seq<u8>,
        file_name: Seq<char>,
        language: Option<Seq<char>>,
        pages: Seq<u32>,
    ) -> bool {
        &&& self.request.bytes@ == bytes
        &&& self.request.file_name@ == file_name
        &&& opt_text(self.request.language) == language
        &&& opt_text(self.options.language) == language
        &&& self.options.page_numbers@ == pages
    }
}

} // verus!
