//! What a recognition or transcription provider is asked and what it answers.

use crate::json::{fields_view, Json, JsonView};
use crate::ocr::provider::Confidence;
use crate::text::opt_text;
use vstd::prelude::*;

verus! {

#[derive(Debug)]
pub struct ProviderInput {
    pub bytes: Vec<u8>,
    pub file_name: String,
    pub mime_type: String,
}

/// The mathematical counterpart of [`ProviderInput`].
pub struct ProviderInputView {
    pub bytes: Seq<u8>,
    pub file_name: Seq<char>,
    pub mime_type: Seq<char>,
}

impl View for ProviderInput {
    type V = ProviderInputView;

    open spec fn view(&self) -> ProviderInputView {
        ProviderInputView {
            bytes: self.bytes@,
            file_name: self.file_name@,
            mime_type: self.mime_type@,
        }
    }
}

#[derive(Debug)]
pub struct OcrOptions {
    pub language: Option<String>,
    pub page_numbers: Vec<u32>,
    pub extra: Vec<(String, Json)>,
}

/// The mathematical counterpart of [`OcrOptions`].
pub struct OcrOptionsView {
    pub language: Option<Seq<char>>,
    pub page_numbers: Seq<u32>,
    pub extra: Seq<(Seq<char>, JsonView)>,
}

impl View for OcrOptions {
    type V = OcrOptionsView;

    open spec fn view(&self) -> OcrOptionsView {
        OcrOptionsView {
            language: opt_text(self.language),
            page_numbers: self.page_numbers@,
            extra: fields_view(self.extra@),
        }
    }
}

impl Default for OcrOptions {
    fn default() -> (r: Self)
        ensures
            r@ == (OcrOptionsView { language: None, page_numbers: seq![], extra: seq![] }),
    {
        OcrOptions { language: None, page_numbers: Vec::new(), extra: Vec::new() }
    }
}

#[derive(Debug)]
pub struct ProviderOutput {
    pub markdown: String,
    pub confidence: Option<Confidence>,
    pub provider: String,
    pub metadata: Vec<(String, Json)>,
}

#[derive(Debug)]
pub struct ProviderError {
    pub code: &'static str,
    pub message: String,
    pub retryable: bool,
}

/// The mathematical counterpart of [`ProviderError`].
pub struct ProviderErrorView {
    pub code: Seq<char>,
    pub message: Seq<char>,
    pub retryable: bool,
}

impl View for ProviderError {
    type V = ProviderErrorView;

    open spec fn view(&self) -> ProviderErrorView {
        ProviderErrorView {
            code: self.code@,
            message: self.message@,
            retryable: self.retryable,
        }
    }
}

pub open spec fn provider_error(code: &str, message: Seq<char>, retryable: bool) -> ProviderErrorView {
    ProviderErrorView { code: code@, message, retryable }
}

impl ProviderError {
    pub fn new(code: &'static str, message: String, retryable: bool) -> (r: Self)
        ensures
            r@ == provider_error(code, message@, retryable),
    {
        ProviderError { code, message, retryable }
    }

    /// The error in words.
    pub fn message_text(&self) -> (r: String)
        ensures
            r@ == self@.message,
    {
        self.message.clone()
    }
}

} // verus!
