//! Document conversion by file category.
//!
//! The caller reads inputs, runs engines and calls providers; the functions here
//! decide what is accepted, what is done with it and what comes out.

use crate::document::names::{
    base_name, category_for, category_name, ext_category, ext_mime, extension, file_stem, mime_for,
    path_extension, path_stem, usable_name, Category,
};
use crate::document::provider::{
    OcrOptions, OcrOptionsView, ProviderError, ProviderErrorView, ProviderInput, ProviderInputView,
    ProviderOutput,
};
use crate::file_parser::error::{
    convert_error_code, convert_error_text, ConvertError, ConvertErrorView,
};
use crate::file_parser::format::{extension_format, Format};
use crate::file_parser::runtime::{starts_with_path, under_any};
use crate::ocr::provider::Confidence;
use crate::text::{
    blank, chars_of, copy_bytes, copy_opt, decimal, decode_lossy, decode_utf8_text, is_blank, join,
    joined, lossy_text, opt_text, push_decimal, texts, words, words_of,
};
use vstd::prelude::*;
use vstd::utf8::{decode_utf8, valid_utf8};

verus! {

broadcast use crate::text::lemma_texts_push;

// ---------------------------------------------------------------------------
// Types
// ---------------------------------------------------------------------------
#[derive(Debug)]
pub enum DocumentInput {
    Bytes { data: Vec<u8>, file_name: String },
    Path { path: String },
    Url { url: String },
}

#[derive(Debug)]
pub struct ConvertOptions {
    pub ocr_language: Option<String>,
    pub enable_vision: bool,
    pub ffmpeg_path: Option<String>,
}

impl Default for ConvertOptions {
    fn default() -> (r: Self)
        ensures
            r.ocr_language is None,
            !r.enable_vision,
            r.ffmpeg_path is None,
    {
        ConvertOptions { ocr_language: None, enable_vision: false, ffmpeg_path: None }
    }
}

#[derive(Debug)]
pub struct SupportedFormat {
    pub category: String,
    pub extensions: Vec<String>,
    pub requires_provider: bool,
}

#[derive(Debug)]
pub struct SourceMetadata {
    pub file_name: String,
    pub mime_type: String,
    pub size: u64,
    pub source_type: String,
    pub source_url: Option<String>,
}

#[derive(Debug)]
pub struct DocumentSection {
    pub title: Option<String>,
    pub markdown: String,
    pub page: Option<u32>,
}

#[derive(Debug)]
pub struct AssetDescriptor {
    pub id: String,
    pub mime_type: String,
    pub role: String,
    pub size: u64,
}

#[derive(Debug)]
pub struct ExtractionDecision {
    pub target: String,
    pub action: String,
    pub reason: String,
    pub confidence: Option<Confidence>,
}

/// The mathematical counterpart of [`ExtractionDecision`].
pub struct DecisionView {
    pub target: Seq<char>,
    pub action: Seq<char>,
    pub reason: Seq<char>,
    pub confidence: Option<Confidence>,
}

impl View for ExtractionDecision {
    type V = DecisionView;

    open spec fn view(&self) -> DecisionView {
        DecisionView {
            target: self.target@,
            action: self.action@,
            reason: self.reason@,
            confidence: self.confidence,
        }
    }
}

pub open spec fn decisions_view(all: Seq<ExtractionDecision>) -> Seq<DecisionView> {
    Seq::new(all.len(), |i: int| all[i]@)
}

#[derive(Debug)]
pub struct InspectionResult {
    pub source: SourceMetadata,
    pub format: String,
    pub supported: bool,
    pub requires_provider: bool,
}

/// What a PDF engine reports about the document as a whole.
#[derive(Debug)]
pub struct PdfMetadata {
    pub page_count: u32,
    pub pdf_type: String,
}

#[derive(Debug)]
pub struct ConvertResult {
    pub markdown: String,
    pub title: String,
    pub source: SourceMetadata,
    pub sections: Vec<DocumentSection>,
    pub assets: Vec<AssetDescriptor>,
    pub metadata: Option<PdfMetadata>,
    pub decisions: Vec<ExtractionDecision>,
    pub warnings: Vec<String>,
    pub duration_ms: u64,
}

#[derive(Debug)]
pub enum RuntimeError {
    InvalidInput(String),
    AccessDenied(String),
    Unsupported(String),
    ResourceLimit(String),
    ProviderRequired(&'static str),
    Provider(ProviderError),
    Io(String),
    Http(String),
    Conversion(ConvertError),
}

/// The mathematical counterpart of [`RuntimeError`].
pub enum RuntimeErrorView {
    InvalidInput(Seq<char>),
    AccessDenied(Seq<char>),
    Unsupported(Seq<char>),
    ResourceLimit(Seq<char>),
    ProviderRequired(Seq<char>),
    Provider(ProviderErrorView),
    Io(Seq<char>),
    Http(Seq<char>),
    Conversion(ConvertErrorView),
}

impl View for RuntimeError {
    type V = RuntimeErrorView;

    open spec fn view(&self) -> RuntimeErrorView {
        match *self {
            RuntimeError::InvalidInput(m) => RuntimeErrorView::InvalidInput(m@),
            RuntimeError::AccessDenied(m) => RuntimeErrorView::AccessDenied(m@),
            RuntimeError::Unsupported(m) => RuntimeErrorView::Unsupported(m@),
            RuntimeError::ResourceLimit(m) => RuntimeErrorView::ResourceLimit(m@),
            RuntimeError::ProviderRequired(kind) => RuntimeErrorView::ProviderRequired(kind@),
            RuntimeError::Provider(e) => RuntimeErrorView::Provider(e@),
            RuntimeError::Io(m) => RuntimeErrorView::Io(m@),
            RuntimeError::Http(m) => RuntimeErrorView::Http(m@),
            RuntimeError::Conversion(e) => RuntimeErrorView::Conversion(e@),
        }
    }
}

pub open spec fn error_code(e: RuntimeErrorView) -> Seq<char> {
    match e {
        RuntimeErrorView::InvalidInput(_) => "INVALID_INPUT"@,
        RuntimeErrorView::AccessDenied(_) => "ACCESS_DENIED"@,
        RuntimeErrorView::Unsupported(_) => "UNSUPPORTED"@,
        RuntimeErrorView::ResourceLimit(_) => "RESOURCE_LIMIT"@,
        RuntimeErrorView::ProviderRequired(_) => "PROVIDER_REQUIRED"@,
        RuntimeErrorView::Provider(e) => e.code,
        RuntimeErrorView::Io(_) => "IO_ERROR"@,
        RuntimeErrorView::Http(_) => "HTTP_ERROR"@,
        RuntimeErrorView::Conversion(e) => convert_error_code(e),
    }
}

pub open spec fn error_text(e: RuntimeErrorView) -> Seq<char> {
    match e {
        RuntimeErrorView::InvalidInput(m) => m,
        RuntimeErrorView::AccessDenied(m) => m,
        RuntimeErrorView::Unsupported(m) => m,
        RuntimeErrorView::ResourceLimit(m) => m,
        RuntimeErrorView::Http(m) => m,
        RuntimeErrorView::ProviderRequired(kind) => kind + " provider is required"@,
        RuntimeErrorView::Provider(e) => "provider failed: "@ + e.message,
        RuntimeErrorView::Io(m) => "I/O failed: "@ + m,
        RuntimeErrorView::Conversion(e) => "conversion failed: "@ + convert_error_text(e),
    }
}

impl RuntimeError {
    /// Stable error code for programmatic handling.
    pub fn code(&self) -> (r: &'static str)
        ensures
            r@ == error_code(self@),
    {
        match self {
            RuntimeError::InvalidInput(_) => "INVALID_INPUT",
            RuntimeError::AccessDenied(_) => "ACCESS_DENIED",
            RuntimeError::Unsupported(_) => "UNSUPPORTED",
            RuntimeError::ResourceLimit(_) => "RESOURCE_LIMIT",
            RuntimeError::ProviderRequired(_) => "PROVIDER_REQUIRED",
            RuntimeError::Provider(e) => e.code,
            RuntimeError::Io(_) => "IO_ERROR",
            RuntimeError::Http(_) => "HTTP_ERROR",
            RuntimeError::Conversion(e) => e.code(),
        }
    }

    /// The error in words.
    pub fn message(&self) -> (r: String)
        ensures
            r@ == error_text(self@),
    {
        let mut out = String::new();
        match self {
            RuntimeError::InvalidInput(m) => out.push_str(m.as_str()),
            RuntimeError::AccessDenied(m) => out.push_str(m.as_str()),
            RuntimeError::Unsupported(m) => out.push_str(m.as_str()),
            RuntimeError::ResourceLimit(m) => out.push_str(m.as_str()),
            RuntimeError::Http(m) => out.push_str(m.as_str()),
            RuntimeError::ProviderRequired(kind) => {
                out.push_str(kind);
                out.push_str(" provider is required");
            },
            RuntimeError::Provider(e) => {
                out.push_str("provider failed: ");
                out.push_str(e.message.as_str());
            },
            RuntimeError::Io(m) => {
                out.push_str("I/O failed: ");
                out.push_str(m.as_str());
            },
            RuntimeError::Conversion(e) => {
                out.push_str("conversion failed: ");
                out.push_str(e.message().as_str());
            },
        }
        assert(out@ =~= error_text(self@));
        out
    }
}

// ---------------------------------------------------------------------------
// Text and HTML
// ---------------------------------------------------------------------------
/// What is left of the first `n` characters when tags are blanked out, and
/// whether a tag is open.
pub open spec fn tags_blanked(s: Seq<char>, n: nat) -> (Seq<char>, bool)
    decreases n,
{
    if n == 0 {
        (seq![], false)
    } else {
        let (before, in_tag) = tags_blanked(s, (n - 1) as nat);
        let c = s[n - 1];
        if c == '<' {
            (before, true)
        } else if c == '>' {
            (before.push(' '), false)
        } else if !in_tag {
            (before.push(c), in_tag)
        } else {
            (before, in_tag)
        }
    }
}

/// The words of a page without its tags.
pub open spec fn page_text(html: Seq<char>) -> Seq<char> {
    joined(words(tags_blanked(html, html.len()).0), " "@)
}

pub fn html_to_markdown(html: &str) -> (r: String)
    ensures
        r@ == page_text(html@),
{
    let s = chars_of(html);
    let mut out: Vec<char> = Vec::new();
    let mut in_tag = false;
    for i in 0..s.len()
        invariant
            tags_blanked(s@, i as nat) == (out@, in_tag),
    {
        let c = s[i];
        if c == '<' {
            in_tag = true;
        } else if c == '>' {
            in_tag = false;
            out.push(' ');
        } else if !in_tag {
            out.push(c);
        }
    }
    join(&words_of(out.as_slice()), " ")
}

// ---------------------------------------------------------------------------
// Inputs
// ---------------------------------------------------------------------------
/// Keeps only the last component of a name, and rejects what names no file.
pub fn safe_file_name(name: &str) -> (r: Result<String, RuntimeError>)
    ensures
        match r {
            Ok(s) => usable_name(name@) == Some(s@),
            Err(e) => usable_name(name@) is None && e@ == RuntimeErrorView::InvalidInput(
                "invalid file name"@,
            ),
        },
{
    match base_name(name) {
        Some(n) => Ok(n),
        None => Err(RuntimeError::InvalidInput("invalid file name".to_owned())),
    }
}

/// A resolved input: its content and its description.
#[derive(Debug)]
pub struct ResolvedInput {
    pub bytes: Vec<u8>,
    pub file_name: String,
    pub metadata: SourceMetadata,
}

/// The description matches the content.
pub open spec fn resolved_as(
    r: ResolvedInput,
    bytes: Seq<u8>,
    file_name: Seq<char>,
    source_type: Seq<char>,
    source_url: Option<Seq<char>>,
) -> bool {
    &&& r.bytes@ == bytes
    &&& r.file_name@ == file_name
    &&& r.metadata.file_name@ == file_name
    &&& r.metadata.mime_type@ == ext_mime(path_extension(file_name))
    &&& r.metadata.size == bytes.len()
    &&& r.metadata.source_type@ == source_type
    &&& opt_text(r.metadata.source_url) == source_url
}

/// Converter configuration: sandbox roots, size limit, and which providers are
/// attached.
#[derive(Debug)]
pub struct DocumentRuntime {
    pub allowed_roots: Vec<String>,
    pub max_input_bytes: usize,
    pub has_ocr: bool,
    pub has_vision: bool,
    pub has_transcription: bool,
}

/// What comes in is accepted under its last name, if that is usable and it is not too large.
pub open spec fn resolves(
    runtime: DocumentRuntime,
    bytes: Seq<u8>,
    file_name: Seq<char>,
    source_type: Seq<char>,
    source_url: Option<Seq<char>>,
    r: Result<ResolvedInput, RuntimeError>,
) -> bool {
    match r {
        Ok(input) => usable_name(file_name) matches Some(name) && bytes.len()
            <= runtime.max_input_bytes && resolved_as(
            input,
            bytes,
            name,
            source_type,
            source_url,
        ),
        Err(e) => if usable_name(file_name) is None {
            e@ == RuntimeErrorView::InvalidInput("invalid file name"@)
        } else {
            bytes.len() > runtime.max_input_bytes && e@ == RuntimeErrorView::ResourceLimit(
                "input has "@ + decimal(bytes.len()) + " bytes; maximum is "@ + decimal(
                    runtime.max_input_bytes as nat,
                ),
            )
        },
    }
}

/// What is done with an input, by its kind.
pub open spec fn begins(
    runtime: DocumentRuntime,
    input: ResolvedInput,
    options: ConvertOptions,
    r: Result<Step, RuntimeError>,
) -> bool {
    match ext_category(path_extension(input.file_name@)) {
        Category::Text => if valid_utf8(input.bytes@) {
            r matches Ok(Step::Done(c)) && c@ == plain(decode_utf8(input.bytes@))
        } else {
            r matches Err(e) && e@ == RuntimeErrorView::InvalidInput(
                "text input is not valid UTF-8"@,
            )
        },
        Category::Html => r matches Ok(Step::Done(c)) && c@ == plain(
            page_text(lossy_text(input.bytes@)),
        ),
        Category::Image => if runtime.has_ocr {
            r matches Ok(Step::Recognize { input: i, options: o }) && i@ == provider_view(
                input,
            ) && o@ == (OcrOptionsView {
                language: opt_text(options.ocr_language),
                page_numbers: seq![],
                extra: seq![],
            })
        } else {
            r matches Err(e) && e@ == RuntimeErrorView::ProviderRequired("OCR"@)
        },
        Category::Audio | Category::Video => if runtime.has_transcription {
            r matches Ok(Step::Transcribe)
        } else {
            r matches Err(e) && e@ == RuntimeErrorView::ProviderRequired("transcription"@)
        },
        Category::Pdf => r matches Ok(Step::ExtractPdf),
        Category::Document => r matches Ok(Step::ParseDocument(f)) && f == extension_format(
            path_extension(input.file_name@),
        ),
        Category::Unsupported => r matches Err(e) && e@ == RuntimeErrorView::Unsupported(
            "unsupported file: "@ + input.file_name@,
        ),
    }
}

/// What is done with the text layer of a PDF.
pub open spec fn reads_pdf(
    runtime: DocumentRuntime,
    input: ResolvedInput,
    options: ConvertOptions,
    extraction: Result<PdfText, String>,
    r: Result<PdfStep, RuntimeError>,
) -> bool {
    match extraction {
        Err(m) => r matches Err(e) && e@ == RuntimeErrorView::Unsupported(m@),
        Ok(text) => if text.pages_needing_ocr@.len() == 0 {
            r matches Ok(PdfStep::Done(c)) && c@ == pdf_direct(text)
        } else if runtime.has_ocr {
            r matches Ok(PdfStep::Recognize { input: i, options: o, text: t }) && i@
                == provider_view(input) && o@ == (OcrOptionsView {
                language: opt_text(options.ocr_language),
                page_numbers: text.pages_needing_ocr@,
                extra: seq![],
            }) && t == text
        } else {
            r matches Err(e) && e@ == RuntimeErrorView::ProviderRequired("OCR"@)
        },
    }
}

impl DocumentRuntime {
    pub fn new() -> (r: Self)
        ensures
            r.allowed_roots@.len() == 0,
            r.max_input_bytes == 524_288_000,
            !r.has_ocr,
            !r.has_vision,
            !r.has_transcription,
    {
        DocumentRuntime {
            allowed_roots: Vec::new(),
            max_input_bytes: 500 * 1024 * 1024,
            has_ocr: false,
            has_vision: false,
            has_transcription: false,
        }
    }

    pub fn with_allowed_roots(self, roots: Vec<String>) -> (r: Self)
        ensures
            r == (DocumentRuntime { allowed_roots: roots, ..self }),
    {
        DocumentRuntime { allowed_roots: roots, ..self }
    }

    pub fn with_max_input_bytes(self, value: usize) -> (r: Self)
        ensures
            r == (DocumentRuntime { max_input_bytes: if value < 1 { 1 } else { value }, ..self }),
    {
        DocumentRuntime { max_input_bytes: if value < 1 { 1 } else { value }, ..self }
    }

    pub fn with_ocr(self) -> (r: Self)
        ensures
            r == (DocumentRuntime { has_ocr: true, ..self }),
    {
        DocumentRuntime { has_ocr: true, ..self }
    }

    pub fn with_vision(self) -> (r: Self)
        ensures
            r == (DocumentRuntime { has_vision: true, ..self }),
    {
        DocumentRuntime { has_vision: true, ..self }
    }

    pub fn with_transcription(self) -> (r: Self)
        ensures
            r == (DocumentRuntime { has_transcription: true, ..self }),
    {
        DocumentRuntime { has_transcription: true, ..self }
    }

    /// Checks that a canonical path lies under a configured root. Without roots
    /// no path is allowed.
    pub fn authorize_path(&self, canonical: &str) -> (r: Result<(), RuntimeError>)
        ensures
            match r {
                Ok(_) => under_any(canonical@, texts(self.allowed_roots@)),
                Err(e) => !under_any(canonical@, texts(self.allowed_roots@)) && e@
                    == RuntimeErrorView::AccessDenied("path is outside configured roots"@),
            },
    {
        let ghost all = texts(self.allowed_roots@);
        for i in 0..self.allowed_roots.len()
            invariant
                all == texts(self.allowed_roots@),
                forall|j: int|
                    0 <= j < i ==> !crate::file_parser::runtime::path_under(
                        canonical@,
                        #[trigger] all[j],
                    ),
        {
            assert(all[i as int] == self.allowed_roots@[i as int]@);
            if starts_with_path(canonical, self.allowed_roots[i].as_str()) {
                return Ok(());
            }
        }
        Err(RuntimeError::AccessDenied("path is outside configured roots".to_owned()))
    }

    /// Accepts an input that was read: its name is cleaned and its size checked.
    pub fn resolve(
        &self,
        bytes: Vec<u8>,
        file_name: &str,
        source_type: &str,
        source_url: Option<String>,
    ) -> (r: Result<ResolvedInput, RuntimeError>)
        ensures
            resolves(*self, bytes@, file_name@, source_type@, opt_text(source_url), r),
    {
        match safe_file_name(file_name) {
            Ok(name) => {
                if bytes.len() > self.max_input_bytes {
                    let mut m = "input has ".to_owned();
                    push_decimal(&mut m, bytes.len() as u64);
                    m.push_str(" bytes; maximum is ");
                    push_decimal(&mut m, self.max_input_bytes as u64);
                    return Err(RuntimeError::ResourceLimit(m));
                }
                Ok(
                    ResolvedInput {
                        metadata: SourceMetadata {
                            file_name: name.clone(),
                            mime_type: mime_for(name.as_str()).to_owned(),
                            size: bytes.len() as u64,
                            source_type: source_type.to_owned(),
                            source_url,
                        },
                        bytes,
                        file_name: name,
                    },
                )
            },
            Err(e) => Err(e),
        }
    }

    /// Decides how a resolved input is converted.
    pub fn begin(&self, input: &ResolvedInput, options: &ConvertOptions) -> (r: Result<
        Step,
        RuntimeError,
    >)
        ensures
            begins(*self, *input, *options, r),
    {
        let category = category_for(input.file_name.as_str());
        match category {
            Category::Text => match decode_utf8_text(input.bytes.as_slice()) {
                Some(text) => Ok(Step::Done(plain_content(text))),
                None => Err(RuntimeError::InvalidInput("text input is not valid UTF-8".to_owned())),
            },
            Category::Html => {
                let html = decode_lossy(input.bytes.as_slice());
                Ok(Step::Done(plain_content(html_to_markdown(html.as_str()))))
            },
            Category::Image => {
                if self.has_ocr {
                    let empty: OcrOptions = OcrOptions::default();
                    Ok(
                        Step::Recognize {
                            input: provider_input(input),
                            options: OcrOptions {
                                language: copy_opt(&options.ocr_language),
                                page_numbers: empty.page_numbers,
                                extra: empty.extra,
                            },
                        },
                    )
                } else {
                    Err(RuntimeError::ProviderRequired("OCR"))
                }
            },
            Category::Audio | Category::Video => {
                if self.has_transcription {
                    Ok(Step::Transcribe)
                } else {
                    Err(RuntimeError::ProviderRequired("transcription"))
                }
            },
            Category::Pdf => Ok(Step::ExtractPdf),
            Category::Document => {
                let ext = extension(input.file_name.as_str());
                proof {
                    lemma_lower_path_extension(input.file_name@);
                }
                Ok(Step::ParseDocument(Format::from_extension(ext.as_str())))
            },
            Category::Unsupported => {
                let mut m = "unsupported file: ".to_owned();
                m.push_str(input.file_name.as_str());
                Err(RuntimeError::Unsupported(m))
            },
        }
    }

    /// Decides what to do with an extracted PDF.
    pub fn after_pdf(
        &self,
        input: &ResolvedInput,
        options: &ConvertOptions,
        extraction: Result<PdfText, String>,
    ) -> (r: Result<PdfStep, RuntimeError>)
        ensures
            reads_pdf(*self, *input, *options, extraction, r),
    {
        match extraction {
            Err(m) => Err(RuntimeError::Unsupported(m)),
            Ok(text) => {
                if text.pages_needing_ocr.len() == 0 {
                    let d = decision("pdf", "extract", "usable text layer", Some(text.confidence));
                    Ok(
                        PdfStep::Done(
                            Content {
                                markdown: match &text.markdown {
                                    Some(m) => m.clone(),
                                    None => String::new(),
                                },
                                decisions: one_decision(d),
                                metadata: Some(
                                    PdfMetadata {
                                        page_count: text.page_count,
                                        pdf_type: text.pdf_type,
                                    },
                                ),
                            },
                        ),
                    )
                } else if self.has_ocr {
                    let mut pages: Vec<u32> = Vec::new();
                    for i in 0..text.pages_needing_ocr.len()
                        invariant
                            pages@ == text.pages_needing_ocr@.take(i as int),
                    {
                        pages.push(text.pages_needing_ocr[i]);
                        assert(pages@ =~= text.pages_needing_ocr@.take(i + 1));
                    }
                    assert(pages@ =~= text.pages_needing_ocr@);
                    Ok(
                        PdfStep::Recognize {
                            input: provider_input(input),
                            options: OcrOptions {
                                language: copy_opt(&options.ocr_language),
                                page_numbers: pages,
                                extra: Vec::new(),
                            },
                            text,
                        },
                    )
                } else {
                    Err(RuntimeError::ProviderRequired("OCR"))
                }
            },
        }
    }
}

proof fn lemma_lower_path_extension(name: Seq<char>)
    ensures
        crate::text::lower(path_extension(name)) == path_extension(name),
{
    assert(crate::text::lower(path_extension(name)) =~= path_extension(name));
}

// ---------------------------------------------------------------------------
// Content
// ---------------------------------------------------------------------------
/// The content of a conversion, before it is described.
#[derive(Debug)]
pub struct Content {
    pub markdown: String,
    pub decisions: Vec<ExtractionDecision>,
    pub metadata: Option<PdfMetadata>,
}

/// The mathematical counterpart of [`Content`].
pub struct ContentView {
    pub markdown: Seq<char>,
    pub decisions: Seq<DecisionView>,
    pub metadata: Option<(u32, Seq<char>)>,
}

impl View for Content {
    type V = ContentView;

    open spec fn view(&self) -> ContentView {
        ContentView {
            markdown: self.markdown@,
            decisions: decisions_view(self.decisions@),
            metadata: match self.metadata {
                Some(m) => Some((m.page_count, m.pdf_type@)),
                None => None,
            },
        }
    }
}

/// What to do next with a resolved input.
#[derive(Debug)]
pub enum Step {
    /// Call the OCR provider; its answer goes to [`convert_image`].
    Recognize { input: ProviderInput, options: OcrOptions },
    /// Normalize the audio track and call the transcription provider; its answer
    /// goes to [`convert_media`].
    Transcribe,
    /// Extract the text layer; it goes to [`DocumentRuntime::after_pdf`].
    ExtractPdf,
    /// Parse the document; its markdown goes to [`convert_parsed`].
    ParseDocument(Option<Format>),
    /// The conversion is complete.
    Done(Content),
}

/// What a PDF engine extracts.
#[derive(Debug)]
pub struct PdfText {
    pub markdown: Option<String>,
    pub page_count: u32,
    pub pdf_type: String,
    pub confidence: Confidence,
    pub pages_needing_ocr: Vec<u32>,
}

/// What to do next with an extracted PDF.
#[derive(Debug)]
pub enum PdfStep {
    Done(Content),
    /// Call the OCR provider; its answer goes to [`convert_pages`].
    Recognize { input: ProviderInput, options: OcrOptions, text: PdfText },
}

pub open spec fn plain(markdown: Seq<char>) -> ContentView {
    ContentView { markdown, decisions: seq![], metadata: None }
}

pub open spec fn pdf_direct(text: PdfText) -> ContentView {
    ContentView {
        markdown: match text.markdown {
            Some(m) => m@,
            None => seq![],
        },
        decisions: seq![
            DecisionView {
                target: "pdf"@,
                action: "extract"@,
                reason: "usable text layer"@,
                confidence: Some(text.confidence),
            },
        ],
        metadata: Some((text.page_count, text.pdf_type@)),
    }
}

pub open spec fn provider_view(input: ResolvedInput) -> ProviderInputView {
    ProviderInputView {
        bytes: input.bytes@,
        file_name: input.file_name@,
        mime_type: input.metadata.mime_type@,
    }
}

fn provider_input(input: &ResolvedInput) -> (r: ProviderInput)
    ensures
        r@ == provider_view(*input),
{
    ProviderInput {
        bytes: copy_bytes(input.bytes.as_slice()),
        file_name: input.file_name.clone(),
        mime_type: input.metadata.mime_type.clone(),
    }
}

fn plain_content(markdown: String) -> (r: Content)
    ensures
        r@ == plain(markdown@),
{
    let decisions: Vec<ExtractionDecision> = Vec::new();
    assert(decisions_view(decisions@) =~= seq![]);
    Content { markdown, decisions, metadata: None }
}

fn decision(
    target: &str,
    action: &str,
    reason: &str,
    confidence: Option<Confidence>,
) -> (r: ExtractionDecision)
    ensures
        r@ == (DecisionView { target: target@, action: action@, reason: reason@, confidence }),
{
    ExtractionDecision {
        target: target.to_owned(),
        action: action.to_owned(),
        reason: reason.to_owned(),
        confidence,
    }
}

fn one_decision(d: ExtractionDecision) -> (r: Vec<ExtractionDecision>)
    ensures
        decisions_view(r@) == seq![d@],
{
    let mut out: Vec<ExtractionDecision> = Vec::new();
    out.push(d);
    assert(decisions_view(out@) =~= seq![d@]);
    out
}

/// The content that a provider's answer stands for.
pub open spec fn provided(
    output: ProviderOutput,
    target: Seq<char>,
    action: Seq<char>,
    reason: Seq<char>,
) -> ContentView {
    ContentView {
        markdown: output.markdown@,
        decisions: seq![
            DecisionView { target, action, reason, confidence: output.confidence },
        ],
        metadata: None,
    }
}

fn convert_answer(
    file_name: &str,
    action: &str,
    reason: &str,
    answer: Result<ProviderOutput, ProviderError>,
) -> (r: Result<Content, RuntimeError>)
    ensures
        match (r, answer) {
            (Ok(c), Ok(output)) => c@ == provided(output, file_name@, action@, reason@),
            (Err(e), Err(cause)) => e@ == RuntimeErrorView::Provider(cause@),
            _ => false,
        },
{
    match answer {
        Ok(output) => Ok(
            Content {
                decisions: one_decision(decision(file_name, action, reason, output.confidence)),
                markdown: output.markdown,
                metadata: None,
            },
        ),
        Err(cause) => Err(RuntimeError::Provider(cause)),
    }
}

/// Turns the OCR provider's answer for a standalone image into content.
pub fn convert_image(file_name: &str, answer: Result<ProviderOutput, ProviderError>) -> (r: Result<
    Content,
    RuntimeError,
>)
    ensures
        match (r, answer) {
            (Ok(c), Ok(output)) => c@ == provided(
                output,
                file_name@,
                "ocr"@,
                "standalone image"@,
            ),
            (Err(e), Err(cause)) => e@ == RuntimeErrorView::Provider(cause@),
            _ => false,
        },
{
    convert_answer(file_name, "ocr", "standalone image", answer)
}

/// Turns the transcription provider's answer into content.
pub fn convert_media(file_name: &str, answer: Result<ProviderOutput, ProviderError>) -> (r: Result<
    Content,
    RuntimeError,
>)
    ensures
        match (r, answer) {
            (Ok(c), Ok(output)) => c@ == provided(
                output,
                file_name@,
                "transcribe"@,
                "media audio track"@,
            ),
            (Err(e), Err(cause)) => e@ == RuntimeErrorView::Provider(cause@),
            _ => false,
        },
{
    convert_answer(file_name, "transcribe", "media audio track", answer)
}

pub open spec fn page_decisions(pages: Seq<u32>, confidence: Option<Confidence>) -> Seq<DecisionView> {
    Seq::new(
        pages.len(),
        |i: int|
            DecisionView {
                target: "page:"@ + decimal(pages[i] as nat),
                action: "ocr"@,
                reason: "missing or unreliable text layer"@,
                confidence,
            },
    )
}

/// The content of a PDF some of whose pages were recognized: the recognized text
/// supplements the text layer, or stands alone when there is none.
pub open spec fn supplemented(text: PdfText, output: ProviderOutput) -> ContentView {
    let direct = match text.markdown {
        Some(m) => m@,
        None => seq![],
    };
    ContentView {
        markdown: if is_blank(direct) {
            output.markdown@
        } else {
            direct + "\n\n## OCR 补充\n\n"@ + output.markdown@
        },
        decisions: page_decisions(text.pages_needing_ocr@, output.confidence),
        metadata: Some((text.page_count, text.pdf_type@)),
    }
}

/// Turns the OCR provider's answer for the pages of a PDF into content.
pub fn convert_pages(text: PdfText, answer: Result<ProviderOutput, ProviderError>) -> (r: Result<
    Content,
    RuntimeError,
>)
    ensures
        match (r, answer) {
            (Ok(c), Ok(output)) => c@ == supplemented(text, output),
            (Err(e), Err(cause)) => e@ == RuntimeErrorView::Provider(cause@),
            _ => false,
        },
{
    match answer {
        Ok(output) => {
            let ghost all = page_decisions(text.pages_needing_ocr@, output.confidence);
            let mut decisions: Vec<ExtractionDecision> = Vec::new();
            assert(decisions_view(decisions@) =~= all.take(0));
            for i in 0..text.pages_needing_ocr.len()
                invariant
                    all == page_decisions(text.pages_needing_ocr@, output.confidence),
                    decisions_view(decisions@) == all.take(i as int),
            {
                let mut target = "page:".to_owned();
                push_decimal(&mut target, text.pages_needing_ocr[i] as u64);
                let d = decision(
                    target.as_str(),
                    "ocr",
                    "missing or unreliable text layer",
                    output.confidence,
                );
                assert(d@ == all[i as int]);
                let ghost before = decisions@;
                decisions.push(d);
                assert(decisions_view(decisions@) =~= decisions_view(before).push(d@));
                assert(decisions_view(decisions@) =~= all.take(i + 1));
            }
            assert(all.take(all.len() as int) =~= all);
            let mut markdown = String::new();
            if let Some(direct) = &text.markdown {
                if !blank(chars_of(direct.as_str()).as_slice()) {
                    markdown.push_str(direct.as_str());
                    markdown.push_str("\n\n## OCR 补充\n\n");
                }
            }
            markdown.push_str(output.markdown.as_str());
            assert(markdown@ =~= supplemented(text, output).markdown);
            Ok(
                Content {
                    markdown,
                    decisions,
                    metadata: Some(
                        PdfMetadata { page_count: text.page_count, pdf_type: text.pdf_type },
                    ),
                },
            )
        },
        Err(cause) => Err(RuntimeError::Provider(cause)),
    }
}

/// Turns the markdown of a parsed document into content.
pub fn convert_parsed(parsed: Result<String, ConvertError>) -> (r: Result<Content, RuntimeError>)
    ensures
        match (r, parsed) {
            (Ok(c), Ok(markdown)) => c@ == plain(markdown@),
            (Err(e), Err(cause)) => e@ == RuntimeErrorView::Conversion(cause@),
            _ => false,
        },
{
    match parsed {
        Ok(markdown) => Ok(plain_content(markdown)),
        Err(cause) => Err(RuntimeError::Conversion(cause)),
    }
}

/// The result has the content, and says where it came from.
pub open spec fn finishes(content: Content, input: ResolvedInput, duration_ms: u64, r: ConvertResult) -> bool {
    &&& r.markdown@ == content.markdown@
    &&& r.title@ == path_stem(input.file_name@)
    &&& r.source == input.metadata
    &&& r.sections@.len() == 1
    &&& opt_text(r.sections@[0].title) == Some(r.title@)
    &&& r.sections@[0].markdown@ == content.markdown@
    &&& r.sections@[0].page is None
    &&& r.assets@.len() == 0
    &&& r.metadata == content.metadata
    &&& r.decisions == content.decisions
    &&& r.duration_ms == duration_ms
    &&& texts(r.warnings@) == if is_blank(content.markdown@) {
        seq!["conversion produced empty Markdown"@]
    } else {
        seq![]
    }
}

/// Describes a completed conversion.
pub fn finish(content: Content, input: ResolvedInput, duration_ms: u64) -> (r: ConvertResult)
    ensures
        finishes(content, input, duration_ms, r),
{
    let mut warnings: Vec<String> = Vec::new();
    if blank(chars_of(content.markdown.as_str()).as_slice()) {
        warnings.push("conversion produced empty Markdown".to_owned());
        assert(texts(warnings@) =~= seq!["conversion produced empty Markdown"@]);
    } else {
        assert(texts(warnings@) =~= seq![]);
    }
    let title = file_stem(input.file_name.as_str());
    let mut sections: Vec<DocumentSection> = Vec::new();
    sections.push(
        DocumentSection {
            title: Some(title.clone()),
            markdown: content.markdown.clone(),
            page: None,
        },
    );
    ConvertResult {
        markdown: content.markdown,
        title,
        source: input.metadata,
        sections,
        assets: Vec::new(),
        metadata: content.metadata,
        decisions: content.decisions,
        warnings,
        duration_ms,
    }
}

/// What an input is, without a look inside.
pub open spec fn inspects(input: ResolvedInput, r: InspectionResult) -> bool {
    let category = ext_category(path_extension(input.file_name@));
    &&& r.source == input.metadata
    &&& r.format@ == category_name(category)
    &&& r.supported == (category != Category::Unsupported)
    &&& r.requires_provider == needs_provider(category)
}

/// Describes a resolved input without converting it.
pub fn inspect(input: ResolvedInput) -> (r: InspectionResult)
    ensures
        inspects(input, r),
{
    let category = category_for(input.file_name.as_str());
    InspectionResult {
        source: input.metadata,
        format: category.name().to_owned(),
        supported: category != Category::Unsupported,
        requires_provider: category == Category::Image || category == Category::Audio || category
            == Category::Video,
    }
}

// ---------------------------------------------------------------------------
// Supported formats
// ---------------------------------------------------------------------------
pub open spec fn strs_view(words: Seq<&str>) -> Seq<Seq<char>> {
    Seq::new(words.len(), |i: int| words[i]@)
}

/// The group lists these extensions under this category.
pub open spec fn is_group(
    g: SupportedFormat,
    category: &str,
    extensions: Seq<&str>,
    requires_provider: bool,
) -> bool {
    &&& g.category@ == category@
    &&& texts(g.extensions@) == strs_view(extensions)
    &&& g.requires_provider == requires_provider
}

/// The extensions of the group at a place of the inventory.
pub open spec fn group_extensions(g: int) -> Seq<&'static str> {
    if g == 0 {
        seq!["txt", "md", "mdx", "json", "yaml", "yml", "toml", "xml", "rs", "ts", "js", "py"]
    } else if g == 1 {
        seq![
            "doc",
            "docx",
            "docm",
            "ppt",
            "pptx",
            "pptm",
            "xls",
            "xlsx",
            "xlsm",
            "xlsb",
            "odt",
            "ods",
            "odp",
            "rtf",
            "epub",
            "csv",
        ]
    } else if g == 2 {
        seq!["pdf"]
    } else if g == 3 {
        seq!["png", "jpg", "jpeg", "webp", "gif", "bmp", "tif", "tiff"]
    } else if g == 4 {
        seq!["mp3", "wav", "m4a", "aac", "flac", "ogg", "opus"]
    } else {
        seq!["mp4", "webm", "mov", "mkv"]
    }
}

/// The category of the group at a place of the inventory.
pub open spec fn group_category(g: int) -> Category {
    if g == 0 {
        Category::Text
    } else if g == 1 {
        Category::Document
    } else if g == 2 {
        Category::Pdf
    } else if g == 3 {
        Category::Image
    } else if g == 4 {
        Category::Audio
    } else {
        Category::Video
    }
}

/// Whether files of a category are read by a provider.
pub open spec fn needs_provider(c: Category) -> bool {
    c == Category::Image || c == Category::Audio || c == Category::Video
}

/// The inventory: text, documents, PDF, images, audio and video, in this order.
pub open spec fn is_inventory(groups: Seq<SupportedFormat>) -> bool {
    &&& groups.len() == 6
    &&& is_group(groups[0], "text", group_extensions(0), false)
    &&& is_group(groups[1], "document", group_extensions(1), false)
    &&& is_group(groups[2], "pdf", group_extensions(2), false)
    &&& is_group(groups[3], "image", group_extensions(3), true)
    &&& is_group(groups[4], "audio", group_extensions(4), true)
    &&& is_group(groups[5], "video", group_extensions(5), true)
}

pub fn format_group(category: &str, extensions: &[&str], requires_provider: bool) -> (r: SupportedFormat)
    ensures
        is_group(r, category, extensions@, requires_provider),
{
    let mut out: Vec<String> = Vec::new();
    let ghost all = strs_view(extensions@);
    assert(texts(out@) =~= all.take(0));
    for i in 0..extensions.len()
        invariant
            all == strs_view(extensions@),
            texts(out@) == all.take(i as int),
    {
        out.push(extensions[i].to_owned());
        assert(texts(out@) =~= all.take(i + 1));
    }
    assert(all.take(all.len() as int) =~= all);
    SupportedFormat { category: category.to_owned(), extensions: out, requires_provider }
}

/// The extension inventory by category.
pub fn get_supported_formats() -> (r: Vec<SupportedFormat>)
    ensures
        is_inventory(r@),
{
    let text: [&'static str; 12] = [
        "txt", "md", "mdx", "json", "yaml", "yml", "toml", "xml", "rs", "ts", "js", "py",
    ];
    let document: [&'static str; 16] = [
        "doc", "docx", "docm", "ppt", "pptx", "pptm", "xls", "xlsx", "xlsm", "xlsb", "odt", "ods",
        "odp", "rtf", "epub", "csv",
    ];
    let pdf: [&'static str; 1] = ["pdf"];
    let image: [&'static str; 8] = ["png", "jpg", "jpeg", "webp", "gif", "bmp", "tif", "tiff"];
    let audio: [&'static str; 7] = ["mp3", "wav", "m4a", "aac", "flac", "ogg", "opus"];
    let video: [&'static str; 4] = ["mp4", "webm", "mov", "mkv"];
    assert(text@ =~= seq![
        "txt",
        "md",
        "mdx",
        "json",
        "yaml",
        "yml",
        "toml",
        "xml",
        "rs",
        "ts",
        "js",
        "py",
    ]);
    assert(document@ =~= seq![
        "doc",
        "docx",
        "docm",
        "ppt",
        "pptx",
        "pptm",
        "xls",
        "xlsx",
        "xlsm",
        "xlsb",
        "odt",
        "ods",
        "odp",
        "rtf",
        "epub",
        "csv",
    ]);
    assert(pdf@ =~= seq!["pdf"]);
    assert(image@ =~= seq!["png", "jpg", "jpeg", "webp", "gif", "bmp", "tif", "tiff"]);
    assert(audio@ =~= seq!["mp3", "wav", "m4a", "aac", "flac", "ogg", "opus"]);
    assert(video@ =~= seq!["mp4", "webm", "mov", "mkv"]);
    let mut out: Vec<SupportedFormat> = Vec::new();
    out.push(format_group("text", text.as_slice(), false));
    out.push(format_group("document", document.as_slice(), false));
    out.push(format_group("pdf", pdf.as_slice(), false));
    out.push(format_group("image", image.as_slice(), true));
    out.push(format_group("audio", audio.as_slice(), true));
    out.push(format_group("video", video.as_slice(), true));
    out
}

} // verus!
