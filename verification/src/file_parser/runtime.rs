//! Conversion runtime: format routing, plain-text passthrough, OCR fallback for
//! scanned pages and standalone images, size limits, and path sandboxing.
//!
//! A conversion is driven from outside: [`FileParser::accept`] and
//! [`FileParser::begin`] say what to do next, the caller does it (reads a file,
//! runs an extraction engine, calls an OCR provider) and hands the result to the
//! function for it, until there is a [`Converted`] or an error.

use crate::file_parser::error::{list_pages, page_list, ConvertError, ConvertErrorView};
use crate::file_parser::figures::{
    assembled, asset_name, closes_quote, figure_marker, figures, fold_figures,
    law_marker_links_to_its_asset, law_recognized_text_is_quoted, Folding,
};
use crate::file_parser::format::{
    extension, extension_format, extension_mime, extension_of, extension_text_kind, file_stem,
    image_extension, is_image_extension, mime_for, stem, text_kind, Format, TextKind,
};
use crate::file_parser::html::{html_markdown, to_markdown};
use crate::file_parser::pdf::{PdfImage, PdfMarkdown};
use crate::ocr::image_pass::{
    ensure_image_extension, image_name, is_quote, sha256, ImageOcrConfig, ImageOutcomes, OcrImage,
    OcrOutcome,
};
use crate::ocr::provider::{Confidence, OcrCall, OcrError, OcrOptions, OcrOutput, OcrRequest};
use crate::render::markdown::{document_text, document_to_markdown_with_ocr, outcome_texts};
use crate::render::model::{AssetId, Document};
use crate::text::{
    blank, chars_of, contains_char, copy_bytes, copy_opt, decimal, decode_utf8_text, ends_with, find,
    has_sub, is_blank, lemma_find_sub, lines, lossy_text, matches_at, opt_text, push_chars,
    push_decimal, same_text, split, split_of, starts_with, string_of, texts,
};
use std::collections::HashMap;
use vstd::prelude::*;
use vstd::slice::slice_subrange;
use vstd::utf8::{decode_utf8, valid_utf8};

verus! {

broadcast use {crate::text::lemma_texts_push, vstd::std_specs::hash::group_hash_axioms};

// ---------------------------------------------------------------------------
// Types
// ---------------------------------------------------------------------------
/// What to convert: raw bytes, or a path inside the configured roots.
#[derive(Debug)]
pub enum DocumentInput {
    /// In-memory file content plus its name.
    Bytes { data: Vec<u8>, file_name: String },
    /// Path to a file on disk.
    Path { path: String },
}

/// Per-call conversion options; unset fields fall back to the defaults.
#[derive(Debug)]
pub struct ConvertOptions {
    /// Language hint forwarded to the OCR provider.
    pub ocr_language: Option<String>,
    /// Per-call override of the maximum accepted input size.
    pub max_input_bytes: Option<u64>,
    /// Per-call override of the path sandbox roots.
    pub allowed_roots: Vec<String>,
    /// OCR the images embedded in documents. Defaults to true; a no-op without a
    /// configured provider.
    pub image_ocr: Option<bool>,
    /// Long-side cap (px) for images sent to OCR. Defaults to 1024.
    pub image_ocr_max_dimension: Option<u32>,
    /// Maximum concurrent per-image OCR requests. Defaults to 4.
    pub image_ocr_concurrency: Option<usize>,
    /// Per-image OCR budget in milliseconds. Defaults to 60000.
    pub image_ocr_timeout_ms: Option<u64>,
}

impl Default for ConvertOptions {
    fn default() -> (r: Self)
        ensures
            r.ocr_language is None,
            r.max_input_bytes is None,
            r.allowed_roots@.len() == 0,
            r.image_ocr is None,
            r.image_ocr_max_dimension is None,
            r.image_ocr_concurrency is None,
            r.image_ocr_timeout_ms is None,
    {
        ConvertOptions {
            ocr_language: None,
            max_input_bytes: None,
            allowed_roots: Vec::new(),
            image_ocr: None,
            image_ocr_max_dimension: None,
            image_ocr_concurrency: None,
            image_ocr_timeout_ms: None,
        }
    }
}

pub open spec fn or_else<T>(value: Option<T>, fallback: T) -> T {
    match value {
        Some(v) => v,
        None => fallback,
    }
}

/// The knobs of the embedded-image pass that the options stand for.
pub open spec fn image_config(options: ConvertOptions) -> ImageOcrConfig {
    let concurrency = or_else(options.image_ocr_concurrency, 4);
    ImageOcrConfig {
        enabled: or_else(options.image_ocr, true),
        max_dimension: or_else(options.image_ocr_max_dimension, 1024),
        concurrency: if concurrency < 1 {
            1
        } else if concurrency > 64 {
            64
        } else {
            concurrency
        },
        timeout_ms: or_else(options.image_ocr_timeout_ms, 60_000),
    }
}

impl ConvertOptions {
    pub fn image_config(&self) -> (r: ImageOcrConfig)
        ensures
            r == image_config(*self),
    {
        let concurrency: usize = match self.image_ocr_concurrency {
            Some(n) => n,
            None => 4,
        };
        ImageOcrConfig {
            enabled: match self.image_ocr {
                Some(b) => b,
                None => true,
            },
            max_dimension: match self.image_ocr_max_dimension {
                Some(n) => n,
                None => 1024,
            },
            concurrency: if concurrency < 1 {
                1
            } else if concurrency > 64 {
                64
            } else {
                concurrency
            },
            timeout_ms: match self.image_ocr_timeout_ms {
                Some(n) => n,
                None => 60_000,
            },
        }
    }
}

/// One routing decision made while converting. Decisions form an audit trail of
/// how the markdown was produced.
#[derive(Debug)]
pub struct Decision {
    /// What was routed: a file name or `page:N` for a PDF page.
    pub target: String,
    /// What was done: `extract` or `ocr`.
    pub action: String,
    /// Why this route was taken.
    pub reason: String,
    /// Provider-reported confidence, when available.
    pub confidence: Option<Confidence>,
}

/// The mathematical counterpart of [`Decision`].
pub struct DecisionView {
    pub target: Seq<char>,
    pub action: Seq<char>,
    pub reason: Seq<char>,
    pub confidence: Option<Confidence>,
}

impl View for Decision {
    type V = DecisionView;

    open spec fn view(&self) -> DecisionView {
        DecisionView {
            target: self.target@,
            action: self.action@,
            reason: self.reason@,
            confidence: self.confidence,
        }
    }
}

pub open spec fn decisions_view(all: Seq<Decision>) -> Seq<DecisionView> {
    Seq::new(all.len(), |i: int| all[i]@)
}

pub open spec fn extracted(target: Seq<char>, reason: Seq<char>) -> DecisionView {
    DecisionView { target, action: "extract"@, reason, confidence: None }
}

pub open spec fn recognized(
    target: Seq<char>,
    reason: Seq<char>,
    confidence: Option<Confidence>,
) -> DecisionView {
    DecisionView { target, action: "ocr"@, reason, confidence }
}

/// Describes the input as received, before conversion.
#[derive(Debug)]
pub struct SourceMetadata {
    /// File name as provided (bytes) or as resolved (path).
    pub file_name: String,
    /// MIME type inferred from the extension.
    pub mime_type: String,
    /// Input size in bytes.
    pub size: u64,
    /// `bytes` or `path`.
    pub source_type: String,
}

/// A binary asset emitted alongside the markdown. `name` matches the URL used by
/// the corresponding markdown marker.
#[derive(Debug)]
pub struct ImageAsset {
    pub name: String,
    pub mime_type: String,
    /// File bytes, base64-encoded for JSON transport.
    pub data_base64: String,
}

/// The mathematical counterpart of [`ImageAsset`].
pub struct ImageAssetView {
    pub name: Seq<char>,
    pub mime_type: Seq<char>,
    pub data_base64: Seq<char>,
}

impl View for ImageAsset {
    type V = ImageAssetView;

    open spec fn view(&self) -> ImageAssetView {
        ImageAssetView {
            name: self.name@,
            mime_type: self.mime_type@,
            data_base64: self.data_base64@,
        }
    }
}

pub open spec fn images_view(all: Seq<ImageAsset>) -> Seq<ImageAssetView> {
    Seq::new(all.len(), |i: int| all[i]@)
}

/// Extra conversion metadata.
#[derive(Clone, Copy, Debug, PartialEq, Eq, Structural)]
pub struct ConversionMetadata {
    /// Number of pages, on the PDF OCR path.
    pub page_count: Option<u32>,
}

/// The content of a conversion, before it is described.
#[derive(Debug)]
pub struct Converted {
    pub markdown: String,
    pub decisions: Vec<Decision>,
    pub metadata: ConversionMetadata,
    pub images: Vec<ImageAsset>,
}

/// The mathematical counterpart of [`Converted`].
pub struct ConvertedView {
    pub markdown: Seq<char>,
    pub decisions: Seq<DecisionView>,
    pub page_count: Option<u32>,
    pub images: Seq<ImageAssetView>,
}

impl View for Converted {
    type V = ConvertedView;

    open spec fn view(&self) -> ConvertedView {
        ConvertedView {
            markdown: self.markdown@,
            decisions: decisions_view(self.decisions@),
            page_count: self.metadata.page_count,
            images: images_view(self.images@),
        }
    }
}

/// Successful conversion output.
#[derive(Debug)]
pub struct ConvertResult {
    /// The converted GitHub-Flavored Markdown.
    pub markdown: String,
    /// File name without extension; a display title.
    pub title: String,
    pub source: SourceMetadata,
    pub metadata: ConversionMetadata,
    /// Routing decisions taken during conversion.
    pub decisions: Vec<Decision>,
    /// Non-fatal issues.
    pub warnings: Vec<String>,
    /// Binary assets referenced by the markdown, if any.
    pub images: Vec<ImageAsset>,
    /// Wall-clock conversion time in milliseconds.
    pub duration_ms: u64,
}

/// Runtime-level failure, with a stable machine-readable code.
#[derive(Debug)]
pub enum RuntimeError {
    /// The input name or shape is unusable.
    InvalidInput(String),
    /// A path input resolved outside the configured roots.
    AccessDenied(String),
    /// No parser and no fallback applies to this input.
    Unsupported(String),
    /// The input exceeds the configured size limit.
    ResourceLimit(String),
    /// OCR is needed but no provider is configured. `pages` lists the page
    /// numbers, empty for images.
    OcrRequired { pages: Vec<u32> },
    /// The OCR provider failed.
    Ocr { code: &'static str, message: String },
    /// The format parser rejected the document.
    Conversion(ConvertError),
    /// Filesystem error.
    Io(String),
}

/// The mathematical counterpart of [`RuntimeError`].
pub enum RuntimeErrorView {
    InvalidInput(Seq<char>),
    AccessDenied(Seq<char>),
    Unsupported(Seq<char>),
    ResourceLimit(Seq<char>),
    OcrRequired { pages: Seq<u32> },
    Ocr { code: Seq<char>, message: Seq<char> },
    Conversion(ConvertErrorView),
    Io(Seq<char>),
}

impl View for RuntimeError {
    type V = RuntimeErrorView;

    open spec fn view(&self) -> RuntimeErrorView {
        match *self {
            RuntimeError::InvalidInput(m) => RuntimeErrorView::InvalidInput(m@),
            RuntimeError::AccessDenied(m) => RuntimeErrorView::AccessDenied(m@),
            RuntimeError::Unsupported(m) => RuntimeErrorView::Unsupported(m@),
            RuntimeError::ResourceLimit(m) => RuntimeErrorView::ResourceLimit(m@),
            RuntimeError::OcrRequired { pages } => RuntimeErrorView::OcrRequired { pages: pages@ },
            RuntimeError::Ocr { code, message } => RuntimeErrorView::Ocr {
                code: code@,
                message: message@,
            },
            RuntimeError::Conversion(e) => RuntimeErrorView::Conversion(e@),
            RuntimeError::Io(m) => RuntimeErrorView::Io(m@),
        }
    }
}

pub open spec fn error_code(e: RuntimeErrorView) -> Seq<char> {
    match e {
        RuntimeErrorView::InvalidInput(_) => "INVALID_INPUT"@,
        RuntimeErrorView::AccessDenied(_) => "ACCESS_DENIED"@,
        RuntimeErrorView::Unsupported(_) => "UNSUPPORTED"@,
        RuntimeErrorView::ResourceLimit(_) => "RESOURCE_LIMIT"@,
        RuntimeErrorView::OcrRequired { .. } => "OCR_REQUIRED"@,
        RuntimeErrorView::Ocr { .. } => "OCR_ERROR"@,
        RuntimeErrorView::Conversion(_) => "CONVERSION_ERROR"@,
        RuntimeErrorView::Io(_) => "IO_ERROR"@,
    }
}

pub open spec fn error_text(e: RuntimeErrorView) -> Seq<char> {
    match e {
        RuntimeErrorView::InvalidInput(m) => m,
        RuntimeErrorView::AccessDenied(m) => m,
        RuntimeErrorView::Unsupported(m) => m,
        RuntimeErrorView::ResourceLimit(m) => m,
        RuntimeErrorView::OcrRequired { pages } => if pages.len() == 0 {
            "OCR is required for this input"@
        } else if pages.len() == 1 {
            "OCR is required for page "@ + decimal(pages[0] as nat)
        } else {
            "OCR is required for pages "@ + page_list(pages)
        },
        RuntimeErrorView::Ocr { code, message } => "ocr provider error ("@ + code + "): "@ + message,
        RuntimeErrorView::Conversion(e) => "conversion failed: "@
            + crate::file_parser::error::convert_error_text(e),
        RuntimeErrorView::Io(m) => "io error: "@ + m,
    }
}

/// What a parser's rejection means for the conversion.
pub open spec fn from_convert_error(e: ConvertErrorView) -> RuntimeErrorView {
    match e {
        ConvertErrorView::NeedsOcr { pages, page_count } => RuntimeErrorView::OcrRequired { pages },
        other => RuntimeErrorView::Conversion(other),
    }
}

impl RuntimeError {
    /// Stable error code for programmatic handling.
    pub fn code(&self) -> (r: &'static str)
        ensures
            r@ == error_code(self@),
    {
        match self {
            RuntimeError::InvalidInput(_) => "INVALID_INPUT",
            RuntimeError::AccessDenied(_) => "ACCESS_DENIED",
            RuntimeError::Unsupported(_) => "UNSUPPORTED",
            RuntimeError::ResourceLimit(_) => "RESOURCE_LIMIT",
            RuntimeError::OcrRequired { .. } => "OCR_REQUIRED",
            RuntimeError::Ocr { .. } => "OCR_ERROR",
            RuntimeError::Conversion(_) => "CONVERSION_ERROR",
            RuntimeError::Io(_) => "IO_ERROR",
        }
    }

    /// The error in words.
    pub fn message(&self) -> (r: String)
        ensures
            r@ == error_text(self@),
    {
        let mut out = String::new();
        match self {
            RuntimeError::InvalidInput(m) => out.push_str(m.as_str()),
            RuntimeError::AccessDenied(m) => out.push_str(m.as_str()),
            RuntimeError::Unsupported(m) => out.push_str(m.as_str()),
            RuntimeError::ResourceLimit(m) => out.push_str(m.as_str()),
            RuntimeError::OcrRequired { pages } => {
                if pages.len() == 0 {
                    out.push_str("OCR is required for this input");
                } else if pages.len() == 1 {
                    out.push_str("OCR is required for page ");
                    push_decimal(&mut out, pages[0] as u64);
                } else {
                    out.push_str("OCR is required for pages ");
                    out.push_str(list_pages(pages).as_str());
                }
            },
            RuntimeError::Ocr { code, message } => {
                out.push_str("ocr provider error (");
                out.push_str(code);
                out.push_str("): ");
                out.push_str(message.as_str());
            },
            RuntimeError::Conversion(e) => {
                out.push_str("conversion failed: ");
                out.push_str(e.message().as_str());
            },
            RuntimeError::Io(m) => {
                out.push_str("io error: ");
                out.push_str(m.as_str());
            },
        }
        assert(out@ =~= error_text(self@));
        out
    }

    pub fn from_convert(error: ConvertError) -> (r: Self)
        ensures
            r@ == from_convert_error(error@),
    {
        match error {
            ConvertError::NeedsOcr { pages, page_count: _ } => RuntimeError::OcrRequired { pages },
            other => RuntimeError::Conversion(other),
        }
    }

    pub fn from_ocr(error: OcrError) -> (r: Self)
        ensures
            r@ == (RuntimeErrorView::Ocr { code: error.code@, message: error.message@ }),
    {
        RuntimeError::Ocr { code: error.code, message: error.message }
    }
}

// ---------------------------------------------------------------------------
// Names and paths
// ---------------------------------------------------------------------------
/// Why a file name is unusable, if it is.
pub open spec fn name_error(name: Seq<char>) -> Option<RuntimeErrorView> {
    if name.len() == 0 {
        Some(RuntimeErrorView::InvalidInput("file name is empty"@))
    } else if name.contains('/') || name.contains('\\') || has_sub(name, ".."@) {
        Some(RuntimeErrorView::InvalidInput("unsafe file name: "@ + name))
    } else {
        None
    }
}

/// Accepts a plain file name: not empty, no path separators, no `..`.
pub fn safe_file_name(name: &str) -> (r: Result<String, RuntimeError>)
    ensures
        match r {
            Ok(s) => name_error(name@) is None && s@ == name@,
            Err(e) => name_error(name@) == Some(e@),
        },
{
    let chars = chars_of(name);
    if chars.len() == 0 {
        return Err(RuntimeError::InvalidInput("file name is empty".to_owned()));
    }
    let dots = find(chars.as_slice(), chars_of("..").as_slice());
    proof {
        lemma_find_sub(name@, ".."@);
    }
    if contains_char(chars.as_slice(), '/') || contains_char(chars.as_slice(), '\\')
        || dots.is_some() {
        let mut m = "unsafe file name: ".to_owned();
        m.push_str(name);
        return Err(RuntimeError::InvalidInput(m));
    }
    Ok(name.to_owned())
}

/// The components among the first `n` parts of a path. Empty parts and `.` are
/// skipped, except for a `.` that a relative path starts with.
pub open spec fn components_upto(parts: Seq<Seq<char>>, absolute: bool, n: nat) -> Seq<Seq<char>>
    decreases n,
{
    if n == 0 {
        if absolute { seq!["/"@] } else { seq![] }
    } else {
        let before = components_upto(parts, absolute, (n - 1) as nat);
        let part = parts[n - 1];
        if part.len() == 0 || (part == "."@ && (absolute || n > 1)) {
            before
        } else {
            before.push(part)
        }
    }
}

/// The components of a path; an absolute one starts with `/`.
pub open spec fn components(path: Seq<char>) -> Seq<Seq<char>> {
    let parts = split(path, '/');
    components_upto(parts, path.len() > 0 && path[0] == '/', parts.len())
}

pub open spec fn is_prefix(a: Seq<Seq<char>>, b: Seq<Seq<char>>) -> bool {
    a.len() <= b.len() && a == b.take(a.len() as int)
}

/// `path` lies under `root`: its components start with those of `root`.
pub open spec fn path_under(path: Seq<char>, root: Seq<char>) -> bool {
    is_prefix(components(root), components(path))
}

pub open spec fn under_any(path: Seq<char>, roots: Seq<Seq<char>>) -> bool {
    exists|i: int| 0 <= i < roots.len() && path_under(path, #[trigger] roots[i])
}

pub fn path_components(path: &str) -> (r: Vec<String>)
    ensures
        texts(r@) == components(path@),
{
    let chars = chars_of(path);
    let absolute = chars.len() > 0 && chars[0] == '/';
    let parts = split_of(chars.as_slice(), '/');
    let ghost source = split(path@, '/');
    let mut out: Vec<String> = Vec::new();
    if absolute {
        out.push("/".to_owned());
    }
    assert(texts(out@) =~= components_upto(source, absolute, 0));
    for i in 0..parts.len()
        invariant
            texts(parts@) == source,
            texts(out@) == components_upto(source, absolute, i as nat),
    {
        assert(source[i as int] == parts@[i as int]@);
        let part = parts[i].as_str();
        if !(chars_of(part).len() == 0 || (same_text(part, ".") && (absolute || i > 0))) {
            out.push(parts[i].clone());
        }
    }
    out
}

/// Whether `path` lies under `root`, component by component.
pub fn starts_with_path(path: &str, root: &str) -> (b: bool)
    ensures
        b == path_under(path@, root@),
{
    let p = path_components(path);
    let r = path_components(root);
    if r.len() > p.len() {
        return false;
    }
    let ghost ps = texts(p@);
    let ghost rs = texts(r@);
    for i in 0..r.len()
        invariant
            ps == texts(p@),
            rs == texts(r@),
            ps == components(path@),
            rs == components(root@),
            r.len() <= p.len(),
            forall|j: int| 0 <= j < i ==> #[trigger] rs[j] == ps[j],
    {
        assert(rs[i as int] == r@[i as int]@);
        assert(ps[i as int] == p@[i as int]@);
        if !same_text(r[i].as_str(), p[i].as_str()) {
            assert(rs[i as int] != ps.take(rs.len() as int)[i as int]);
            return false;
        }
    }
    assert(rs =~= ps.take(rs.len() as int));
    true
}

// ---------------------------------------------------------------------------
// Plain text
// ---------------------------------------------------------------------------
pub open spec fn without_bom(s: Seq<char>) -> Seq<char> {
    if s.len() > 0 && s[0] == '\u{FEFF}' { s.drop_first() } else { s }
}

pub open spec fn without_final_feed(s: Seq<char>) -> Seq<char> {
    if s.len() > 0 && s.last() == '\n' { s.drop_last() } else { s }
}

/// A text file as markdown; code is fenced.
pub open spec fn text_markdown(s: Seq<char>, kind: TextKind) -> Seq<char> {
    match kind {
        TextKind::Markdown | TextKind::Plain => without_bom(s),
        TextKind::Code(language) => "```"@ + language@ + "\n"@ + without_final_feed(without_bom(s))
            + "\n```\n"@,
    }
}

pub fn text_to_markdown(bytes: &[u8], kind: TextKind) -> (r: Result<String, RuntimeError>)
    ensures
        match r {
            Ok(s) => valid_utf8(bytes@) && s@ == text_markdown(decode_utf8(bytes@), kind),
            Err(e) => !valid_utf8(bytes@) && e@ == RuntimeErrorView::Unsupported(
                "text input is not valid UTF-8"@,
            ),
        },
{
    match decode_utf8_text(bytes) {
        Some(decoded) => {
            let chars = chars_of(decoded.as_str());
            let start: usize = if chars.len() > 0 && chars[0] == '\u{FEFF}' { 1 } else { 0 };
            let text = slice_subrange(chars.as_slice(), start, chars.len());
            assert(text@ =~= without_bom(decoded@));
            match kind {
                TextKind::Markdown => Ok(string_of(text)),
                TextKind::Plain => Ok(string_of(text)),
                TextKind::Code(language) => {
                    let end: usize = if text.len() > 0 && text[text.len() - 1] == '\n' {
                        text.len() - 1
                    } else {
                        text.len()
                    };
                    let body = slice_subrange(text, 0, end);
                    assert(body@ =~= without_final_feed(text@));
                    let mut out = "```".to_owned();
                    out.push_str(language);
                    out.push_str("\n");
                    push_chars(&mut out, body);
                    out.push_str("\n```\n");
                    Ok(out)
                },
            }
        },
        None => Err(RuntimeError::Unsupported("text input is not valid UTF-8".to_owned())),
    }
}

// ---------------------------------------------------------------------------
// PDF
// ---------------------------------------------------------------------------
/// What `base64` makes of bytes, in the standard alphabet with padding.
pub uninterp spec fn base64_text(bytes: Seq<u8>) -> Seq<char>;

/// Calls `base64::engine::general_purpose::STANDARD.encode`.
///
/// Taken on trust: the text depends on the bytes alone.
#[verifier::external_body]
pub(crate) fn encode_base64(bytes: &[u8]) -> (r: String)
    ensures
        r@ == base64_text(bytes@),
{
    base64::Engine::encode(&base64::engine::general_purpose::STANDARD, bytes)
}

/// The assets of a PDF: names are prefixed with the stem of the document, so
/// that several PDFs converted into one directory do not collide.
pub open spec fn pdf_assets(images: Seq<PdfImage>, name_stem: Seq<char>) -> Seq<ImageAssetView> {
    Seq::new(
        images.len(),
        |i: int|
            ImageAssetView {
                name: asset_name(name_stem, images[i].name@),
                mime_type: images[i].mime_type@,
                data_base64: base64_text(images[i].data@),
            },
    )
}

pub open spec fn folding(
    output: PdfMarkdown,
    outcomes: Map<Seq<u8>, Option<Seq<char>>>,
    file_name: Seq<char>,
) -> Folding {
    Folding {
        markdown: output.markdown@,
        images: output.images@,
        outcomes,
        name_stem: stem(file_name),
    }
}

/// The conversion of a PDF with a text layer.
pub open spec fn pdf_converted(
    output: PdfMarkdown,
    outcomes: Map<Seq<u8>, Option<Seq<char>>>,
    file_name: Seq<char>,
) -> ConvertedView {
    ConvertedView {
        markdown: assembled(folding(output, outcomes, file_name).pieces()),
        decisions: seq![extracted(file_name, "pdf-inspector text layer"@)],
        page_count: None,
        images: pdf_assets(output.images@, stem(file_name)),
    }
}

fn new_decision(
    target: String,
    action: &str,
    reason: &str,
    confidence: Option<Confidence>,
) -> (r: Decision)
    ensures
        r@ == (DecisionView { target: target@, action: action@, reason: reason@, confidence }),
{
    Decision { target, action: action.to_owned(), reason: reason.to_owned(), confidence }
}

fn one_decision(d: Decision) -> (r: Vec<Decision>)
    ensures
        decisions_view(r@) == seq![d@],
{
    let mut out: Vec<Decision> = Vec::new();
    out.push(d);
    assert(decisions_view(out@) =~= seq![d@]);
    out
}

fn no_images() -> (r: Vec<ImageAsset>)
    ensures
        images_view(r@) == Seq::<ImageAssetView>::empty(),
{
    let out: Vec<ImageAsset> = Vec::new();
    assert(images_view(out@) =~= Seq::empty());
    out
}

fn encode_assets(images: &Vec<PdfImage>, name_stem: &str) -> (r: Vec<ImageAsset>)
    ensures
        images_view(r@) == pdf_assets(images@, name_stem@),
{
    let mut out: Vec<ImageAsset> = Vec::new();
    let ghost all = pdf_assets(images@, name_stem@);
    assert(images_view(out@) =~= all.take(0));
    for i in 0..images.len()
        invariant
            all == pdf_assets(images@, name_stem@),
            images_view(out@) == all.take(i as int),
    {
        let mut name = name_stem.to_owned();
        name.push_str("-");
        name.push_str(images[i].name.as_str());
        let asset = ImageAsset {
            name,
            mime_type: images[i].mime_type.clone(),
            data_base64: encode_base64(images[i].data.as_slice()),
        };
        let ghost before = out@;
        out.push(asset);
        assert(asset@ == all[i as int]);
        assert(images_view(out@) =~= images_view(before).push(asset@));
        assert(images_view(out@) =~= all.take(i + 1));
    }
    assert(all.take(all.len() as int) =~= all);
    out
}

/// Folds what was recognized into the markdown of a PDF and names its assets.
pub fn convert_pdf(output: &PdfMarkdown, outcomes: &ImageOutcomes, file_name: &str) -> (r: Converted)
    ensures
        r@ == pdf_converted(*output, outcomes@, file_name@),
{
    let name_stem = file_stem(file_name);
    Converted {
        markdown: fold_figures(
            output.markdown.as_str(),
            &output.images,
            outcomes,
            name_stem.as_str(),
        ),
        decisions: one_decision(
            new_decision(file_name.to_owned(), "extract", "pdf-inspector text layer", None),
        ),
        metadata: ConversionMetadata { page_count: None },
        images: encode_assets(&output.images, name_stem.as_str()),
    }
}

/// Wherever recognized text stands in the markdown of a PDF, it is a block of its
/// own: a blank line in front, every line quoted, and a blank line or the end behind.
pub proof fn law_pdf_quotes_recognized_text(
    output: PdfMarkdown,
    outcomes: Map<Seq<u8>, Option<Seq<char>>>,
    file_name: Seq<char>,
    p: int,
)
    requires
        0 <= p < folding(output, outcomes, file_name).pieces().len(),
        folding(output, outcomes, file_name).pieces()[p] is Recognized,
    ensures
        ({
            let pieces = folding(output, outcomes, file_name).pieces();
            let before = assembled(pieces.take(p));
            let block = pieces[p].text();
            let behind = assembled(pieces.skip(p + 1));
            &&& pdf_converted(output, outcomes, file_name).markdown == before + block + behind
            &&& ends_with(before, "\n\n"@)
            &&& forall|i: int|
                0 <= i < lines(block).len() ==> (#[trigger] lines(block)[i] == ">"@ || starts_with(
                    lines(block)[i],
                    "> "@,
                ))
            &&& closes_quote(behind)
        }),
{
    let fold = folding(output, outcomes, file_name);
    law_recognized_text_is_quoted(fold, p);
    let block = fold.pieces()[p].text();
    assert forall|i: int| 0 <= i < lines(block).len() implies (#[trigger] lines(block)[i] == ">"@
        || starts_with(lines(block)[i], "> "@)) by {
        assert(is_quote(lines(block)[i]));
    }
}

/// The name of an asset is the link of each marker of its image, and the marker
/// keeps its number.
pub proof fn law_asset_names_are_marker_links(
    output: PdfMarkdown,
    outcomes: Map<Seq<u8>, Option<Seq<char>>>,
    file_name: Seq<char>,
    j: int,
)
    requires
        0 <= j < figures(output.markdown@, 0, output.images@).len(),
    ensures
        ({
            let f = figures(output.markdown@, 0, output.images@)[j];
            let converted = pdf_converted(output, outcomes, file_name);
            &&& f.image < converted.images.len()
            &&& has_sub(
                converted.markdown,
                figure_marker(f.label, converted.images[f.image as int].name),
            )
        }),
{
    let fold = folding(output, outcomes, file_name);
    law_marker_links_to_its_asset(fold, j);
}

/// The figures of a PDF, as they go to OCR.
pub open spec fn image_matches(target: OcrImage, name: Seq<char>, mime: Seq<char>, bytes: Seq<u8>) -> bool {
    target.bytes@ == bytes && target.file_name@ == image_name(name, mime)
}

pub fn pdf_targets(images: &Vec<PdfImage>) -> (r: Vec<OcrImage>)
    ensures
        r@.len() == images@.len(),
        forall|i: int|
            0 <= i < r@.len() ==> image_matches(
                #[trigger] r@[i],
                images@[i].name@,
                images@[i].mime_type@,
                images@[i].data@,
            ),
{
    let mut out: Vec<OcrImage> = Vec::new();
    for i in 0..images.len()
        invariant
            out@.len() == i,
            forall|k: int|
                0 <= k < i ==> image_matches(
                    #[trigger] out@[k],
                    images@[k].name@,
                    images@[k].mime_type@,
                    images@[k].data@,
                ),
    {
        out.push(
            OcrImage {
                bytes: copy_bytes(images[i].data.as_slice()),
                file_name: ensure_image_extension(
                    images[i].name.as_str(),
                    images[i].mime_type.as_str(),
                ),
            },
        );
    }
    out
}

// ---------------------------------------------------------------------------
// OCR fallbacks
// ---------------------------------------------------------------------------
pub open spec fn page_decisions(pages: Seq<u32>, confidence: Option<Confidence>) -> Seq<DecisionView> {
    Seq::new(
        pages.len(),
        |i: int|
            recognized(
                "page:"@ + decimal(pages[i] as nat),
                "missing or unreliable text layer"@,
                confidence,
            ),
    )
}

/// The conversion of a PDF whose pages were recognized.
pub open spec fn pages_converted(pages: Seq<u32>, page_count: u32, output: OcrOutput) -> ConvertedView {
    ConvertedView {
        markdown: if is_blank(output.markdown@) {
            seq![]
        } else {
            "## OCR 补充\n\n"@ + output.markdown@ + "\n"@
        },
        decisions: page_decisions(pages, output.confidence),
        page_count: Some(page_count),
        images: seq![],
    }
}

/// Turns the provider's answer for the pages of a PDF into a conversion.
pub fn convert_pages(pages: &Vec<u32>, page_count: u32, answer: Result<OcrOutput, OcrError>) -> (r:
    Result<Converted, RuntimeError>)
    ensures
        match (r, answer) {
            (Ok(c), Ok(output)) => c@ == pages_converted(pages@, page_count, output),
            (Err(e), Err(cause)) => e@ == (RuntimeErrorView::Ocr {
                code: cause.code@,
                message: cause.message@,
            }),
            _ => false,
        },
{
    match answer {
        Ok(output) => {
            let mut decisions: Vec<Decision> = Vec::new();
            let ghost all = page_decisions(pages@, output.confidence);
            assert(decisions_view(decisions@) =~= all.take(0));
            for i in 0..pages.len()
                invariant
                    all == page_decisions(pages@, output.confidence),
                    decisions_view(decisions@) == all.take(i as int),
            {
                let mut target = "page:".to_owned();
                push_decimal(&mut target, pages[i] as u64);
                let d = new_decision(
                    target,
                    "ocr",
                    "missing or unreliable text layer",
                    output.confidence,
                );
                assert(d@ == all[i as int]);
                let ghost before = decisions@;
                decisions.push(d);
                assert(decisions_view(decisions@) =~= decisions_view(before).push(d@));
                assert(decisions_view(decisions@) =~= all.take(i + 1));
            }
            assert(all.take(all.len() as int) =~= all);
            let mut markdown = String::new();
            if !blank(chars_of(output.markdown.as_str()).as_slice()) {
                markdown.push_str("## OCR 补充\n\n");
                markdown.push_str(output.markdown.as_str());
                markdown.push_str("\n");
            }
            assert(markdown@ =~= pages_converted(pages@, page_count, output).markdown);
            Ok(
                Converted {
                    markdown,
                    decisions,
                    metadata: ConversionMetadata { page_count: Some(page_count) },
                    images: no_images(),
                },
            )
        },
        Err(cause) => Err(RuntimeError::from_ocr(cause)),
    }
}

/// The conversion of a recognized standalone image.
pub open spec fn image_converted(file_name: Seq<char>, output: OcrOutput) -> ConvertedView {
    ConvertedView {
        markdown: output.markdown@,
        decisions: seq![recognized(file_name, "standalone image"@, output.confidence)],
        page_count: None,
        images: seq![],
    }
}

/// Turns the provider's answer for a standalone image into a conversion.
pub fn convert_image(file_name: &str, answer: Result<OcrOutput, OcrError>) -> (r: Result<
    Converted,
    RuntimeError,
>)
    ensures
        match (r, answer) {
            (Ok(c), Ok(output)) => c@ == image_converted(file_name@, output),
            (Err(e), Err(cause)) => e@ == (RuntimeErrorView::Ocr {
                code: cause.code@,
                message: cause.message@,
            }),
            _ => false,
        },
{
    match answer {
        Ok(output) => Ok(
            Converted {
                decisions: one_decision(
                    new_decision(
                        file_name.to_owned(),
                        "ocr",
                        "standalone image",
                        output.confidence,
                    ),
                ),
                markdown: output.markdown,
                metadata: ConversionMetadata { page_count: None },
                images: no_images(),
            },
        ),
        Err(cause) => Err(RuntimeError::from_ocr(cause)),
    }
}

// ---------------------------------------------------------------------------
// Documents
// ---------------------------------------------------------------------------
pub open spec fn is_image_asset(media_type: Seq<char>) -> bool {
    starts_with(media_type, "image/"@)
}

/// The places of the image assets among the first `n`.
pub open spec fn image_assets(doc: Document, n: nat) -> Seq<int>
    decreases n,
{
    if n == 0 {
        seq![]
    } else {
        let before = image_assets(doc, (n - 1) as nat);
        if is_image_asset(doc.assets@[n - 1].media_type@) { before.push(n - 1) } else { before }
    }
}

pub open spec fn target_of(target: OcrImage, doc: Document, place: int) -> bool {
    0 <= place < doc.assets@.len() && image_matches(
        target,
        doc.assets@[place].origin_part@,
        doc.assets@[place].media_type@,
        doc.assets@[place].bytes@,
    )
}

/// The targets are the image assets, in order.
pub open spec fn targets_of(targets: Seq<OcrImage>, doc: Document, places: Seq<int>) -> bool {
    &&& targets.len() == places.len()
    &&& forall|k: int|
        0 <= k < targets.len() ==> target_of(#[trigger] targets[k], doc, places[k])
}

/// The image assets of a document, as they go to OCR.
pub fn document_targets(doc: &Document) -> (r: Vec<OcrImage>)
    ensures
        targets_of(r@, *doc, image_assets(*doc, doc.assets@.len())),
{
    let mut out: Vec<OcrImage> = Vec::new();
    let prefix = chars_of("image/");
    for i in 0..doc.assets.len()
        invariant
            prefix@ == "image/"@,
            targets_of(out@, *doc, image_assets(*doc, i as nat)),
    {
        let asset = &doc.assets[i];
        let media = chars_of(asset.media_type.as_str());
        let ghost earlier = image_assets(*doc, i as nat);
        let ghost here = is_image_asset(asset.media_type@);
        assert(image_assets(*doc, (i + 1) as nat) == if here {
            earlier.push(i as int)
        } else {
            earlier
        });
        if matches_at(media.as_slice(), prefix.as_slice(), 0) {
            let ghost before = out@;
            out.push(
                OcrImage {
                    bytes: copy_bytes(asset.bytes.as_slice()),
                    file_name: ensure_image_extension(
                        asset.origin_part.as_str(),
                        asset.media_type.as_str(),
                    ),
                },
            );
            proof {
                let places = image_assets(*doc, (i + 1) as nat);
                assert forall|k: int| 0 <= k < out@.len() implies target_of(
                    #[trigger] out@[k],
                    *doc,
                    places[k],
                ) by {
                    if k < before.len() {
                        assert(out@[k] == before[k]);
                    }
                }
            }
        }
    }
    out
}

/// The texts of the outcomes by asset id: each asset whose content has an
/// outcome; a later asset with the same id wins.
pub open spec fn asset_texts(
    doc: Document,
    outcomes: Map<Seq<u8>, Option<Seq<char>>>,
    n: nat,
) -> Map<AssetId, Option<Seq<char>>>
    decreases n,
{
    if n == 0 {
        Map::empty()
    } else {
        let before = asset_texts(doc, outcomes, (n - 1) as nat);
        let asset = doc.assets@[n - 1];
        let hash = sha256(asset.bytes@);
        if outcomes.dom().contains(hash) { before.insert(asset.id, outcomes[hash]) } else { before }
    }
}

/// Keys the outcomes by asset id for the markdown renderer.
pub fn key_outcomes(doc: &Document, outcomes: &ImageOutcomes) -> (r: HashMap<AssetId, OcrOutcome>)
    ensures
        outcome_texts(r@) == asset_texts(*doc, outcomes@, doc.assets@.len()),
{
    let mut out: HashMap<AssetId, OcrOutcome> = HashMap::new();
    assert(outcome_texts(out@) =~= Map::empty());
    for i in 0..doc.assets.len()
        invariant
            outcome_texts(out@) == asset_texts(*doc, outcomes@, i as nat),
    {
        let asset = &doc.assets[i];
        if let Some(outcome) = outcomes.lookup(asset.bytes.as_slice()) {
            let ghost before = out@;
            out.insert(asset.id, outcome);
            assert(outcome_texts(out@) =~= outcome_texts(before).insert(
                asset.id,
                outcome.text(),
            ));
        }
    }
    out
}

/// The conversion of a parsed document.
pub open spec fn document_converted(markdown: Seq<char>, file_name: Seq<char>) -> ConvertedView {
    ConvertedView {
        markdown,
        decisions: seq![extracted(file_name, "document model parse"@)],
        page_count: None,
        images: seq![],
    }
}

/// Renders a parsed document with what was recognized in its images.
pub fn convert_document(doc: &Document, outcomes: &ImageOutcomes, file_name: &str) -> (r: Converted)
    ensures
        r@ == document_converted(
            document_text(*doc, asset_texts(*doc, outcomes@, doc.assets@.len())),
            file_name@,
        ),
{
    let ocr = key_outcomes(doc, outcomes);
    let markdown = document_to_markdown_with_ocr(doc, &ocr);
    Converted {
        markdown,
        decisions: one_decision(
            new_decision(file_name.to_owned(), "extract", "document model parse", None),
        ),
        metadata: ConversionMetadata { page_count: None },
        images: no_images(),
    }
}

// ---------------------------------------------------------------------------
// Routing
// ---------------------------------------------------------------------------
/// How an input is converted.
#[derive(Clone, Copy, Debug)]
pub enum Route {
    Pdf,
    Html,
    Document(Format),
    Image,
    Text(TextKind),
}

/// By content-detected format first, then by extension: documents to their
/// parser, images to OCR, text files to passthrough.
pub open spec fn routed(detected: Option<Format>, file_name: Seq<char>) -> Option<Route> {
    let ext = extension(file_name);
    let format = match detected {
        Some(f) => Some(f),
        None => extension_format(ext),
    };
    match format {
        Some(Format::Pdf) => Some(Route::Pdf),
        Some(Format::Html) => Some(Route::Html),
        Some(f) => Some(Route::Document(f)),
        None => if image_extension(ext) {
            Some(Route::Image)
        } else {
            match extension_text_kind(ext) {
                Some(kind) => Some(Route::Text(kind)),
                None => None,
            }
        },
    }
}

pub fn route(detected: Option<Format>, file_name: &str) -> (r: Option<Route>)
    ensures
        r == routed(detected, file_name@),
{
    let format = match detected {
        Some(f) => Some(f),
        None => {
            let ext = extension_of(file_name);
            proof {
                lemma_lower_twice(crate::file_parser::format::raw_extension(file_name@));
            }
            Format::from_extension(ext.as_str())
        },
    };
    match format {
        Some(f) => {
            if f == Format::Pdf {
                Some(Route::Pdf)
            } else if f == Format::Html {
                Some(Route::Html)
            } else {
                Some(Route::Document(f))
            }
        },
        None => {
            if is_image_extension(file_name) {
                Some(Route::Image)
            } else {
                match text_kind(file_name) {
                    Some(kind) => Some(Route::Text(kind)),
                    None => None,
                }
            }
        },
    }
}

proof fn lemma_lower_twice(s: Seq<char>)
    ensures
        crate::text::lower(crate::text::lower(s)) == crate::text::lower(s),
{
    assert(crate::text::lower(crate::text::lower(s)) =~= crate::text::lower(s));
}

/// Reusable converter: sandbox roots, size limit, and whether an OCR provider is
/// attached.
#[derive(Debug)]
pub struct FileParser {
    pub allowed_roots: Vec<String>,
    pub max_input_bytes: u64,
    pub has_ocr: bool,
}

/// What to do next with an admitted input.
#[derive(Debug)]
pub enum Step {
    /// Extract the text layer and hand it to [`FileParser::after_pdf`].
    ExtractPdf,
    /// Parse the document; its images go to OCR, then to [`convert_document`].
    ParseDocument(Format),
    /// Call the provider and hand its answer to [`convert_image`].
    RecognizeImage(OcrCall),
    /// The conversion is complete.
    Done(Converted),
}

/// What to do next with an extracted PDF.
#[derive(Debug)]
pub enum PdfStep {
    /// Recognize the figures, then call [`convert_pdf`].
    RecognizeFigures(PdfMarkdown),
    /// Call the provider and hand its answer to [`convert_pages`].
    RecognizePages { call: OcrCall, pages: Vec<u32>, page_count: u32 },
}

pub open spec fn html_converted(bytes: Seq<u8>, file_name: Seq<char>) -> ConvertedView {
    ConvertedView {
        markdown: html_markdown(lossy_text(bytes), stem(file_name)).push('\n'),
        decisions: seq![extracted(file_name, "html tag conversion"@)],
        page_count: None,
        images: seq![],
    }
}

pub open spec fn text_converted(bytes: Seq<u8>, kind: TextKind, file_name: Seq<char>) -> ConvertedView {
    ConvertedView {
        markdown: text_markdown(decode_utf8(bytes), kind),
        decisions: seq![extracted(file_name, "plain text passthrough"@)],
        page_count: None,
        images: seq![],
    }
}

pub open spec fn effective_roots(parser: FileParser, options: ConvertOptions) -> Seq<Seq<char>> {
    if options.allowed_roots@.len() == 0 {
        texts(parser.allowed_roots@)
    } else {
        texts(options.allowed_roots@)
    }
}

pub open spec fn effective_max(parser: FileParser, options: ConvertOptions) -> u64 {
    or_else(options.max_input_bytes, parser.max_input_bytes)
}

/// The input is larger than allowed.
pub open spec fn size_error(size: u64, max: u64) -> RuntimeErrorView {
    RuntimeErrorView::ResourceLimit(
        "input has "@ + decimal(size as nat) + " bytes; maximum is "@ + decimal(max as nat),
    )
}

/// What is done with a file, by what it is.
pub open spec fn begins(
    parser: FileParser,
    options: ConvertOptions,
    file_name: Seq<char>,
    bytes: Seq<u8>,
    detected: Option<Format>,
    r: Result<Step, RuntimeError>,
) -> bool {
    match routed(detected, file_name) {
        Some(Route::Pdf) => r == Ok::<Step, RuntimeError>(Step::ExtractPdf),
        Some(Route::Document(f)) => r == Ok::<Step, RuntimeError>(Step::ParseDocument(f)),
        Some(Route::Html) => r matches Ok(Step::Done(c)) && c@ == html_converted(
            bytes,
            file_name,
        ),
        Some(Route::Image) => if parser.has_ocr {
            r matches Ok(Step::RecognizeImage(call)) && call.is_for(
                bytes,
                file_name,
                opt_text(options.ocr_language),
                seq![],
            )
        } else {
            r matches Err(e) && e@ == (RuntimeErrorView::OcrRequired { pages: seq![] })
        },
        Some(Route::Text(kind)) => if valid_utf8(bytes) {
            r matches Ok(Step::Done(c)) && c@ == text_converted(bytes, kind, file_name)
        } else {
            r matches Err(e) && e@ == RuntimeErrorView::Unsupported(
                "text input is not valid UTF-8"@,
            )
        },
        None => r matches Err(e) && e@ == RuntimeErrorView::Unsupported(
            "unrecognized file content and extension: "@ + file_name,
        ),
    }
}

/// What is done with the text layer of a PDF.
pub open spec fn reads_pdf(
    parser: FileParser,
    options: ConvertOptions,
    file_name: Seq<char>,
    bytes: Seq<u8>,
    extracted: Result<PdfMarkdown, ConvertError>,
    r: Result<PdfStep, RuntimeError>,
) -> bool {
    match extracted {
        Ok(output) => r == Ok::<PdfStep, RuntimeError>(PdfStep::RecognizeFigures(output)),
        Err(ConvertError::NeedsOcr { pages, page_count }) => if parser.has_ocr {
            r matches Ok(PdfStep::RecognizePages { call, pages: p, page_count: n })
                && call.is_for(
                bytes,
                file_name,
                opt_text(options.ocr_language),
                pages@,
            ) && p@ == pages@ && n == page_count
        } else {
            r matches Err(e) && e@ == (RuntimeErrorView::OcrRequired { pages: pages@ })
        },
        Err(cause) => r matches Err(e) && e@ == RuntimeErrorView::Conversion(cause@),
    }
}

/// A file is accepted under a plain name, if it is not too large.
pub open spec fn accepts(
    parser: FileParser,
    options: ConvertOptions,
    file_name: Seq<char>,
    size: u64,
    r: Result<String, RuntimeError>,
) -> bool {
    match r {
        Ok(name) => name@ == file_name && name_error(file_name) is None && size
            <= effective_max(parser, options),
        Err(e) => match name_error(file_name) {
            Some(cause) => e@ == cause,
            None => size > effective_max(parser, options) && e@ == size_error(
                size,
                effective_max(parser, options),
            ),
        },
    }
}

/// A path is allowed where there are no roots, or it lies under one.
pub open spec fn authorizes(
    parser: FileParser,
    options: ConvertOptions,
    shown: Seq<char>,
    canonical: Seq<char>,
    r: Result<(), RuntimeError>,
) -> bool {
    match r {
        Ok(_) => effective_roots(parser, options).len() == 0 || under_any(
            canonical,
            effective_roots(parser, options),
        ),
        Err(e) => effective_roots(parser, options).len() > 0 && !under_any(
            canonical,
            effective_roots(parser, options),
        ) && e@ == RuntimeErrorView::AccessDenied(
            "path "@ + shown + " is outside configured roots"@,
        ),
    }
}

impl FileParser {
    /// A parser with no sandbox, a 500 MiB size limit, and no OCR provider.
    pub fn new() -> (r: Self)
        ensures
            r.allowed_roots@.len() == 0,
            r.max_input_bytes == 524_288_000,
            !r.has_ocr,
    {
        FileParser { allowed_roots: Vec::new(), max_input_bytes: 500 * 1024 * 1024, has_ocr: false }
    }

    /// Restricts path inputs to these canonical roots. Empty (the default)
    /// allows any path.
    pub fn with_allowed_roots(self, roots: Vec<String>) -> (r: Self)
        ensures
            r == (FileParser { allowed_roots: roots, ..self }),
    {
        FileParser { allowed_roots: roots, ..self }
    }

    /// Sets the maximum accepted input size in bytes (at least 1).
    pub fn with_max_input_bytes(self, value: u64) -> (r: Self)
        ensures
            r == (FileParser { max_input_bytes: if value < 1 { 1 } else { value }, ..self }),
    {
        FileParser { max_input_bytes: if value < 1 { 1 } else { value }, ..self }
    }

    /// Attaches an OCR provider. Without one, scanned pages and standalone
    /// images fail with [`RuntimeError::OcrRequired`].
    pub fn with_ocr(self) -> (r: Self)
        ensures
            r == (FileParser { has_ocr: true, ..self }),
    {
        FileParser { has_ocr: true, ..self }
    }

    /// Checks that a canonical path lies in the sandbox. `shown` is the path as
    /// it was given.
    pub fn authorize_path(&self, options: &ConvertOptions, shown: &str, canonical: &str) -> (r: Result<
        (),
        RuntimeError,
    >)
        ensures
            authorizes(*self, *options, shown@, canonical@, r),
    {
        let roots = if options.allowed_roots.len() == 0 {
            &self.allowed_roots
        } else {
            &options.allowed_roots
        };
        let ghost all = effective_roots(*self, *options);
        assert(all == texts(roots@));
        if roots.len() == 0 {
            return Ok(());
        }
        for i in 0..roots.len()
            invariant
                all == texts(roots@),
                all == effective_roots(*self, *options),
                forall|j: int| 0 <= j < i ==> !path_under(canonical@, #[trigger] all[j]),
        {
            assert(all[i as int] == roots@[i as int]@);
            if starts_with_path(canonical, roots[i].as_str()) {
                return Ok(());
            }
        }
        let mut m = "path ".to_owned();
        m.push_str(shown);
        m.push_str(" is outside configured roots");
        Err(RuntimeError::AccessDenied(m))
    }

    /// Admits an input by its name and its size; gives back the name.
    pub fn accept(&self, options: &ConvertOptions, file_name: &str, size: u64) -> (r: Result<
        String,
        RuntimeError,
    >)
        ensures
            accepts(*self, *options, file_name@, size, r),
    {
        match safe_file_name(file_name) {
            Ok(name) => {
                let max: u64 = match options.max_input_bytes {
                    Some(n) => n,
                    None => self.max_input_bytes,
                };
                if size > max {
                    let mut m = "input has ".to_owned();
                    push_decimal(&mut m, size);
                    m.push_str(" bytes; maximum is ");
                    push_decimal(&mut m, max);
                    return Err(RuntimeError::ResourceLimit(m));
                }
                Ok(name)
            },
            Err(e) => Err(e),
        }
    }

    /// Decides what to do with an admitted input. `detected` is the format that
    /// its content shows.
    pub fn begin(
        &self,
        options: &ConvertOptions,
        file_name: &str,
        bytes: &[u8],
        detected: Option<Format>,
    ) -> (r: Result<Step, RuntimeError>)
        ensures
            begins(*self, *options, file_name@, bytes@, detected, r),
    {
        match route(detected, file_name) {
            Some(Route::Pdf) => Ok(Step::ExtractPdf),
            Some(Route::Document(f)) => Ok(Step::ParseDocument(f)),
            Some(Route::Html) => match to_markdown(bytes, file_stem(file_name).as_str()) {
                Ok(markdown) => Ok(
                    Step::Done(
                        Converted {
                            markdown,
                            decisions: one_decision(
                                new_decision(
                                    file_name.to_owned(),
                                    "extract",
                                    "html tag conversion",
                                    None,
                                ),
                            ),
                            metadata: ConversionMetadata { page_count: None },
                            images: no_images(),
                        },
                    ),
                ),
                Err(e) => Err(RuntimeError::from_convert(e)),
            },
            Some(Route::Image) => {
                if self.has_ocr {
                    Ok(
                        Step::RecognizeImage(
                            ocr_call(bytes, file_name, &options.ocr_language, Vec::new()),
                        ),
                    )
                } else {
                    Err(RuntimeError::OcrRequired { pages: Vec::new() })
                }
            },
            Some(Route::Text(kind)) => match text_to_markdown(bytes, kind) {
                Ok(markdown) => Ok(
                    Step::Done(
                        Converted {
                            markdown,
                            decisions: one_decision(
                                new_decision(
                                    file_name.to_owned(),
                                    "extract",
                                    "plain text passthrough",
                                    None,
                                ),
                            ),
                            metadata: ConversionMetadata { page_count: None },
                            images: no_images(),
                        },
                    ),
                ),
                Err(e) => Err(e),
            },
            None => {
                let mut m = "unrecognized file content and extension: ".to_owned();
                m.push_str(file_name);
                Err(RuntimeError::Unsupported(m))
            },
        }
    }

    /// Decides what to do with an extracted PDF: its figures go to OCR, or the
    /// pages without text do.
    pub fn after_pdf(
        &self,
        options: &ConvertOptions,
        file_name: &str,
        bytes: &[u8],
        extracted: Result<PdfMarkdown, ConvertError>,
    ) -> (r: Result<PdfStep, RuntimeError>)
        ensures
            reads_pdf(*self, *options, file_name@, bytes@, extracted, r),
    {
        match extracted {
            Ok(output) => Ok(PdfStep::RecognizeFigures(output)),
            Err(ConvertError::NeedsOcr { pages, page_count }) => {
                if self.has_ocr {
                    let copy = copy_pages(&pages);
                    Ok(
                        PdfStep::RecognizePages {
                            call: ocr_call(bytes, file_name, &options.ocr_language, copy),
                            pages,
                            page_count,
                        },
                    )
                } else {
                    Err(RuntimeError::OcrRequired { pages })
                }
            },
            Err(cause) => Err(RuntimeError::from_convert(cause)),
        }
    }
}

fn copy_pages(pages: &Vec<u32>) -> (r: Vec<u32>)
    ensures
        r@ == pages@,
{
    let mut out: Vec<u32> = Vec::new();
    for i in 0..pages.len()
        invariant
            out@ == pages@.take(i as int),
    {
        out.push(pages[i]);
        assert(out@ =~= pages@.take(i + 1));
    }
    assert(pages@.take(pages@.len() as int) =~= pages@);
    out
}

fn ocr_call(bytes: &[u8], file_name: &str, language: &Option<String>, pages: Vec<u32>) -> (r: OcrCall)
    ensures
        r.is_for(bytes@, file_name@, opt_text(*language), pages@),
{
    OcrCall {
        request: OcrRequest {
            bytes: copy_bytes(bytes),
            file_name: file_name.to_owned(),
            language: copy_opt(language),
        },
        options: OcrOptions { language: copy_opt(language), page_numbers: pages },
    }
}

/// The result has the content, and says where it came from.
pub open spec fn finishes(
    converted: Converted,
    file_name: Seq<char>,
    source_type: Seq<char>,
    size: u64,
    duration_ms: u64,
    r: ConvertResult,
) -> bool {
    &&& r.markdown@ == converted.markdown@
    &&& r.title@ == stem(file_name)
    &&& r.source.file_name@ == file_name
    &&& r.source.mime_type@ == extension_mime(extension(file_name))
    &&& r.source.size == size
    &&& r.source.source_type@ == source_type
    &&& r.metadata == converted.metadata
    &&& r.decisions == converted.decisions
    &&& r.images == converted.images
    &&& r.duration_ms == duration_ms
    &&& texts(r.warnings@) == if is_blank(converted.markdown@) {
        seq!["conversion produced empty markdown"@]
    } else {
        seq![]
    }
}

/// Describes a completed conversion.
pub fn finish(
    converted: Converted,
    file_name: &str,
    source_type: &str,
    size: u64,
    duration_ms: u64,
) -> (r: ConvertResult)
    ensures
        finishes(converted, file_name@, source_type@, size, duration_ms, r),
{
    let mut warnings: Vec<String> = Vec::new();
    if blank(chars_of(converted.markdown.as_str()).as_slice()) {
        warnings.push("conversion produced empty markdown".to_owned());
        assert(texts(warnings@) =~= seq!["conversion produced empty markdown"@]);
    } else {
        assert(texts(warnings@) =~= seq![]);
    }
    ConvertResult {
        markdown: converted.markdown,
        title: file_stem(file_name),
        source: SourceMetadata {
            file_name: file_name.to_owned(),
            mime_type: mime_for(file_name).to_owned(),
            size,
            source_type: source_type.to_owned(),
        },
        metadata: converted.metadata,
        decisions: converted.decisions,
        warnings,
        images: converted.images,
        duration_ms,
    }
}

} // verus!
