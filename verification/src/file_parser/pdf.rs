//! PDF text extraction: what is made of an extraction engine's answers.
//!
//! OCR is out of scope here: a document with scanned or image-only pages errors
//! naming them, whether that is every page or one of a hundred, because output
//! missing those pages would read as complete.

use crate::file_parser::error::{ConvertError, ConvertErrorView};
use crate::text::{blank, chars_of, decimal, is_blank, push_decimal};
use vstd::prelude::*;

verus! {

/// An embedded image that was extracted from a PDF.
#[derive(Debug)]
pub struct PdfImage {
    /// Matches the URL of the corresponding marker.
    pub name: String,
    pub mime_type: String,
    pub data: Vec<u8>,
}

/// PDF conversion output: the markdown plus any embedded images.
#[derive(Debug)]
pub struct PdfMarkdown {
    pub markdown: String,
    pub images: Vec<PdfImage>,
}

/// What the extraction engine reports of a whole document.
#[derive(Debug)]
pub struct PdfExtraction {
    pub markdown: Option<String>,
    pub images: Vec<PdfImage>,
    pub page_count: u32,
    /// The engine's name for the kind of document.
    pub pdf_type: String,
    /// Pages that detection flags, counted from one.
    pub pages_needing_ocr: Vec<u32>,
}

/// Why the extraction engine gives up.
#[derive(Debug)]
pub enum PdfError {
    Encrypted,
    Io(String),
    NotAPdf(String),
    InvalidStructure,
    Parse(String),
}

pub open spec fn pdf_error_view(e: PdfError) -> ConvertErrorView {
    match e {
        PdfError::Encrypted => ConvertErrorView::Encrypted,
        PdfError::Io(m) => ConvertErrorView::Io(m@),
        PdfError::NotAPdf(detail) => ConvertErrorView::Malformed("not a PDF: "@ + detail@),
        PdfError::InvalidStructure => ConvertErrorView::Malformed("invalid PDF structure"@),
        PdfError::Parse(detail) => ConvertErrorView::Malformed(detail@),
    }
}

pub fn map_error(e: PdfError) -> (r: ConvertError)
    ensures
        r@ == pdf_error_view(e),
{
    match e {
        PdfError::Encrypted => ConvertError::Encrypted,
        PdfError::Io(m) => ConvertError::Io(m),
        PdfError::NotAPdf(detail) => {
            let mut m = "not a PDF: ".to_owned();
            m.push_str(detail.as_str());
            ConvertError::Malformed(m)
        },
        PdfError::InvalidStructure => ConvertError::Malformed("invalid PDF structure".to_owned()),
        PdfError::Parse(detail) => ConvertError::Malformed(detail),
    }
}

pub open spec fn zero_based(pages: Seq<u32>) -> Seq<u32> {
    Seq::new(pages.len(), |i: int| (pages[i] - 1) as u32)
}

/// The flagged pages, counted from zero, for a second look. Detection samples
/// content streams and over-reports short or image-heavy text pages; extraction
/// knows which of them yielded none.
pub fn flagged_pages(extraction: &PdfExtraction) -> (r: Vec<u32>)
    requires
        forall|i: int|
            0 <= i < extraction.pages_needing_ocr@.len() ==> (
            #[trigger] extraction.pages_needing_ocr@[i]) >= 1,
    ensures
        r@ == zero_based(extraction.pages_needing_ocr@),
{
    let mut out: Vec<u32> = Vec::new();
    let ghost all = zero_based(extraction.pages_needing_ocr@);
    for i in 0..extraction.pages_needing_ocr.len()
        invariant
            all == zero_based(extraction.pages_needing_ocr@),
            forall|i: int|
                0 <= i < extraction.pages_needing_ocr@.len() ==> (
                #[trigger] extraction.pages_needing_ocr@[i]) >= 1,
            out@ == all.take(i as int),
    {
        out.push(extraction.pages_needing_ocr[i] - 1);
        assert(out@ =~= all.take(i + 1));
    }
    assert(all.take(all.len() as int) =~= all);
    out
}

/// The text with a line feed at its end.
pub open spec fn ended(text: Seq<char>) -> Seq<char> {
    if text.len() > 0 && text.last() == '\n' { text } else { text.push('\n') }
}

/// What an extraction yields: the pages that a second look confirms as lacking
/// text, else the markdown, else nothing.
pub open spec fn pdf_outcome(extraction: PdfExtraction, confirmed: Seq<u32>) -> Result<
    Seq<char>,
    ConvertErrorView,
> {
    if confirmed.len() > 0 {
        Err(ConvertErrorView::NeedsOcr { pages: confirmed, page_count: extraction.page_count })
    } else {
        match extraction.markdown {
            Some(markdown) if !is_blank(markdown@) => Ok(ended(markdown@)),
            _ => Err(
                ConvertErrorView::Unsupported(
                    "PDF has no extractable text ("@ + extraction.pdf_type@ + ", "@ + decimal(
                        extraction.page_count as nat,
                    ) + " pages)"@,
                ),
            ),
        }
    }
}

/// Decides what an extraction yields. `confirmed` holds the pages that a second
/// look at the flagged ones still reports; it is empty when none was flagged.
pub fn to_markdown_with_images(extraction: PdfExtraction, confirmed: Vec<u32>) -> (r: Result<
    PdfMarkdown,
    ConvertError,
>)
    ensures
        match r {
            Ok(output) => pdf_outcome(extraction, confirmed@) == Ok::<Seq<char>, ConvertErrorView>(
                output.markdown@,
            ) && output.images == extraction.images,
            Err(e) => pdf_outcome(extraction, confirmed@) == Err::<Seq<char>, ConvertErrorView>(e@),
        },
{
    if confirmed.len() > 0 {
        return Err(
            ConvertError::NeedsOcr { pages: confirmed, page_count: extraction.page_count },
        );
    }
    if let Some(markdown) = &extraction.markdown {
        let chars = chars_of(markdown.as_str());
        if !blank(chars.as_slice()) {
            let mut out = markdown.clone();
            if chars.len() == 0 || chars[chars.len() - 1] != '\n' {
                out.push('\n');
            }
            return Ok(PdfMarkdown { markdown: out, images: extraction.images });
        }
    }
    let mut m = "PDF has no extractable text (".to_owned();
    m.push_str(extraction.pdf_type.as_str());
    m.push_str(", ");
    push_decimal(&mut m, extraction.page_count as u64);
    m.push_str(" pages)");
    Err(ConvertError::Unsupported(m))
}

} // verus!
