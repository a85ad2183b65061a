//! Why a format parser rejects a document.

use crate::text::{decimal, join, joined, push_decimal, texts};
use vstd::prelude::*;

verus! {

broadcast use crate::text::lemma_texts_push;

#[derive(Debug)]
pub enum ConvertError {
    /// Pages without a usable text layer.
    NeedsOcr { pages: Vec<u32>, page_count: u32 },
    /// The document is protected by a password.
    Encrypted,
    /// The document could not be read.
    Io(String),
    /// The document breaks the rules of its format.
    Malformed(String),
    /// The document holds nothing that can be converted.
    Unsupported(String),
}

/// The mathematical counterpart of [`ConvertError`].
pub enum ConvertErrorView {
    NeedsOcr { pages: Seq<u32>, page_count: u32 },
    Encrypted,
    Io(Seq<char>),
    Malformed(Seq<char>),
    Unsupported(Seq<char>),
}

impl View for ConvertError {
    type V = ConvertErrorView;

    open spec fn view(&self) -> ConvertErrorView {
        match *self {
            ConvertError::NeedsOcr { pages, page_count } => ConvertErrorView::NeedsOcr {
                pages: pages@,
                page_count,
            },
            ConvertError::Encrypted => ConvertErrorView::Encrypted,
            ConvertError::Io(m) => ConvertErrorView::Io(m@),
            ConvertError::Malformed(m) => ConvertErrorView::Malformed(m@),
            ConvertError::Unsupported(m) => ConvertErrorView::Unsupported(m@),
        }
    }
}

/// Page numbers in decimal.
pub open spec fn page_texts(pages: Seq<u32>) -> Seq<Seq<char>> {
    Seq::new(pages.len(), |i: int| decimal(pages[i] as nat))
}

/// Page numbers, separated by commas.
pub open spec fn page_list(pages: Seq<u32>) -> Seq<char> {
    joined(page_texts(pages), ", "@)
}

pub fn list_pages(pages: &Vec<u32>) -> (r: String)
    ensures
        r@ == page_list(pages@),
{
    let mut parts: Vec<String> = Vec::new();
    assert(texts(parts@) =~= page_texts(pages@).take(0));
    for i in 0..pages.len()
        invariant
            texts(parts@) == page_texts(pages@).take(i as int),
    {
        parts.push(crate::text::decimal_of(pages[i] as u64));
        assert(texts(parts@) =~= page_texts(pages@).take(i + 1));
    }
    assert(page_texts(pages@).take(pages@.len() as int) =~= page_texts(pages@));
    join(&parts, ", ")
}

pub open spec fn convert_error_text(e: ConvertErrorView) -> Seq<char> {
    match e {
        ConvertErrorView::NeedsOcr { pages, page_count } => "OCR is needed for pages "@ + page_list(
            pages,
        ) + " of "@ + decimal(page_count as nat),
        ConvertErrorView::Encrypted => "document is encrypted"@,
        ConvertErrorView::Io(m) => "io error: "@ + m,
        ConvertErrorView::Malformed(m) => "malformed document: "@ + m,
        ConvertErrorView::Unsupported(m) => "unsupported document: "@ + m,
    }
}

pub open spec fn convert_error_code(e: ConvertErrorView) -> Seq<char> {
    match e {
        ConvertErrorView::NeedsOcr { .. } => "NEEDS_OCR"@,
        ConvertErrorView::Encrypted => "ENCRYPTED"@,
        ConvertErrorView::Io(_) => "IO_ERROR"@,
        ConvertErrorView::Malformed(_) => "MALFORMED"@,
        ConvertErrorView::Unsupported(_) => "UNSUPPORTED"@,
    }
}

impl ConvertError {
    /// Stable error code for programmatic handling.
    pub fn code(&self) -> (r: &'static str)
        ensures
            r@ == convert_error_code(self@),
    {
        match self {
            ConvertError::NeedsOcr { .. } => "NEEDS_OCR",
            ConvertError::Encrypted => "ENCRYPTED",
            ConvertError::Io(_) => "IO_ERROR",
            ConvertError::Malformed(_) => "MALFORMED",
            ConvertError::Unsupported(_) => "UNSUPPORTED",
        }
    }

    /// The error in words.
    pub fn message(&self) -> (r: String)
        ensures
            r@ == convert_error_text(self@),
    {
        let mut out = String::new();
        match self {
            ConvertError::NeedsOcr { pages, page_count } => {
                out.push_str("OCR is needed for pages ");
                out.push_str(list_pages(pages).as_str());
                out.push_str(" of ");
                push_decimal(&mut out, *page_count as u64);
            },
            ConvertError::Encrypted => out.push_str("document is encrypted"),
            ConvertError::Io(m) => {
                out.push_str("io error: ");
                out.push_str(m.as_str());
            },
            ConvertError::Malformed(m) => {
                out.push_str("malformed document: ");
                out.push_str(m.as_str());
            },
            ConvertError::Unsupported(m) => {
                out.push_str("unsupported document: ");
                out.push_str(m.as_str());
            },
        }
        assert(out@ =~= convert_error_text(self@));
        out
    }
}

} // verus!
