//! Document formats and file-name inference.

use crate::text::{chars_of, last_index, lower, lowercase, rfind, same_text, string_of};
use crate::document::runtime::{format_group, get_supported_formats, is_group, SupportedFormat};
use vstd::prelude::*;
use vstd::slice::slice_subrange;

verus! {

/// The formats that have a parser.
#[derive(Clone, Copy, Debug, PartialEq, Eq, Structural)]
pub enum Format {
    Pdf,
    Html,
    Doc,
    Docx,
    Ppt,
    Pptx,
    Xls,
    Xlsx,
    Xlsb,
    Odt,
    Ods,
    Odp,
    Rtf,
    Epub,
    Csv,
}

/// The part behind the last dot; the whole name when it has none.
pub open spec fn raw_extension(name: Seq<char>) -> Seq<char> {
    match last_index(name, '.') {
        Some(i) => name.skip(i as int + 1),
        None => name,
    }
}

/// The lowercase extension.
pub open spec fn extension(name: Seq<char>) -> Seq<char> {
    lower(raw_extension(name))
}

/// The part before the last dot; the whole name when it has none.
pub open spec fn stem(name: Seq<char>) -> Seq<char> {
    match last_index(name, '.') {
        Some(i) => name.take(i as int),
        None => name,
    }
}

pub fn extension_of(name: &str) -> (r: String)
    ensures
        r@ == extension(name@),
{
    let chars = chars_of(name);
    match rfind(chars.as_slice(), '.') {
        Some(i) => {
            let tail = slice_subrange(chars.as_slice(), i + 1, chars.len());
            assert(tail@ =~= name@.skip(i as int + 1));
            lowercase(tail)
        },
        None => lowercase(chars.as_slice()),
    }
}

pub fn file_stem(name: &str) -> (r: String)
    ensures
        r@ == stem(name@),
{
    let chars = chars_of(name);
    match rfind(chars.as_slice(), '.') {
        Some(i) => {
            let head = slice_subrange(chars.as_slice(), 0, i);
            assert(head@ =~= name@.take(i as int));
            string_of(head)
        },
        None => name.to_owned(),
    }
}

/// The format that a lowercase extension stands for.
pub open spec fn extension_format(ext: Seq<char>) -> Option<Format> {
    if ext == "pdf"@ {
        Some(Format::Pdf)
    } else if ext == "html"@ || ext == "htm"@ || ext == "xhtml"@ {
        Some(Format::Html)
    } else if ext == "doc"@ {
        Some(Format::Doc)
    } else if ext == "docx"@ || ext == "docm"@ {
        Some(Format::Docx)
    } else if ext == "ppt"@ {
        Some(Format::Ppt)
    } else if ext == "pptx"@ || ext == "pptm"@ {
        Some(Format::Pptx)
    } else if ext == "xls"@ {
        Some(Format::Xls)
    } else if ext == "xlsx"@ || ext == "xlsm"@ {
        Some(Format::Xlsx)
    } else if ext == "xlsb"@ {
        Some(Format::Xlsb)
    } else if ext == "odt"@ {
        Some(Format::Odt)
    } else if ext == "ods"@ {
        Some(Format::Ods)
    } else if ext == "odp"@ {
        Some(Format::Odp)
    } else if ext == "rtf"@ {
        Some(Format::Rtf)
    } else if ext == "epub"@ {
        Some(Format::Epub)
    } else if ext == "csv"@ {
        Some(Format::Csv)
    } else {
        None
    }
}

impl Format {
    /// The format that an extension stands for, whatever its case.
    pub fn from_extension(ext: &str) -> (r: Option<Format>)
        ensures
            r == extension_format(lower(ext@)),
    {
        let low = lowercase(chars_of(ext).as_slice());
        let e = low.as_str();
        if same_text(e, "pdf") {
            Some(Format::Pdf)
        } else if same_text(e, "html") || same_text(e, "htm") || same_text(e, "xhtml") {
            Some(Format::Html)
        } else if same_text(e, "doc") {
            Some(Format::Doc)
        } else if same_text(e, "docx") || same_text(e, "docm") {
            Some(Format::Docx)
        } else if same_text(e, "ppt") {
            Some(Format::Ppt)
        } else if same_text(e, "pptx") || same_text(e, "pptm") {
            Some(Format::Pptx)
        } else if same_text(e, "xls") {
            Some(Format::Xls)
        } else if same_text(e, "xlsx") || same_text(e, "xlsm") {
            Some(Format::Xlsx)
        } else if same_text(e, "xlsb") {
            Some(Format::Xlsb)
        } else if same_text(e, "odt") {
            Some(Format::Odt)
        } else if same_text(e, "ods") {
            Some(Format::Ods)
        } else if same_text(e, "odp") {
            Some(Format::Odp)
        } else if same_text(e, "rtf") {
            Some(Format::Rtf)
        } else if same_text(e, "epub") {
            Some(Format::Epub)
        } else if same_text(e, "csv") {
            Some(Format::Csv)
        } else {
            None
        }
    }
}

/// How a recognized text file is rendered to markdown.
#[derive(Clone, Copy, Debug)]
pub enum TextKind {
    /// Already markdown: returned verbatim.
    Markdown,
    /// Prose: returned verbatim.
    Plain,
    /// Structured or code: wrapped in a fenced block tagged with the language.
    Code(&'static str),
}

/// The kind of text file that an extension stands for.
pub open spec fn extension_text_kind(ext: Seq<char>) -> Option<TextKind> {
    if ext == "md"@ || ext == "mdx"@ {
        Some(TextKind::Markdown)
    } else if ext == "txt"@ {
        Some(TextKind::Plain)
    } else if ext == "json"@ {
        Some(TextKind::Code("json"))
    } else if ext == "yaml"@ || ext == "yml"@ {
        Some(TextKind::Code("yaml"))
    } else if ext == "toml"@ {
        Some(TextKind::Code("toml"))
    } else if ext == "xml"@ {
        Some(TextKind::Code("xml"))
    } else if ext == "rs"@ {
        Some(TextKind::Code("rust"))
    } else if ext == "ts"@ {
        Some(TextKind::Code("ts"))
    } else if ext == "js"@ {
        Some(TextKind::Code("js"))
    } else if ext == "py"@ {
        Some(TextKind::Code("python"))
    } else {
        None
    }
}

pub fn text_kind(file_name: &str) -> (r: Option<TextKind>)
    ensures
        r == extension_text_kind(extension(file_name@)),
{
    let ext = extension_of(file_name);
    let e = ext.as_str();
    if same_text(e, "md") || same_text(e, "mdx") {
        Some(TextKind::Markdown)
    } else if same_text(e, "txt") {
        Some(TextKind::Plain)
    } else if same_text(e, "json") {
        Some(TextKind::Code("json"))
    } else if same_text(e, "yaml") || same_text(e, "yml") {
        Some(TextKind::Code("yaml"))
    } else if same_text(e, "toml") {
        Some(TextKind::Code("toml"))
    } else if same_text(e, "xml") {
        Some(TextKind::Code("xml"))
    } else if same_text(e, "rs") {
        Some(TextKind::Code("rust"))
    } else if same_text(e, "ts") {
        Some(TextKind::Code("ts"))
    } else if same_text(e, "js") {
        Some(TextKind::Code("js"))
    } else if same_text(e, "py") {
        Some(TextKind::Code("python"))
    } else {
        None
    }
}

pub open spec fn image_extension(ext: Seq<char>) -> bool {
    ext == "png"@ || ext == "jpg"@ || ext == "jpeg"@ || ext == "webp"@ || ext == "gif"@ || ext
        == "bmp"@ || ext == "tif"@ || ext == "tiff"@
}

pub fn is_image_extension(file_name: &str) -> (b: bool)
    ensures
        b == image_extension(extension(file_name@)),
{
    let ext = extension_of(file_name);
    let e = ext.as_str();
    same_text(e, "png") || same_text(e, "jpg") || same_text(e, "jpeg") || same_text(e, "webp")
        || same_text(e, "gif") || same_text(e, "bmp") || same_text(e, "tif") || same_text(e, "tiff")
}

/// The MIME type that a lowercase extension stands for.
pub open spec fn extension_mime(e: Seq<char>) -> Seq<char> {
    if e == "pdf"@ {
        "application/pdf"@
    } else if e == "doc"@ {
        "application/msword"@
    } else if e == "docx"@ {
        "application/vnd.openxmlformats-officedocument.wordprocessingml.document"@
    } else if e == "docm"@ {
        "application/vnd.ms-word.document.macroEnabled.main+xml"@
    } else if e == "xls"@ {
        "application/vnd.ms-excel"@
    } else if e == "xlsx"@ {
        "application/vnd.openxmlformats-officedocument.spreadsheetml.sheet"@
    } else if e == "xlsm"@ {
        "application/vnd.ms-excel.sheet.macroEnabled.main+xml"@
    } else if e == "xlsb"@ {
        "application/vnd.ms-excel.sheet.binary.macroEnabled.main+xml"@
    } else if e == "ppt"@ {
        "application/vnd.ms-powerpoint"@
    } else if e == "pptx"@ {
        "application/vnd.openxmlformats-officedocument.presentationml.presentation"@
    } else if e == "pptm"@ || e == "ppsm"@ {
        "application/vnd.ms-powerpoint.presentation.macroEnabled.main+xml"@
    } else if e == "ppsx"@ || e == "pps"@ {
        "application/vnd.openxmlformats-officedocument.presentationml.slideshow"@
    } else if e == "pot"@ {
        "application/vnd.ms-powerpoint.template.macroEnabled.main+xml"@
    } else if e == "odt"@ {
        "application/vnd.oasis.opendocument.text"@
    } else if e == "ods"@ {
        "application/vnd.oasis.opendocument.spreadsheet"@
    } else if e == "odp"@ {
        "application/vnd.oasis.opendocument.presentation"@
    } else if e == "rtf"@ {
        "application/rtf"@
    } else if e == "epub"@ {
        "application/epub+zip"@
    } else if e == "csv"@ {
        "text/csv"@
    } else if e == "html"@ || e == "htm"@ || e == "xhtml"@ {
        "text/html"@
    } else if extension_text_kind(e) is Some {
        "text/plain"@
    } else if e == "png"@ {
        "image/png"@
    } else if e == "jpg"@ || e == "jpeg"@ {
        "image/jpeg"@
    } else if e == "webp"@ {
        "image/webp"@
    } else if e == "gif"@ {
        "image/gif"@
    } else if e == "bmp"@ {
        "image/bmp"@
    } else if e == "tif"@ || e == "tiff"@ {
        "image/tiff"@
    } else {
        "application/octet-stream"@
    }
}

/// The MIME type inferred from the extension.
pub fn mime_for(file_name: &str) -> (r: &'static str)
    ensures
        r@ == extension_mime(extension(file_name@)),
{
    let ext = extension_of(file_name);
    let e = ext.as_str();
    if same_text(e, "pdf") {
        "application/pdf"
    } else if same_text(e, "doc") {
        "application/msword"
    } else if same_text(e, "docx") {
        "application/vnd.openxmlformats-officedocument.wordprocessingml.document"
    } else if same_text(e, "docm") {
        "application/vnd.ms-word.document.macroEnabled.main+xml"
    } else if same_text(e, "xls") {
        "application/vnd.ms-excel"
    } else if same_text(e, "xlsx") {
        "application/vnd.openxmlformats-officedocument.spreadsheetml.sheet"
    } else if same_text(e, "xlsm") {
        "application/vnd.ms-excel.sheet.macroEnabled.main+xml"
    } else if same_text(e, "xlsb") {
        "application/vnd.ms-excel.sheet.binary.macroEnabled.main+xml"
    } else if same_text(e, "ppt") {
        "application/vnd.ms-powerpoint"
    } else if same_text(e, "pptx") {
        "application/vnd.openxmlformats-officedocument.presentationml.presentation"
    } else if same_text(e, "pptm") || same_text(e, "ppsm") {
        "application/vnd.ms-powerpoint.presentation.macroEnabled.main+xml"
    } else if same_text(e, "ppsx") || same_text(e, "pps") {
        "application/vnd.openxmlformats-officedocument.presentationml.slideshow"
    } else if same_text(e, "pot") {
        "application/vnd.ms-powerpoint.template.macroEnabled.main+xml"
    } else if same_text(e, "odt") {
        "application/vnd.oasis.opendocument.text"
    } else if same_text(e, "ods") {
        "application/vnd.oasis.opendocument.spreadsheet"
    } else if same_text(e, "odp") {
        "application/vnd.oasis.opendocument.presentation"
    } else if same_text(e, "rtf") {
        "application/rtf"
    } else if same_text(e, "epub") {
        "application/epub+zip"
    } else if same_text(e, "csv") {
        "text/csv"
    } else if same_text(e, "html") || same_text(e, "htm") || same_text(e, "xhtml") {
        "text/html"
    } else if text_kind(file_name).is_some() {
        "text/plain"
    } else if same_text(e, "png") {
        "image/png"
    } else if same_text(e, "jpg") || same_text(e, "jpeg") {
        "image/jpeg"
    } else if same_text(e, "webp") {
        "image/webp"
    } else if same_text(e, "gif") {
        "image/gif"
    } else if same_text(e, "bmp") {
        "image/bmp"
    } else if same_text(e, "tif") || same_text(e, "tiff") {
        "image/tiff"
    } else {
        "application/octet-stream"
    }
}

/// The extensions that are read, by category: text passes through, images need a
/// recognizer, the others go through the format parsers.
pub fn supported_formats() -> (r: Vec<SupportedFormat>)
    ensures
        r@.len() == 5,
        is_group(
            r@[0],
            "text",
            seq!["txt", "md", "mdx", "json", "yaml", "yml", "toml", "xml", "rs", "ts", "js", "py"],
            false,
        ),
        is_group(
            r@[1],
            "document",
            seq![
                "doc",
                "docx",
                "docm",
                "ppt",
                "pptx",
                "pptm",
                "xls",
                "xlsx",
                "xlsm",
                "xlsb",
                "odt",
                "ods",
                "odp",
                "rtf",
                "epub",
                "csv",
            ],
            false,
        ),
        is_group(r@[2], "pdf", seq!["pdf"], false),
        is_group(r@[3], "html", seq!["html", "htm", "xhtml"], false),
        is_group(
            r@[4],
            "image",
            seq!["png", "jpg", "jpeg", "webp", "gif", "bmp", "tif", "tiff"],
            true,
        ),
{
    let mut all = get_supported_formats();
    all.truncate(4);
    let image = all.remove(3);
    let html: [&'static str; 3] = ["html", "htm", "xhtml"];
    assert(html@ =~= seq!["html", "htm", "xhtml"]);
    all.push(format_group("html", html.as_slice(), false));
    all.push(image);
    all
}

} // verus!
