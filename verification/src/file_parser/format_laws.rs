//! How the tables of file endings fit together.

use crate::file_parser::format::{
    extension_format, extension_mime, extension_text_kind, image_extension,
};
use crate::ocr::image_pass::mime_extension;
use crate::ocr::paddle::part_mime;
use crate::text::starts_with;
use vstd::prelude::*;

verus! {

/// The ending is one of the words.
pub open spec fn is_one_of(e: Seq<char>, words: Seq<&str>) -> bool {
    exists|i: int| 0 <= i < words.len() && e == (#[trigger] words[i])@
}

/// The endings of documents.
pub open spec fn document_endings() -> Seq<&'static str> {
    seq![
        "doc", "docx", "docm", "ppt", "pptx", "pptm", "xls", "xlsx", "xlsm", "xlsb", "odt", "ods",
        "odp", "rtf", "epub", "csv",
    ]
}

/// The endings of text and code.
pub open spec fn text_endings() -> Seq<&'static str> {
    seq![
        "txt", "md", "mdx", "json", "yaml", "yml", "toml", "xml", "rs", "ts", "js", "py",
    ]
}

/// The endings of pictures.
pub open spec fn picture_endings() -> Seq<&'static str> {
    seq![
        "png", "jpg", "jpeg", "webp", "gif", "bmp", "tif", "tiff",
    ]
}

/// Every ending is read by its letters.
proof fn lemma_letters()
    ensures
        "pdf"@.len() == 3 && "pdf"@[0] == 'p' && "pdf"@[1] == 'd' && "pdf"@[2] == 'f',
        "html"@.len() == 4 && "html"@[0] == 'h' && "html"@[1] == 't' && "html"@[2] == 'm' &&
            "html"@[3] == 'l',
        "htm"@.len() == 3 && "htm"@[0] == 'h' && "htm"@[1] == 't' && "htm"@[2] == 'm',
        "xhtml"@.len() == 5 && "xhtml"@[0] == 'x' && "xhtml"@[1] == 'h' && "xhtml"@[2] == 't' &&
            "xhtml"@[3] == 'm' && "xhtml"@[4] == 'l',
        "doc"@.len() == 3 && "doc"@[0] == 'd' && "doc"@[1] == 'o' && "doc"@[2] == 'c',
        "docx"@.len() == 4 && "docx"@[0] == 'd' && "docx"@[1] == 'o' && "docx"@[2] == 'c' &&
            "docx"@[3] == 'x',
        "docm"@.len() == 4 && "docm"@[0] == 'd' && "docm"@[1] == 'o' && "docm"@[2] == 'c' &&
            "docm"@[3] == 'm',
        "ppt"@.len() == 3 && "ppt"@[0] == 'p' && "ppt"@[1] == 'p' && "ppt"@[2] == 't',
        "pptx"@.len() == 4 && "pptx"@[0] == 'p' && "pptx"@[1] == 'p' && "pptx"@[2] == 't' &&
            "pptx"@[3] == 'x',
        "pptm"@.len() == 4 && "pptm"@[0] == 'p' && "pptm"@[1] == 'p' && "pptm"@[2] == 't' &&
            "pptm"@[3] == 'm',
        "xls"@.len() == 3 && "xls"@[0] == 'x' && "xls"@[1] == 'l' && "xls"@[2] == 's',
        "xlsx"@.len() == 4 && "xlsx"@[0] == 'x' && "xlsx"@[1] == 'l' && "xlsx"@[2] == 's' &&
            "xlsx"@[3] == 'x',
        "xlsm"@.len() == 4 && "xlsm"@[0] == 'x' && "xlsm"@[1] == 'l' && "xlsm"@[2] == 's' &&
            "xlsm"@[3] == 'm',
        "xlsb"@.len() == 4 && "xlsb"@[0] == 'x' && "xlsb"@[1] == 'l' && "xlsb"@[2] == 's' &&
            "xlsb"@[3] == 'b',
        "odt"@.len() == 3 && "odt"@[0] == 'o' && "odt"@[1] == 'd' && "odt"@[2] == 't',
        "ods"@.len() == 3 && "ods"@[0] == 'o' && "ods"@[1] == 'd' && "ods"@[2] == 's',
        "odp"@.len() == 3 && "odp"@[0] == 'o' && "odp"@[1] == 'd' && "odp"@[2] == 'p',
        "rtf"@.len() == 3 && "rtf"@[0] == 'r' && "rtf"@[1] == 't' && "rtf"@[2] == 'f',
        "epub"@.len() == 4 && "epub"@[0] == 'e' && "epub"@[1] == 'p' && "epub"@[2] == 'u' &&
            "epub"@[3] == 'b',
        "csv"@.len() == 3 && "csv"@[0] == 'c' && "csv"@[1] == 's' && "csv"@[2] == 'v',
        "md"@.len() == 2 && "md"@[0] == 'm' && "md"@[1] == 'd',
        "mdx"@.len() == 3 && "mdx"@[0] == 'm' && "mdx"@[1] == 'd' && "mdx"@[2] == 'x',
        "txt"@.len() == 3 && "txt"@[0] == 't' && "txt"@[1] == 'x' && "txt"@[2] == 't',
        "json"@.len() == 4 && "json"@[0] == 'j' && "json"@[1] == 's' && "json"@[2] == 'o' &&
            "json"@[3] == 'n',
        "yaml"@.len() == 4 && "yaml"@[0] == 'y' && "yaml"@[1] == 'a' && "yaml"@[2] == 'm' &&
            "yaml"@[3] == 'l',
        "yml"@.len() == 3 && "yml"@[0] == 'y' && "yml"@[1] == 'm' && "yml"@[2] == 'l',
        "toml"@.len() == 4 && "toml"@[0] == 't' && "toml"@[1] == 'o' && "toml"@[2] == 'm' &&
            "toml"@[3] == 'l',
        "xml"@.len() == 3 && "xml"@[0] == 'x' && "xml"@[1] == 'm' && "xml"@[2] == 'l',
        "rs"@.len() == 2 && "rs"@[0] == 'r' && "rs"@[1] == 's',
        "ts"@.len() == 2 && "ts"@[0] == 't' && "ts"@[1] == 's',
        "js"@.len() == 2 && "js"@[0] == 'j' && "js"@[1] == 's',
        "py"@.len() == 2 && "py"@[0] == 'p' && "py"@[1] == 'y',
        "png"@.len() == 3 && "png"@[0] == 'p' && "png"@[1] == 'n' && "png"@[2] == 'g',
        "jpg"@.len() == 3 && "jpg"@[0] == 'j' && "jpg"@[1] == 'p' && "jpg"@[2] == 'g',
        "jpeg"@.len() == 4 && "jpeg"@[0] == 'j' && "jpeg"@[1] == 'p' && "jpeg"@[2] == 'e' &&
            "jpeg"@[3] == 'g',
        "webp"@.len() == 4 && "webp"@[0] == 'w' && "webp"@[1] == 'e' && "webp"@[2] == 'b' &&
            "webp"@[3] == 'p',
        "gif"@.len() == 3 && "gif"@[0] == 'g' && "gif"@[1] == 'i' && "gif"@[2] == 'f',
        "bmp"@.len() == 3 && "bmp"@[0] == 'b' && "bmp"@[1] == 'm' && "bmp"@[2] == 'p',
        "tif"@.len() == 3 && "tif"@[0] == 't' && "tif"@[1] == 'i' && "tif"@[2] == 'f',
        "tiff"@.len() == 4 && "tiff"@[0] == 't' && "tiff"@[1] == 'i' && "tiff"@[2] == 'f' &&
            "tiff"@[3] == 'f',
        "ppsm"@.len() == 4 && "ppsm"@[0] == 'p' && "ppsm"@[1] == 'p' && "ppsm"@[2] == 's' &&
            "ppsm"@[3] == 'm',
        "ppsx"@.len() == 4 && "ppsx"@[0] == 'p' && "ppsx"@[1] == 'p' && "ppsx"@[2] == 's' &&
            "ppsx"@[3] == 'x',
        "pps"@.len() == 3 && "pps"@[0] == 'p' && "pps"@[1] == 'p' && "pps"@[2] == 's',
        "pot"@.len() == 3 && "pot"@[0] == 'p' && "pot"@[1] == 'o' && "pot"@[2] == 't',
{
    reveal_strlit("pdf");
    reveal_strlit("html");
    reveal_strlit("htm");
    reveal_strlit("xhtml");
    reveal_strlit("doc");
    reveal_strlit("docx");
    reveal_strlit("docm");
    reveal_strlit("ppt");
    reveal_strlit("pptx");
    reveal_strlit("pptm");
    reveal_strlit("xls");
    reveal_strlit("xlsx");
    reveal_strlit("xlsm");
    reveal_strlit("xlsb");
    reveal_strlit("odt");
    reveal_strlit("ods");
    reveal_strlit("odp");
    reveal_strlit("rtf");
    reveal_strlit("epub");
    reveal_strlit("csv");
    reveal_strlit("md");
    reveal_strlit("mdx");
    reveal_strlit("txt");
    reveal_strlit("json");
    reveal_strlit("yaml");
    reveal_strlit("yml");
    reveal_strlit("toml");
    reveal_strlit("xml");
    reveal_strlit("rs");
    reveal_strlit("ts");
    reveal_strlit("js");
    reveal_strlit("py");
    reveal_strlit("png");
    reveal_strlit("jpg");
    reveal_strlit("jpeg");
    reveal_strlit("webp");
    reveal_strlit("gif");
    reveal_strlit("bmp");
    reveal_strlit("tif");
    reveal_strlit("tiff");
    reveal_strlit("ppsm");
    reveal_strlit("ppsx");
    reveal_strlit("pps");
    reveal_strlit("pot");
}

proof fn lemma_documents(e: Seq<char>)
    ensures
        is_one_of(e, document_endings()) <==> e == "doc"@ || e == "docx"@ || e == "docm"@ || e
            == "ppt"@ || e == "pptx"@ || e == "pptm"@ || e == "xls"@ || e == "xlsx"@ || e == "xlsm"@
            || e == "xlsb"@ || e == "odt"@ || e == "ods"@ || e == "odp"@ || e == "rtf"@ || e ==
            "epub"@ || e == "csv"@,
{
    let words = document_endings();
    assert(words[0]@ == "doc"@);
    assert(words[1]@ == "docx"@);
    assert(words[2]@ == "docm"@);
    assert(words[3]@ == "ppt"@);
    assert(words[4]@ == "pptx"@);
    assert(words[5]@ == "pptm"@);
    assert(words[6]@ == "xls"@);
    assert(words[7]@ == "xlsx"@);
    assert(words[8]@ == "xlsm"@);
    assert(words[9]@ == "xlsb"@);
    assert(words[10]@ == "odt"@);
    assert(words[11]@ == "ods"@);
    assert(words[12]@ == "odp"@);
    assert(words[13]@ == "rtf"@);
    assert(words[14]@ == "epub"@);
    assert(words[15]@ == "csv"@);
}

proof fn lemma_texts(e: Seq<char>)
    ensures
        is_one_of(e, text_endings()) <==> e == "txt"@ || e == "md"@ || e == "mdx"@ || e ==
            "json"@ || e == "yaml"@ || e == "yml"@ || e == "toml"@ || e == "xml"@ || e == "rs"@ || e
            == "ts"@ || e == "js"@ || e == "py"@,
{
    let words = text_endings();
    assert(words[0]@ == "txt"@);
    assert(words[1]@ == "md"@);
    assert(words[2]@ == "mdx"@);
    assert(words[3]@ == "json"@);
    assert(words[4]@ == "yaml"@);
    assert(words[5]@ == "yml"@);
    assert(words[6]@ == "toml"@);
    assert(words[7]@ == "xml"@);
    assert(words[8]@ == "rs"@);
    assert(words[9]@ == "ts"@);
    assert(words[10]@ == "js"@);
    assert(words[11]@ == "py"@);
}

proof fn lemma_pictures(e: Seq<char>)
    ensures
        is_one_of(e, picture_endings()) <==> e == "png"@ || e == "jpg"@ || e == "jpeg"@ || e ==
            "webp"@ || e == "gif"@ || e == "bmp"@ || e == "tif"@ || e == "tiff"@,
{
    let words = picture_endings();
    assert(words[0]@ == "png"@);
    assert(words[1]@ == "jpg"@);
    assert(words[2]@ == "jpeg"@);
    assert(words[3]@ == "webp"@);
    assert(words[4]@ == "gif"@);
    assert(words[5]@ == "bmp"@);
    assert(words[6]@ == "tif"@);
    assert(words[7]@ == "tiff"@);
}

/// What is parsed as a document, shown as text or recognized as a picture is told apart by its
/// ending: documents, text and pictures have different endings, and these are all of them.
pub proof fn law_endings_are_told_apart(e: Seq<char>)
    ensures
        extension_format(e) matches Some(f) ==> !(f is Pdf) && !(f is Html) ==> is_one_of(
            e,
            document_endings(),
        ),
        is_one_of(e, document_endings()) ==> (extension_format(e) matches Some(f) && !(f is Pdf)
            && !(f is Html)) && extension_text_kind(e) is None && !image_extension(e),
        extension_text_kind(e) is Some <==> is_one_of(e, text_endings()),
        is_one_of(e, text_endings()) ==> extension_format(e) is None && !image_extension(e),
        image_extension(e) <==> is_one_of(e, picture_endings()),
        is_one_of(e, picture_endings()) ==> extension_format(e) is None && extension_text_kind(
            e,
        ) is None,
{
    lemma_letters();
    lemma_documents(e);
    lemma_texts(e);
    lemma_pictures(e);
}

/// A document is of the kind that its ending begins with: what comes with macros is read as
/// what comes without.
pub proof fn law_documents_are_what_their_ending_says(e: Seq<char>)
    ensures
        extension_format(e) matches Some(f) ==> e.len() == 3 ==> {
            &&& f is Doc <==> starts_with(e, "doc"@)
            &&& f is Ppt <==> starts_with(e, "ppt"@)
            &&& f is Xls <==> starts_with(e, "xls"@)
        },
        extension_format(e) matches Some(f) ==> e.len() == 4 ==> {
            &&& f is Docx <==> starts_with(e, "doc"@)
            &&& f is Pptx <==> starts_with(e, "ppt"@)
            &&& f is Xlsx || f is Xlsb <==> starts_with(e, "xls"@)
            &&& f is Xlsb <==> starts_with(e, "xls"@) && e[3] == 'b'
        },
{
    lemma_letters();
    if e.len() >= 3 {
        let h = e.subrange(0, 3);
        assert(h[0] == e[0] && h[1] == e[1] && h[2] == e[2]);
        if extension_format(e) is Some {
            if e[0] == 'd' && e[1] == 'o' && e[2] == 'c' {
                assert(h =~= "doc"@);
            }
            if e[0] == 'p' && e[1] == 'p' && e[2] == 't' {
                assert(h =~= "ppt"@);
            }
            if e[0] == 'x' && e[1] == 'l' && e[2] == 's' {
                assert(h =~= "xls"@);
            }
        }
    }
}

/// The types of pictures and of everything else.
proof fn lemma_types()
    ensures
        !starts_with("application/epub+zip"@, "image/"@),
        !starts_with("application/msword"@, "image/"@),
        !starts_with("application/octet-stream"@, "image/"@),
        !starts_with("application/pdf"@, "image/"@),
        !starts_with("application/rtf"@, "image/"@),
        !starts_with("application/vnd.ms-excel"@, "image/"@),
        !starts_with("application/vnd.ms-excel.sheet.binary.macroEnabled.main+xml"@, "image/"@),
        !starts_with("application/vnd.ms-excel.sheet.macroEnabled.main+xml"@, "image/"@),
        !starts_with("application/vnd.ms-powerpoint"@, "image/"@),
        !starts_with("application/vnd.ms-powerpoint.presentation.macroEnabled.main+xml"@, "image/"@),
        !starts_with("application/vnd.ms-powerpoint.template.macroEnabled.main+xml"@, "image/"@),
        !starts_with("application/vnd.ms-word.document.macroEnabled.main+xml"@, "image/"@),
        !starts_with("application/vnd.oasis.opendocument.presentation"@, "image/"@),
        !starts_with("application/vnd.oasis.opendocument.spreadsheet"@, "image/"@),
        !starts_with("application/vnd.oasis.opendocument.text"@, "image/"@),
        !starts_with("application/vnd.openxmlformats-officedocument.presentationml.presentation"@, "image/"@),
        !starts_with("application/vnd.openxmlformats-officedocument.presentationml.slideshow"@, "image/"@),
        !starts_with("application/vnd.openxmlformats-officedocument.spreadsheetml.sheet"@, "image/"@),
        !starts_with("application/vnd.openxmlformats-officedocument.wordprocessingml.document"@, "image/"@),
        starts_with("image/bmp"@, "image/"@),
        starts_with("image/gif"@, "image/"@),
        starts_with("image/jpeg"@, "image/"@),
        starts_with("image/png"@, "image/"@),
        starts_with("image/tiff"@, "image/"@),
        starts_with("image/webp"@, "image/"@),
        !starts_with("text/csv"@, "image/"@),
        !starts_with("text/html"@, "image/"@),
        !starts_with("text/plain"@, "image/"@),
{
    reveal_strlit("image/");
    assert("image/"@[0] == 'i');
    reveal_strlit("application/epub+zip");
    assert("application/epub+zip"@.subrange(0, 6)[0] == 'a');
    reveal_strlit("application/msword");
    assert("application/msword"@.subrange(0, 6)[0] == 'a');
    reveal_strlit("application/octet-stream");
    assert("application/octet-stream"@.subrange(0, 6)[0] == 'a');
    reveal_strlit("application/pdf");
    assert("application/pdf"@.subrange(0, 6)[0] == 'a');
    reveal_strlit("application/rtf");
    assert("application/rtf"@.subrange(0, 6)[0] == 'a');
    reveal_strlit("application/vnd.ms-excel");
    assert("application/vnd.ms-excel"@.subrange(0, 6)[0] == 'a');
    reveal_strlit("application/vnd.ms-excel.sheet.binary.macroEnabled.main+xml");
    assert("application/vnd.ms-excel.sheet.binary.macroEnabled.main+xml"@.subrange(0, 6)[0] == 'a');
    reveal_strlit("application/vnd.ms-excel.sheet.macroEnabled.main+xml");
    assert("application/vnd.ms-excel.sheet.macroEnabled.main+xml"@.subrange(0, 6)[0] == 'a');
    reveal_strlit("application/vnd.ms-powerpoint");
    assert("application/vnd.ms-powerpoint"@.subrange(0, 6)[0] == 'a');
    reveal_strlit("application/vnd.ms-powerpoint.presentation.macroEnabled.main+xml");
    assert("application/vnd.ms-powerpoint.presentation.macroEnabled.main+xml"@.subrange(0, 6)[0] == 'a');
    reveal_strlit("application/vnd.ms-powerpoint.template.macroEnabled.main+xml");
    assert("application/vnd.ms-powerpoint.template.macroEnabled.main+xml"@.subrange(0, 6)[0] == 'a');
    reveal_strlit("application/vnd.ms-word.document.macroEnabled.main+xml");
    assert("application/vnd.ms-word.document.macroEnabled.main+xml"@.subrange(0, 6)[0] == 'a');
    reveal_strlit("application/vnd.oasis.opendocument.presentation");
    assert("application/vnd.oasis.opendocument.presentation"@.subrange(0, 6)[0] == 'a');
    reveal_strlit("application/vnd.oasis.opendocument.spreadsheet");
    assert("application/vnd.oasis.opendocument.spreadsheet"@.subrange(0, 6)[0] == 'a');
    reveal_strlit("application/vnd.oasis.opendocument.text");
    assert("application/vnd.oasis.opendocument.text"@.subrange(0, 6)[0] == 'a');
    reveal_strlit("application/vnd.openxmlformats-officedocument.presentationml.presentation");
    assert("application/vnd.openxmlformats-officedocument.presentationml.presentation"@.subrange(0, 6)[0] == 'a');
    reveal_strlit("application/vnd.openxmlformats-officedocument.presentationml.slideshow");
    assert("application/vnd.openxmlformats-officedocument.presentationml.slideshow"@.subrange(0, 6)[0] == 'a');
    reveal_strlit("application/vnd.openxmlformats-officedocument.spreadsheetml.sheet");
    assert("application/vnd.openxmlformats-officedocument.spreadsheetml.sheet"@.subrange(0, 6)[0] == 'a');
    reveal_strlit("application/vnd.openxmlformats-officedocument.wordprocessingml.document");
    assert("application/vnd.openxmlformats-officedocument.wordprocessingml.document"@.subrange(0, 6)[0] == 'a');
    reveal_strlit("image/bmp");
    assert("image/bmp"@.subrange(0, 6) =~= "image/"@);
    reveal_strlit("image/gif");
    assert("image/gif"@.subrange(0, 6) =~= "image/"@);
    reveal_strlit("image/jpeg");
    assert("image/jpeg"@.subrange(0, 6) =~= "image/"@);
    reveal_strlit("image/png");
    assert("image/png"@.subrange(0, 6) =~= "image/"@);
    reveal_strlit("image/tiff");
    assert("image/tiff"@.subrange(0, 6) =~= "image/"@);
    reveal_strlit("image/webp");
    assert("image/webp"@.subrange(0, 6) =~= "image/"@);
    reveal_strlit("text/csv");
    assert("text/csv"@.subrange(0, 6)[0] == 't');
    reveal_strlit("text/html");
    assert("text/html"@.subrange(0, 6)[0] == 't');
    reveal_strlit("text/plain");
    assert("text/plain"@.subrange(0, 6)[0] == 't');
}

/// Pictures, and nothing else, have the type of a picture, and from that type the ending of a
/// picture comes back.
pub proof fn law_pictures_have_their_types(e: Seq<char>)
    ensures
        image_extension(e) <==> starts_with(extension_mime(e), "image/"@),
        image_extension(e) ==> (mime_extension(extension_mime(e)) matches Some(back)
            && image_extension(back) && extension_mime(back) == extension_mime(e)),
        starts_with(part_mime(e), "image/"@) ==> part_mime(e) == extension_mime(e),
        e == "pdf"@ ==> part_mime(e) == extension_mime(e),
{
    lemma_letters();
    lemma_types();
    lemma_picture_types();
}

proof fn lemma_picture_types()
    ensures
        mime_extension("image/jpeg"@) == Some("jpg"@),
        mime_extension("image/png"@) == Some("png"@),
        mime_extension("image/webp"@) == Some("webp"@),
        mime_extension("image/gif"@) == Some("gif"@),
        mime_extension("image/bmp"@) == Some("bmp"@),
        mime_extension("image/tiff"@) == Some("tiff"@),
{
    reveal_strlit("image/jpeg");
    reveal_strlit("image/png");
    reveal_strlit("image/webp");
    reveal_strlit("image/gif");
    reveal_strlit("image/bmp");
    reveal_strlit("image/tiff");
    assert("image/jpeg"@[6] == 'j' && "image/png"@[6] == 'p' && "image/webp"@[6] == 'w'
        && "image/gif"@[6] == 'g' && "image/bmp"@[6] == 'b' && "image/tiff"@[6] == 't');
}

} // verus!
