//! File names: extensions, categories and MIME types.

use crate::file_parser::runtime::{components, path_components};
use crate::text::{
    chars_of, contains_char, last_index, lower, lowercase, opt_text, rfind, same_text, string_of,
    texts,
};
use vstd::prelude::*;
use vstd::slice::slice_subrange;

verus! {

/// What kind of input a file name stands for.
#[derive(Clone, Copy, Debug, PartialEq, Eq, Structural)]
pub enum Category {
    Text,
    Html,
    Pdf,
    Image,
    Audio,
    Video,
    Document,
    Unsupported,
}

/// The last component of a path, when it names a file.
pub open spec fn path_file_name(path: Seq<char>) -> Option<Seq<char>> {
    let parts = components(path);
    if parts.len() == 0 || parts.last() == "/"@ || parts.last() == "."@ || parts.last() == ".."@ {
        None
    } else {
        Some(parts.last())
    }
}

pub fn file_name_of(path: &str) -> (r: Option<String>)
    ensures
        opt_text(r) == path_file_name(path@),
{
    let parts = path_components(path);
    let n = parts.len();
    assert(texts(parts@).len() == n);
    if n == 0 {
        return None;
    }
    assert(texts(parts@).last() == parts@[n - 1]@);
    let last = parts[n - 1].as_str();
    if same_text(last, "/") || same_text(last, ".") || same_text(last, "..") {
        return None;
    }
    Some(parts[n - 1].clone())
}

/// The place of the dot before the extension; a leading dot starts none.
pub open spec fn dot_place(name: Seq<char>) -> Option<nat> {
    match last_index(name, '.') {
        Some(i) => if i > 0 { Some(i) } else { None },
        None => None,
    }
}

/// The lowercase extension of the file that a path names; empty without one.
pub open spec fn path_extension(path: Seq<char>) -> Seq<char> {
    match path_file_name(path) {
        Some(name) => match dot_place(name) {
            Some(i) => lower(name.skip(i as int + 1)),
            None => seq![],
        },
        None => seq![],
    }
}

/// The name of the file without its extension; `document` without a file.
pub open spec fn path_stem(path: Seq<char>) -> Seq<char> {
    match path_file_name(path) {
        Some(name) => match dot_place(name) {
            Some(i) => name.take(i as int),
            None => name,
        },
        None => "document"@,
    }
}

fn find_dot(name: &Vec<char>) -> (r: Option<usize>)
    ensures
        match r {
            Some(i) => dot_place(name@) == Some(i as nat) && i < name.len(),
            None => dot_place(name@) is None,
        },
{
    match rfind(name.as_slice(), '.') {
        Some(i) => if i > 0 { Some(i) } else { None },
        None => None,
    }
}

pub fn extension(path: &str) -> (r: String)
    ensures
        r@ == path_extension(path@),
{
    if let Some(name) = file_name_of(path) {
        let chars = chars_of(name.as_str());
        if let Some(i) = find_dot(&chars) {
            let tail = slice_subrange(chars.as_slice(), i + 1, chars.len());
            assert(tail@ =~= name@.skip(i as int + 1));
            return lowercase(tail);
        }
    }
    let out = String::new();
    assert(out@ =~= seq![]);
    out
}

pub fn file_stem(path: &str) -> (r: String)
    ensures
        r@ == path_stem(path@),
{
    match file_name_of(path) {
        Some(name) => {
            let chars = chars_of(name.as_str());
            match find_dot(&chars) {
                Some(i) => {
                    let head = slice_subrange(chars.as_slice(), 0, i);
                    assert(head@ =~= name@.take(i as int));
                    string_of(head)
                },
                None => name,
            }
        },
        None => "document".to_owned(),
    }
}

/// A usable file name: the last component, without NUL characters.
pub open spec fn usable_name(name: Seq<char>) -> Option<Seq<char>> {
    match path_file_name(name) {
        Some(n) => if n.contains('\0') { None } else { Some(n) },
        None => None,
    }
}

pub fn base_name(name: &str) -> (r: Option<String>)
    ensures
        opt_text(r) == usable_name(name@),
{
    match file_name_of(name) {
        Some(n) => {
            if contains_char(chars_of(n.as_str()).as_slice(), '\0') { None } else { Some(n) }
        },
        None => None,
    }
}

pub open spec fn text_ext(e: Seq<char>) -> bool {
    e == "txt"@ || e == "md"@ || e == "mdx"@ || e == "log"@ || e == "json"@ || e == "yaml"@ || e
        == "yml"@ || e == "toml"@ || e == "xml"@ || e == "rs"@ || e == "ts"@ || e == "tsx"@ || e
        == "js"@ || e == "jsx"@ || e == "py"@ || e == "go"@ || e == "java"@ || e == "c"@ || e
        == "cpp"@ || e == "sh"@ || e == "sql"@
}

pub open spec fn image_ext(e: Seq<char>) -> bool {
    e == "png"@ || e == "jpg"@ || e == "jpeg"@ || e == "webp"@ || e == "gif"@ || e == "bmp"@ || e
        == "tif"@ || e == "tiff"@
}

pub open spec fn audio_ext(e: Seq<char>) -> bool {
    e == "mp3"@ || e == "wav"@ || e == "m4a"@ || e == "aac"@ || e == "flac"@ || e == "ogg"@ || e
        == "opus"@
}

pub open spec fn video_ext(e: Seq<char>) -> bool {
    e == "mp4"@ || e == "webm"@ || e == "mov"@ || e == "mkv"@
}

pub open spec fn document_ext(e: Seq<char>) -> bool {
    e == "doc"@ || e == "docx"@ || e == "docm"@ || e == "ppt"@ || e == "pptx"@ || e == "pptm"@ || e
        == "pps"@ || e == "ppsx"@ || e == "xls"@ || e == "xlsx"@ || e == "xlsm"@ || e == "xlsb"@
        || e == "odt"@ || e == "ods"@ || e == "odp"@ || e == "rtf"@ || e == "epub"@ || e == "csv"@
}

/// The category that an extension stands for.
pub open spec fn ext_category(e: Seq<char>) -> Category {
    if text_ext(e) {
        Category::Text
    } else if e == "html"@ || e == "htm"@ {
        Category::Html
    } else if e == "pdf"@ {
        Category::Pdf
    } else if image_ext(e) {
        Category::Image
    } else if audio_ext(e) {
        Category::Audio
    } else if video_ext(e) {
        Category::Video
    } else if document_ext(e) {
        Category::Document
    } else {
        Category::Unsupported
    }
}

fn is_text_ext(e: &str) -> (b: bool)
    ensures
        b == text_ext(e@),
{
    same_text(e, "txt") || same_text(e, "md") || same_text(e, "mdx") || same_text(e, "log")
        || same_text(e, "json") || same_text(e, "yaml") || same_text(e, "yml") || same_text(e, "toml")
        || same_text(e, "xml") || same_text(e, "rs") || same_text(e, "ts") || same_text(e, "tsx")
        || same_text(e, "js") || same_text(e, "jsx") || same_text(e, "py") || same_text(e, "go")
        || same_text(e, "java") || same_text(e, "c") || same_text(e, "cpp") || same_text(e, "sh")
        || same_text(e, "sql")
}

fn is_image_ext(e: &str) -> (b: bool)
    ensures
        b == image_ext(e@),
{
    same_text(e, "png") || same_text(e, "jpg") || same_text(e, "jpeg") || same_text(e, "webp")
        || same_text(e, "gif") || same_text(e, "bmp") || same_text(e, "tif") || same_text(e, "tiff")
}

fn is_audio_ext(e: &str) -> (b: bool)
    ensures
        b == audio_ext(e@),
{
    same_text(e, "mp3") || same_text(e, "wav") || same_text(e, "m4a") || same_text(e, "aac")
        || same_text(e, "flac") || same_text(e, "ogg") || same_text(e, "opus")
}

fn is_video_ext(e: &str) -> (b: bool)
    ensures
        b == video_ext(e@),
{
    same_text(e, "mp4") || same_text(e, "webm") || same_text(e, "mov") || same_text(e, "mkv")
}

fn is_document_ext(e: &str) -> (b: bool)
    ensures
        b == document_ext(e@),
{
    same_text(e, "doc") || same_text(e, "docx") || same_text(e, "docm") || same_text(e, "ppt")
        || same_text(e, "pptx") || same_text(e, "pptm") || same_text(e, "pps") || same_text(e, "ppsx")
        || same_text(e, "xls") || same_text(e, "xlsx") || same_text(e, "xlsm") || same_text(e, "xlsb")
        || same_text(e, "odt") || same_text(e, "ods") || same_text(e, "odp") || same_text(e, "rtf")
        || same_text(e, "epub") || same_text(e, "csv")
}

pub fn category_for(name: &str) -> (r: Category)
    ensures
        r == ext_category(path_extension(name@)),
{
    let ext = extension(name);
    let e = ext.as_str();
    if is_text_ext(e) {
        Category::Text
    } else if same_text(e, "html") || same_text(e, "htm") {
        Category::Html
    } else if same_text(e, "pdf") {
        Category::Pdf
    } else if is_image_ext(e) {
        Category::Image
    } else if is_audio_ext(e) {
        Category::Audio
    } else if is_video_ext(e) {
        Category::Video
    } else if is_document_ext(e) {
        Category::Document
    } else {
        Category::Unsupported
    }
}

pub open spec fn category_name(c: Category) -> Seq<char> {
    match c {
        Category::Text => "text"@,
        Category::Html => "html"@,
        Category::Pdf => "pdf"@,
        Category::Image => "image"@,
        Category::Audio => "audio"@,
        Category::Video => "video"@,
        Category::Document => "document"@,
        Category::Unsupported => "unsupported"@,
    }
}

impl Category {
    pub fn name(self) -> (r: &'static str)
        ensures
            r@ == category_name(self),
    {
        match self {
            Category::Text => "text",
            Category::Html => "html",
            Category::Pdf => "pdf",
            Category::Image => "image",
            Category::Audio => "audio",
            Category::Video => "video",
            Category::Document => "document",
            Category::Unsupported => "unsupported",
        }
    }
}

pub open spec fn ext_mime(e: Seq<char>) -> Seq<char> {
    if e == "pdf"@ {
        "application/pdf"@
    } else if e == "png"@ {
        "image/png"@
    } else if e == "jpg"@ || e == "jpeg"@ {
        "image/jpeg"@
    } else if e == "webp"@ {
        "image/webp"@
    } else if e == "html"@ || e == "htm"@ {
        "text/html"@
    } else if e == "md"@ || e == "mdx"@ {
        "text/markdown"@
    } else if e == "txt"@ {
        "text/plain"@
    } else if e == "mp3"@ {
        "audio/mpeg"@
    } else if e == "wav"@ {
        "audio/wav"@
    } else if e == "mp4"@ {
        "video/mp4"@
    } else {
        "application/octet-stream"@
    }
}

pub fn mime_for(name: &str) -> (r: &'static str)
    ensures
        r@ == ext_mime(path_extension(name@)),
{
    let ext = extension(name);
    let e = ext.as_str();
    if same_text(e, "pdf") {
        "application/pdf"
    } else if same_text(e, "png") {
        "image/png"
    } else if same_text(e, "jpg") || same_text(e, "jpeg") {
        "image/jpeg"
    } else if same_text(e, "webp") {
        "image/webp"
    } else if same_text(e, "html") || same_text(e, "htm") {
        "text/html"
    } else if same_text(e, "md") || same_text(e, "mdx") {
        "text/markdown"
    } else if same_text(e, "txt") {
        "text/plain"
    } else if same_text(e, "mp3") {
        "audio/mpeg"
    } else if same_text(e, "wav") {
        "audio/wav"
    } else if same_text(e, "mp4") {
        "video/mp4"
    } else {
        "application/octet-stream"
    }
}

/// A usable name is a plain component: no separators and nothing special.
pub proof fn law_usable_names_are_plain(name: Seq<char>)
    ensures
        usable_name(name) matches Some(n) ==> n.len() > 0 && !n.contains('/') && !n.contains('\0')
            && n != "."@ && n != ".."@,
{
    if usable_name(name) is Some {
        lemma_components_plain(name);
        let parts = components(name);
        let n = parts.last();
        assert(parts[parts.len() - 1] == n);
        assert(crate::file_parser::runtime::components(name) == parts);
    }
}

proof fn lemma_split_pieces(s: Seq<char>, c: char)
    ensures
        forall|i: int|
            0 <= i < crate::text::split(s, c).len() ==> !(#[trigger] crate::text::split(
                s,
                c,
            )[i]).contains(c),
    decreases s.len(),
{
    crate::text::lemma_until(s, c);
    let n = crate::text::until(s, c) as int;
    let all = crate::text::split(s, c);
    if n < s.len() {
        lemma_split_pieces(s.skip(n + 1), c);
        let rest = crate::text::split(s.skip(n + 1), c);
        assert forall|i: int| 0 <= i < all.len() implies !(#[trigger] all[i]).contains(c) by {
            if i == 0 {
                assert(all[0] == s.take(n));
            } else {
                assert(all[i] == rest[i - 1]);
            }
        }
    } else {
        assert(all[0] == s);
    }
}

proof fn lemma_components_upto_plain(parts: Seq<Seq<char>>, absolute: bool, n: nat)
    requires
        n <= parts.len(),
        forall|i: int| 0 <= i < parts.len() ==> !(#[trigger] parts[i]).contains('/'),
    ensures
        forall|i: int|
            0 <= i < crate::file_parser::runtime::components_upto(parts, absolute, n).len() ==> {
                let p = #[trigger] crate::file_parser::runtime::components_upto(
                    parts,
                    absolute,
                    n,
                )[i];
                p == "/"@ || (p.len() > 0 && !p.contains('/'))
            },
    decreases n,
{
    if n > 0 {
        lemma_components_upto_plain(parts, absolute, (n - 1) as nat);
        let before = crate::file_parser::runtime::components_upto(
            parts,
            absolute,
            (n - 1) as nat,
        );
        let now = crate::file_parser::runtime::components_upto(parts, absolute, n);
        assert forall|i: int| 0 <= i < now.len() implies {
            let p = #[trigger] now[i];
            p == "/"@ || (p.len() > 0 && !p.contains('/'))
        } by {
            if i < before.len() {
                assert(now[i] == before[i]);
            } else {
                assert(now[i] == parts[n - 1]);
            }
        }
    }
}

proof fn lemma_components_plain(name: Seq<char>)
    ensures
        forall|i: int|
            0 <= i < components(name).len() ==> {
                let p = #[trigger] components(name)[i];
                p == "/"@ || (p.len() > 0 && !p.contains('/'))
            },
{
    let parts = crate::text::split(name, '/');
    lemma_split_pieces(name, '/');
    lemma_components_upto_plain(parts, name.len() > 0 && name[0] == '/', parts.len());
}

} // verus!
