//! OCR post-pass for images embedded in documents.
//!
//! Every unique image is sent to the configured provider, downscaled first when
//! oversized. Failures never abort the conversion.

use crate::ocr::provider::{OcrCall, OcrError, OcrOptions, OcrOutput, OcrRequest};
use crate::ocr::scaling::{scale_side, scaled};
use crate::render::inline::trailing_backslashes;
use crate::text::{
    chars_of, copy_bytes, copy_opt, decimal, is_alnum_char, is_ascii_alphanumeric, is_line, join,
    joined, last_index, lemma_decimal_digits, lemma_lines_have_no_feed, lemma_lines_joined, lemma_trim_end_shape, lines,
    lines_of, opt_text, push_chars, push_decimal, rfind, same_text, starts_with, string_of, texts, trim,
    trim_end, trim_end_of, trim_of, words, words_of,
};
use vstd::prelude::*;
use vstd::slice::slice_subrange;

verus! {

broadcast use crate::text::lemma_texts_push;

/// Result of recognizing one unique image.
#[derive(Debug)]
pub enum OcrOutcome {
    /// Recognized text.
    Text(String),
    /// The provider failed or ran out of time.
    Failed,
}

impl OcrOutcome {
    /// The recognized text, if there is any.
    pub open spec fn text(self) -> Option<Seq<char>> {
        match self {
            OcrOutcome::Text(text) => Some(text@),
            OcrOutcome::Failed => None,
        }
    }

    pub fn duplicate(&self) -> (r: OcrOutcome)
        ensures
            r.text() == self.text(),
    {
        match self {
            OcrOutcome::Text(text) => OcrOutcome::Text(text.clone()),
            OcrOutcome::Failed => OcrOutcome::Failed,
        }
    }
}

// ---------------------------------------------------------------------------
// Alt text
// ---------------------------------------------------------------------------
/// All white space runs collapsed to single spaces.
pub open spec fn flat(s: Seq<char>) -> Seq<char> {
    joined(words(s), " "@)
}

pub open spec fn is_bracket(c: char) -> bool {
    c == '[' || c == ']'
}

/// The text with a backslash before every bracket that has none that escapes it yet.
pub open spec fn brackets_escaped(s: Seq<char>) -> Seq<char>
    decreases s.len(),
{
    if s.len() == 0 {
        seq![]
    } else {
        let before = brackets_escaped(s.drop_last());
        let c = s.last();
        if is_bracket(c) && trailing_backslashes(s.drop_last()) % 2 == 0 {
            before.push('\\').push(c)
        } else {
            before.push(c)
        }
    }
}

/// Which characters of an escaped text were added to it.
pub open spec fn added_marks(s: Seq<char>) -> Seq<bool>
    decreases s.len(),
{
    if s.len() == 0 {
        seq![]
    } else {
        let before = added_marks(s.drop_last());
        if is_bracket(s.last()) && trailing_backslashes(s.drop_last()) % 2 == 0 {
            before.push(true).push(false)
        } else {
            before.push(false)
        }
    }
}

/// The characters without a mark.
pub open spec fn unmarked(s: Seq<char>, marks: Seq<bool>) -> Seq<char>
    decreases s.len(),
{
    if s.len() == 0 {
        seq![]
    } else {
        let before = unmarked(s.drop_last(), marks.drop_last());
        if marks.last() { before } else { before.push(s.last()) }
    }
}

proof fn lemma_escaped_backslashes(s: Seq<char>)
    ensures
        trailing_backslashes(brackets_escaped(s)) == trailing_backslashes(s),
    decreases s.len(),
{
    if s.len() > 0 {
        let before = brackets_escaped(s.drop_last());
        lemma_escaped_backslashes(s.drop_last());
        if s.last() == '\\' {
            assert(brackets_escaped(s).drop_last() =~= before);
        }
    }
}

/// No bracket of an escaped text is bare: an odd number of backslashes stands before
/// each of them, so that none can close the label around the text.
pub proof fn law_brackets_are_escaped(s: Seq<char>)
    ensures
        forall|k: int|
            0 <= k < brackets_escaped(s).len() && is_bracket(#[trigger] brackets_escaped(s)[k])
                ==> trailing_backslashes(brackets_escaped(s).take(k)) % 2 == 1,
    decreases s.len(),
{
    if s.len() > 0 {
        let head = s.drop_last();
        let before = brackets_escaped(head);
        let all = brackets_escaped(s);
        law_brackets_are_escaped(head);
        lemma_escaped_backslashes(head);
        assert forall|k: int| 0 <= k < all.len() && is_bracket(#[trigger] all[k]) implies
            trailing_backslashes(all.take(k)) % 2 == 1 by {
            if k < before.len() {
                assert(all[k] == before[k]);
                assert(all.take(k) =~= before.take(k));
            } else if k == all.len() - 1 {
                if is_bracket(s.last()) && trailing_backslashes(head) % 2 == 0 {
                    assert(all.take(k) =~= before.push('\\'));
                    assert(before.push('\\').drop_last() =~= before);
                } else {
                    assert(all.take(k) =~= before);
                }
            }
        }
    }
}

/// Escaping only adds backslashes: without them the text is as it was.
pub proof fn law_escaping_adds_only_backslashes(s: Seq<char>)
    ensures
        added_marks(s).len() == brackets_escaped(s).len(),
        unmarked(brackets_escaped(s), added_marks(s)) == s,
        forall|k: int|
            0 <= k < added_marks(s).len() && #[trigger] added_marks(s)[k] ==> brackets_escaped(s)[k]
                == '\\',
    decreases s.len(),
{
    if s.len() > 0 {
        let head = s.drop_last();
        let before = brackets_escaped(head);
        let marks = added_marks(head);
        law_escaping_adds_only_backslashes(head);
        let all = brackets_escaped(s);
        let now = added_marks(s);
        assert forall|k: int| 0 <= k < now.len() && #[trigger] now[k] implies all[k] == '\\' by {
            if k < before.len() {
                assert(now[k] == marks[k] && all[k] == before[k]);
            }
        }
        if is_bracket(s.last()) && trailing_backslashes(head) % 2 == 0 {
            assert(all.drop_last() =~= before.push('\\'));
            assert(now.drop_last() =~= marks.push(true));
            assert(before.push('\\').drop_last() =~= before);
            assert(marks.push(true).drop_last() =~= marks);
            assert(unmarked(before.push('\\'), marks.push(true)) == head);
        } else {
            assert(all.drop_last() =~= before);
            assert(now.drop_last() =~= marks);
        }
        assert(head.push(s.last()) =~= s);
    }
}

/// The alt text of an embedded image: a fixed prefix with the figure number,
/// then the document's own alt when there is one.
pub open spec fn alt_text(original: Seq<char>, number: Option<usize>) -> Seq<char> {
    let label = match number {
        Some(n) => "图片"@ + decimal(n as nat),
        None => "图片"@,
    };
    if flat(original).len() == 0 {
        label
    } else {
        label + "："@ + brackets_escaped(flat(original))
    }
}

/// Collapses all white space runs to single spaces.
pub fn flatten(text: &str) -> (r: String)
    ensures
        r@ == flat(text@),
{
    join(&words_of(chars_of(text).as_slice()), " ")
}

/// Appends a text with its brackets escaped, so that it cannot close the label that
/// it stands in.
pub fn push_escaped(out: &mut String, text: &str)
    ensures
        final(out)@ == old(out)@ + brackets_escaped(text@),
{
    let chars = chars_of(text);
    let ghost before = out@;
    let mut backslashes: usize = 0;
    for i in 0..chars.len()
        invariant
            chars@ == text@,
            out@ == before + brackets_escaped(chars@.take(i as int)),
            backslashes == trailing_backslashes(chars@.take(i as int)),
            backslashes <= i,
    {
        let c = chars[i];
        assert(chars@.take(i + 1).drop_last() =~= chars@.take(i as int));
        if (c == '[' || c == ']') && backslashes % 2 == 0 {
            out.push('\\');
        }
        out.push(c);
        if c == '\\' {
            backslashes = backslashes + 1;
        } else {
            backslashes = 0;
        }
        assert(out@ =~= before + brackets_escaped(chars@.take(i + 1)));
    }
    assert(chars@.take(chars@.len() as int) =~= chars@);
}

/// Composes the alt text for an embedded image. Recognized text never goes in
/// here: it is emitted as a separate [`ocr_annotation`] block.
pub fn compose_alt(original_alt: &str, number: Option<usize>) -> (r: String)
    ensures
        r@ == alt_text(original_alt@, number),
{
    let mut alt = "图片".to_owned();
    if let Some(n) = number {
        push_decimal(&mut alt, n as u64);
    }
    let original = flatten(original_alt);
    if chars_of(original.as_str()).len() > 0 {
        alt.push_str("：");
        push_escaped(&mut alt, original.as_str());
    }
    alt
}

// ---------------------------------------------------------------------------
// Annotations
// ---------------------------------------------------------------------------
/// One line of a block quote.
pub open spec fn quote_line(line: Seq<char>) -> Seq<char> {
    if trim_end(line).len() == 0 { ">"@ } else { "> "@ + trim_end(line) }
}

pub open spec fn quoted(body: Seq<Seq<char>>) -> Seq<Seq<char>> {
    Seq::new(body.len(), |i: int| quote_line(body[i]))
}

/// The text that an annotation quotes.
pub open spec fn annotation_body(text: Option<Seq<char>>) -> Seq<char> {
    match text {
        Some(t) => if trim(t).len() > 0 { trim(t) } else { "（OCR识别失败）"@ },
        None => "（OCR识别失败）"@,
    }
}

/// The first line of an annotation block, for the figure with the given number.
pub open spec fn annotation_head(label: Seq<char>) -> Seq<char> {
    "> 图片"@ + label + "的OCR解析结果如下："@
}

/// The lines of an annotation block.
pub open spec fn annotation_lines(label: Seq<char>, text: Option<Seq<char>>) -> Seq<Seq<char>> {
    seq![annotation_head(label), ">"@] + quoted(lines(annotation_body(text)))
}

/// The annotation block for a figure whose number is written `label`.
pub open spec fn figure_annotation(label: Seq<char>, text: Option<Seq<char>>) -> Seq<char> {
    joined(annotation_lines(label, text), "\n"@)
}

pub open spec fn annotation(number: usize, text: Option<Seq<char>>) -> Seq<char> {
    figure_annotation(decimal(number as nat), text)
}

/// The annotation block that follows an OCR'd image: the recognized text quoted
/// line by line, so that nothing in it can restructure the document around it.
pub fn ocr_annotation(number: usize, outcome: &OcrOutcome) -> (r: String)
    ensures
        r@ == annotation(number, outcome.text()),
{
    let mut label = String::new();
    push_decimal(&mut label, number as u64);
    assert(label@ =~= decimal(number as nat));
    annotate_figure(label.as_str(), outcome)
}

/// Like [`ocr_annotation`], for a figure whose number is already written out.
pub fn annotate_figure(label: &str, outcome: &OcrOutcome) -> (r: String)
    ensures
        r@ == figure_annotation(label@, outcome.text()),
{
    let failed = chars_of("（OCR识别失败）");
    let recognized: Vec<char> = match outcome {
        OcrOutcome::Text(text) => chars_of(text.as_str()),
        OcrOutcome::Failed => Vec::new(),
    };
    let trimmed = trim_of(recognized.as_slice());
    let body = if trimmed.len() > 0 { lines_of(trimmed) } else { lines_of(failed.as_slice()) };
    let ghost source = lines(annotation_body(outcome.text()));
    proof {
        if outcome is Failed {
            assert(trim(recognized@) =~= recognized@);
        }
        assert(texts(body@) == source);
    }
    let mut head = "> 图片".to_owned();
    head.push_str(label);
    head.push_str("的OCR解析结果如下：");
    let mut parts: Vec<String> = Vec::new();
    parts.push(head);
    parts.push(">".to_owned());
    let ghost opening = seq![annotation_head(label@), ">"@];
    assert(texts(parts@) =~= opening + quoted(source.take(0)));
    for i in 0..body.len()
        invariant
            texts(body@) == source,
            texts(parts@) == opening + quoted(source.take(i as int)),
    {
        let chars = chars_of(body[i].as_str());
        let line = trim_end_of(chars.as_slice());
        let ghost before = parts@;
        assert(source[i as int] == body@[i as int]@);
        let mut part = String::new();
        if line.len() == 0 {
            part.push_str(">");
        } else {
            part.push_str("> ");
            push_chars(&mut part, line);
        }
        assert(part@ =~= quote_line(source[i as int]));
        parts.push(part);
        assert(quoted(source.take(i + 1)) =~= quoted(source.take(i as int)).push(
            quote_line(source[i as int]),
        ));
        assert(texts(parts@) =~= opening + quoted(source.take(i + 1)));
    }
    assert(source.take(source.len() as int) =~= source);
    join(&parts, "\n")
}

/// A line that is part of a block quote.
pub open spec fn is_quote(line: Seq<char>) -> bool {
    line == ">"@ || starts_with(line, "> "@)
}

/// Every line of an annotation is quoted: nothing in the recognized text can
/// open a heading, a table or any other block at the document level.
pub proof fn law_annotation_is_quoted(number: usize, text: Option<Seq<char>>)
    ensures
        lines(annotation(number, text)) == annotation_lines(decimal(number as nat), text),
        forall|i: int|
            0 <= i < lines(annotation(number, text)).len() ==> is_quote(
                #[trigger] lines(annotation(number, text))[i],
            ),
{
    reveal_strlit("\n");
    let label = decimal(number as nat);
    lemma_decimal_digits(number as nat);
    assert(!label.contains('\n')) by {
        if label.contains('\n') {
            let k = choose|k: int| 0 <= k < label.len() && label[k] == '\n';
        }
    }
    lemma_figure_annotation_is_quoted(label, text);
}

pub(crate) proof fn lemma_figure_annotation_is_quoted(label: Seq<char>, text: Option<Seq<char>>)
    requires
        !label.contains('\n'),
    ensures
        lines(figure_annotation(label, text)) == annotation_lines(label, text),
        forall|i: int|
            0 <= i < lines(figure_annotation(label, text)).len() ==> is_quote(
                #[trigger] lines(figure_annotation(label, text))[i],
            ),
{
    reveal_strlit("> 图片");
    reveal_strlit("的OCR解析结果如下：");
    reveal_strlit(">");
    reveal_strlit("> ");
    reveal_strlit("\n");
    let body = lines(annotation_body(text));
    let all = annotation_lines(label, text);
    let head = annotation_head(label);
    lemma_lines_have_no_feed(annotation_body(text));
    assert(all[0] == head);
    assert(head.subrange(0, 2) =~= "> "@);
    assert forall|i: int| 0 <= i < all.len() implies is_line(#[trigger] all[i]) && all[i].len() > 0
        && is_quote(all[i]) by {
        if i == 0 {
            assert(!head.contains('\n')) by {
                if head.contains('\n') {
                    let k = choose|k: int| 0 <= k < head.len() && head[k] == '\n';
                    if 4 <= k < 4 + label.len() {
                        assert(head[k] == label[k - 4]);
                    }
                }
            }
        } else if i >= 2 {
            let line = body[i - 2];
            assert(all[i] == quote_line(line));
            lemma_trim_end_shape(line);
            if trim_end(line).len() > 0 {
                let q = quote_line(line);
                assert(q.subrange(0, 2) =~= "> "@);
                assert(q.last() == trim_end(line).last());
                if q.contains('\n') {
                    let k = choose|k: int| 0 <= k < q.len() && q[k] == '\n';
                    assert(q[k] == trim_end(line)[k - 2]);
                    assert(line[k - 2] == '\n');
                }
            }
        }
    }
    assert("\n"@ =~= seq!['\n']);
    lemma_lines_joined(all, "\n"@);
}

// ---------------------------------------------------------------------------
// File names
// ---------------------------------------------------------------------------
/// One to five ASCII letters and digits.
pub open spec fn is_extension(s: Seq<char>) -> bool {
    1 <= s.len() <= 5 && forall|i: int| 0 <= i < s.len() ==> is_alnum_char(#[trigger] s[i])
}

/// `name` with its extension replaced, or with one appended.
pub open spec fn with_extension(name: Seq<char>, ext: Seq<char>) -> Seq<char> {
    match last_index(name, '.') {
        Some(i) => if is_extension(name.skip(i as int + 1)) {
            name.take(i as int).push('.') + ext
        } else {
            name.push('.') + ext
        },
        None => name.push('.') + ext,
    }
}

fn looks_like_extension(s: &[char]) -> (b: bool)
    ensures
        b == is_extension(s@),
{
    if s.len() < 1 || s.len() > 5 {
        return false;
    }
    for i in 0..s.len()
        invariant
            forall|j: int| 0 <= j < i ==> is_alnum_char(#[trigger] s@[j]),
    {
        if !is_ascii_alphanumeric(s[i]) {
            return false;
        }
    }
    true
}

/// Points `name` at the given extension, so that inference from the extension
/// matches the actual bytes.
pub fn replace_extension(name: &str, ext: &str) -> (r: String)
    ensures
        r@ == with_extension(name@, ext@),
{
    let chars = chars_of(name);
    let mut end: usize = chars.len();
    if let Some(i) = rfind(chars.as_slice(), '.') {
        let tail = slice_subrange(chars.as_slice(), i + 1, chars.len());
        assert(tail@ =~= name@.skip(i as int + 1));
        if looks_like_extension(tail) {
            end = i;
        }
    }
    let mut out = string_of(slice_subrange(chars.as_slice(), 0, end));
    assert(out@ =~= name@.take(end as int));
    assert(name@.take(name@.len() as int) =~= name@);
    out.push('.');
    out.push_str(ext);
    out
}

/// Extension for well-known image mime types.
pub open spec fn mime_extension(mime: Seq<char>) -> Option<Seq<char>> {
    if mime == "image/jpeg"@ {
        Some("jpg"@)
    } else if mime == "image/png"@ {
        Some("png"@)
    } else if mime == "image/webp"@ {
        Some("webp"@)
    } else if mime == "image/gif"@ {
        Some("gif"@)
    } else if mime == "image/bmp"@ {
        Some("bmp"@)
    } else if mime == "image/tiff"@ {
        Some("tiff"@)
    } else if mime == "image/jp2"@ || mime == "image/jpx"@ {
        Some("jp2"@)
    } else {
        None
    }
}

pub open spec fn str_view(s: Option<&'static str>) -> Option<Seq<char>> {
    match s {
        Some(t) => Some(t@),
        None => None,
    }
}

fn ext_for_mime(mime: &str) -> (r: Option<&'static str>)
    ensures
        str_view(r) == mime_extension(mime@),
{
    if same_text(mime, "image/jpeg") {
        Some("jpg")
    } else if same_text(mime, "image/png") {
        Some("png")
    } else if same_text(mime, "image/webp") {
        Some("webp")
    } else if same_text(mime, "image/gif") {
        Some("gif")
    } else if same_text(mime, "image/bmp") {
        Some("bmp")
    } else if same_text(mime, "image/tiff") {
        Some("tiff")
    } else if same_text(mime, "image/jp2") || same_text(mime, "image/jpx") {
        Some("jp2")
    } else {
        None
    }
}

/// The file name of an image, with the extension of its mime type.
pub open spec fn image_name(name: Seq<char>, mime: Seq<char>) -> Seq<char> {
    match mime_extension(mime) {
        Some(ext) => with_extension(name, ext),
        None => name,
    }
}

/// Makes sure that a file name carries an image extension matching its mime type.
pub fn ensure_image_extension(name: &str, mime: &str) -> (r: String)
    ensures
        r@ == image_name(name@, mime@),
{
    match ext_for_mime(mime) {
        Some(ext) => replace_extension(name, ext),
        None => name.to_owned(),
    }
}

// ---------------------------------------------------------------------------
// The pass
// ---------------------------------------------------------------------------
/// Knobs for the embedded-image OCR pass.
#[derive(Clone, Copy, Debug)]
pub struct ImageOcrConfig {
    /// Whether the pass runs at all.
    pub enabled: bool,
    /// Images whose long side exceeds this are downscaled to it before OCR.
    pub max_dimension: u32,
    /// Maximum in-flight OCR requests.
    pub concurrency: usize,
    /// Per-image budget for the provider call, in milliseconds.
    pub timeout_ms: u64,
}

/// One image up for recognition: bytes plus a file name whose extension feeds
/// the provider's mime inference.
#[derive(Debug)]
pub struct OcrImage {
    pub bytes: Vec<u8>,
    pub file_name: String,
}

/// The SHA-256 digest of a byte string.
pub uninterp spec fn sha256(bytes: Seq<u8>) -> Seq<u8>;

/// Calls `sha2::Sha256::digest`.
///
/// Taken on trust: the digest depends on the bytes alone.
#[verifier::external_body]
pub(crate) fn sha256_digest(bytes: &[u8]) -> (r: [u8; 32])
    ensures
        r@ == sha256(bytes@),
{
    <sha2::Sha256 as sha2::Digest>::digest(bytes).into()
}

/// SHA-256 of the original bytes: the dedup and outcome-lookup key.
pub fn content_hash(bytes: &[u8]) -> (r: [u8; 32])
    ensures
        r@ == sha256(bytes@),
{
    sha256_digest(bytes)
}

/// One unique image to recognize.
#[derive(Debug)]
pub struct OcrTask {
    /// Digest of the original bytes.
    pub hash: [u8; 32],
    /// Place of the image in the list it came from.
    pub index: usize,
}

pub open spec fn hash_at(images: Seq<OcrImage>, i: int) -> Seq<u8> {
    sha256(images[i].bytes@)
}

/// The digest at `i` does not occur before.
pub open spec fn is_first(images: Seq<OcrImage>, i: int) -> bool {
    forall|j: int| 0 <= j < i ==> #[trigger] hash_at(images, j) != hash_at(images, i)
}

/// The places of the first `n` images that hold content not seen before.
pub open spec fn unique_upto(images: Seq<OcrImage>, n: nat) -> Seq<usize>
    decreases n,
{
    if n == 0 {
        seq![]
    } else {
        let before = unique_upto(images, (n - 1) as nat);
        if is_first(images, n - 1) { before.push((n - 1) as usize) } else { before }
    }
}

pub open spec fn pass_runs(images: Seq<OcrImage>, config: ImageOcrConfig, has_provider: bool) -> bool {
    has_provider && config.enabled && images.len() > 0
}

/// The places of the images that are sent to the provider.
pub open spec fn planned(images: Seq<OcrImage>, config: ImageOcrConfig, has_provider: bool) -> Seq<
    usize,
> {
    if pass_runs(images, config, has_provider) {
        unique_upto(images, images.len())
    } else {
        seq![]
    }
}

/// The tasks name these places, each with the digest of its image.
pub open spec fn tasks_for(tasks: Seq<OcrTask>, images: Seq<OcrImage>, places: Seq<usize>) -> bool {
    &&& tasks.len() == places.len()
    &&& forall|k: int|
        0 <= k < tasks.len() ==> (#[trigger] tasks[k]).index == places[k] && tasks[k].index
            < images.len() && tasks[k].hash@ == hash_at(images, tasks[k].index as int)
}

/// Same bytes, same text: one provider call for each unique image. Every task
/// has a digest of its own, and every image's digest has a task.
pub proof fn law_each_content_is_sent_once(images: Seq<OcrImage>, n: nat)
    requires
        n <= images.len() <= usize::MAX,
    ensures
        forall|k: int|
            0 <= k < unique_upto(images, n).len() ==> #[trigger] unique_upto(images, n)[k] < n,
        forall|j: int, k: int|
            0 <= j < k < unique_upto(images, n).len() ==> hash_at(
                images,
                #[trigger] unique_upto(images, n)[j] as int,
            ) != hash_at(images, #[trigger] unique_upto(images, n)[k] as int),
        forall|i: int|
            0 <= i < n ==> exists|k: int|
                0 <= k < unique_upto(images, n).len() && #[trigger] hash_at(images, i) == hash_at(
                    images,
                    #[trigger] unique_upto(images, n)[k] as int,
                ),
    decreases n,
{
    if n > 0 {
        law_each_content_is_sent_once(images, (n - 1) as nat);
        let before = unique_upto(images, (n - 1) as nat);
        let now = unique_upto(images, n);
        let last = n - 1;
        assert forall|j: int, k: int| 0 <= j < k < now.len() implies hash_at(
            images,
            #[trigger] now[j] as int,
        ) != hash_at(images, #[trigger] now[k] as int) by {
            assert(now[j] == before[j]);
            if k < before.len() {
                assert(now[k] == before[k]);
            } else {
                assert(before[j] < n - 1);
            }
        }
        assert forall|i: int| 0 <= i < n implies exists|k: int|
            0 <= k < now.len() && #[trigger] hash_at(images, i) == hash_at(
                images,
                #[trigger] now[k] as int,
            ) by {
            if i < last {
                let k = choose|k: int|
                    0 <= k < before.len() && hash_at(images, i) == hash_at(
                        images,
                        #[trigger] before[k] as int,
                    );
                assert(now[k] == before[k]);
            } else if is_first(images, last) {
                assert(now[before.len() as int] == last);
            } else {
                let j = choose|j: int|
                    0 <= j < last && #[trigger] hash_at(images, j) == hash_at(images, last);
                let k = choose|k: int|
                    0 <= k < before.len() && hash_at(images, j) == hash_at(
                        images,
                        #[trigger] before[k] as int,
                    );
                assert(now[k] == before[k]);
            }
        }
    }
}

fn seen_before(tasks: &Vec<OcrTask>, hash: &[u8; 32], images: Ghost<Seq<OcrImage>>, n: Ghost<nat>) -> (b:
    bool)
    requires
        n@ <= images@.len() <= usize::MAX,
        tasks_for(tasks@, images@, unique_upto(images@, n@)),
    ensures
        b == exists|j: int| 0 <= j < n@ && #[trigger] hash_at(images@, j) == hash@,
{
    proof {
        law_each_content_is_sent_once(images@, n@);
    }
    for k in 0..tasks.len()
        invariant
            tasks_for(tasks@, images@, unique_upto(images@, n@)),
            forall|m: int|
                0 <= m < unique_upto(images@, n@).len() ==> #[trigger] unique_upto(images@, n@)[m]
                    < n@,
            forall|m: int| 0 <= m < k ==> (#[trigger] tasks@[m]).hash@ != hash@,
    {
        if crate::text::same_bytes(tasks[k].hash.as_slice(), hash.as_slice()) {
            assert(unique_upto(images@, n@)[k as int] < n@);
            assert(hash_at(images@, tasks@[k as int].index as int) == hash@);
            return true;
        }
    }
    proof {
        assert forall|j: int| 0 <= j < n@ implies #[trigger] hash_at(images@, j) != hash@ by {
            let k = choose|k: int|
                0 <= k < unique_upto(images@, n@).len() && hash_at(images@, j) == hash_at(
                    images@,
                    #[trigger] unique_upto(images@, n@)[k] as int,
                );
            assert(tasks@[k].hash@ == hash_at(images@, j));
        }
    }
    false
}

/// Picks the images to recognize, deduped by digest. Images that are skipped
/// (pass disabled, duplicate, no provider) get no task.
pub fn plan_image_ocr(images: &Vec<OcrImage>, config: &ImageOcrConfig, has_provider: bool) -> (r: Vec<
    OcrTask,
>)
    ensures
        tasks_for(r@, images@, planned(images@, *config, has_provider)),
{
    let mut tasks: Vec<OcrTask> = Vec::new();
    if !has_provider || !config.enabled || images.len() == 0 {
        return tasks;
    }
    for i in 0..images.len()
        invariant
            tasks_for(tasks@, images@, unique_upto(images@, i as nat)),
    {
        let hash = content_hash(images[i].bytes.as_slice());
        assert(hash@ == hash_at(images@, i as int));
        let ghost before = tasks@;
        if !seen_before(&tasks, &hash, Ghost(images@), Ghost(i as nat)) {
            assert(is_first(images@, i as int));
            tasks.push(OcrTask { hash, index: i });
            assert forall|k: int| 0 <= k < tasks@.len() implies (#[trigger] tasks@[k]).index
                == unique_upto(images@, (i + 1) as nat)[k] && tasks@[k].index < images@.len()
                && tasks@[k].hash@ == hash_at(images@, tasks@[k].index as int) by {
                if k < before.len() {
                    assert(tasks@[k] == before[k]);
                }
            }
        } else {
            assert(!is_first(images@, i as int));
        }
    }
    tasks
}

/// How the recognition of one image ended.
#[derive(Debug)]
pub enum Recognition {
    /// The provider answered.
    Answered(OcrOutput),
    /// The provider failed.
    Refused(OcrError),
    /// The per-image budget ran out.
    TimedOut,
    /// The image could not be prepared.
    Unprepared,
}

pub open spec fn recognized_text(event: Recognition) -> Option<Seq<char>> {
    match event {
        Recognition::Answered(output) => Some(output.markdown@),
        _ => None,
    }
}

/// The outcome of one image; every failure is the same to the caller.
pub fn outcome_of(event: Recognition) -> (r: OcrOutcome)
    ensures
        r.text() == recognized_text(event),
{
    match event {
        Recognition::Answered(output) => OcrOutcome::Text(output.markdown),
        _ => OcrOutcome::Failed,
    }
}

/// The provider call for one image.
pub fn image_call(bytes: Vec<u8>, file_name: String, language: &Option<String>) -> (r: OcrCall)
    ensures
        r.is_for(bytes@, file_name@, opt_text(*language), seq![]),
{
    OcrCall {
        request: OcrRequest { bytes, file_name, language: copy_opt(language) },
        options: OcrOptions { language: copy_opt(language), page_numbers: Vec::new() },
    }
}

/// Outcomes by digest of the original bytes.
#[derive(Debug)]
pub struct ImageOutcomes {
    entries: Vec<([u8; 32], OcrOutcome)>,
}

pub open spec fn entries_map(entries: Seq<([u8; 32], OcrOutcome)>) -> Map<
    Seq<u8>,
    Option<Seq<char>>,
>
    decreases entries.len(),
{
    if entries.len() == 0 {
        Map::empty()
    } else {
        entries_map(entries.drop_last()).insert(entries.last().0@, entries.last().1.text())
    }
}

impl View for ImageOutcomes {
    type V = Map<Seq<u8>, Option<Seq<char>>>;

    closed spec fn view(&self) -> Map<Seq<u8>, Option<Seq<char>>> {
        entries_map(self.entries@)
    }
}

impl ImageOutcomes {
    pub fn new() -> (r: Self)
        ensures
            r@ == Map::<Seq<u8>, Option<Seq<char>>>::empty(),
    {
        ImageOutcomes { entries: Vec::new() }
    }

    /// Records the outcome of an image; a later one replaces an earlier one.
    pub fn insert(&mut self, hash: [u8; 32], outcome: OcrOutcome)
        ensures
            final(self)@ == old(self)@.insert(hash@, outcome.text()),
    {
        let ghost before = self.entries@;
        self.entries.push((hash, outcome));
        assert(self.entries@.drop_last() =~= before);
    }

    /// The outcome for the image with these bytes.
    pub fn lookup(&self, bytes: &[u8]) -> (r: Option<OcrOutcome>)
        ensures
            match r {
                Some(outcome) => self@.dom().contains(sha256(bytes@)) && self@[sha256(bytes@)]
                    == outcome.text(),
                None => !self@.dom().contains(sha256(bytes@)),
            },
    {
        let hash = content_hash(bytes);
        let mut i: usize = self.entries.len();
        assert(self.entries@.take(i as int) =~= self.entries@);
        while i > 0
            invariant
                i <= self.entries@.len(),
                hash@ == sha256(bytes@),
                entries_map(self.entries@).dom().contains(hash@) <==> entries_map(
                    self.entries@.take(i as int),
                ).dom().contains(hash@),
                entries_map(self.entries@).dom().contains(hash@) ==> entries_map(
                    self.entries@,
                )[hash@] == entries_map(self.entries@.take(i as int))[hash@],
            decreases i,
        {
            let ghost t = self.entries@.take(i as int);
            assert(t.drop_last() =~= self.entries@.take(i - 1));
            assert(t.last() == self.entries@[i - 1]);
            if crate::text::same_bytes(self.entries[i - 1].0.as_slice(), hash.as_slice()) {
                return Some(self.entries[i - 1].1.duplicate());
            }
            i = i - 1;
        }
        None
    }
}

// ---------------------------------------------------------------------------
// Downscaling
// ---------------------------------------------------------------------------
/// The width, the height and the presence of an alpha channel of the image that
/// the bytes hold; `None` when they cannot be decoded.
pub uninterp spec fn decoded_image(bytes: Seq<u8>) -> Option<(u32, u32, bool)>;

/// Calls `image::load_from_memory` and asks the result for its size and colour.
///
/// Taken on trust: the answer depends on the bytes alone.
#[verifier::external_body]
pub(crate) fn inspect_image(bytes: &[u8]) -> (r: Option<(u32, u32, bool)>)
    ensures
        r == decoded_image(bytes@),
{
    let decoded = image::load_from_memory(bytes).ok()?;
    Some((decoded.width(), decoded.height(), decoded.color().has_alpha()))
}

/// The quality with which images are written as JPEG.
pub const JPEG_QUALITY: u8 = 85;

/// How an image is written.
#[derive(Debug, Clone, Copy, PartialEq, Eq, Structural)]
pub enum Encoding {
    Png,
    Jpeg { quality: u8 },
}

/// Whether an image of this size can be written: JPEG keeps sides in 16 bits.
pub open spec fn encodable(width: int, height: int, encoding: Encoding) -> bool {
    encoding is Png || (width <= 0xFFFF && height <= 0xFFFF)
}

/// Whether what was written is known to be read back: decoding a larger image may
/// hit the decoder's limit on memory.
pub open spec fn readable(width: int, height: int) -> bool {
    width * height <= 0x100_0000
}

/// Whether the bytes hold an image of this size, as far as it is known to be read.
pub open spec fn resized_to(data: Seq<u8>, width: int, height: int, alpha: bool) -> bool {
    readable(width, height) ==> (decoded_image(data) matches Some((w, h, a)) && w == width && h
        == height && a == alpha)
}

/// Decodes an image and resizes it with `image::imageops::resize` (Lanczos3), as
/// red, green, blue and alpha bytes.
///
/// Taken on trust: an image that can be decoded is resized, to four bytes for each
/// pixel of the new size. Nothing is said of their values: the filter's weights come
/// from the platform's floating-point sine.
#[verifier::external_body]
fn resize_pixels(bytes: &[u8], width: u32, height: u32) -> (r: Option<Vec<u8>>)
    requires
        width > 0,
        height > 0,
        decoded_image(bytes@) matches Some((w, h, _)) ==> (width == 1 || width <= w) && (height == 1
            || height <= h),
    ensures
        match r {
            Some(pixels) => decoded_image(bytes@) is Some && pixels@.len() == 4 * width * height,
            None => decoded_image(bytes@) is None,
        },
{
    let decoded = image::load_from_memory(bytes).ok()?;
    let filter = image::imageops::FilterType::Lanczos3;
    Some(image::imageops::resize(&decoded, width, height, filter).into_raw())
}

/// Calls `image::codecs::png::PngEncoder` on red, green, blue and alpha bytes.
///
/// Taken on trust: the pixels are written, and what was written decodes to an image
/// of their size with an alpha channel. How the compressor lays the bytes out is left
/// open.
#[verifier::external_body]
fn encode_png(pixels: &[u8], width: u32, height: u32) -> (r: Option<Vec<u8>>)
    requires
        width > 0,
        height > 0,
        pixels@.len() == 4 * width * height,
    ensures
        match r {
            Some(out) => resized_to(out@, width as int, height as int, true),
            None => false,
        },
{
    let mut out = Vec::new();
    let encoder = image::codecs::png::PngEncoder::new(&mut out);
    let color = image::ExtendedColorType::Rgba8;
    image::ImageEncoder::write_image(encoder, pixels, width, height, color).ok()?;
    Some(out)
}

/// What `image` writes as JPEG for red, green, blue and alpha bytes, the alpha channel
/// dropped.
pub uninterp spec fn jpeg_bytes(pixels: Seq<u8>, width: u32, height: u32, quality: u8) -> Seq<u8>;

/// Calls `DynamicImage::to_rgb8` and `image::codecs::jpeg::JpegEncoder` on red, green,
/// blue and alpha bytes.
///
/// Taken on trust: the pixels are written unless JPEG has no room for the sides; the
/// bytes depend on the pixels, the size and the quality alone; and they decode to an
/// image of that size without an alpha channel.
#[verifier::external_body]
fn encode_jpeg(pixels: Vec<u8>, width: u32, height: u32, quality: u8) -> (r: Option<Vec<u8>>)
    requires
        width > 0,
        height > 0,
        1 <= quality <= 100,
        pixels@.len() == 4 * width * height,
    ensures
        match r {
            Some(out) => width <= 0xFFFF && height <= 0xFFFF && out@ == jpeg_bytes(
                pixels@,
                width,
                height,
                quality,
            ) && resized_to(out@, width as int, height as int, false),
            None => width > 0xFFFF || height > 0xFFFF,
        },
{
    let buffer = image::RgbaImage::from_raw(width, height, pixels)?;
    let mut out = Vec::new();
    let encoder = image::codecs::jpeg::JpegEncoder::new_with_quality(&mut out, quality);
    image::DynamicImage::ImageRgba8(buffer).to_rgb8().write_with_encoder(encoder).ok()?;
    Some(out)
}

/// Whether the bytes are what the encoding makes of some pixels of this size.
pub open spec fn is_encoding(data: Seq<u8>, width: int, height: int, encoding: Encoding) -> bool {
    &&& resized_to(data, width, height, encoding is Png)
    &&& encoding matches Encoding::Jpeg { quality } ==> exists|pixels: Seq<u8>|
        pixels.len() == 4 * width * height && #[trigger] jpeg_bytes(
            pixels,
            width as u32,
            height as u32,
            quality,
        ) == data
}

/// The eight bytes that a PNG file starts with.
pub open spec fn is_png(bytes: Seq<u8>) -> bool {
    bytes.len() >= 8 && bytes.take(8) == seq![
        0x89u8,
        0x50u8,
        0x4Eu8,
        0x47u8,
        0x0Du8,
        0x0Au8,
        0x1Au8,
        0x0Au8,
    ]
}

/// Calls `image::guess_format`.
///
/// Taken on trust: PNG is guessed exactly from its signature, which is the
/// first one that is tried.
#[verifier::external_body]
pub(crate) fn guess_png(bytes: &[u8]) -> (r: bool)
    ensures
        r == is_png(bytes@),
{
    matches!(image::guess_format(bytes), Ok(image::ImageFormat::Png))
}

/// The new size and the encoding of an oversized image.
pub open spec fn downscale_plan(image: Option<(u32, u32, bool)>, png: bool, max: u32) -> Option<
    (int, int, Encoding),
> {
    match image {
        Some((width, height, alpha)) => {
            let long = if width >= height { width } else { height };
            if long <= max || long == 0 {
                None
            } else {
                Some(
                    (
                        scaled(width, long, max),
                        scaled(height, long, max),
                        if alpha || png {
                            Encoding::Png
                        } else {
                            Encoding::Jpeg { quality: JPEG_QUALITY }
                        },
                    ),
                )
            }
        },
        None => None,
    }
}

/// Decides whether and how an image is downscaled, from what decoding it showed.
pub fn plan_downscale(image: Option<(u32, u32, bool)>, png: bool, max: u32) -> (r: Option<
    (u32, u32, Encoding),
>)
    ensures
        match r {
            Some((w, h, encoding)) => downscale_plan(image, png, max) == Some(
                (w as int, h as int, encoding),
            ) && w > 0 && h > 0 && (image matches Some((width, height, _)) ==> (w == 1 || w <= width)
                && (h == 1 || h <= height)),
            None => downscale_plan(image, png, max) is None,
        },
{
    match image {
        Some((width, height, alpha)) => {
            let long: u32 = if width >= height { width } else { height };
            if long <= max || long == 0 {
                None
            } else {
                let encoding = if alpha || png {
                    Encoding::Png
                } else {
                    Encoding::Jpeg { quality: JPEG_QUALITY }
                };
                Some((scale_side(width, long, max), scale_side(height, long, max), encoding))
            }
        },
        None => None,
    }
}

pub open spec fn extension_for(encoding: Encoding) -> Seq<char> {
    match encoding {
        Encoding::Png => "png"@,
        Encoding::Jpeg { .. } => "jpg"@,
    }
}

/// Downscales an image so that its long side is at most `max`, keeping the
/// aspect ratio. Smaller images and undecodable formats pass through untouched
/// (`None`), so that the provider can still try the original bytes; re-encoded
/// images come back with the extension matching their new format.
pub fn downscale(bytes: &[u8], max: u32) -> (r: Option<(Vec<u8>, &'static str)>)
    ensures
        match downscale_plan(decoded_image(bytes@), is_png(bytes@), max) {
            Some((w, h, encoding)) => {
                &&& r is Some <==> encodable(w, h, encoding)
                &&& r matches Some((data, ext)) ==> is_encoding(data@, w, h, encoding) && ext@
                    == extension_for(encoding)
            },
            None => r is None,
        },
{
    match plan_downscale(inspect_image(bytes), guess_png(bytes), max) {
        Some((width, height, encoding)) => match resize_pixels(bytes, width, height) {
            Some(pixels) => match encoding {
                Encoding::Png => match encode_png(pixels.as_slice(), width, height) {
                    Some(data) => Some((data, "png")),
                    None => None,
                },
                Encoding::Jpeg { quality } => {
                    let ghost resized = pixels@;
                    match encode_jpeg(pixels, width, height, quality) {
                        Some(data) => {
                            assert(jpeg_bytes(
                                resized,
                                (width as int) as u32,
                                (height as int) as u32,
                                quality,
                            ) == data@);
                            assert(is_encoding(data@, width as int, height as int, encoding));
                            Some((data, "jpg"))
                        },
                        None => None,
                    }
                },
            },
            None => None,
        },
        None => None,
    }
}

/// The bytes and the file name that are sent for an image.
pub fn prepare_image(bytes: &[u8], file_name: &str, max: u32) -> (r: (Vec<u8>, String))
    ensures
        match downscale_plan(decoded_image(bytes@), is_png(bytes@), max) {
            Some((w, h, encoding)) if encodable(w, h, encoding) => is_encoding(
                r.0@,
                w,
                h,
                encoding,
            ) && r.1@ == with_extension(file_name@, extension_for(encoding)),
            _ => r.0@ == bytes@ && r.1@ == file_name@,
        },
{
    match downscale(bytes, max) {
        Some((data, ext)) => (data, replace_extension(file_name, ext)),
        None => (copy_bytes(bytes), file_name.to_owned()),
    }
}

} // verus!
