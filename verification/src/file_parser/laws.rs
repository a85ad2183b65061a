//! What is accepted, how it is told apart, and what becomes of it.

use crate::file_parser::error::{ConvertError, ConvertErrorView};
use crate::file_parser::figures::links_prefixed;
use crate::file_parser::format::{
    extension, extension_format, extension_text_kind, image_extension, stem, Format, TextKind,
};
use crate::file_parser::html::{
    content_of, entities_decoded, headings_marked, html_markdown, removed, replacement, rewritten,
    row_cells, spliced, table_row, title_of, without_tags, Rewrite, H1, H2, H3, H4, H5, H6, TAGS,
    TD, TITLE,
};
use crate::file_parser::pdf::{pdf_outcome, zero_based, PdfExtraction, PdfImage, PdfMarkdown};
use crate::file_parser::regex_text::{first_capture, group, regex_cuts};
use crate::file_parser::runtime::{
    accepts, asset_texts, authorizes, base64_text, begins, components, components_upto,
    effective_max, finishes, image_assets, image_config, name_error, path_under, pdf_assets,
    reads_pdf, routed, text_markdown, under_any, ConvertOptions, ConvertResult, Converted,
    FileParser, PdfStep, Route, RuntimeError, Step,
};
use crate::ocr::image_pass::sha256;
use crate::render::model::{AssetId, Document};
use crate::text::{
    ends_with, has_sub, is_blank, joined, lemma_until, lower, occurs_at, opt_text, run, split, starts_with, texts,
    trim, until,
};
use crate::text_laws::law_last_index_is_the_last;
use vstd::prelude::*;
use vstd::utf8::valid_utf8;

verus! {

// ---------------------------------------------------------------------------
// Paths and names
// ---------------------------------------------------------------------------
proof fn lemma_split_at(a: Seq<char>, b: Seq<char>)
    ensures
        split(a.push('/') + b, '/') == split(a, '/') + split(b, '/'),
    decreases a.len(),
{
    let s = a.push('/') + b;
    let n = until(a, '/') as int;
    lemma_until(a, '/');
    lemma_until(s, '/');
    let m = until(s, '/') as int;
    if n >= a.len() {
        assert(s[a.len() as int] == '/');
        assert(m == a.len()) by {
            if m < a.len() {
                assert(s[m] == a[m]);
            }
        }
        assert(s.take(m) =~= a);
        assert(s.skip(m + 1) =~= b);
        assert(split(a, '/') =~= seq![a]);
        assert(split(s, '/') =~= split(a, '/') + split(b, '/'));
    } else {
        assert(s[n] == a[n]);
        assert(m == n) by {
            if m < n {
                assert(s[m] == a[m]);
            }
        }
        assert(s.take(n) =~= a.take(n));
        assert(s.skip(n + 1) =~= a.skip(n + 1).push('/') + b);
        lemma_split_at(a.skip(n + 1), b);
        assert(split(s, '/') =~= split(a, '/') + split(b, '/'));
    }
}

proof fn lemma_components_agree(a: Seq<Seq<char>>, b: Seq<Seq<char>>, absolute: bool, n: nat)
    requires
        n <= a.len(),
        n <= b.len(),
        a.take(n as int) == b.take(n as int),
    ensures
        components_upto(a, absolute, n) == components_upto(b, absolute, n),
    decreases n,
{
    if n > 0 {
        assert(a[n - 1] == a.take(n as int)[n - 1]);
        assert(b[n - 1] == b.take(n as int)[n - 1]);
        assert(a.take(n - 1) =~= a.take(n as int).take(n - 1));
        assert(b.take(n - 1) =~= b.take(n as int).take(n - 1));
        lemma_components_agree(a, b, absolute, (n - 1) as nat);
    }
}

proof fn lemma_components_grow(a: Seq<Seq<char>>, absolute: bool, m: nat, n: nat)
    requires
        m <= n <= a.len(),
    ensures
        components_upto(a, absolute, m).len() <= components_upto(a, absolute, n).len(),
        components_upto(a, absolute, n).take(components_upto(a, absolute, m).len() as int)
            == components_upto(a, absolute, m),
    decreases n,
{
    let x = components_upto(a, absolute, m);
    let y = components_upto(a, absolute, n);
    if m < n {
        lemma_components_grow(a, absolute, m, (n - 1) as nat);
        let z = components_upto(a, absolute, (n - 1) as nat);
        assert(y.take(x.len() as int) =~= z.take(x.len() as int));
    } else {
        assert(y.take(x.len() as int) =~= x);
    }
}

/// Whatever lies below a directory is under it, and so is the directory itself.
pub proof fn law_paths_below_a_root_are_under_it(root: Seq<char>, rest: Seq<char>)
    requires
        root.len() > 0,
    ensures
        path_under(root, root),
        path_under(root.push('/') + rest, root),
{
    let path = root.push('/') + rest;
    lemma_split_at(root, rest);
    let a = split(root, '/');
    let all = split(path, '/');
    let absolute = root[0] == '/';
    assert(path[0] == root[0]);
    assert(all.take(a.len() as int) =~= a);
    assert(a.take(a.len() as int) =~= a);
    lemma_components_agree(a, all, absolute, a.len());
    lemma_components_grow(all, absolute, a.len(), all.len());
    assert(components(root).take(components(root).len() as int) =~= components(root));
}

proof fn lemma_split_tail(s: Seq<char>, tail: Seq<char>)
    requires
        !tail.contains('/'),
    ensures
        split(s, '/').len() > 0,
        split(s + tail, '/').len() == split(s, '/').len(),
        split(s + tail, '/').drop_last() == split(s, '/').drop_last(),
        split(s + tail, '/').last() == split(s, '/').last() + tail,
        s.len() > 0 && s.last() != '/' ==> split(s, '/').last().len() > 0 && split(s, '/').last().last()
            == s.last(),
    decreases s.len(),
{
    let t = s + tail;
    let n = until(s, '/') as int;
    lemma_until(s, '/');
    lemma_until(t, '/');
    let m = until(t, '/') as int;
    if n >= s.len() {
        assert(m == t.len()) by {
            if m < t.len() {
                assert(t[m] == '/');
                if m < s.len() {
                    assert(s[m] == t[m]);
                } else {
                    assert(tail[m - s.len()] == '/');
                }
            }
        }
        assert(split(s, '/') =~= seq![s]);
        assert(split(t, '/') =~= seq![t]);
        assert(seq![t].drop_last() =~= seq![s].drop_last());
    } else {
        assert(t[n] == s[n]);
        assert(m == n) by {
            if m < n {
                assert(t[m] == s[m]);
            }
        }
        let rest = s.skip(n + 1);
        assert(t.skip(n + 1) =~= rest + tail);
        assert(t.take(n) =~= s.take(n));
        lemma_split_tail(rest, tail);
        let a = seq![s.take(n)];
        let x = split(rest, '/');
        let y = split(rest + tail, '/');
        assert(split(s, '/') == a + x);
        assert(split(t, '/') == a + y);
        assert((a + x).drop_last() =~= a + x.drop_last());
        assert((a + y).drop_last() =~= a + y.drop_last());
        assert((a + x).last() == x.last());
        assert((a + y).last() == y.last());
        if s.last() != '/' {
            assert(rest.len() > 0) by {
                if rest.len() == 0 {
                    assert(s.last() == s[n]);
                }
            }
            assert(rest.last() == s.last());
        }
    }
}

/// A name that only begins like a directory is not under it.
pub proof fn law_siblings_of_a_root_are_not_under_it(root: Seq<char>, tail: Seq<char>)
    requires
        root.len() > 0,
        root.last() != '/',
        root.last() != '.',
        tail.len() > 0,
        !tail.contains('/'),
    ensures
        !path_under(root + tail, root),
{
    reveal_strlit(".");
    let path = root + tail;
    lemma_split_tail(root, tail);
    let a = split(root, '/');
    let b = split(path, '/');
    let absolute = root[0] == '/';
    assert(path[0] == root[0]);
    let n = a.len() as int;
    assert(a.take(n - 1) =~= a.drop_last());
    assert(b.take(n - 1) =~= b.drop_last());
    lemma_components_agree(a, b, absolute, (n - 1) as nat);
    let before = components_upto(a, absolute, (n - 1) as nat);
    assert(a[n - 1] == a.last() && b[n - 1] == b.last());
    assert(a.last().last() == root.last());
    if a.last() == "."@ {
        assert(a.last().last() == '.');
    }
    assert(b.last().len() >= 2);
    assert("."@.len() == 1);
    assert(components(root) == before.push(a.last()));
    assert(components(path) == before.push(b.last()));
    let k = before.len() as int;
    if path_under(path, root) {
        assert(components(path).take(k + 1)[k] == components(root)[k]);
        assert(a.last().len() < b.last().len());
    }
}

/// Without roots every path is allowed; with roots only what lies under one of them. The
/// roots of a call come before those of the parser, and so does its size.
pub proof fn law_roots_of_a_call_come_first(
    parser: FileParser,
    options: ConvertOptions,
    shown: Seq<char>,
    canonical: Seq<char>,
    r: Result<(), RuntimeError>,
)
    requires
        authorizes(parser, options, shown, canonical, r),
    ensures
        options.allowed_roots@.len() > 0 ==> (r is Ok <==> under_any(
            canonical,
            texts(options.allowed_roots@),
        )),
        options.allowed_roots@.len() == 0 && parser.allowed_roots@.len() > 0 ==> (r is Ok
            <==> under_any(canonical, texts(parser.allowed_roots@))),
        options.allowed_roots@.len() == 0 && parser.allowed_roots@.len() == 0 ==> r is Ok,
        options.max_input_bytes matches Some(n) ==> effective_max(parser, options) == n,
        options.max_input_bytes is None ==> effective_max(parser, options) == parser.max_input_bytes,
{
}

/// A file is accepted under a name that is one, as long as it is not too large, and keeps
/// that name.
pub proof fn law_plain_names_are_accepted(
    parser: FileParser,
    options: ConvertOptions,
    name: Seq<char>,
    size: u64,
    r: Result<String, RuntimeError>,
)
    requires
        accepts(parser, options, name, size, r),
    ensures
        r is Ok <==> {
            &&& name.len() > 0
            &&& forall|i: int| 0 <= i < name.len() ==> #[trigger] name[i] != '/' && name[i] != '\\'
            &&& !has_sub(name, ".."@)
            &&& size <= effective_max(parser, options)
        },
        r matches Ok(kept) ==> kept@ == name,
{
    if name.contains('/') {
        let i = choose|i: int| 0 <= i < name.len() && name[i] == '/';
        assert(name[i] == '/');
    }
    if name.contains('\\') {
        let i = choose|i: int| 0 <= i < name.len() && name[i] == '\\';
        assert(name[i] == '\\');
    }
    if !(forall|i: int| 0 <= i < name.len() ==> #[trigger] name[i] != '/' && name[i] != '\\') {
        let i = choose|i: int|
            0 <= i < name.len() && (#[trigger] name[i] == '/' || name[i] == '\\');
        assert(name.contains(name[i]));
    }
    assert(name_error(name) is None <==> name.len() > 0 && !name.contains('/') && !name.contains(
        '\\',
    ) && !has_sub(name, ".."@));
}

/// The ending of a name stands behind its last dot, in small letters, and its stem before
/// it; a name without a dot is its own ending and its own stem.
pub proof fn law_names_have_a_stem_and_an_ending(front: Seq<char>, ending: Seq<char>)
    requires
        !ending.contains('.'),
    ensures
        extension(front + seq!['.'] + ending) == lower(ending),
        stem(front + seq!['.'] + ending) == front,
        extension(ending) == lower(ending),
        stem(ending) == ending,
{
    let name = front + seq!['.'] + ending;
    let n = front.len() as int;
    law_last_index_is_the_last(name, '.');
    law_last_index_is_the_last(ending, '.');
    assert(name[n] == '.');
    match crate::text::last_index(name, '.') {
        Some(i) => {
            if i < n {
                assert(name[n] != '.');
            }
            if i > n {
                assert(name[i as int] == ending[i - n - 1]);
                assert(ending.contains('.'));
            }
            assert(name.skip(n + 1) =~= ending);
            assert(name.take(n) =~= front);
        },
        None => {
            assert(name.contains('.'));
        },
    }
    if let Some(i) = crate::text::last_index(ending, '.') {
        assert(ending[i as int] == '.');
        assert(ending.contains('.'));
    }
}

// ---------------------------------------------------------------------------
// Routes
// ---------------------------------------------------------------------------
/// What was found inside a file decides, whatever the file is called; where nothing was
/// found, the ending of the name decides, however it is written.
pub proof fn law_content_decides_before_the_name(
    format: Format,
    a: Seq<char>,
    b: Seq<char>,
)
    ensures
        routed(Some(format), a) == routed(Some(format), b),
        format is Pdf <==> routed(Some(format), a) == Some(Route::Pdf),
        format is Html <==> routed(Some(format), a) == Some(Route::Html),
        !(format is Pdf) && !(format is Html) ==> routed(Some(format), a) == Some(
            Route::Document(format),
        ),
        extension(a) == extension(b) ==> routed(None, a) == routed(None, b),
        extension_format(extension(a)) matches Some(f) ==> routed(None, a) == routed(Some(f), a),
        extension_format(extension(a)) is None && image_extension(extension(a)) ==> routed(None, a)
            == Some(Route::Image),
        extension_format(extension(a)) is None && !image_extension(extension(a))
            ==> match extension_text_kind(extension(a)) {
            Some(kind) => routed(None, a) == Some(Route::Text(kind)),
            None => routed(None, a) is None,
        },
{
}

/// A file goes where it is told apart to go: a PDF to be extracted, a document to be
/// parsed, a picture, whole and under its name, to be recognized; pages and text are done at
/// once, and text has to be text.
pub proof fn law_files_go_where_they_belong(
    parser: FileParser,
    options: ConvertOptions,
    name: Seq<char>,
    bytes: Seq<u8>,
    detected: Option<Format>,
    r: Result<Step, RuntimeError>,
)
    requires
        begins(parser, options, name, bytes, detected, r),
    ensures
        routed(detected, name) == Some(Route::Pdf) ==> (r matches Ok(step) && step is ExtractPdf),
        routed(detected, name) matches Some(Route::Document(f)) ==> (r matches Ok(
            Step::ParseDocument(g),
        ) && g == f),
        routed(detected, name) == Some(Route::Image) && parser.has_ocr ==> (r matches Ok(
            Step::RecognizeImage(call),
        ) && call.request.bytes@ == bytes && call.request.file_name@ == name && opt_text(
            call.request.language,
        ) == opt_text(options.ocr_language) && opt_text(call.options.language) == opt_text(
            options.ocr_language,
        ) && call.options.page_numbers@.len() == 0),
        routed(detected, name) == Some(Route::Image) && !parser.has_ocr ==> r is Err,
        routed(detected, name) == Some(Route::Html) ==> (r matches Ok(step) && step is Done),
        routed(detected, name) matches Some(Route::Text(kind)) ==> (valid_utf8(bytes) <==> (
        r matches Ok(step) && step is Done)),
        routed(detected, name) is None ==> r is Err,
        r matches Ok(Step::Done(c)) ==> c@.images.len() == 0 && c@.page_count is None
            && c@.decisions.len() == 1 && c@.decisions[0].target == name && c@.decisions[0].action
            == "extract"@,
{
}

/// The pages of a PDF that cannot be read are recognized, exactly those and of the whole
/// file; a PDF that can be read goes on as it is.
pub proof fn law_unreadable_pages_are_recognized(
    parser: FileParser,
    options: ConvertOptions,
    name: Seq<char>,
    bytes: Seq<u8>,
    extracted: Result<PdfMarkdown, ConvertError>,
    r: Result<PdfStep, RuntimeError>,
)
    requires
        reads_pdf(parser, options, name, bytes, extracted, r),
    ensures
        extracted matches Ok(output) ==> (r matches Ok(PdfStep::RecognizeFigures(o)) && o
            == output),
        extracted matches Err(ConvertError::NeedsOcr { pages, page_count }) ==> {
            &&& r is Ok <==> parser.has_ocr
            &&& r matches Ok(step) ==> (step matches PdfStep::RecognizePages {
                call,
                pages: asked,
                page_count: count,
            } && call.request.bytes@ == bytes && call.request.file_name@ == name
                && call.options.page_numbers@ == pages@ && asked@ == pages@ && count == page_count
                && opt_text(call.options.language) == opt_text(options.ocr_language))
        },
        extracted matches Err(e) ==> !(e is NeedsOcr) ==> r is Err,
{
}

/// The result of a conversion has its content, the stem of the name as its title, and a
/// warning exactly where nothing shows.
pub proof fn law_results_have_their_content(
    converted: Converted,
    name: Seq<char>,
    source_type: Seq<char>,
    size: u64,
    duration_ms: u64,
    r: ConvertResult,
)
    requires
        finishes(converted, name, source_type, size, duration_ms, r),
    ensures
        r.markdown@ == converted.markdown@,
        r.decisions@ == converted.decisions@,
        r.images@ == converted.images@,
        r.metadata.page_count == converted.metadata.page_count,
        r.title@ == stem(name),
        r.source.file_name@ == name,
        r.source.source_type@ == source_type,
        r.source.size == size,
        r.duration_ms == duration_ms,
        r.warnings@.len() == 0 <==> exists|i: int|
            0 <= i < r.markdown@.len() && !crate::text::is_white(#[trigger] r.markdown@[i]),
        r.warnings@.len() <= 1,
{
    assert(texts(r.warnings@).len() == r.warnings@.len());
    let shown = exists|i: int|
        0 <= i < r.markdown@.len() && !crate::text::is_white(#[trigger] r.markdown@[i]);
    assert(shown <==> !is_blank(converted.markdown@));
}

// ---------------------------------------------------------------------------
// Text
// ---------------------------------------------------------------------------
/// Text is shown as it is, without a mark of its encoding in front; code stands in a fence
/// that names its language.
pub proof fn law_text_is_kept(s: Seq<char>, kind: TextKind)
    requires
        s.len() == 0 || s[0] != '\u{FEFF}',
    ensures
        kind is Plain || kind is Markdown ==> text_markdown(s, kind) == s && text_markdown(
            seq!['\u{FEFF}'] + s,
            kind,
        ) == s,
        kind matches TextKind::Code(language) ==> {
            &&& text_markdown(seq!['\u{FEFF}'] + s, kind) == text_markdown(s, kind)
            &&& text_markdown(s.push('\n'), kind) == "```"@ + language@ + "\n"@ + s + "\n```\n"@
            &&& (s.len() == 0 || s.last() != '\n') ==> text_markdown(s, kind) == text_markdown(
                s.push('\n'),
                kind,
            )
        },
{
    let marked = seq!['\u{FEFF}'] + s;
    assert(marked[0] == '\u{FEFF}');
    assert(marked.drop_first() =~= s);
    let fed = s.push('\n');
    assert(fed.drop_last() =~= s);
    assert(fed[0] != '\u{FEFF}') by {
        if s.len() > 0 {
            assert(fed[0] == s[0]);
        }
    }
}

// ---------------------------------------------------------------------------
// PDF
// ---------------------------------------------------------------------------
/// A PDF whose pages were confirmed to need recognition says which; otherwise its text is
/// kept whole and ends in a line feed, and a PDF without text is refused.
pub proof fn law_pdf_text_is_kept(extraction: PdfExtraction, confirmed: Seq<u32>)
    ensures
        confirmed.len() > 0 ==> pdf_outcome(extraction, confirmed) == Err::<
            Seq<char>,
            ConvertErrorView,
        >(ConvertErrorView::NeedsOcr { pages: confirmed, page_count: extraction.page_count }),
        confirmed.len() == 0 ==> {
            let text = match extraction.markdown {
                Some(m) => m@,
                None => Seq::empty(),
            };
            &&& pdf_outcome(extraction, confirmed) is Ok <==> !is_blank(text)
            &&& pdf_outcome(extraction, confirmed) matches Ok(s) ==> {
                &&& s.len() > 0 && s.last() == '\n'
                &&& s == text || s == text + seq!['\n']
            }
        },
        forall|i: int|
            0 <= i < extraction.pages_needing_ocr@.len() && extraction.pages_needing_ocr@[i] >= 1
                ==> (#[trigger] zero_based(extraction.pages_needing_ocr@)[i]) + 1
                == extraction.pages_needing_ocr@[i],
{
    if let Some(m) = extraction.markdown {
        assert(m@.push('\n') =~= m@ + seq!['\n']);
    }
}

/// Every picture of a PDF comes along, in order, under the name of the file and its own.
pub proof fn law_pictures_come_along(images: Seq<PdfImage>, front: Seq<char>, i: int)
    requires
        0 <= i < images.len(),
    ensures
        pdf_assets(images, front).len() == images.len(),
        pdf_assets(images, front)[i].name == front + "-"@ + images[i].name@,
        pdf_assets(images, front)[i].mime_type == images[i].mime_type@,
        pdf_assets(images, front)[i].data_base64 == base64_text(images[i].data@),
{
}

// ---------------------------------------------------------------------------
// Pictures in documents
// ---------------------------------------------------------------------------
/// Pictures are recognized unless that is switched off, four at a time unless it is said
/// otherwise, but never more than 64 and always one, in a minute each and scaled to 1024.
pub proof fn law_picture_settings_have_defaults(options: ConvertOptions)
    ensures
        ({
            let c = image_config(options);
            &&& c.enabled <==> options.image_ocr != Some(false)
            &&& 1 <= c.concurrency <= 64
            &&& options.image_ocr_concurrency matches Some(n) ==> 1 <= n <= 64 ==> c.concurrency
                == n
            &&& options.image_ocr_concurrency matches Some(n) ==> n > 64 ==> c.concurrency == 64
            &&& options.image_ocr_concurrency is None ==> c.concurrency == 4
            &&& options.image_ocr_max_dimension matches Some(n) ==> c.max_dimension == n
            &&& options.image_ocr_max_dimension is None ==> c.max_dimension == 1024
            &&& options.image_ocr_timeout_ms matches Some(n) ==> c.timeout_ms == n
            &&& options.image_ocr_timeout_ms is None ==> c.timeout_ms == 60_000
        }),
{
}

/// The assets that are recognized are exactly the pictures, in order.
pub proof fn law_pictures_of_a_document(doc: Document, n: nat)
    requires
        n <= doc.assets@.len(),
    ensures
        forall|i: int| #[trigger]
            image_assets(doc, n).contains(i) <==> 0 <= i < n && starts_with(
                doc.assets@[i].media_type@,
                "image/"@,
            ),
        forall|a: int, b: int|
            0 <= a < b < image_assets(doc, n).len() ==> #[trigger] image_assets(doc, n)[a]
                < #[trigger] image_assets(doc, n)[b],
    decreases n,
{
    if n > 0 {
        law_pictures_of_a_document(doc, (n - 1) as nat);
        let before = image_assets(doc, (n - 1) as nat);
        let now = image_assets(doc, n);
        let kept = starts_with(doc.assets@[n - 1].media_type@, "image/"@);
        assert forall|i: int| #[trigger]
            now.contains(i) <==> 0 <= i < n && starts_with(doc.assets@[i].media_type@, "image/"@) by {
            if before.contains(i) {
                let k = choose|k: int| 0 <= k < before.len() && before[k] == i;
                assert(now[k] == i);
            }
            if kept && i == n - 1 {
                assert(now[before.len() as int] == i);
            }
            if now.contains(i) {
                let k = choose|k: int| 0 <= k < now.len() && now[k] == i;
                if k < before.len() {
                    assert(before[k] == i);
                    assert(before.contains(i));
                }
            }
        }
        assert forall|a: int, b: int| 0 <= a < b < now.len() implies #[trigger] now[a]
            < #[trigger] now[b] by {
            assert(now[a] == before[a]);
            assert(before.contains(before[a]));
            if b < before.len() {
                assert(now[b] == before[b]);
            }
        }
    }
}

/// A picture gets what was recognized in its content, under its own number: nothing for a
/// content that was not asked about, and the same for the same content.
pub proof fn law_pictures_get_their_text(
    doc: Document,
    outcomes: Map<Seq<u8>, Option<Seq<char>>>,
    n: nat,
    i: int,
)
    requires
        0 <= i < n <= doc.assets@.len(),
        forall|a: int, b: int|
            0 <= a < b < doc.assets@.len() ==> (#[trigger] doc.assets@[a]).id != (
            #[trigger] doc.assets@[b]).id,
    ensures
        ({
            let id = doc.assets@[i].id;
            let hash = sha256(doc.assets@[i].bytes@);
            let all = asset_texts(doc, outcomes, n);
            &&& all.dom().contains(id) <==> outcomes.dom().contains(hash)
            &&& all.dom().contains(id) ==> all[id] == outcomes[hash]
        }),
    decreases n,
{
    let id = doc.assets@[i].id;
    if i == n - 1 {
        lemma_texts_before(doc, outcomes, (n - 1) as nat, id);
    } else {
        law_pictures_get_their_text(doc, outcomes, (n - 1) as nat, i);
        assert(doc.assets@[i].id != doc.assets@[n - 1].id);
    }
}

proof fn lemma_texts_before(
    doc: Document,
    outcomes: Map<Seq<u8>, Option<Seq<char>>>,
    n: nat,
    id: AssetId,
)
    requires
        n <= doc.assets@.len(),
        forall|a: int| 0 <= a < n ==> (#[trigger] doc.assets@[a]).id != id,
    ensures
        !asset_texts(doc, outcomes, n).dom().contains(id),
    decreases n,
{
    if n > 0 {
        lemma_texts_before(doc, outcomes, (n - 1) as nat, id);
        assert(doc.assets@[n - 1].id != id);
    }
}

// ---------------------------------------------------------------------------
// Pages of the web
// ---------------------------------------------------------------------------
/// The pattern for headings of a level.
pub open spec fn heading_pattern(k: int) -> &'static str {
    if k == 1 {
        H1
    } else if k == 2 {
        H2
    } else if k == 3 {
        H3
    } else if k == 4 {
        H4
    } else if k == 5 {
        H5
    } else {
        H6
    }
}

/// A text without headings of a level.
pub open spec fn has_none(text: Seq<char>, k: int) -> bool {
    forall|kind: Rewrite| #[trigger] rewritten(text, heading_pattern(k), kind) == text
}

proof fn lemma_same_marker(
    cuts: Seq<(Seq<char>, Seq<Seq<char>>)>,
    a: &'static str,
    b: &'static str,
)
    requires
        a@ == b@,
    ensures
        spliced(cuts, Rewrite::Heading(a)) == spliced(cuts, Rewrite::Heading(b)),
    decreases cuts.len(),
{
    if cuts.len() > 0 {
        lemma_same_marker(cuts.drop_last(), a, b);
    }
}

proof fn lemma_rewritten_same(text: Seq<char>, pattern: &str, a: &'static str, b: &'static str)
    requires
        a@ == b@,
    ensures
        rewritten(text, pattern, Rewrite::Heading(a)) == rewritten(
            text,
            pattern,
            Rewrite::Heading(b),
        ),
{
    if let Some(c) = regex_cuts(pattern@, text) {
        lemma_same_marker(c.0, a, b);
    }
}

/// A heading of a level is marked with as many number signs.
pub proof fn law_page_headings_keep_their_level(body: Seq<char>, k: int, marker: &'static str)
    requires
        1 <= k <= 6,
        marker@ == run('#', k as nat),
        forall|j: int| 1 <= j <= 6 && j != k ==> #[trigger] has_none(body, j),
        forall|j: int|
            1 <= j <= 6 && j != k ==> #[trigger] has_none(
                rewritten(body, heading_pattern(k), Rewrite::Heading(marker)),
                j,
            ),
    ensures
        headings_marked(body) == rewritten(body, heading_pattern(k), Rewrite::Heading(marker)),
{
    reveal_strlit("#");
    reveal_strlit("##");
    reveal_strlit("###");
    reveal_strlit("####");
    reveal_strlit("#####");
    reveal_strlit("######");
    let marked = rewritten(body, heading_pattern(k), Rewrite::Heading(marker));
    assert(forall|j: int| 1 <= j <= 6 && j != k ==> #[trigger] has_none(marked, j));
    let s1 = rewritten(body, H1, Rewrite::Heading("#"));
    if k == 1 {
        assert("#"@ =~= marker@);
        lemma_rewritten_same(body, H1, "#", marker);
    } else {
        lemma_none(body, 1, Rewrite::Heading("#"));
    }
    let s2 = rewritten(s1, H2, Rewrite::Heading("##"));
    if k == 2 {
        assert("##"@ =~= marker@);
        lemma_rewritten_same(body, H2, "##", marker);
    } else {
        lemma_none(s1, 2, Rewrite::Heading("##"));
    }
    let s3 = rewritten(s2, H3, Rewrite::Heading("###"));
    if k == 3 {
        assert("###"@ =~= marker@);
        lemma_rewritten_same(body, H3, "###", marker);
    } else {
        lemma_none(s2, 3, Rewrite::Heading("###"));
    }
    let s4 = rewritten(s3, H4, Rewrite::Heading("####"));
    if k == 4 {
        assert("####"@ =~= marker@);
        lemma_rewritten_same(body, H4, "####", marker);
    } else {
        lemma_none(s3, 4, Rewrite::Heading("####"));
    }
    let s5 = rewritten(s4, H5, Rewrite::Heading("#####"));
    if k == 5 {
        assert("#####"@ =~= marker@);
        lemma_rewritten_same(body, H5, "#####", marker);
    } else {
        lemma_none(s4, 5, Rewrite::Heading("#####"));
    }
    let s6 = rewritten(s5, H6, Rewrite::Heading("######"));
    if k == 6 {
        assert("######"@ =~= marker@);
        lemma_rewritten_same(body, H6, "######", marker);
    } else {
        lemma_none(s5, 6, Rewrite::Heading("######"));
    }
}

proof fn lemma_none(text: Seq<char>, k: int, kind: Rewrite)
    requires
        has_none(text, k),
    ensures
        rewritten(text, heading_pattern(k), kind) == text,
{
}

/// What replaces a match: a link shows its text and leads to its address, a picture shows
/// its description and comes from its address, and what stands around a text leaves it whole.
pub proof fn law_matches_keep_their_parts(
    groups: Seq<Seq<char>>,
    before: &'static str,
    after: &'static str,
)
    requires
        groups.len() >= 3,
    ensures
        replacement(Rewrite::Link, groups) == seq!['['] + groups[2] + seq![']', '('] + groups[1]
            + seq![')'],
        replacement(Rewrite::ImageAlt, groups) == seq!['!', '['] + groups[2] + seq![']', '(']
            + groups[1] + seq![')'],
        replacement(Rewrite::Image, groups) == seq!['!', '[', ']', '('] + groups[1] + seq![')'],
        replacement(Rewrite::Fixed(before), groups) == before@,
        replacement(Rewrite::Around(before, after), groups) == before@ + groups[1] + after@,
        ({
            let shown = replacement(Rewrite::Heading(before), groups);
            &&& starts_with(shown, "\n"@ + before@ + " "@)
            &&& ends_with(shown, "\n"@)
        }),
{
    reveal_strlit("[");
    reveal_strlit("](");
    reveal_strlit(")");
    reveal_strlit("![");
    reveal_strlit("![](");
    reveal_strlit("\n");
    assert("["@ =~= seq!['[']);
    assert("]("@ =~= seq![']', '(']);
    assert(")"@ =~= seq![')']);
    assert("!["@ =~= seq!['!', '[']);
    assert("![]("@ =~= seq!['!', '[', ']', '(']);
    let shown = replacement(Rewrite::Heading(before), groups);
    let front = "\n"@ + before@ + " "@;
    let t = trim(crate::file_parser::html::without_tags(group(groups, 1)));
    assert(shown == "\n"@ + before@ + " "@ + t + "\n"@);
    assert(shown.subrange(0, front.len() as int) =~= front);
    assert(shown.skip(shown.len() - 1) =~= "\n"@);
}

/// The matches of a text are replaced one by one, and what stands between them stays.
pub proof fn law_matches_are_replaced_in_order(
    a: Seq<(Seq<char>, Seq<Seq<char>>)>,
    b: Seq<(Seq<char>, Seq<Seq<char>>)>,
    cut: (Seq<char>, Seq<Seq<char>>),
    kind: Rewrite,
)
    ensures
        spliced(a + b, kind) == spliced(a, kind) + spliced(b, kind),
        spliced(seq![cut], kind) == cut.0 + replacement(kind, cut.1),
    decreases b.len(),
{
    assert(seq![cut].drop_last() =~= Seq::<(Seq<char>, Seq<Seq<char>>)>::empty());
    assert(seq![cut].last() == cut);
    assert(spliced(Seq::<(Seq<char>, Seq<Seq<char>>)>::empty(), kind) =~= Seq::<char>::empty());
    assert(spliced(seq![cut], kind) =~= cut.0 + replacement(kind, cut.1));
    if b.len() == 0 {
        assert(a + b =~= a);
        assert(spliced(a, kind) + spliced(b, kind) =~= spliced(a, kind));
    } else {
        assert((a + b).drop_last() =~= a + b.drop_last());
        assert((a + b).last() == b.last());
        law_matches_are_replaced_in_order(a, b.drop_last(), cut, kind);
        assert(spliced(a + b, kind) =~= spliced(a, kind) + spliced(b, kind));
    }
}

/// A page is headed by its title: what it gives as its title, or else its first heading, or
/// else the name of the file.
pub proof fn law_pages_are_headed_by_their_title(html: Seq<char>, fallback: Seq<char>)
    ensures
        ({
            let content = content_of(html);
            let given = first_capture(regex_cuts(TITLE@, content));
            let heading = first_capture(regex_cuts(H1@, content));
            let title = if given is Some {
                given->0
            } else if heading is Some {
                heading->0
            } else {
                fallback
            };
            starts_with(
                html_markdown(html, fallback),
                seq!['#', ' '] + trim(without_tags(title)) + seq!['\n', '\n'],
            )
        }),
{
    reveal_strlit("# ");
    reveal_strlit("\n\n");
    assert("# "@ =~= seq!['#', ' ']);
    assert("\n\n"@ =~= seq!['\n', '\n']);
    let all = html_markdown(html, fallback);
    let front = "# "@ + title_of(content_of(html), fallback) + "\n\n"@;
    assert(all.subrange(0, front.len() as int) =~= front);
}

/// A row of a table shows its cells in order between bars, a blank for a cell that shows
/// nothing.
pub proof fn law_page_rows_show_their_cells(row: Seq<char>)
    ensures
        ({
            let cells = match regex_cuts(TD@, row) {
                Some(c) => row_cells(c.0),
                None => Seq::empty(),
            };
            &&& table_row(row) == seq!['|', ' '] + joined(cells, " | "@) + seq![' ', '|', '\n']
            &&& regex_cuts(TD@, row) matches Some(c) ==> {
                &&& cells.len() == c.0.len()
                &&& forall|i: int|
                    0 <= i < cells.len() ==> ({
                        let text = trim(removed(group(c.0[i].1, 1), TAGS));
                        #[trigger] cells[i] == if text.len() == 0 {
                            seq![' ']
                        } else {
                            text
                        }
                    })
            }
        }),
{
    reveal_strlit("| ");
    reveal_strlit(" |\n");
    reveal_strlit(" ");
    assert("| "@ =~= seq!['|', ' ']);
    assert(" |\n"@ =~= seq![' ', '|', '\n']);
    assert(" "@ =~= seq![' ']);
}

/// Text without an ampersand has nothing to decode.
pub proof fn law_plain_text_is_not_decoded(s: Seq<char>)
    requires
        !s.contains('&'),
    ensures
        entities_decoded(s) == s,
{
    reveal_strlit("&nbsp;");
    reveal_strlit("&amp;");
    reveal_strlit("&lt;");
    reveal_strlit("&gt;");
    reveal_strlit("&quot;");
    reveal_strlit("&#39;");
    lemma_no_entity(s, "&nbsp;"@, " "@);
    lemma_no_entity(s, "&amp;"@, "&"@);
    lemma_no_entity(s, "&lt;"@, "<"@);
    lemma_no_entity(s, "&gt;"@, ">"@);
    lemma_no_entity(s, "&quot;"@, "\""@);
    lemma_no_entity(s, "&#39;"@, "'"@);
}

proof fn lemma_no_entity(s: Seq<char>, entity: Seq<char>, with: Seq<char>)
    requires
        !s.contains('&'),
        entity.len() > 0,
        entity[0] == '&',
    ensures
        crate::text::replace_all(s, entity, with) == s,
{
    if has_sub(s, entity) {
        let i = choose|i: int| occurs_at(s, entity, i);
        assert(s.subrange(i, i + entity.len())[0] == s[i]);
        assert(s.contains('&'));
    }
    crate::text_laws::law_nothing_to_replace(s, entity, with);
}

/// A link to a picture of a PDF gets the name of the file in front; everything before it
/// stays, what follows is treated alike, and text without such a link is left alone.
pub proof fn law_picture_links_get_the_name(s: Seq<char>, front: Seq<char>, at: int)
    ensures
        !has_sub(s, "](image-"@) ==> links_prefixed(s, front) == s,
        occurs_at(s, "](image-"@, at) && (forall|j: int|
            0 <= j < at ==> !#[trigger] occurs_at(s, "](image-"@, j)) ==> links_prefixed(s, front)
            == s.take(at) + (seq![']', '('] + front + seq!['-', 'i', 'm', 'a', 'g', 'e', '-'])
            + links_prefixed(s.skip(at + 8), front),
{
    reveal_strlit("](image-");
    reveal_strlit("](");
    reveal_strlit("-image-");
    assert("]("@ =~= seq![']', '(']);
    assert("-image-"@ =~= seq!['-', 'i', 'm', 'a', 'g', 'e', '-']);
    let with = "]("@ + front + "-image-"@;
    if !has_sub(s, "](image-"@) {
        crate::text_laws::law_nothing_to_replace(s, "](image-"@, with);
    }
    if occurs_at(s, "](image-"@, at) && (forall|j: int|
        0 <= j < at ==> !#[trigger] occurs_at(s, "](image-"@, j)) {
        crate::text_laws::law_first_occurrence_is_replaced(s, "](image-"@, with, at);
    }
}

} // verus!
