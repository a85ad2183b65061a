//! What becomes of what was extracted, recognized or read.

use crate::document::names::{ext_category, path_extension, path_stem, usable_name};
use crate::document::provider::ProviderOutput;
use crate::document::runtime::{
    begins, finishes, inspects, page_text, pdf_direct, provided, reads_pdf, resolves, supplemented,
    tags_blanked, Content, ConvertOptions, ConvertResult, DocumentRuntime, InspectionResult, PdfStep,
    PdfText, ResolvedInput, RuntimeError, Step,
};
use crate::file_parser::runtime::pages_converted;
use crate::ocr::provider::OcrOutput;
use crate::text::{
    decimal, ends_with, has_sub, is_blank, joined, lemma_decimal_injective, occurs_at,
    opt_text, starts_with, words,
};
use crate::text_laws::{
    flattened, law_joined_words_split_again, law_words_keep_the_visible_text,
    lemma_visible_chars, visible,
};
use vstd::prelude::*;
use vstd::utf8::{decode_utf8, valid_utf8};

verus! {

// ---------------------------------------------------------------------------
// PDF
// ---------------------------------------------------------------------------
/// What is recognized supplements the text layer of a PDF: the text layer comes first
/// and whole, then a heading, then the recognized text, whole. Without a text layer the
/// recognized text stands alone.
pub proof fn law_recognized_text_supplements_the_text_layer(text: PdfText, output: ProviderOutput)
    ensures
        ({
            let markdown = supplemented(text, output).markdown;
            let recognized = output.markdown@;
            &&& ends_with(markdown, recognized)
            &&& match text.markdown {
                Some(layer) => if is_blank(layer@) {
                    markdown == recognized
                } else {
                    let between = markdown.subrange(
                        layer@.len() as int,
                        markdown.len() - recognized.len(),
                    );
                    &&& starts_with(markdown, layer@)
                    &&& layer@.len() + recognized.len() < markdown.len()
                    &&& has_sub(between, "\n## OCR 补充\n"@)
                    &&& starts_with(between, "\n\n"@)
                    &&& ends_with(between, "\n\n"@)
                },
                None => markdown == recognized,
            }
        }),
{
    reveal_strlit("\n\n## OCR 补充\n\n");
    reveal_strlit("\n## OCR 补充\n");
    reveal_strlit("\n\n");
    let markdown = supplemented(text, output).markdown;
    let recognized = output.markdown@;
    let n = markdown.len() - recognized.len();
    assert(markdown.subrange(n, markdown.len() as int) =~= recognized);
    if let Some(layer) = text.markdown {
        if !is_blank(layer@) {
            let m = layer@.len() as int;
            let heading = "\n\n## OCR 补充\n\n"@;
            let between = markdown.subrange(m, n);
            assert(markdown.subrange(0, m) =~= layer@);
            assert(between =~= heading);
            assert(between.subrange(0, 2) =~= "\n\n"@);
            assert(between.subrange(between.len() - 2, between.len() as int) =~= "\n\n"@);
            let inner = "\n## OCR 补充\n"@;
            assert(between.subrange(1, inner.len() + 1int) =~= inner);
            assert(occurs_at(between, inner, 1));
        }
    }
}

/// Every page that was recognized is accounted for, once and in order, with the
/// provider's confidence; the document keeps its number of pages.
pub proof fn law_recognized_pages_are_accounted_for(
    text: PdfText,
    output: ProviderOutput,
    i: int,
    j: int,
)
    requires
        0 <= i < text.pages_needing_ocr@.len(),
        0 <= j < text.pages_needing_ocr@.len(),
    ensures
        ({
            let content = supplemented(text, output);
            let pages = text.pages_needing_ocr@;
            &&& content.decisions.len() == pages.len()
            &&& ends_with(content.decisions[i].target, decimal(pages[i] as nat))
            &&& content.decisions[i].action == "ocr"@
            &&& content.decisions[i].confidence == output.confidence
            &&& content.decisions[i].target == content.decisions[j].target <==> pages[i] == pages[j]
            &&& content.metadata == Some((text.page_count, text.pdf_type@))
        }),
{
    let content = supplemented(text, output);
    let pages = text.pages_needing_ocr@;
    let a = content.decisions[i].target;
    let b = content.decisions[j].target;
    let da = decimal(pages[i] as nat);
    let db = decimal(pages[j] as nat);
    let n = a.len() - da.len();
    assert(a.subrange(n, a.len() as int) =~= da);
    if a == b {
        assert(da.len() == db.len());
        assert(b.subrange(n, b.len() as int) =~= db);
        lemma_decimal_injective(pages[i] as nat, pages[j] as nat);
    }
}

/// A PDF whose text layer is good is its text layer.
pub proof fn law_good_text_layers_are_kept(text: PdfText)
    ensures
        ({
            let content = pdf_direct(text);
            &&& text.markdown matches Some(layer) ==> content.markdown == layer@
            &&& text.markdown is None ==> content.markdown.len() == 0
            &&& content.metadata == Some((text.page_count, text.pdf_type@))
            &&& content.decisions.len() == 1
            &&& content.decisions[0].action == "extract"@
            &&& content.decisions[0].confidence == Some(text.confidence)
        }),
{
}

/// What a provider read is what comes out.
pub proof fn law_provided_text_is_kept(
    output: ProviderOutput,
    target: Seq<char>,
    action: Seq<char>,
    reason: Seq<char>,
)
    ensures
        ({
            let content = provided(output, target, action, reason);
            &&& content.markdown == output.markdown@
            &&& content.decisions.len() == 1
            &&& content.decisions[0].target == target
            &&& content.decisions[0].action == action
            &&& content.decisions[0].reason == reason
            &&& content.decisions[0].confidence == output.confidence
        }),
{
}

/// Recognized pages of a file come out whole, under a heading of their own, and each
/// page is accounted for; pages on which nothing was recognized come out as nothing.
pub proof fn law_recognized_pages_come_out_whole(
    pages: Seq<u32>,
    page_count: u32,
    output: OcrOutput,
)
    ensures
        ({
            let converted = pages_converted(pages, page_count, output);
            let markdown = converted.markdown;
            let recognized = output.markdown@;
            &&& is_blank(recognized) ==> markdown.len() == 0
            &&& !is_blank(recognized) ==> {
                let at = markdown.len() - recognized.len() - 1;
                &&& occurs_at(markdown, recognized, at)
                &&& markdown.last() == '\n'
                &&& starts_with(markdown, "## OCR 补充\n"@)
                &&& markdown[at - 1] == '\n'
                &&& markdown[at - 2] == '\n'
            }
            &&& converted.page_count == Some(page_count)
            &&& converted.decisions.len() == pages.len()
            &&& forall|i: int|
                0 <= i < pages.len() ==> ends_with(
                    (#[trigger] converted.decisions[i]).target,
                    decimal(pages[i] as nat),
                ) && converted.decisions[i].confidence == output.confidence
        }),
{
    reveal_strlit("## OCR 补充\n\n");
    reveal_strlit("## OCR 补充\n");
    reveal_strlit("\n");
    let converted = pages_converted(pages, page_count, output);
    let markdown = converted.markdown;
    let recognized = output.markdown@;
    if !is_blank(recognized) {
        let at = markdown.len() - recognized.len() - 1;
        assert(markdown.subrange(at, at + recognized.len()) =~= recognized);
        let head = "## OCR 补充\n"@;
        assert(markdown.subrange(0, head.len() as int) =~= head);
    }
    assert forall|i: int| 0 <= i < pages.len() implies ends_with(
        (#[trigger] converted.decisions[i]).target,
        decimal(pages[i] as nat),
    ) && converted.decisions[i].confidence == output.confidence by {
        let t = converted.decisions[i].target;
        let d = decimal(pages[i] as nat);
        assert(t.subrange(t.len() - d.len(), t.len() as int) =~= d);
    }
}

// ---------------------------------------------------------------------------
// HTML
// ---------------------------------------------------------------------------
proof fn lemma_blanked_is_plain(s: Seq<char>, n: nat)
    requires
        n <= s.len(),
    ensures
        !tags_blanked(s, n).0.contains('<'),
        !tags_blanked(s, n).0.contains('>'),
    decreases n,
{
    if n > 0 {
        lemma_blanked_is_plain(s, (n - 1) as nat);
        let before = tags_blanked(s, (n - 1) as nat).0;
        let now = tags_blanked(s, n).0;
        assert forall|k: int| 0 <= k < now.len() implies now[k] != '<' && now[k] != '>' by {
            if k < before.len() {
                assert(now[k] == before[k]);
                assert(before.contains(before[k]));
            }
        }
    }
}

proof fn lemma_flat_chars(parts: Seq<Seq<char>>, i: int, k: int)
    requires
        0 <= i < parts.len(),
        0 <= k < parts[i].len(),
    ensures
        flattened(parts).contains(parts[i][k]),
    decreases parts.len(),
{
    let flat = flattened(parts);
    if i == 0 {
        assert(flat[k] == parts[0][k]);
    } else {
        let rest = parts.drop_first();
        assert(rest[i - 1] == parts[i]);
        lemma_flat_chars(rest, i - 1, k);
        let c = parts[i][k];
        let j = choose|j: int| 0 <= j < flattened(rest).len() && flattened(rest)[j] == c;
        assert(flat[parts[0].len() + j] == c);
    }
}

/// No tag is left of a page.
pub proof fn law_pages_lose_their_tags(html: Seq<char>)
    ensures
        !page_text(html).contains('<'),
        !page_text(html).contains('>'),
{
    reveal_strlit(" ");
    let plain = tags_blanked(html, html.len()).0;
    lemma_blanked_is_plain(html, html.len());
    law_words_keep_the_visible_text(plain);
    let parts = words(plain);
    assert forall|i: int| 0 <= i < parts.len() implies !(#[trigger] parts[i]).contains('<')
        && !parts[i].contains('>') by {
        assert forall|k: int| 0 <= k < parts[i].len() implies parts[i][k] != '<' && parts[i][k]
            != '>' by {
            lemma_flat_chars(parts, i, k);
            let c = parts[i][k];
            assert(visible(plain).contains(c));
            lemma_visible_chars(plain, c);
        }
    }
    lemma_joined_avoids(parts, '<');
    lemma_joined_avoids(parts, '>');
}

proof fn lemma_joined_avoids(parts: Seq<Seq<char>>, c: char)
    requires
        c != ' ',
        forall|i: int| 0 <= i < parts.len() ==> !(#[trigger] parts[i]).contains(c),
    ensures
        !joined(parts, " "@).contains(c),
    decreases parts.len(),
{
    reveal_strlit(" ");
    let s = joined(parts, " "@);
    if parts.len() == 1 {
        assert(!parts[0].contains(c));
    } else if parts.len() > 1 {
        let front = parts.drop_last();
        assert forall|i: int| 0 <= i < front.len() implies !(#[trigger] front[i]).contains(c) by {
            assert(front[i] == parts[i]);
        }
        lemma_joined_avoids(front, c);
        let before = joined(front, " "@);
        let last = parts[parts.len() - 1];
        assert(!last.contains(c));
        if s.contains(c) {
            let k = choose|k: int| 0 <= k < s.len() && s[k] == c;
            if k < before.len() {
                assert(before[k] == c);
            } else if k > before.len() {
                assert(last[k - before.len() - 1] == c);
            }
        }
    }
}

proof fn lemma_untagged(s: Seq<char>, n: nat)
    requires
        n <= s.len(),
        forall|i: int| 0 <= i < n ==> #[trigger] s[i] != '<' && s[i] != '>',
    ensures
        tags_blanked(s, n) == (s.take(n as int), false),
    decreases n,
{
    if n > 0 {
        lemma_untagged(s, (n - 1) as nat);
        assert(s.take(n as int) =~= s.take(n - 1).push(s[n - 1]));
    } else {
        assert(s.take(0) =~= seq![]);
    }
}

/// A text without tags keeps its words.
pub proof fn law_text_outside_tags_is_kept(text: Seq<char>)
    requires
        !text.contains('<'),
        !text.contains('>'),
    ensures
        words(page_text(text)) == words(text),
{
    reveal_strlit(" ");
    assert forall|i: int| 0 <= i < text.len() implies #[trigger] text[i] != '<' && text[i]
        != '>' by {
        assert(text.contains(text[i]));
    }
    lemma_untagged(text, text.len());
    assert(text.take(text.len() as int) =~= text);
    law_words_keep_the_visible_text(text);
    assert(" "@ =~= seq![' ']);
    law_joined_words_split_again(words(text));
}

/// What follows two prefixes that left the same behind is dealt with in the same way.
proof fn lemma_same_tail(a: Seq<char>, b: Seq<char>, tail: Seq<char>, n: nat)
    requires
        n <= tail.len(),
        tags_blanked(a, a.len()) == tags_blanked(b, b.len()),
    ensures
        tags_blanked(a + tail, a.len() + n) == tags_blanked(b + tail, b.len() + n),
    decreases n,
{
    if n == 0 {
        lemma_prefix(a, tail, a.len());
        lemma_prefix(b, tail, b.len());
    } else {
        lemma_same_tail(a, b, tail, (n - 1) as nat);
        assert((a + tail)[a.len() + n - 1] == tail[n - 1]);
        assert((b + tail)[b.len() + n - 1] == tail[n - 1]);
    }
}

proof fn lemma_prefix(a: Seq<char>, tail: Seq<char>, n: nat)
    requires
        n <= a.len(),
    ensures
        tags_blanked(a + tail, n) == tags_blanked(a, n),
    decreases n,
{
    if n > 0 {
        lemma_prefix(a, tail, (n - 1) as nat);
        assert((a + tail)[n - 1] == a[n - 1]);
    }
}

proof fn lemma_inside_tag(a: Seq<char>, tag: Seq<char>, n: nat)
    requires
        n <= tag.len(),
        !tag.contains('<'),
        !tag.contains('>'),
        !tags_blanked(a, a.len()).1,
    ensures
        tags_blanked(a + seq!['<'] + tag, a.len() + 1 + n) == (tags_blanked(a, a.len()).0, true),
    decreases n,
{
    let s = a + seq!['<'] + tag;
    if n == 0 {
        assert(s =~= a + (seq!['<'] + tag));
        lemma_prefix(a, seq!['<'] + tag, a.len());
        assert(s[a.len() as int] == '<');
    } else {
        lemma_inside_tag(a, tag, (n - 1) as nat);
        assert(s[(a.len() + n) as int] == tag[n - 1]);
        assert(tag.contains(tag[n - 1]));
    }
}

/// A tag reads as a blank: what stands around it is kept, and kept apart.
pub proof fn law_tags_read_as_blanks(before: Seq<char>, tag: Seq<char>, behind: Seq<char>)
    requires
        !before.contains('<'),
        !before.contains('>'),
        !tag.contains('<'),
        !tag.contains('>'),
    ensures
        page_text(before + seq!['<'] + tag + seq!['>'] + behind) == page_text(
            before + seq![' '] + behind,
        ),
{
    assert forall|i: int| 0 <= i < before.len() implies #[trigger] before[i] != '<' && before[i]
        != '>' by {
        assert(before.contains(before[i]));
    }
    lemma_untagged(before, before.len());
    let open = before + seq!['<'] + tag;
    let a = open + seq!['>'];
    let b = before + seq![' '];
    lemma_inside_tag(before, tag, tag.len());
    lemma_prefix(open, seq!['>'], open.len());
    assert(a[open.len() as int] == '>');
    lemma_prefix(before, seq![' '], before.len());
    assert(b[before.len() as int] == ' ');
    assert(tags_blanked(a, a.len()) == tags_blanked(b, b.len()));
    lemma_same_tail(a, b, behind, behind.len());
    assert(a + behind =~= before + seq!['<'] + tag + seq!['>'] + behind);
}

// ---------------------------------------------------------------------------
// From the input to the result
// ---------------------------------------------------------------------------
/// What comes in is accepted under the last part of its name, whole, if it is not too large.
pub proof fn law_inputs_come_in_whole(
    runtime: DocumentRuntime,
    bytes: Seq<u8>,
    name: Seq<char>,
    source_type: Seq<char>,
    source_url: Option<Seq<char>>,
    r: Result<ResolvedInput, RuntimeError>,
)
    requires
        resolves(runtime, bytes, name, source_type, source_url, r),
    ensures
        r is Ok <==> usable_name(name) is Some && bytes.len() <= runtime.max_input_bytes,
        r matches Ok(input) ==> {
            &&& input.bytes@ == bytes
            &&& usable_name(name) == Some(input.file_name@)
            &&& input.metadata.file_name@ == input.file_name@
            &&& input.metadata.size == bytes.len()
            &&& input.metadata.source_type@ == source_type
            &&& opt_text(input.metadata.source_url) == source_url
        },
{
}

/// An input goes where its kind belongs. A picture is sent whole, under its name, with its
/// type and in the language that was asked for; what needs a provider is refused where there
/// is none.
pub proof fn law_inputs_go_where_they_belong(
    runtime: DocumentRuntime,
    input: ResolvedInput,
    options: ConvertOptions,
    r: Result<Step, RuntimeError>,
)
    requires
        begins(runtime, input, options, r),
    ensures
        ({
            let kind = ext_category(path_extension(input.file_name@));
            &&& kind is Image && runtime.has_ocr ==> (r matches Ok(
                Step::Recognize { input: sent, options: asked },
            ) && sent.bytes@ == input.bytes@ && sent.file_name@ == input.file_name@
                && sent.mime_type@ == input.metadata.mime_type@ && opt_text(asked.language)
                == opt_text(options.ocr_language) && asked.page_numbers@.len() == 0)
            &&& kind is Image && !runtime.has_ocr ==> r is Err
            &&& kind is Audio || kind is Video ==> (r is Ok <==> runtime.has_transcription) && (
            r matches Ok(step) ==> step is Transcribe)
            &&& kind is Pdf ==> (r matches Ok(step) && step is ExtractPdf)
            &&& kind is Document ==> (r matches Ok(step) && step is ParseDocument)
            &&& kind is Text ==> (r is Ok <==> valid_utf8(input.bytes@))
            &&& kind is Text || kind is Html ==> (r matches Ok(step) ==> step is Done)
            &&& kind is Html ==> r is Ok
            &&& kind is Unsupported ==> r is Err
            &&& r matches Ok(Step::Done(c)) ==> c@.decisions.len() == 0 && c@.metadata is None
            &&& kind is Text && valid_utf8(input.bytes@) ==> (r matches Ok(Step::Done(c))
                && c@.markdown == decode_utf8(input.bytes@))
        }),
{
}

/// Of a PDF exactly the pages without a usable text layer are recognized, in the whole file
/// and in the language that was asked for, and the text layer is kept for later. A PDF that
/// needs none is done.
pub proof fn law_pages_without_text_are_recognized(
    runtime: DocumentRuntime,
    input: ResolvedInput,
    options: ConvertOptions,
    extraction: Result<PdfText, String>,
    r: Result<PdfStep, RuntimeError>,
)
    requires
        reads_pdf(runtime, input, options, extraction, r),
    ensures
        extraction is Err ==> r is Err,
        extraction matches Ok(text) ==> {
            let none = text.pages_needing_ocr@.len() == 0;
            &&& r is Ok <==> none || runtime.has_ocr
            &&& none ==> (r matches Ok(PdfStep::Done(c)) && c@.markdown == match text.markdown {
                Some(m) => m@,
                None => Seq::<char>::empty(),
            })
            &&& !none && runtime.has_ocr ==> (r matches Ok(
                PdfStep::Recognize { input: sent, options: asked, text: kept },
            ) && sent.bytes@ == input.bytes@ && sent.file_name@ == input.file_name@
                && asked.page_numbers@ == text.pages_needing_ocr@ && opt_text(asked.language)
                == opt_text(options.ocr_language) && kept == text)
        },
{
}

/// The result of a conversion has its content, as a whole and as its one section, the stem
/// of the name as its title, and a warning exactly where nothing shows.
pub proof fn law_results_have_their_content(
    content: Content,
    input: ResolvedInput,
    duration_ms: u64,
    r: ConvertResult,
)
    requires
        finishes(content, input, duration_ms, r),
    ensures
        r.markdown@ == content.markdown@,
        r.title@ == path_stem(input.file_name@),
        r.sections@.len() == 1,
        r.sections@[0].markdown@ == content.markdown@,
        r.sections@[0].title matches Some(title) && title@ == r.title@,
        r.decisions@ == content.decisions@,
        r.metadata == content.metadata,
        r.source == input.metadata,
        r.duration_ms == duration_ms,
        r.warnings@.len() <= 1,
        r.warnings@.len() == 0 <==> exists|i: int|
            0 <= i < r.markdown@.len() && !crate::text::is_white(#[trigger] r.markdown@[i]),
{
    assert(crate::text::texts(r.warnings@).len() == r.warnings@.len());
    let shown = exists|i: int|
        0 <= i < r.markdown@.len() && !crate::text::is_white(#[trigger] r.markdown@[i]);
    assert(shown <==> !is_blank(content.markdown@));
}

/// Inspecting tells what converting would need: an input is supported exactly where it is
/// not refused for its kind, and needs a provider exactly where one would be asked.
pub proof fn law_inspection_tells_what_is_needed(
    input: ResolvedInput,
    found: InspectionResult,
    runtime: DocumentRuntime,
    options: ConvertOptions,
    r: Result<Step, RuntimeError>,
)
    requires
        inspects(input, found),
        begins(runtime, input, options, r),
    ensures
        found.source == input.metadata,
        !found.supported ==> r is Err,
        found.supported && !found.requires_provider && valid_utf8(input.bytes@) ==> r is Ok,
        found.requires_provider && !runtime.has_ocr && !runtime.has_transcription ==> r is Err,
        found.requires_provider && runtime.has_ocr && runtime.has_transcription ==> r is Ok,
        found.requires_provider ==> found.supported,
{
}

} // verus!
