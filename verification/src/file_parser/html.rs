//! HTML to Markdown.
//!
//! Strips non-content blocks and comments, takes the title from `<title>` or
//! `<h1>`, converts block and inline elements, then removes the remaining tags
//! and decodes entities.

use crate::file_parser::error::ConvertError;
use crate::file_parser::regex_text::{
    capture, cut_text, first_capture, group, reassembled, regex_cuts, Cut, Cuts,
};
use crate::text::{
    chars_of, decode_lossy, join, joined, lines, lines_of, lossy_text, push_chars, replace,
    replace_all, string_of, texts, trim, trim_end, trim_end_of, trim_of,
};
use vstd::prelude::*;

verus! {

broadcast use crate::text::lemma_texts_push;

pub const SCRIPT: &'static str = "(?is)<script\\b[^>]*>.*?</script\\s*>";

pub const STYLE: &'static str = "(?is)<style\\b[^>]*>.*?</style\\s*>";

pub const NAV: &'static str = "(?is)<nav\\b[^>]*>.*?</nav\\s*>";

pub const FOOTER: &'static str = "(?is)<footer\\b[^>]*>.*?</footer\\s*>";

pub const HEADER: &'static str = "(?is)<header\\b[^>]*>.*?</header\\s*>";

pub const NOSCRIPT: &'static str = "(?is)<noscript\\b[^>]*>.*?</noscript\\s*>";

pub const COMMENT: &'static str = "(?s)<!--.*?-->";

pub const TITLE: &'static str = "(?i)<title[^>]*>([^<]*)</title\\s*>";

pub const H1: &'static str = "(?is)<h1[^>]*>(.*?)</h1\\s*>";

pub const H2: &'static str = "(?is)<h2[^>]*>(.*?)</h2\\s*>";

pub const H3: &'static str = "(?is)<h3[^>]*>(.*?)</h3\\s*>";

pub const H4: &'static str = "(?is)<h4[^>]*>(.*?)</h4\\s*>";

pub const H5: &'static str = "(?is)<h5[^>]*>(.*?)</h5\\s*>";

pub const H6: &'static str = "(?is)<h6[^>]*>(.*?)</h6\\s*>";

pub const BODY: &'static str = "(?is)<body[^>]*>(.*?)</body\\s*>";

pub const P: &'static str = "(?is)<p[^>]*>(.*?)</p\\s*>";

pub const BR: &'static str = "(?i)<br\\s*/?>";

pub const HR: &'static str = "(?i)<hr\\s*/?>";

pub const LI: &'static str = "(?is)<li[^>]*>(.*?)</li\\s*>";

pub const TR: &'static str = "(?is)<tr[^>]*>(.*?)</tr\\s*>";

pub const TD: &'static str = "(?is)<t[dh][^>]*>(.*?)</t[dh]\\s*>";

pub const STRONG: &'static str = "(?is)<strong\\b[^>]*>(.*?)</strong\\s*>";

pub const B: &'static str = "(?is)<b(?:\\s[^>]*)?>(.*?)</b\\s*>";

pub const EM: &'static str = "(?is)<em\\b[^>]*>(.*?)</em\\s*>";

pub const I: &'static str = "(?is)<i(?:\\s[^>]*)?>(.*?)</i\\s*>";

pub const A: &'static str = "(?is)<a\\b[^>]*href=\"([^\"]*)\"[^>]*>(.*?)</a\\s*>";

pub const IMG_ALT: &'static str =
    "(?is)<img\\b[^>]*src=\"([^\"]*)\"[^>]*alt=\"([^\"]*)\"[^>]*/?>";

pub const IMG: &'static str = "(?is)<img\\b[^>]*src=\"([^\"]*)\"[^>]*/?>";

pub const TAGS: &'static str = "<[^>]+>";

pub const NAMED_ENTITY: &'static str = "&[a-zA-Z]+;";

pub const BLANKS: &'static str = "\\n{3,}";

/// What stands in the place of a match.
#[derive(Clone, Copy, Debug)]
pub enum Rewrite {
    /// A fixed text.
    Fixed(&'static str),
    /// The first group between two texts.
    Around(&'static str, &'static str),
    /// The second group as a link to the first.
    Link,
    /// An image at the first group with the second as its alt text.
    ImageAlt,
    /// An image at the first group.
    Image,
    /// The first group as a heading with the given marker.
    Heading(&'static str),
    /// The first group as a table row.
    Row,
}

/// The pieces of a cut text with a replacement for every match.
pub open spec fn spliced(
    cuts: Seq<(Seq<char>, Seq<Seq<char>>)>,
    kind: Rewrite,
) -> Seq<char>
    decreases cuts.len(),
{
    if cuts.len() == 0 {
        seq![]
    } else {
        spliced(cuts.drop_last(), kind) + cuts.last().0 + replacement(kind, cuts.last().1)
    }
}

/// The text with every match replaced.
pub open spec fn rewritten(text: Seq<char>, pattern: &str, kind: Rewrite) -> Seq<char> {
    match regex_cuts(pattern@, text) {
        Some(c) => spliced(c.0, kind) + c.1,
        None => text,
    }
}

/// The pieces of a cut text without the matches.
pub open spec fn leads(cuts: Seq<(Seq<char>, Seq<Seq<char>>)>) -> Seq<char>
    decreases cuts.len(),
{
    if cuts.len() == 0 { seq![] } else { leads(cuts.drop_last()) + cuts.last().0 }
}

/// The text with every match removed.
pub open spec fn removed(text: Seq<char>, pattern: &str) -> Seq<char> {
    match regex_cuts(pattern@, text) {
        Some(c) => leads(c.0) + c.1,
        None => text,
    }
}

/// The common entities decoded, one after the other.
pub open spec fn entities_decoded(s: Seq<char>) -> Seq<char> {
    let s1 = replace_all(s, "&nbsp;"@, " "@);
    let s2 = replace_all(s1, "&amp;"@, "&"@);
    let s3 = replace_all(s2, "&lt;"@, "<"@);
    let s4 = replace_all(s3, "&gt;"@, ">"@);
    let s5 = replace_all(s4, "&quot;"@, "\""@);
    replace_all(s5, "&#39;"@, "'"@)
}

/// The text without tags, with the common entities decoded and the unknown
/// named ones dropped.
pub open spec fn without_tags(text: Seq<char>) -> Seq<char> {
    removed(entities_decoded(removed(text, TAGS)), NAMED_ENTITY)
}

pub open spec fn cell_or_space(s: Seq<char>) -> Seq<char> {
    if trim(s).len() == 0 { " "@ } else { trim(s) }
}

pub open spec fn row_cells(cuts: Seq<(Seq<char>, Seq<Seq<char>>)>) -> Seq<Seq<char>> {
    Seq::new(cuts.len(), |i: int| cell_or_space(removed(group(cuts[i].1, 1), TAGS)))
}

pub open spec fn table_row(row: Seq<char>) -> Seq<char> {
    let cells = match regex_cuts(TD@, row) {
        Some(c) => row_cells(c.0),
        None => seq![],
    };
    "| "@ + joined(cells, " | "@) + " |\n"@
}

pub open spec fn replacement(kind: Rewrite, groups: Seq<Seq<char>>) -> Seq<char> {
    match kind {
        Rewrite::Fixed(text) => text@,
        Rewrite::Around(before, after) => before@ + group(groups, 1) + after@,
        Rewrite::Link => "["@ + group(groups, 2) + "]("@ + group(groups, 1) + ")"@,
        Rewrite::ImageAlt => "!["@ + group(groups, 2) + "]("@ + group(groups, 1) + ")"@,
        Rewrite::Image => "![]("@ + group(groups, 1) + ")"@,
        Rewrite::Heading(marker) => "\n"@ + marker@ + " "@ + trim(without_tags(group(groups, 1)))
            + "\n"@,
        Rewrite::Row => table_row(group(groups, 1)),
    }
}

/// The text without its scripts, styles, navigation and comments.
pub open spec fn content_of(html: Seq<char>) -> Seq<char> {
    let s1 = removed(html, SCRIPT);
    let s2 = removed(s1, STYLE);
    let s3 = removed(s2, NAV);
    let s4 = removed(s3, FOOTER);
    let s5 = removed(s4, HEADER);
    let s6 = removed(s5, NOSCRIPT);
    removed(s6, COMMENT)
}

/// `<title>`, else the first `<h1>`, else the fallback.
pub open spec fn title_of(content: Seq<char>, fallback: Seq<char>) -> Seq<char> {
    let raw = match first_capture(regex_cuts(TITLE@, content)) {
        Some(t) => t,
        None => match first_capture(regex_cuts(H1@, content)) {
            Some(t) => t,
            None => fallback,
        },
    };
    trim(without_tags(raw))
}

/// The body, when the document marks one.
pub open spec fn body_of(content: Seq<char>) -> Seq<char> {
    match first_capture(regex_cuts(BODY@, content)) {
        Some(b) => b,
        None => content,
    }
}

pub open spec fn headings_marked(body: Seq<char>) -> Seq<char> {
    let s1 = rewritten(body, H1, Rewrite::Heading("#"));
    let s2 = rewritten(s1, H2, Rewrite::Heading("##"));
    let s3 = rewritten(s2, H3, Rewrite::Heading("###"));
    let s4 = rewritten(s3, H4, Rewrite::Heading("####"));
    let s5 = rewritten(s4, H5, Rewrite::Heading("#####"));
    rewritten(s5, H6, Rewrite::Heading("######"))
}

/// Block-level elements; their content keeps its inline tags.
pub open spec fn blocks_marked(body: Seq<char>) -> Seq<char> {
    let s1 = headings_marked(body);
    let s2 = rewritten(s1, P, Rewrite::Around("\n", "\n"));
    let s3 = rewritten(s2, BR, Rewrite::Fixed("\n"));
    let s4 = rewritten(s3, HR, Rewrite::Fixed("\n---\n"));
    let s5 = rewritten(s4, LI, Rewrite::Around("- ", "\n"));
    rewritten(s5, TR, Rewrite::Row)
}

pub open spec fn inlines_marked(text: Seq<char>) -> Seq<char> {
    let s1 = rewritten(text, STRONG, Rewrite::Around("**", "**"));
    let s2 = rewritten(s1, B, Rewrite::Around("**", "**"));
    let s3 = rewritten(s2, EM, Rewrite::Around("*", "*"));
    let s4 = rewritten(s3, I, Rewrite::Around("*", "*"));
    let s5 = rewritten(s4, A, Rewrite::Link);
    let s6 = rewritten(s5, IMG_ALT, Rewrite::ImageAlt);
    rewritten(s6, IMG, Rewrite::Image)
}

pub open spec fn ends_trimmed(all: Seq<Seq<char>>) -> Seq<Seq<char>> {
    Seq::new(all.len(), |i: int| trim_end(all[i]))
}

/// Line ends trimmed, blank runs collapsed, edges trimmed.
pub open spec fn tidied(text: Seq<char>) -> Seq<char> {
    trim(rewritten(joined(ends_trimmed(lines(text)), "\n"@), BLANKS, Rewrite::Fixed("\n\n")))
}

pub open spec fn html_markdown(html: Seq<char>, fallback: Seq<char>) -> Seq<char> {
    let content = content_of(html);
    "# "@ + title_of(content, fallback) + "\n\n"@ + tidied(
        without_tags(inlines_marked(blocks_marked(body_of(content)))),
    )
}

// ---------------------------------------------------------------------------
// Execution
// ---------------------------------------------------------------------------
/// Joins a cut text without its matches.
pub fn join_leads(cuts: &Cuts) -> (r: String)
    ensures
        r@ == leads(cuts@.0) + cuts@.1,
{
    let mut out = String::new();
    let ghost all = cuts@.0;
    for i in 0..cuts.cuts.len()
        invariant
            all == cuts@.0,
            out@ == leads(all.take(i as int)),
    {
        assert(all.take(i + 1).drop_last() =~= all.take(i as int));
        assert(all[i as int] == cuts.cuts@[i as int]@);
        out.push_str(cuts.cuts[i].lead.as_str());
    }
    assert(all.take(all.len() as int) =~= all);
    out.push_str(cuts.tail.as_str());
    out
}

/// Removes every match.
pub fn remove(text: &str, pattern: &str) -> (r: String)
    ensures
        r@ == removed(text@, pattern),
{
    match cut_text(pattern, text) {
        Some(cuts) => join_leads(&cuts),
        None => text.to_owned(),
    }
}

fn replaced(s: Vec<char>, from: &str, to: &str) -> (r: Vec<char>)
    ensures
        r@ == replace_all(s@, from@, to@),
{
    replace(s.as_slice(), chars_of(from).as_slice(), chars_of(to).as_slice())
}

/// Decodes the common named entities.
pub fn decode_entities(text: &str) -> (r: String)
    ensures
        r@ == entities_decoded(text@),
{
    let s1 = replaced(chars_of(text), "&nbsp;", " ");
    let s2 = replaced(s1, "&amp;", "&");
    let s3 = replaced(s2, "&lt;", "<");
    let s4 = replaced(s3, "&gt;", ">");
    let s5 = replaced(s4, "&quot;", "\"");
    let s6 = replaced(s5, "&#39;", "'");
    string_of(s6.as_slice())
}

/// Removes all tags, then decodes the common named entities and drops the
/// unknown ones.
pub fn strip_tags(text: &str) -> (r: String)
    ensures
        r@ == without_tags(text@),
{
    let no_tags = remove(text, TAGS);
    remove(decode_entities(no_tags.as_str()).as_str(), NAMED_ENTITY)
}

/// The trimmed cell texts of a cut table row.
pub fn cells_of(cuts: &Cuts) -> (r: Vec<String>)
    ensures
        texts(r@) == row_cells(cuts@.0),
{
    let mut cells: Vec<String> = Vec::new();
    let ghost all = cuts@.0;
    assert(texts(cells@) =~= row_cells(all.take(0)));
    for i in 0..cuts.cuts.len()
        invariant
            all == cuts@.0,
            texts(cells@) == row_cells(all.take(i as int)),
    {
        assert(all[i as int] == cuts.cuts@[i as int]@);
        let text = chars_of(remove(cuts.cuts[i].group(1), TAGS).as_str());
        let t = trim_of(text.as_slice());
        let cell = if t.len() == 0 { " ".to_owned() } else { string_of(t) };
        assert(cell@ =~= cell_or_space(removed(group(all[i as int].1, 1), TAGS)));
        cells.push(cell);
        assert(texts(cells@) =~= row_cells(all.take(i + 1)));
    }
    assert(all.take(all.len() as int) =~= all);
    cells
}

fn format_table_row(row: &str) -> (r: String)
    ensures
        r@ == table_row(row@),
{
    let cells = match cut_text(TD, row) {
        Some(cuts) => cells_of(&cuts),
        None => Vec::new(),
    };
    assert(regex_cuts(TD@, row@) is None ==> texts(cells@) =~= seq![]);
    let mut out = "| ".to_owned();
    out.push_str(join(&cells, " | ").as_str());
    out.push_str(" |\n");
    out
}

fn push_replacement(out: &mut String, kind: Rewrite, cut: &Cut)
    ensures
        final(out)@ == old(out)@ + replacement(kind, cut@.1),
{
    let ghost before = out@;
    match kind {
        Rewrite::Fixed(text) => out.push_str(text),
        Rewrite::Around(start, end) => {
            out.push_str(start);
            out.push_str(cut.group(1));
            out.push_str(end);
        },
        Rewrite::Link => {
            out.push_str("[");
            out.push_str(cut.group(2));
            out.push_str("](");
            out.push_str(cut.group(1));
            out.push_str(")");
        },
        Rewrite::ImageAlt => {
            out.push_str("![");
            out.push_str(cut.group(2));
            out.push_str("](");
            out.push_str(cut.group(1));
            out.push_str(")");
        },
        Rewrite::Image => {
            out.push_str("![](");
            out.push_str(cut.group(1));
            out.push_str(")");
        },
        Rewrite::Heading(marker) => {
            out.push_str("\n");
            out.push_str(marker);
            out.push_str(" ");
            let text = chars_of(strip_tags(cut.group(1)).as_str());
            push_chars(out, trim_of(text.as_slice()));
            out.push_str("\n");
        },
        Rewrite::Row => out.push_str(format_table_row(cut.group(1)).as_str()),
    }
    assert(out@ =~= before + replacement(kind, cut@.1));
}

/// Joins a cut text with a replacement for every match.
pub fn splice(cuts: &Cuts, kind: Rewrite) -> (r: String)
    ensures
        r@ == spliced(cuts@.0, kind) + cuts@.1,
{
    let mut out = String::new();
    let ghost all = cuts@.0;
    for i in 0..cuts.cuts.len()
        invariant
            all == cuts@.0,
            out@ == spliced(all.take(i as int), kind),
    {
        assert(all.take(i + 1).drop_last() =~= all.take(i as int));
        assert(all[i as int] == cuts.cuts@[i as int]@);
        out.push_str(cuts.cuts[i].lead.as_str());
        push_replacement(&mut out, kind, &cuts.cuts[i]);
    }
    assert(all.take(all.len() as int) =~= all);
    out.push_str(cuts.tail.as_str());
    out
}

/// Replaces every match.
pub fn rewrite(text: &str, pattern: &str, kind: Rewrite) -> (r: String)
    ensures
        r@ == rewritten(text@, pattern, kind),
{
    match cut_text(pattern, text) {
        Some(cuts) => splice(&cuts, kind),
        None => text.to_owned(),
    }
}

/// Drops the non-content element kinds, with their content, and comments.
pub fn strip_non_content(html: &str) -> (r: String)
    ensures
        r@ == content_of(html@),
{
    let s1 = remove(html, SCRIPT);
    let s2 = remove(s1.as_str(), STYLE);
    let s3 = remove(s2.as_str(), NAV);
    let s4 = remove(s3.as_str(), FOOTER);
    let s5 = remove(s4.as_str(), HEADER);
    let s6 = remove(s5.as_str(), NOSCRIPT);
    remove(s6.as_str(), COMMENT)
}

/// Replaces `<h1>` to `<h6>` with `#` to `######`.
pub fn replace_headings(body: &str) -> (r: String)
    ensures
        r@ == headings_marked(body@),
{
    let s1 = rewrite(body, H1, Rewrite::Heading("#"));
    let s2 = rewrite(s1.as_str(), H2, Rewrite::Heading("##"));
    let s3 = rewrite(s2.as_str(), H3, Rewrite::Heading("###"));
    let s4 = rewrite(s3.as_str(), H4, Rewrite::Heading("####"));
    let s5 = rewrite(s4.as_str(), H5, Rewrite::Heading("#####"));
    rewrite(s5.as_str(), H6, Rewrite::Heading("######"))
}

fn convert_blocks(body: &str) -> (r: String)
    ensures
        r@ == blocks_marked(body@),
{
    let s1 = replace_headings(body);
    let s2 = rewrite(s1.as_str(), P, Rewrite::Around("\n", "\n"));
    let s3 = rewrite(s2.as_str(), BR, Rewrite::Fixed("\n"));
    let s4 = rewrite(s3.as_str(), HR, Rewrite::Fixed("\n---\n"));
    let s5 = rewrite(s4.as_str(), LI, Rewrite::Around("- ", "\n"));
    rewrite(s5.as_str(), TR, Rewrite::Row)
}

fn convert_inlines(text: &str) -> (r: String)
    ensures
        r@ == inlines_marked(text@),
{
    let s1 = rewrite(text, STRONG, Rewrite::Around("**", "**"));
    let s2 = rewrite(s1.as_str(), B, Rewrite::Around("**", "**"));
    let s3 = rewrite(s2.as_str(), EM, Rewrite::Around("*", "*"));
    let s4 = rewrite(s3.as_str(), I, Rewrite::Around("*", "*"));
    let s5 = rewrite(s4.as_str(), A, Rewrite::Link);
    let s6 = rewrite(s5.as_str(), IMG_ALT, Rewrite::ImageAlt);
    rewrite(s6.as_str(), IMG, Rewrite::Image)
}

fn tidy(text: &str) -> (r: String)
    ensures
        r@ == tidied(text@),
{
    let all = lines_of(chars_of(text).as_slice());
    let ghost source = lines(text@);
    let mut kept: Vec<String> = Vec::new();
    assert(texts(kept@) =~= ends_trimmed(source).take(0));
    for i in 0..all.len()
        invariant
            texts(all@) == source,
            texts(kept@) == ends_trimmed(source).take(i as int),
    {
        assert(source[i as int] == all@[i as int]@);
        let chars = chars_of(all[i].as_str());
        kept.push(string_of(trim_end_of(chars.as_slice())));
        assert(texts(kept@) =~= ends_trimmed(source).take(i + 1));
    }
    assert(ends_trimmed(source).take(source.len() as int) =~= ends_trimmed(source));
    let collapsed = rewrite(join(&kept, "\n").as_str(), BLANKS, Rewrite::Fixed("\n\n"));
    let chars = chars_of(collapsed.as_str());
    string_of(trim_of(chars.as_slice()))
}

fn find_title(content: &str, fallback_title: &str) -> (r: String)
    ensures
        r@ == title_of(content@, fallback_title@),
{
    let raw = match capture(TITLE, content) {
        Some(t) => t,
        None => match capture(H1, content) {
            Some(t) => t,
            None => fallback_title.to_owned(),
        },
    };
    let chars = chars_of(strip_tags(raw.as_str()).as_str());
    string_of(trim_of(chars.as_slice()))
}

/// Converts an HTML text. `fallback_title` is used when neither `<title>` nor
/// `<h1>` names the page.
pub fn html_to_markdown(html: &str, fallback_title: &str) -> (r: String)
    ensures
        r@ == html_markdown(html@, fallback_title@),
{
    let content = strip_non_content(html);
    let title = find_title(content.as_str(), fallback_title);
    let body = match capture(BODY, content.as_str()) {
        Some(b) => b,
        None => content.clone(),
    };
    let blocks = convert_blocks(body.as_str());
    let inlines = convert_inlines(blocks.as_str());
    let text = tidy(strip_tags(inlines.as_str()).as_str());
    let mut out = "# ".to_owned();
    out.push_str(title.as_str());
    out.push_str("\n\n");
    out.push_str(text.as_str());
    out
}

/// Converts an HTML document to Markdown. Bytes that are not UTF-8 are replaced.
pub fn to_markdown(bytes: &[u8], fallback_title: &str) -> (r: Result<String, ConvertError>)
    ensures
        r matches Ok(text) && text@ == html_markdown(lossy_text(bytes@), fallback_title@).push('\n'),
{
    let html = decode_lossy(bytes);
    let mut out = html_to_markdown(html.as_str(), fallback_title);
    out.push('\n');
    Ok(out)
}

/// A text in which nothing matches is unchanged.
pub proof fn law_unmatched_text_is_unchanged(cuts: Cuts, kind: Rewrite)
    requires
        cuts@.0.len() == 0,
    ensures
        spliced(cuts@.0, kind) + cuts@.1 == reassembled(cuts@.0) + cuts@.1,
        leads(cuts@.0) + cuts@.1 == reassembled(cuts@.0) + cuts@.1,
{
}

} // verus!
