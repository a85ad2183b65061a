//! Inline content to Markdown.

use crate::ocr::image_pass::{alt_text, compose_alt};
use crate::render::escape::{
    backtick_fence, clean_char, escape_text, escaped, fence_len, InlineContext,
};
use crate::render::model::{AssetId, ImageSource, Inline, TextStyle};
use crate::text::{
    blank, chars_of, decimal, is_blank, is_control, is_control_char, push_chars, push_decimal, run,
    same_text, texts, trim, trim_of,
};
use vstd::prelude::*;

verus! {

/// What inline rendering depends on besides the content: the note ids and the
/// image assets in the order of their numbers, counted from one.
pub struct Numbering {
    pub notes: Vec<String>,
    pub assets: Vec<AssetId>,
}

/// The mathematical counterpart of [`Numbering`].
pub struct Numbers {
    pub notes: Seq<Seq<char>>,
    pub assets: Seq<AssetId>,
}

impl View for Numbering {
    type V = Numbers;

    open spec fn view(&self) -> Numbers {
        Numbers { notes: texts(self.notes@), assets: self.assets@ }
    }
}

/// The number of the first entry that equals `x`.
pub open spec fn number_of<T>(entries: Seq<T>, x: T) -> Option<usize>
    decreases entries.len(),
{
    if entries.len() == 0 {
        None
    } else {
        match number_of(entries.drop_last(), x) {
            Some(n) => Some(n),
            None => if entries.last() == x { Some(entries.len() as usize) } else { None },
        }
    }
}

/// Exactly the entries have a number, and the number is the place of the entry,
/// counted from one.
pub proof fn law_entries_are_numbered<T>(entries: Seq<T>, x: T)
    requires
        entries.len() <= usize::MAX,
    ensures
        number_of(entries, x) is Some <==> entries.contains(x),
        number_of(entries, x) matches Some(n) ==> 1 <= n <= entries.len() && entries[n - 1] == x,
    decreases entries.len(),
{
    if entries.len() > 0 {
        law_entries_are_numbered(entries.drop_last(), x);
        if entries.contains(x) {
            let i = choose|i: int| 0 <= i < entries.len() && entries[i] == x;
            if i < entries.len() - 1 {
                assert(entries.drop_last()[i] == x);
            }
        }
        if entries.drop_last().contains(x) {
            let i = choose|i: int|
                0 <= i < entries.drop_last().len() && entries.drop_last()[i] == x;
            assert(entries[i] == x);
        }
        if entries.last() == x {
            assert(entries[entries.len() - 1] == x);
        }
    }
}

impl Numbering {
    pub fn note_number(&self, id: &str) -> (r: Option<usize>)
        ensures
            r == number_of(self@.notes, id@),
    {
        let ghost all = self@.notes;
        for i in 0..self.notes.len()
            invariant
                all == texts(self.notes@),
                number_of(all.take(i as int), id@) is None,
        {
            assert(all.take(i + 1).drop_last() =~= all.take(i as int));
            if same_text(self.notes[i].as_str(), id) {
                proof {
                    lemma_number_of_prefix(all, id@, i + 1);
                }
                return Some(i + 1);
            }
        }
        assert(all.take(self.notes@.len() as int) =~= all);
        None
    }

    pub fn asset_number(&self, id: AssetId) -> (r: Option<usize>)
        ensures
            r == number_of(self@.assets, id),
    {
        let ghost all = self.assets@;
        for i in 0..self.assets.len()
            invariant
                all == self.assets@,
                number_of(all.take(i as int), id) is None,
        {
            assert(all.take(i + 1).drop_last() =~= all.take(i as int));
            if self.assets[i] == id {
                proof {
                    lemma_number_of_prefix(all, id, i + 1);
                }
                return Some(i + 1);
            }
        }
        assert(all.take(self.assets@.len() as int) =~= all);
        None
    }
}

proof fn lemma_number_of_prefix<T>(entries: Seq<T>, x: T, n: int)
    requires
        0 <= n <= entries.len(),
        number_of(entries.take(n), x) is Some,
    ensures
        number_of(entries, x) == number_of(entries.take(n), x),
    decreases entries.len(),
{
    if n == entries.len() {
        assert(entries.take(n) =~= entries);
    } else {
        assert(entries.drop_last().take(n) =~= entries.take(n));
        lemma_number_of_prefix(entries.drop_last(), x, n);
    }
}

// ---------------------------------------------------------------------------
// Spans
// ---------------------------------------------------------------------------
/// One character inside a code span.
pub open spec fn code_char(c: char, ctx: InlineContext) -> Seq<char> {
    if c == '|' && ctx == InlineContext::TableCell { seq!['\\', '|'] } else { seq![clean_char(c)] }
}

pub open spec fn code_text(s: Seq<char>, ctx: InlineContext) -> Seq<char>
    decreases s.len(),
{
    if s.len() == 0 {
        seq![]
    } else {
        code_text(s.drop_last(), ctx) + code_char(s.last(), ctx)
    }
}

/// A space on both sides when a backtick stands at an edge.
pub open spec fn code_pad(s: Seq<char>) -> Seq<char> {
    if s.len() > 0 && (s.first() == '`' || s.last() == '`') { seq![' '] } else { seq![] }
}

/// The text as a code span.
pub open spec fn code_span(s: Seq<char>, ctx: InlineContext) -> Seq<char> {
    run('`', fence_len(s, 1)) + code_pad(s) + code_text(s, ctx) + code_pad(s) + run(
        '`',
        fence_len(s, 1),
    )
}

pub fn push_code_span(text: &str, ctx: InlineContext, out: &mut String)
    ensures
        final(out)@ == old(out)@ + code_span(text@, ctx),
{
    let s = chars_of(text);
    let fence = backtick_fence(text, 1);
    let pad = s.len() > 0 && (s[0] == '`' || s[s.len() - 1] == '`');
    let ghost start = out@;
    out.push_str(fence.as_str());
    if pad {
        out.push(' ');
    }
    let ghost before = out@;
    assert(before =~= start + fence@ + code_pad(s@));
    for i in 0..s.len()
        invariant
            out@ == before + code_text(s@.take(i as int), ctx),
    {
        assert(s@.take(i + 1).drop_last() =~= s@.take(i as int));
        let c = s[i];
        if c == '|' && ctx == InlineContext::TableCell {
            out.push('\\');
            out.push('|');
        } else {
            out.push(if is_control(c) { ' ' } else { c });
        }
        assert(out@ =~= before + code_text(s@.take(i + 1), ctx));
    }
    assert(s@.take(s@.len() as int) =~= s@);
    if pad {
        out.push(' ');
    }
    out.push_str(fence.as_str());
    assert(out@ =~= start + code_span(text@, ctx));
}

/// How many backslashes the text ends with.
pub open spec fn trailing_backslashes(s: Seq<char>) -> nat
    decreases s.len(),
{
    if s.len() == 0 || s.last() != '\\' { 0 } else { 1 + trailing_backslashes(s.drop_last()) }
}

/// TeX source with every bare dollar sign escaped.
pub open spec fn dollars_escaped(s: Seq<char>) -> Seq<char>
    decreases s.len(),
{
    if s.len() == 0 {
        seq![]
    } else {
        let before = dollars_escaped(s.drop_last());
        if s.last() == '$' && trailing_backslashes(s.drop_last()) % 2 == 0 {
            before.push('\\').push('$')
        } else {
            before.push(s.last())
        }
    }
}

pub fn escape_dollars(s: &[char]) -> (r: Vec<char>)
    ensures
        r@ == dollars_escaped(s@),
{
    let mut out: Vec<char> = Vec::new();
    let mut backslashes: usize = 0;
    for i in 0..s.len()
        invariant
            out@ == dollars_escaped(s@.take(i as int)),
            backslashes == trailing_backslashes(s@.take(i as int)),
            backslashes <= i,
    {
        assert(s@.take(i + 1).drop_last() =~= s@.take(i as int));
        let c = s[i];
        if c == '$' && backslashes % 2 == 0 {
            out.push('\\');
        }
        out.push(c);
        if c == '\\' {
            backslashes = backslashes + 1;
        } else {
            backslashes = 0;
        }
    }
    assert(s@.take(s@.len() as int) =~= s@);
    out
}

/// The TeX source as an inline math span.
pub open spec fn math_span(tex: Seq<char>, ctx: InlineContext) -> Seq<char> {
    seq!['$'] + math_text(dollars_escaped(trim(tex)), ctx) + seq!['$']
}

/// One character inside a math span.
pub open spec fn math_char(c: char, ctx: InlineContext) -> Seq<char> {
    if c == '|' && ctx == InlineContext::TableCell { "\\vert "@ } else { seq![clean_char(c)] }
}

pub open spec fn math_text(s: Seq<char>, ctx: InlineContext) -> Seq<char>
    decreases s.len(),
{
    if s.len() == 0 {
        seq![]
    } else {
        math_text(s.drop_last(), ctx) + math_char(s.last(), ctx)
    }
}

pub fn push_math_span(tex: &str, ctx: InlineContext, out: &mut String)
    ensures
        final(out)@ == old(out)@ + math_span(tex@, ctx),
{
    let source = chars_of(tex);
    let s = escape_dollars(trim_of(source.as_slice()));
    let ghost start = out@;
    out.push('$');
    let ghost before = out@;
    for i in 0..s.len()
        invariant
            out@ == before + math_text(s@.take(i as int), ctx),
    {
        assert(s@.take(i + 1).drop_last() =~= s@.take(i as int));
        let c = s[i];
        if c == '|' && ctx == InlineContext::TableCell {
            out.push_str("\\vert ");
        } else {
            out.push(if is_control(c) { ' ' } else { c });
        }
        assert(out@ =~= before + math_text(s@.take(i + 1), ctx));
    }
    assert(s@.take(s@.len() as int) =~= s@);
    out.push('$');
    assert(out@ =~= start + math_span(tex@, ctx));
}

// ---------------------------------------------------------------------------
// Inlines
// ---------------------------------------------------------------------------
/// The emphasis marks around a text of this style.
pub open spec fn style_marks(style: TextStyle) -> Seq<char> {
    (if style.strike { "~~"@ } else { seq![] }) + (if style.bold { "**"@ } else { seq![] }) + (
    if style.italic { "*"@ } else { seq![] })
}

pub open spec fn style_marks_end(style: TextStyle) -> Seq<char> {
    (if style.italic { "*"@ } else { seq![] }) + (if style.bold { "**"@ } else { seq![] }) + (
    if style.strike { "~~"@ } else { seq![] })
}

/// One character of a link target.
pub open spec fn target_char(c: char) -> Seq<char> {
    if c == ' ' {
        "%20"@
    } else if c == '(' {
        "%28"@
    } else if c == ')' {
        "%29"@
    } else if c == '<' {
        "%3C"@
    } else if c == '>' {
        "%3E"@
    } else if is_control_char(c) {
        seq![]
    } else {
        seq![c]
    }
}

/// A link target that cannot close its parentheses early.
pub open spec fn target_text(s: Seq<char>) -> Seq<char>
    decreases s.len(),
{
    if s.len() == 0 {
        seq![]
    } else {
        target_text(s.drop_last()) + target_char(s.last())
    }
}

pub open spec fn line_break(ctx: InlineContext) -> Seq<char> {
    match ctx {
        InlineContext::Block => "\\\n"@,
        InlineContext::Heading => " "@,
        _ => "\n"@,
    }
}

/// One inline; `at_start` says whether it opens a line.
pub open spec fn inline_text(
    inline: Inline,
    ctx: InlineContext,
    numbers: Numbers,
    at_start: bool,
) -> Seq<char>
    decreases inline,
{
    match inline {
        Inline::Text { text, style } => if is_blank(text@) {
            escaped(text@, ctx, at_start)
        } else {
            let marks = style_marks(style);
            marks + escaped(text@, ctx, at_start && marks.len() == 0) + style_marks_end(style)
        },
        Inline::Code(text) => code_span(text@, ctx),
        Inline::Math(tex) => math_span(tex@, ctx),
        Inline::LineBreak => line_break(ctx),
        Inline::NoteRef(id) => match number_of(numbers.notes, id@) {
            Some(n) => "[^"@ + decimal(n as nat) + "]"@,
            None => seq![],
        },
        Inline::Link { content, target } => {
            let inner = inlines_text(content@, ctx, numbers, false);
            if is_blank(inner) { inner } else { "["@ + inner + "]("@ + target_text(target@) + ")"@ }
        },
        Inline::Image { source, alt } => match source {
            ImageSource::Asset(id) => "!["@ + alt_text(alt@, number_of(numbers.assets, id))
                + "]()"@,
            ImageSource::External(url) => "!["@ + escaped(alt@, ctx, false) + "]("@ + target_text(
                url@,
            ) + ")"@,
        },
    }
}

/// Whether what follows `before` opens a line.
pub open spec fn opens_line(before: Seq<char>, at_start: bool) -> bool {
    if before.len() == 0 { at_start } else { before.last() == '\n' }
}

/// A run of inlines; `at_start` says whether the run opens a line.
pub open spec fn inlines_text(
    inlines: Seq<Inline>,
    ctx: InlineContext,
    numbers: Numbers,
    at_start: bool,
) -> Seq<char>
    decreases inlines,
{
    if inlines.len() == 0 {
        seq![]
    } else {
        let before = inlines_text(inlines.drop_last(), ctx, numbers, at_start);
        before + inline_text(inlines.last(), ctx, numbers, opens_line(before, at_start))
    }
}

fn push_style(out: &mut Vec<char>, style: TextStyle, end: bool)
    ensures
        final(out)@ == old(out)@ + if end { style_marks_end(style) } else { style_marks(style) },
{
    let ghost start = out@;
    if style.italic && end {
        crate::text::push_all(out, chars_of("*").as_slice());
    }
    if style.strike && !end {
        crate::text::push_all(out, chars_of("~~").as_slice());
    }
    if style.bold {
        crate::text::push_all(out, chars_of("**").as_slice());
    }
    if style.italic && !end {
        crate::text::push_all(out, chars_of("*").as_slice());
    }
    if style.strike && end {
        crate::text::push_all(out, chars_of("~~").as_slice());
    }
    assert(out@ =~= start + if end { style_marks_end(style) } else { style_marks(style) });
}

fn push_target(out: &mut String, target: &str)
    ensures
        final(out)@ == old(out)@ + target_text(target@),
{
    let s = chars_of(target);
    let ghost before = out@;
    for i in 0..s.len()
        invariant
            s@ == target@,
            out@ == before + target_text(s@.take(i as int)),
    {
        assert(s@.take(i + 1).drop_last() =~= s@.take(i as int));
        let c = s[i];
        if c == ' ' {
            out.push_str("%20");
        } else if c == '(' {
            out.push_str("%28");
        } else if c == ')' {
            out.push_str("%29");
        } else if c == '<' {
            out.push_str("%3C");
        } else if c == '>' {
            out.push_str("%3E");
        } else if !is_control(c) {
            out.push(c);
        }
        assert(out@ =~= before + target_text(s@.take(i + 1)));
    }
    assert(s@.take(s@.len() as int) =~= s@);
}

fn render_text(text: &str, style: TextStyle, ctx: InlineContext, at_start: bool) -> (r: String)
    ensures
        r@ == if is_blank(text@) {
            escaped(text@, ctx, at_start)
        } else {
            style_marks(style) + escaped(text@, ctx, at_start && style_marks(style).len() == 0)
                + style_marks_end(style)
        },
{
    if blank(chars_of(text).as_slice()) {
        return escape_text(text, ctx, at_start);
    }
    let mut open: Vec<char> = Vec::new();
    push_style(&mut open, style, false);
    assert(open@ =~= style_marks(style));
    let mut close: Vec<char> = Vec::new();
    push_style(&mut close, style, true);
    assert(close@ =~= style_marks_end(style));
    let body = escape_text(text, ctx, at_start && open.len() == 0);
    let mut out = String::new();
    push_chars(&mut out, open.as_slice());
    out.push_str(body.as_str());
    push_chars(&mut out, close.as_slice());
    assert(out@ =~= open@ + body@ + close@);
    out
}

fn render_image(
    source: &ImageSource,
    alt: &str,
    ctx: InlineContext,
    numbering: &Numbering,
) -> (r: String)
    ensures
        r@ == match *source {
            ImageSource::Asset(id) => "!["@ + alt_text(alt@, number_of(numbering@.assets, id))
                + "]()"@,
            ImageSource::External(url) => "!["@ + escaped(alt@, ctx, false) + "]("@ + target_text(
                url@,
            ) + ")"@,
        },
{
    let mut out = "![".to_owned();
    match source {
        ImageSource::Asset(id) => {
            out.push_str(compose_alt(alt, numbering.asset_number(*id)).as_str());
            out.push_str("]()");
        },
        ImageSource::External(url) => {
            out.push_str(escape_text(alt, ctx, false).as_str());
            out.push_str("](");
            push_target(&mut out, url.as_str());
            out.push_str(")");
        },
    }
    out
}

fn render_inline(inline: &Inline, ctx: InlineContext, numbering: &Numbering, at_start: bool) -> (r:
    String)
    ensures
        r@ == inline_text(*inline, ctx, numbering@, at_start),
    decreases inline,
{
    match inline {
        Inline::Text { text, style } => render_text(text.as_str(), *style, ctx, at_start),
        Inline::Code(text) => {
            let mut out = String::new();
            push_code_span(text.as_str(), ctx, &mut out);
            assert(out@ =~= code_span(text@, ctx));
            out
        },
        Inline::Math(tex) => {
            let mut out = String::new();
            push_math_span(tex.as_str(), ctx, &mut out);
            assert(out@ =~= math_span(tex@, ctx));
            out
        },
        Inline::LineBreak => match ctx {
            InlineContext::Block => "\\\n".to_owned(),
            InlineContext::Heading => " ".to_owned(),
            _ => "\n".to_owned(),
        },
        Inline::NoteRef(id) => {
            let mut out = String::new();
            if let Some(n) = numbering.note_number(id.as_str()) {
                out.push_str("[^");
                push_decimal(&mut out, n as u64);
                out.push_str("]");
                assert(out@ =~= "[^"@ + decimal(n as nat) + "]"@);
            }
            out
        },
        Inline::Link { content, target } => {
            let inner = render_run(content, ctx, numbering, false);
            if blank(chars_of(inner.as_str()).as_slice()) {
                inner
            } else {
                let mut out = "[".to_owned();
                out.push_str(inner.as_str());
                out.push_str("](");
                push_target(&mut out, target.as_str());
                out.push_str(")");
                out
            }
        },
        Inline::Image { source, alt } => render_image(source, alt.as_str(), ctx, numbering),
    }
}

fn render_run(inlines: &Vec<Inline>, ctx: InlineContext, numbering: &Numbering, at_start: bool) -> (r:
    String)
    ensures
        r@ == inlines_text(inlines@, ctx, numbering@, at_start),
    decreases inlines,
{
    let mut out = String::new();
    let mut opens = at_start;
    for i in 0..inlines.len()
        invariant
            out@ == inlines_text(inlines@.take(i as int), ctx, numbering@, at_start),
            opens == opens_line(out@, at_start),
    {
        assert(inlines@.take(i + 1).drop_last() =~= inlines@.take(i as int));
        assert(decreases_to!(inlines => inlines@[i as int]));
        let piece = render_inline(&inlines[i], ctx, numbering, opens);
        let chars = chars_of(piece.as_str());
        out.push_str(piece.as_str());
        if chars.len() > 0 {
            opens = chars[chars.len() - 1] == '\n';
        }
    }
    assert(inlines@.take(inlines@.len() as int) =~= inlines@);
    out
}

/// Renders a run of inlines that opens a line.
pub fn render_inlines(inlines: &Vec<Inline>, ctx: InlineContext, numbering: &Numbering) -> (r:
    String)
    ensures
        r@ == inlines_text(inlines@, ctx, numbering@, true),
{
    render_run(inlines, ctx, numbering, true)
}

} // verus!
