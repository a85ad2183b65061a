//! Escaping source text so that it stays literal in Markdown.

use crate::text::{
    chars_of, is_ascii_digit, is_control, is_control_char, is_digit_char, push_run, run,
};
use vstd::prelude::*;

verus! {

/// Where inline content stands.
#[derive(Clone, Copy, Debug, PartialEq, Eq, Structural)]
pub enum InlineContext {
    Block,
    Heading,
    TableCell,
    HtmlCell,
}

/// Control characters become spaces.
pub open spec fn clean_char(c: char) -> char {
    if is_control_char(c) { ' ' } else { c }
}

/// Characters that Markdown gives a meaning to inside a line.
pub open spec fn is_active(c: char, ctx: InlineContext) -> bool {
    &&& ctx != InlineContext::HtmlCell
    &&& (c == '\\' || c == '`' || c == '*' || c == '_' || c == '[' || c == ']' || c == '<' || c
        == '$' || c == '~' || (c == '|' && ctx == InlineContext::TableCell))
}

/// Characters that open a block at the start of a line.
pub open spec fn opens_block(c: char) -> bool {
    c == '#' || c == '>' || c == '-' || c == '+' || c == '='
}

/// How many digits the text starts with.
pub open spec fn leading_digits(s: Seq<char>) -> nat
    decreases s.len(),
{
    if s.len() == 0 || !is_digit_char(s.first()) {
        0
    } else {
        1 + leading_digits(s.drop_first())
    }
}

/// The place of the one character that must be escaped because of where it
/// stands at the start of a line.
pub open spec fn line_start_escape(s: Seq<char>, ctx: InlineContext, at_line_start: bool) -> Option<
    nat,
> {
    let d = leading_digits(s);
    if !at_line_start || ctx != InlineContext::Block || s.len() == 0 {
        None
    } else if opens_block(s[0]) {
        Some(0)
    } else if d > 0 && d < s.len() && (s[d as int] == '.' || s[d as int] == ')') {
        Some(d)
    } else {
        None
    }
}

pub open spec fn escape_upto(s: Seq<char>, ctx: InlineContext, forced: Option<nat>, n: nat) -> Seq<
    char,
>
    decreases n,
{
    if n == 0 {
        seq![]
    } else {
        let before = escape_upto(s, ctx, forced, (n - 1) as nat);
        let c = s[n - 1];
        if is_active(c, ctx) || forced == Some((n - 1) as nat) {
            before.push('\\').push(clean_char(c))
        } else {
            before.push(clean_char(c))
        }
    }
}

/// The text with every active character escaped.
pub open spec fn escaped(s: Seq<char>, ctx: InlineContext, at_line_start: bool) -> Seq<char> {
    escape_upto(s, ctx, line_start_escape(s, ctx, at_line_start), s.len())
}

fn is_active_char(c: char, ctx: InlineContext) -> (b: bool)
    ensures
        b == is_active(c, ctx),
{
    ctx != InlineContext::HtmlCell && (c == '\\' || c == '`' || c == '*' || c == '_' || c == '['
        || c == ']' || c == '<' || c == '$' || c == '~' || (c == '|' && ctx
        == InlineContext::TableCell))
}

fn count_digits(s: &Vec<char>) -> (n: usize)
    ensures
        n == leading_digits(s@),
        n <= s.len(),
{
    let mut i: usize = 0;
    assert(s@.skip(0) =~= s@);
    while i < s.len() && is_ascii_digit(s[i])
        invariant
            i <= s.len(),
            leading_digits(s@) == i + leading_digits(s@.skip(i as int)),
        decreases s.len() - i,
    {
        assert(s@.skip(i as int).drop_first() =~= s@.skip(i + 1));
        i = i + 1;
    }
    i
}

fn find_line_start_escape(s: &Vec<char>, ctx: InlineContext, at_line_start: bool) -> (r: Option<
    usize,
>)
    ensures
        match r {
            Some(i) => line_start_escape(s@, ctx, at_line_start) == Some(i as nat),
            None => line_start_escape(s@, ctx, at_line_start) is None,
        },
{
    if !at_line_start || ctx != InlineContext::Block || s.len() == 0 {
        return None;
    }
    let c = s[0];
    if c == '#' || c == '>' || c == '-' || c == '+' || c == '=' {
        return Some(0);
    }
    let d = count_digits(s);
    if d > 0 && d < s.len() && (s[d] == '.' || s[d] == ')') {
        Some(d)
    } else {
        None
    }
}

/// Escapes source text for literal use.
pub fn escape_text(text: &str, ctx: InlineContext, at_line_start: bool) -> (r: String)
    ensures
        r@ == escaped(text@, ctx, at_line_start),
{
    let s = chars_of(text);
    let forced = find_line_start_escape(&s, ctx, at_line_start);
    let ghost place = line_start_escape(s@, ctx, at_line_start);
    let mut out = String::new();
    for i in 0..s.len()
        invariant
            match forced {
                Some(k) => place == Some(k as nat),
                None => place is None,
            },
            out@ == escape_upto(s@, ctx, place, i as nat),
    {
        let c = s[i];
        let here = match forced {
            Some(k) => k == i,
            None => false,
        };
        if is_active_char(c, ctx) || here {
            out.push('\\');
        }
        out.push(if is_control(c) { ' ' } else { c });
    }
    out
}

/// Escapes a list label for literal use: control characters collapse to spaces
/// and Markdown syntax is neutralized, so that a crafted label cannot alter the
/// document structure. List-item content re-opens block syntax after the marker.
pub fn escape_marker_label(label: &str, ctx: InlineContext) -> (r: String)
    ensures
        r@ == escaped(label@, ctx, ctx == InlineContext::Block),
{
    escape_text(label, ctx, ctx == InlineContext::Block)
}

// ---------------------------------------------------------------------------
// Fences
// ---------------------------------------------------------------------------
/// The length of the run of backticks at the end.
pub open spec fn trailing_ticks(s: Seq<char>) -> nat
    decreases s.len(),
{
    if s.len() == 0 || s.last() != '`' { 0 } else { 1 + trailing_ticks(s.drop_last()) }
}

/// The length of the longest run of backticks.
pub open spec fn longest_ticks(s: Seq<char>) -> nat
    decreases s.len(),
{
    if s.len() == 0 {
        0
    } else {
        let before = longest_ticks(s.drop_last());
        let here = trailing_ticks(s);
        if here > before { here } else { before }
    }
}

/// Length of a fence that no run of backticks in the text can close.
pub open spec fn fence_len(s: Seq<char>, least: nat) -> nat {
    if longest_ticks(s) + 1 > least { longest_ticks(s) + 1 } else { least }
}

/// A run of backticks, at least `least` of them, longer than any in the text.
pub fn backtick_fence(text: &str, least: usize) -> (r: String)
    ensures
        r@ == run('`', fence_len(text@, least as nat)),
{
    let s = chars_of(text);
    let mut current: usize = 0;
    let mut longest: usize = 0;
    for i in 0..s.len()
        invariant
            current == trailing_ticks(s@.take(i as int)),
            longest == longest_ticks(s@.take(i as int)),
            current <= i,
            longest <= i,
    {
        assert(s@.take(i + 1).drop_last() =~= s@.take(i as int));
        if s[i] == '`' {
            current = current + 1;
        } else {
            current = 0;
        }
        if current > longest {
            longest = current;
        }
    }
    assert(s@.take(s@.len() as int) =~= s@);
    let mut out = String::new();
    if longest >= least {
        push_run(&mut out, '`', longest);
        out.push('`');
        assert(run('`', longest as nat).push('`') =~= run('`', (longest + 1) as nat));
    } else {
        push_run(&mut out, '`', least);
    }
    assert(out@ =~= run('`', fence_len(text@, least as nat)));
    out
}

} // verus!
