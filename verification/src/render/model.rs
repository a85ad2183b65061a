//! The document model that the format parsers produce.

use crate::text::{blank, chars_of, decimal, is_blank, push_decimal};
use vstd::prelude::*;

verus! {

/// Identifies a binary asset of a document.
pub type AssetId = u64;

#[derive(Clone, Copy, Debug, PartialEq, Eq, Structural)]
pub struct TextStyle {
    pub bold: bool,
    pub italic: bool,
    pub strike: bool,
}

/// Where the bytes of an image are.
#[derive(Debug)]
pub enum ImageSource {
    /// Embedded in the document.
    Asset(AssetId),
    /// At an address.
    External(String),
}

/// Text-level content.
#[derive(Debug)]
pub enum Inline {
    Text { text: String, style: TextStyle },
    Code(String),
    Math(String),
    LineBreak,
    NoteRef(String),
    Link { content: Vec<Inline>, target: String },
    Image { source: ImageSource, alt: String },
}

/// How the items of a list are marked.
#[derive(Clone, Copy, Debug, PartialEq, Eq, Structural)]
pub enum MarkerKind {
    Bullet,
    Decimal,
    LowerAlpha,
    UpperAlpha,
    LowerRoman,
    UpperRoman,
}

#[derive(Debug)]
pub struct ListItem {
    pub blocks: Vec<Block>,
    /// A literal label that replaces the generated marker.
    pub marker_label: Option<String>,
}

#[derive(Debug)]
pub struct List {
    pub items: Vec<ListItem>,
    pub marker: MarkerKind,
    /// The number of the first item.
    pub start: u64,
}

#[derive(Clone, Copy, Debug, PartialEq, Eq, Structural)]
pub enum TableKind {
    Data,
    Layout,
}

#[derive(Debug)]
pub struct Cell {
    pub blocks: Vec<Block>,
    pub col_span: u64,
    pub row_span: u64,
}

/// One position of a table grid.
#[derive(Debug)]
pub enum CellSlot {
    /// A cell starts here.
    Origin(Cell),
    /// The position is swallowed by the cell that starts at `row`, `col`.
    Covered { row: usize, col: usize },
}

#[derive(Debug)]
pub struct Table {
    pub grid: Vec<Vec<CellSlot>>,
    pub header_rows: usize,
    pub kind: TableKind,
}

/// Block-level content.
#[derive(Debug)]
pub enum Block {
    Heading { level: u8, content: Vec<Inline> },
    Paragraph(Vec<Inline>),
    List(List),
    Table(Table),
    BlockQuote(Vec<Block>),
    CodeBlock { lang: Option<String>, text: String },
    Rule,
    Math(String),
}

/// A footnote or endnote.
#[derive(Debug)]
pub struct Note {
    pub id: String,
    pub blocks: Vec<Block>,
}

/// A binary part of a document.
#[derive(Debug)]
pub struct Asset {
    pub id: AssetId,
    pub media_type: String,
    /// Name of the package part that the asset was read from.
    pub origin_part: String,
    pub bytes: Vec<u8>,
}

#[derive(Debug)]
pub struct Document {
    pub blocks: Vec<Block>,
    pub notes: Vec<Note>,
    pub assets: Vec<Asset>,
}

// ---------------------------------------------------------------------------
// Blankness
// ---------------------------------------------------------------------------
/// Whether an inline shows nothing.
pub open spec fn inline_is_empty(inline: Inline) -> bool
    decreases inline,
{
    match inline {
        Inline::Text { text, style } => is_blank(text@),
        Inline::LineBreak => true,
        Inline::Link { content, target } => all_empty(content@),
        _ => false,
    }
}

/// Whether a run of inlines shows nothing.
pub open spec fn all_empty(inlines: Seq<Inline>) -> bool
    decreases inlines,
{
    inlines.len() == 0 || (all_empty(inlines.drop_last()) && inline_is_empty(inlines.last()))
}

fn is_empty_inline(inline: &Inline) -> (b: bool)
    ensures
        b == inline_is_empty(*inline),
    decreases inline,
{
    match inline {
        Inline::Text { text, style: _ } => blank(chars_of(text.as_str()).as_slice()),
        Inline::LineBreak => true,
        Inline::Link { content, target: _ } => inlines_are_empty(content),
        _ => false,
    }
}

pub fn inlines_are_empty(inlines: &Vec<Inline>) -> (b: bool)
    ensures
        b == all_empty(inlines@),
    decreases inlines,
{
    let mut all = true;
    for i in 0..inlines.len()
        invariant
            all == all_empty(inlines@.take(i as int)),
    {
        assert(inlines@.take(i + 1).drop_last() =~= inlines@.take(i as int));
        assert(decreases_to!(inlines => inlines@[i as int]));
        all = all && is_empty_inline(&inlines[i]);
    }
    assert(inlines@.take(inlines@.len() as int) =~= inlines@);
    all
}

/// A paragraph without visible content.
pub open spec fn block_blank(block: Block) -> bool {
    match block {
        Block::Paragraph(inlines) => all_empty(inlines@),
        _ => false,
    }
}

pub fn block_is_blank(block: &Block) -> (b: bool)
    ensures
        b == block_blank(*block),
{
    match block {
        Block::Paragraph(inlines) => inlines_are_empty(inlines),
        _ => false,
    }
}

// ---------------------------------------------------------------------------
// Tables
// ---------------------------------------------------------------------------
impl Table {
    /// One row with one cell.
    pub open spec fn single_cell(self) -> bool {
        self.grid@.len() == 1 && self.grid@[0]@.len() == 1 && self.grid@[0]@[0] is Origin
    }

    pub fn is_single_cell(&self) -> (b: bool)
        ensures
            b == self.single_cell(),
    {
        self.grid.len() == 1 && self.grid[0].len() == 1 && matches!(
            self.grid[0][0],
            CellSlot::Origin(_)
        )
    }
}

// ---------------------------------------------------------------------------
// List markers
// ---------------------------------------------------------------------------
/// The value and the letters of the largest Roman unit that fits in `n`.
pub open spec fn roman_unit(n: nat) -> (nat, Seq<char>) {
    if n >= 1000 {
        (1000, seq!['m'])
    } else if n >= 900 {
        (900, seq!['c', 'm'])
    } else if n >= 500 {
        (500, seq!['d'])
    } else if n >= 400 {
        (400, seq!['c', 'd'])
    } else if n >= 100 {
        (100, seq!['c'])
    } else if n >= 90 {
        (90, seq!['x', 'c'])
    } else if n >= 50 {
        (50, seq!['l'])
    } else if n >= 40 {
        (40, seq!['x', 'l'])
    } else if n >= 10 {
        (10, seq!['x'])
    } else if n >= 9 {
        (9, seq!['i', 'x'])
    } else if n >= 5 {
        (5, seq!['v'])
    } else if n >= 4 {
        (4, seq!['i', 'v'])
    } else {
        (1, seq!['i'])
    }
}

/// The lowercase Roman numeral of `n`; empty for zero.
pub open spec fn roman(n: nat) -> Seq<char>
    decreases n,
{
    if n == 0 {
        seq![]
    } else {
        let (value, letters) = roman_unit(n);
        letters + roman((n - value) as nat)
    }
}

/// The letter with number `d`, counted from zero.
pub open spec fn letter(d: nat) -> char {
    (97 + d) as u8 as char
}

/// The place of `n` in `a, b, .., z, aa, ab, ..`, counted from one; empty for zero.
pub open spec fn alphabetic(n: nat) -> Seq<char>
    decreases n,
{
    if n == 0 {
        seq![]
    } else {
        alphabetic(((n - 1) / 26) as nat).push(letter(((n - 1) % 26) as nat))
    }
}

/// Largest number that is written as a Roman numeral.
pub const MAX_ROMAN: u64 = 3999;

pub open spec fn upper_char(c: char) -> char {
    if 'a' <= c && c <= 'z' { ((c as u8) - 32) as u8 as char } else { c }
}

pub open spec fn upper(s: Seq<char>) -> Seq<char> {
    Seq::new(s.len(), |i: int| upper_char(s[i]))
}

/// The number of a list item in the given style, with a full stop.
pub open spec fn marker_text(kind: MarkerKind, n: u64) -> Seq<char> {
    let number = match kind {
        MarkerKind::Bullet | MarkerKind::Decimal => decimal(n as nat),
        MarkerKind::LowerAlpha => if n == 0 { decimal(0) } else { alphabetic(n as nat) },
        MarkerKind::UpperAlpha => if n == 0 { decimal(0) } else { upper(alphabetic(n as nat)) },
        MarkerKind::LowerRoman => if 1 <= n <= MAX_ROMAN {
            roman(n as nat)
        } else {
            decimal(n as nat)
        },
        MarkerKind::UpperRoman => if 1 <= n <= MAX_ROMAN {
            upper(roman(n as nat))
        } else {
            decimal(n as nat)
        },
    };
    number.push('.')
}

fn push_roman(out: &mut Vec<char>, n: u64)
    ensures
        final(out)@ == old(out)@ + roman(n as nat),
    decreases n,
{
    if n == 0 {
        assert(out@ =~= out@ + roman(0));
        return;
    }
    let ghost before = out@;
    let value: u64;
    if n >= 1000 {
        out.push('m');
        value = 1000;
    } else if n >= 900 {
        out.push('c');
        out.push('m');
        value = 900;
    } else if n >= 500 {
        out.push('d');
        value = 500;
    } else if n >= 400 {
        out.push('c');
        out.push('d');
        value = 400;
    } else if n >= 100 {
        out.push('c');
        value = 100;
    } else if n >= 90 {
        out.push('x');
        out.push('c');
        value = 90;
    } else if n >= 50 {
        out.push('l');
        value = 50;
    } else if n >= 40 {
        out.push('x');
        out.push('l');
        value = 40;
    } else if n >= 10 {
        out.push('x');
        value = 10;
    } else if n >= 9 {
        out.push('i');
        out.push('x');
        value = 9;
    } else if n >= 5 {
        out.push('v');
        value = 5;
    } else if n >= 4 {
        out.push('i');
        out.push('v');
        value = 4;
    } else {
        out.push('i');
        value = 1;
    }
    assert(out@ =~= before + roman_unit(n as nat).1);
    push_roman(out, n - value);
    assert(out@ =~= before + roman(n as nat));
}

fn push_alphabetic(out: &mut Vec<char>, n: u64)
    ensures
        final(out)@ == old(out)@ + alphabetic(n as nat),
    decreases n,
{
    let ghost before = out@;
    if n > 0 {
        push_alphabetic(out, (n - 1) / 26);
        let d: u8 = ((n - 1) % 26) as u8;
        out.push((97 + d) as char);
    }
    assert(out@ =~= before + alphabetic(n as nat));
}

fn push_cased(out: &mut String, letters: &Vec<char>, uppercase: bool)
    ensures
        final(out)@ == old(out)@ + if uppercase { upper(letters@) } else { letters@ },
{
    let ghost before = out@;
    let ghost all = if uppercase { upper(letters@) } else { letters@ };
    for i in 0..letters.len()
        invariant
            all == if uppercase { upper(letters@) } else { letters@ },
            out@ == before + all.take(i as int),
    {
        let c = letters[i];
        if uppercase && 'a' <= c && c <= 'z' {
            out.push(((c as u8) - 32) as char);
        } else {
            out.push(c);
        }
        assert(out@ =~= before + all.take(i + 1));
    }
    assert(all.take(all.len() as int) =~= all);
}

impl MarkerKind {
    /// The number `n` in this style, with a full stop.
    pub fn label(self, n: u64) -> (r: String)
        ensures
            r@ == marker_text(self, n),
    {
        let mut out = String::new();
        let mut letters: Vec<char> = Vec::new();
        let alpha = self == MarkerKind::LowerAlpha || self == MarkerKind::UpperAlpha;
        let latin = self == MarkerKind::LowerRoman || self == MarkerKind::UpperRoman;
        if alpha && n > 0 {
            push_alphabetic(&mut letters, n);
            assert(letters@ =~= alphabetic(n as nat));
            push_cased(&mut out, &letters, self == MarkerKind::UpperAlpha);
        } else if latin && n > 0 && n <= MAX_ROMAN {
            push_roman(&mut letters, n);
            assert(letters@ =~= roman(n as nat));
            push_cased(&mut out, &letters, self == MarkerKind::UpperRoman);
        } else {
            push_decimal(&mut out, n);
        }
        out.push('.');
        assert(out@ =~= marker_text(self, n));
        out
    }
}

} // verus!
