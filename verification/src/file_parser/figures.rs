//! Figures of a PDF: the markers that an extraction left in the markdown, and what
//! OCR recognized in them.

use crate::file_parser::pdf::PdfImage;
use crate::ocr::image_pass::{
    annotate_figure, figure_annotation, is_quote, lemma_figure_annotation_is_quoted, sha256,
    ImageOutcomes,
};
use crate::text::{
    chars_of, ends_with, has_sub, is_ascii_digit, is_digit_char, lines, matches_at, occurs_at,
    push_chars, replace, replace_all, starts_with, string_of,
};
use vstd::prelude::*;
use vstd::slice::slice_subrange;

verus! {

// ---------------------------------------------------------------------------
// Markers
// ---------------------------------------------------------------------------
/// How many digits `s` starts with.
pub open spec fn digit_run(s: Seq<char>) -> nat
    decreases s.len(),
{
    if s.len() > 0 && is_digit_char(s[0]) {
        1 + digit_run(s.drop_first())
    } else {
        0
    }
}

/// The rest of a marker, behind its label.
pub open spec fn marker_needle(name: Seq<char>) -> Seq<char> {
    "]("@ + name + ")"@
}

pub open spec fn figure_marker(label: Seq<char>, url: Seq<char>) -> Seq<char> {
    "![图片"@ + label + marker_needle(url)
}

/// The first of the images that the rest of a marker refers to.
pub open spec fn linked_image(s: Seq<char>, images: Seq<PdfImage>) -> Option<nat>
    decreases images.len(),
{
    if images.len() == 0 {
        None
    } else {
        match linked_image(s, images.drop_last()) {
            Some(k) => Some(k),
            None => if starts_with(s, marker_needle(images.last().name@)) {
                Some((images.len() - 1) as nat)
            } else {
                None
            },
        }
    }
}

/// The mathematical counterpart of [`Figure`].
pub struct FigureView {
    pub start: nat,
    pub label: Seq<char>,
    pub image: nat,
    pub end: nat,
}

/// The marker `![图片N](name)` of an extracted image.
#[derive(Debug)]
pub struct Figure {
    /// Where the marker starts.
    pub start: usize,
    /// The number, as it is written.
    pub label: String,
    /// Which image it refers to.
    pub image: usize,
    /// Where the marker ends.
    pub end: usize,
}

impl View for Figure {
    type V = FigureView;

    open spec fn view(&self) -> FigureView {
        FigureView {
            start: self.start as nat,
            label: self.label@,
            image: self.image as nat,
            end: self.end as nat,
        }
    }
}

pub open spec fn figures_view(v: Seq<Figure>) -> Seq<FigureView> {
    Seq::new(v.len(), |i: int| v[i]@)
}

/// The marker at offset `i`, if one of an extracted image stands there. Markers
/// are numbered independently of the names of the images, so that any number
/// will do and the name alone decides.
pub open spec fn figure_at(s: Seq<char>, i: nat, images: Seq<PdfImage>) -> Option<FigureView> {
    let from = (i + "![图片"@.len()) as int;
    let label = s.skip(from).take(digit_run(s.skip(from)) as int);
    if !occurs_at(s, "![图片"@, i as int) || label.len() == 0 {
        None
    } else {
        match linked_image(s.skip(from + label.len()), images) {
            Some(k) => Some(
                FigureView {
                    start: i,
                    label,
                    image: k,
                    end: (from + label.len() + marker_needle(images[k as int].name@).len()) as nat,
                },
            ),
            None => None,
        }
    }
}

/// The first marker at or behind offset `i`.
pub open spec fn next_figure(s: Seq<char>, i: nat, images: Seq<PdfImage>) -> Option<FigureView>
    decreases s.len() - i,
{
    if i >= s.len() {
        None
    } else {
        match figure_at(s, i, images) {
            Some(f) => Some(f),
            None => next_figure(s, i + 1, images),
        }
    }
}

/// The markers from offset `at` on, from left to right.
pub open spec fn figures(s: Seq<char>, at: nat, images: Seq<PdfImage>) -> Seq<FigureView>
    decreases s.len() - at,
{
    proof {
        lemma_next_figure(s, at, images);
    }
    match next_figure(s, at, images) {
        Some(f) => seq![f] + figures(s, f.end, images),
        None => seq![],
    }
}

proof fn lemma_digit_run(s: Seq<char>)
    ensures
        digit_run(s) <= s.len(),
        forall|i: int| 0 <= i < digit_run(s) ==> is_digit_char(#[trigger] s[i]),
    decreases s.len(),
{
    if s.len() > 0 && is_digit_char(s[0]) {
        let t = s.drop_first();
        lemma_digit_run(t);
        assert forall|i: int| 0 <= i < digit_run(s) implies is_digit_char(#[trigger] s[i]) by {
            if i > 0 {
                assert(s[i] == t[i - 1]);
            }
        }
    }
}

proof fn lemma_linked_image(s: Seq<char>, images: Seq<PdfImage>)
    ensures
        linked_image(s, images) matches Some(k) ==> k < images.len() && starts_with(
            s,
            marker_needle(images[k as int].name@),
        ),
    decreases images.len(),
{
    if images.len() > 0 {
        lemma_linked_image(s, images.drop_last());
    }
}

/// What is known of the marker of an extracted image.
pub open spec fn is_figure(f: FigureView, s: Seq<char>, images: Seq<PdfImage>) -> bool {
    &&& f.start < f.end <= s.len()
    &&& f.image < images.len()
    &&& s.subrange(f.start as int, f.end as int) == figure_marker(
        f.label,
        images[f.image as int].name@,
    )
    &&& f.label.len() > 0
    &&& forall|i: int| 0 <= i < f.label.len() ==> is_digit_char(#[trigger] f.label[i])
}

proof fn lemma_figure_at(s: Seq<char>, i: nat, images: Seq<PdfImage>)
    ensures
        figure_at(s, i, images) matches Some(f) ==> f.start == i && is_figure(f, s, images),
{
    reveal_strlit("![图片");
    let mark = "![图片"@;
    let from = (i + mark.len()) as int;
    if let Some(f) = figure_at(s, i, images) {
        lemma_digit_run(s.skip(from));
        let rest = s.skip(from + f.label.len());
        lemma_linked_image(rest, images);
        let needle = marker_needle(images[f.image as int].name@);
        assert(s.subrange(i as int, from) == mark);
        assert(rest.subrange(0, needle.len() as int) == needle);
        let span = s.subrange(f.start as int, f.end as int);
        let marker = figure_marker(f.label, images[f.image as int].name@);
        assert(span.len() == marker.len());
        assert forall|k: int| 0 <= k < span.len() implies #[trigger] span[k] == marker[k] by {
            if k < mark.len() {
                assert(span[k] == s.subrange(i as int, from)[k]);
            } else if k >= mark.len() + f.label.len() {
                let m = k - mark.len() - f.label.len();
                assert(span[k] == rest.subrange(0, needle.len() as int)[m]);
            }
        }
        assert(span =~= marker);
    }
}

/// A marker that is found stands where it was looked for.
pub proof fn lemma_next_figure(s: Seq<char>, i: nat, images: Seq<PdfImage>)
    ensures
        next_figure(s, i, images) matches Some(f) ==> i <= f.start && is_figure(f, s, images),
    decreases s.len() - i,
{
    if i < s.len() {
        lemma_figure_at(s, i, images);
        lemma_next_figure(s, i + 1, images);
    }
}

/// The offset behind the first `n` markers.
pub open spec fn covered(found: Seq<FigureView>, n: nat) -> nat {
    if n == 0 { 0 } else { found[n - 1].end }
}

/// The markers that were found stand in order and do not overlap.
/// The markers are read off the text, each behind the one before it.
spec fn are_read_in_order(found: Seq<FigureView>, at: nat, s: Seq<char>, images: Seq<PdfImage>) -> bool {
    &&& forall|j: int| 0 <= j < found.len() ==> is_figure(#[trigger] found[j], s, images)
    &&& forall|j: int| 0 <= j < found.len() ==> #[trigger] is_behind(found, j, at)
}

spec fn is_behind(found: Seq<FigureView>, j: int, at: nat) -> bool {
    found[j].start >= if j == 0 { at } else { found[j - 1].end }
}

proof fn lemma_figures_in_order(s: Seq<char>, images: Seq<PdfImage>)
    ensures
        are_read_in_order(figures(s, 0, images), 0, s, images),
{
    let found = figures(s, 0, images);
    lemma_figures(s, 0, images);
    assert forall|j: int| 0 <= j < found.len() implies #[trigger] is_behind(found, j, 0) by {
        assert(is_figure(found[j], s, images));
    }
}

proof fn lemma_figures(s: Seq<char>, at: nat, images: Seq<PdfImage>)
    ensures
        ({
            let found = figures(s, at, images);
            forall|j: int|
                0 <= j < found.len() ==> is_figure(#[trigger] found[j], s, images) && found[j].start
                    >= if j == 0 { at } else { found[j - 1].end }
        }),
    decreases s.len() - at,
{
    lemma_next_figure(s, at, images);
    if let Some(f) = next_figure(s, at, images) {
        let rest = figures(s, f.end, images);
        let found = figures(s, at, images);
        lemma_figures(s, f.end, images);
        assert forall|j: int| 0 <= j < found.len() implies is_figure(#[trigger] found[j], s, images)
            && found[j].start >= if j == 0 { at } else { found[j - 1].end } by {
            if j > 0 {
                assert(found[j] == rest[j - 1]);
            }
        }
    }
}

fn count_digits(s: &[char], from: usize) -> (r: usize)
    requires
        from <= s.len(),
    ensures
        r == digit_run(s@.skip(from as int)),
        from + r <= s.len(),
{
    let mut n: usize = 0;
    while from + n < s.len() && is_ascii_digit(s[from + n])
        invariant
            from + n <= s.len(),
            digit_run(s@.skip(from as int)) == n + digit_run(s@.skip(from + n)),
        decreases s.len() - n,
    {
        assert(s@.skip(from + n).drop_first() =~= s@.skip(from + n + 1));
        n = n + 1;
    }
    n
}

fn find_linked_image(s: &[char], from: usize, images: &Vec<PdfImage>) -> (r: Option<(usize, usize)>)
    requires
        from <= s.len(),
    ensures
        match r {
            Some((k, end)) => linked_image(s@.skip(from as int), images@) == Some(k as nat) && k
                < images.len() && end == from + marker_needle(images@[k as int].name@).len() && end
                <= s.len(),
            None => linked_image(s@.skip(from as int), images@) is None,
        },
{
    let ghost rest = s@.skip(from as int);
    assert(images@.take(images@.len() as int) =~= images@);
    for k in 0..images.len()
        invariant
            from <= s.len(),
            rest == s@.skip(from as int),
            linked_image(rest, images@.take(k as int)) is None,
    {
        assert(images@.take(k + 1).drop_last() =~= images@.take(k as int));
        let mut needle = "](".to_owned();
        needle.push_str(images[k].name.as_str());
        needle.push_str(")");
        let chars = chars_of(needle.as_str());
        if matches_at(s, chars.as_slice(), from) {
            assert(rest.subrange(0, chars@.len() as int) =~= s@.subrange(
                from as int,
                from + chars@.len(),
            ));
            proof {
                lemma_linked_prefix(rest, images@, (k + 1) as nat);
            }
            return Some((k, from + chars.len()));
        }
        assert(!starts_with(rest, chars@)) by {
            if starts_with(rest, chars@) {
                assert(rest.subrange(0, chars@.len() as int) =~= s@.subrange(
                    from as int,
                    from + chars@.len(),
                ));
            }
        }
    }
    None
}

/// What is found among the first images is found among all of them.
proof fn lemma_linked_prefix(s: Seq<char>, images: Seq<PdfImage>, n: nat)
    requires
        n <= images.len(),
        linked_image(s, images.take(n as int)) is Some,
    ensures
        linked_image(s, images) == linked_image(s, images.take(n as int)),
    decreases images.len() - n,
{
    if n == images.len() {
        assert(images.take(n as int) =~= images);
    } else {
        assert(images.take((n + 1) as int).drop_last() =~= images.take(n as int));
        lemma_linked_prefix(s, images, n + 1);
    }
}

pub open spec fn figure_view(f: Option<Figure>) -> Option<FigureView> {
    match f {
        Some(f) => Some(f@),
        None => None,
    }
}

fn read_figure(s: &[char], i: usize, images: &Vec<PdfImage>) -> (r: Option<Figure>)
    requires
        i < s.len(),
    ensures
        figure_view(r) == figure_at(s@, i as nat, images@),
{
    let mark = chars_of("![图片");
    if !matches_at(s, mark.as_slice(), i) {
        return None;
    }
    let from: usize = i + mark.len();
    let n = count_digits(s, from);
    if n == 0 {
        return None;
    }
    let digits = slice_subrange(s, from, from + n);
    assert(digits@ =~= s@.skip(from as int).take(n as int));
    match find_linked_image(s, from + n, images) {
        Some((image, end)) => Some(Figure { start: i, label: string_of(digits), image, end }),
        None => None,
    }
}

/// Finds the markers of the extracted images, from left to right.
pub fn find_figures(s: &[char], images: &Vec<PdfImage>) -> (r: Vec<Figure>)
    ensures
        figures_view(r@) == figures(s@, 0, images@),
{
    let mut out: Vec<Figure> = Vec::new();
    let mut at: usize = 0;
    let ghost all = figures(s@, 0, images@);
    assert(figures_view(out@) + figures(s@, 0, images@) =~= all);
    while at < s.len()
        invariant
            at <= s.len(),
            all == figures(s@, 0, images@),
            figures_view(out@) + figures(s@, at as nat, images@) == all,
        decreases s.len() - at,
    {
        proof {
            lemma_figure_at(s@, at as nat, images@);
        }
        match read_figure(s, at, images) {
            Some(f) => {
                let end = f.end;
                let ghost before = figures_view(out@);
                let ghost rest = figures(s@, f@.end, images@);
                assert(figures(s@, at as nat, images@) == seq![f@] + rest);
                out.push(f);
                assert(figures_view(out@) =~= before.push(f@));
                assert(figures_view(out@) + rest =~= before + (seq![f@] + rest));
                at = end;
            },
            None => {
                assert(next_figure(s@, at as nat, images@) == next_figure(
                    s@,
                    (at + 1) as nat,
                    images@,
                ));
                assert(figures(s@, at as nat, images@) == figures(s@, (at + 1) as nat, images@));
                at = at + 1;
            },
        }
    }
    assert(figures(s@, at as nat, images@) =~= seq![]);
    assert(figures_view(out@) =~= all);
    out
}

/// The blank lines that close a quoted block in front of `rest`.
pub open spec fn quote_gap(rest: Seq<char>) -> Seq<char> {
    if rest.len() == 0 || rest == "\n"@ || starts_with(rest, "\n\n"@) {
        ""@
    } else if rest[0] == '\n' {
        "\n"@
    } else {
        "\n\n"@
    }
}

fn gap_before(rest: &[char]) -> (r: &'static str)
    ensures
        r@ == quote_gap(rest@),
{
    proof {
        reveal_strlit("\n");
        reveal_strlit("\n\n");
    }
    if rest.len() == 0 {
        return "";
    }
    if rest[0] != '\n' {
        assert(rest@ != "\n"@);
        assert(!starts_with(rest@, "\n\n"@)) by {
            if starts_with(rest@, "\n\n"@) {
                assert(rest@.subrange(0, 2)[0] == '\n');
            }
        }
        return "\n\n";
    }
    if rest.len() == 1 {
        assert(rest@ =~= "\n"@);
        return "";
    }
    if rest[1] == '\n' {
        assert(rest@.subrange(0, 2) =~= "\n\n"@);
        ""
    } else {
        assert(!starts_with(rest@, "\n\n"@)) by {
            if starts_with(rest@, "\n\n"@) {
                assert(rest@.subrange(0, 2)[1] == '\n');
            }
        }
        "\n"
    }
}

// ---------------------------------------------------------------------------
// Folding
// ---------------------------------------------------------------------------
/// A part of the markdown of a PDF.
pub enum Piece {
    /// What the text layer gave, and the markers of the figures.
    Extracted(Seq<char>),
    /// What was recognized in a figure.
    Recognized(Seq<char>),
}

impl Piece {
    pub open spec fn text(self) -> Seq<char> {
        match self {
            Piece::Extracted(text) => text,
            Piece::Recognized(text) => text,
        }
    }
}

pub open spec fn assembled(pieces: Seq<Piece>) -> Seq<char>
    decreases pieces.len(),
{
    if pieces.len() == 0 {
        seq![]
    } else {
        assembled(pieces.drop_last()) + pieces.last().text()
    }
}

proof fn lemma_assembled_push(pieces: Seq<Piece>, piece: Piece)
    ensures
        assembled(pieces.push(piece)) == assembled(pieces) + piece.text(),
{
    assert(pieces.push(piece).drop_last() =~= pieces);
}

pub open spec fn asset_name(name_stem: Seq<char>, name: Seq<char>) -> Seq<char> {
    name_stem + "-"@ + name
}

/// Links to figures, prefixed like the names of the assets.
pub open spec fn links_prefixed(s: Seq<char>, name_stem: Seq<char>) -> Seq<char> {
    replace_all(s, "](image-"@, "]("@ + name_stem + "-image-"@)
}

/// How what was recognized goes into the markdown of a PDF.
pub struct Folding {
    pub markdown: Seq<char>,
    pub images: Seq<PdfImage>,
    pub outcomes: Map<Seq<u8>, Option<Seq<char>>>,
    pub name_stem: Seq<char>,
}

impl Folding {
    pub open spec fn figures(self) -> Seq<FigureView> {
        figures(self.markdown, 0, self.images)
    }

    pub open spec fn hash(self, j: int) -> Seq<u8> {
        sha256(self.images[self.figures()[j].image as int].data@)
    }

    /// Whether marker `j` is the first one of an image that went to OCR.
    pub open spec fn annotated(self, j: int) -> bool {
        &&& self.outcomes.dom().contains(self.hash(j))
        &&& forall|i: int| 0 <= i < j ==> #[trigger] self.figures()[i].image != self.figures()[j].image
    }

    /// The marker, under the number that it came with, linked to its asset.
    pub open spec fn marker(self, j: int) -> Seq<char> {
        let f = self.figures()[j];
        figure_marker(f.label, asset_name(self.name_stem, self.images[f.image as int].name@))
    }

    /// What is quoted behind marker `j`.
    pub open spec fn block(self, j: int) -> Seq<char> {
        figure_annotation(self.figures()[j].label, self.outcomes[self.hash(j)])
    }

    /// The blank lines between a quoted block and what follows `n` markers.
    pub open spec fn gap(self, n: nat) -> Seq<char> {
        if n > 0 && self.annotated(n - 1) {
            quote_gap(self.markdown.skip(covered(self.figures(), n) as int))
        } else {
            seq![]
        }
    }

    /// What was extracted up to and including marker `j`, from the previous one on.
    pub open spec fn passage(self, j: nat) -> Seq<char> {
        self.gap(j) + links_prefixed(
            self.markdown.subrange(
                covered(self.figures(), j) as int,
                self.figures()[j as int].start as int,
            ),
            self.name_stem,
        ) + self.marker(j as int)
    }

    /// The markdown up to and including the first `n` markers and what is quoted
    /// behind them.
    pub open spec fn head(self, n: nat) -> Seq<Piece>
        decreases n,
    {
        if n == 0 {
            seq![]
        } else {
            let j = (n - 1) as nat;
            if self.annotated(j as int) {
                self.head(j).push(Piece::Extracted(self.passage(j) + "\n\n"@)).push(
                    Piece::Recognized(self.block(j as int)),
                )
            } else {
                self.head(j).push(Piece::Extracted(self.passage(j)))
            }
        }
    }

    /// What was extracted behind the last marker.
    pub open spec fn tail(self) -> Seq<char> {
        let n = self.figures().len();
        self.gap(n) + links_prefixed(
            self.markdown.skip(covered(self.figures(), n) as int),
            self.name_stem,
        )
    }

    pub open spec fn pieces(self) -> Seq<Piece> {
        self.head(self.figures().len()).push(Piece::Extracted(self.tail()))
    }
}

fn referred_before(found: &Vec<Figure>, j: usize) -> (b: bool)
    requires
        j < found.len(),
    ensures
        b == exists|i: int|
            0 <= i < j && #[trigger] figures_view(found@)[i].image == figures_view(
                found@,
            )[j as int].image,
{
    for i in 0..j
        invariant
            j < found.len(),
            forall|k: int|
                0 <= k < i ==> #[trigger] figures_view(found@)[k].image != figures_view(
                    found@,
                )[j as int].image,
    {
        assert(figures_view(found@)[i as int].image == found@[i as int].image);
        if found[i].image == found[j].image {
            return true;
        }
    }
    false
}

fn prefix_links(s: &[char], name_stem: &str) -> (r: Vec<char>)
    ensures
        r@ == links_prefixed(s@, name_stem@),
{
    let mut prefix = "](".to_owned();
    prefix.push_str(name_stem);
    prefix.push_str("-image-");
    replace(s, chars_of("](image-").as_slice(), chars_of(prefix.as_str()).as_slice())
}

fn push_marker(out: &mut String, label: &str, name_stem: &str, name: &str)
    ensures
        final(out)@ == old(out)@ + figure_marker(label@, asset_name(name_stem@, name@)),
{
    out.push_str("![图片");
    out.push_str(label);
    out.push_str("](");
    out.push_str(name_stem);
    out.push_str("-");
    out.push_str(name);
    out.push_str(")");
    assert(out@ =~= old(out)@ + figure_marker(label@, asset_name(name_stem@, name@)));
}

proof fn lemma_head_step(fold: Folding, j: nat)
    ensures
        assembled(fold.head(j + 1)) == if fold.annotated(j as int) {
            assembled(fold.head(j)) + fold.passage(j) + "\n\n"@ + fold.block(j as int)
        } else {
            assembled(fold.head(j)) + fold.passage(j)
        },
{
    let head = fold.head(j);
    if fold.annotated(j as int) {
        let first = Piece::Extracted(fold.passage(j) + "\n\n"@);
        lemma_assembled_push(head, first);
        lemma_assembled_push(head.push(first), Piece::Recognized(fold.block(j as int)));
        assert(assembled(head) + (fold.passage(j) + "\n\n"@) =~= assembled(head) + fold.passage(j)
            + "\n\n"@);
    } else {
        lemma_assembled_push(head, Piece::Extracted(fold.passage(j)));
    }
}

/// Folds what was recognized into the markdown of a PDF.
pub fn fold_figures(
    markdown: &str,
    images: &Vec<PdfImage>,
    outcomes: &ImageOutcomes,
    name_stem: &str,
) -> (r: String)
    ensures
        r@ == assembled(
            (Folding {
                markdown: markdown@,
                images: images@,
                outcomes: outcomes@,
                name_stem: name_stem@,
            }).pieces(),
        ),
{
    let s = chars_of(markdown);
    let found = find_figures(s.as_slice(), images);
    let ghost fold = Folding {
        markdown: markdown@,
        images: images@,
        outcomes: outcomes@,
        name_stem: name_stem@,
    };
    let mut out = String::new();
    let mut at: usize = 0;
    let mut quoted = false;
    proof {
        lemma_figures_in_order(s@, images@);
    }
    for j in 0..found.len()
        invariant
            s@ == markdown@,
            fold == (Folding {
                markdown: markdown@,
                images: images@,
                outcomes: outcomes@,
                name_stem: name_stem@,
            }),
            figures_view(found@) == fold.figures(),
            are_read_in_order(fold.figures(), 0, s@, images@),
            at == covered(fold.figures(), j as nat),
            at <= s.len(),
            quoted == (j > 0 && fold.annotated(j - 1)),
            out@ == assembled(fold.head(j as nat)),
    {
        let f = &found[j];
        assert(fold.figures()[j as int] == f@);
        assert(is_behind(fold.figures(), j as int, 0));
        let image = &images[f.image];
        let ghost before = out@;
        if quoted {
            let rest = slice_subrange(s.as_slice(), at, s.len());
            assert(rest@ =~= s@.skip(at as int));
            out.push_str(gap_before(rest));
        }
        assert(out@ =~= before + fold.gap(j as nat));
        let passed = slice_subrange(s.as_slice(), at, f.start);
        push_chars(&mut out, prefix_links(passed, name_stem).as_slice());
        push_marker(&mut out, f.label.as_str(), name_stem, image.name.as_str());
        assert(out@ =~= before + fold.passage(j as nat));
        let ghost passed_by = out@;
        at = f.end;
        quoted = false;
        if let Some(outcome) = outcomes.lookup(image.data.as_slice()) {
            if !referred_before(&found, j) {
                out.push_str("\n\n");
                out.push_str(annotate_figure(f.label.as_str(), &outcome).as_str());
                quoted = true;
                assert(fold.annotated(j as int));
                assert(out@ == passed_by + "\n\n"@ + fold.block(j as int));
            }
        }
        assert(quoted == fold.annotated(j as int));
        proof {
            lemma_head_step(fold, j as nat);
        }
    }
    let ghost before = out@;
    let rest = slice_subrange(s.as_slice(), at, s.len());
    assert(rest@ =~= s@.skip(at as int));
    if quoted {
        out.push_str(gap_before(rest));
    }
    push_chars(&mut out, prefix_links(rest, name_stem).as_slice());
    assert(out@ =~= before + fold.tail());
    proof {
        lemma_assembled_push(fold.head(fold.figures().len()), Piece::Extracted(fold.tail()));
    }
    out
}

// ---------------------------------------------------------------------------
// Laws
// ---------------------------------------------------------------------------
/// An image that went to OCR is annotated once, behind the first marker that
/// refers to it.
pub proof fn law_figures_are_annotated_once(fold: Folding, j: int)
    requires
        0 <= j < fold.figures().len(),
        fold.outcomes.dom().contains(fold.hash(j)),
    ensures
        exists|i: int|
            0 <= i <= j && fold.figures()[i].image == fold.figures()[j].image
                && #[trigger] fold.annotated(i) && forall|k: int|
                0 <= k < fold.figures().len() && k != i && fold.figures()[k].image
                    == fold.figures()[j].image ==> !#[trigger] fold.annotated(k) && i < k,
    decreases j,
{
    let found = fold.figures();
    if exists|i: int| 0 <= i < j && #[trigger] found[i].image == found[j].image {
        let i = choose|i: int| 0 <= i < j && #[trigger] found[i].image == found[j].image;
        law_figures_are_annotated_once(fold, i);
    } else {
        assert(fold.annotated(j));
        assert forall|k: int|
            0 <= k < found.len() && k != j && found[k].image == found[j].image implies !#[trigger] fold.annotated(
        k) && j < k by {
            assert(found[j].image == found[k].image);
        }
    }
}

proof fn lemma_assembled_split(pieces: Seq<Piece>, p: int)
    requires
        0 <= p < pieces.len(),
    ensures
        assembled(pieces) == assembled(pieces.take(p)) + pieces[p].text() + assembled(
            pieces.skip(p + 1),
        ),
    decreases pieces.len(),
{
    let front = pieces.drop_last();
    if p == pieces.len() - 1 {
        assert(pieces.take(p) =~= front);
        assert(pieces.skip(p + 1) =~= seq![]);
        assert(assembled(front) + pieces[p].text() + Seq::<char>::empty() =~= assembled(front)
            + pieces[p].text());
    } else {
        lemma_assembled_split(front, p);
        assert(front.take(p) =~= pieces.take(p));
        assert(pieces.skip(p + 1).drop_last() =~= front.skip(p + 1));
        let before = assembled(pieces.take(p)) + pieces[p].text();
        assert(before + (assembled(front.skip(p + 1)) + pieces.last().text()) =~= before + assembled(
            front.skip(p + 1),
        ) + pieces.last().text());
    }
}

/// The marker whose block a recognized piece is, and what stands around it.
proof fn lemma_recognized_piece(fold: Folding, n: nat, p: int) -> (j: nat)
    requires
        0 <= p < fold.head(n).len(),
        fold.head(n)[p] is Recognized,
    ensures
        j < n,
        fold.annotated(j as int),
        p > 0,
        fold.head(n)[p - 1] == Piece::Extracted(fold.passage(j) + "\n\n"@),
        fold.head(n)[p] == Piece::Recognized(fold.block(j as int)),
        p + 1 == fold.head(n).len() ==> j + 1 == n,
        p + 1 < fold.head(n).len() ==> j + 1 < n && (fold.head(n)[p + 1] == Piece::Extracted(
            fold.passage(j + 1),
        ) || fold.head(n)[p + 1] == Piece::Extracted(fold.passage(j + 1) + "\n\n"@)),
    decreases n,
{
    let m = (n - 1) as nat;
    if p < fold.head(m).len() {
        lemma_recognized_piece(fold, m, p)
    } else {
        m
    }
}

/// What may follow a block quote: nothing, or a blank line.
pub open spec fn closes_quote(s: Seq<char>) -> bool {
    s.len() == 0 || s == "\n"@ || starts_with(s, "\n\n"@)
}

/// Feeds that a text starts with are not part of a link.
proof fn lemma_links_keep_feeds(s: Seq<char>, name_stem: Seq<char>)
    ensures
        s.len() == 0 ==> links_prefixed(s, name_stem) == s,
        s.len() > 0 && s[0] == '\n' ==> links_prefixed(s, name_stem) == seq!['\n'] + links_prefixed(
            s.drop_first(),
            name_stem,
        ),
{
    reveal_strlit("](image-");
    if s.len() > 0 && s[0] == '\n' {
        if starts_with(s, "](image-"@) {
            assert(s.subrange(0, "](image-"@.len() as int)[0] == s[0]);
        }
    }
}

/// What is extracted between `at` and `to` behind a quote, and the quote's gap.
proof fn lemma_gap_closes(s: Seq<char>, at: int, to: int, name_stem: Seq<char>, behind: Seq<char>)
    requires
        0 <= at <= to <= s.len(),
        to < s.len() ==> s[to] != '\n',
        to == s.len() ==> behind.len() == 0,
    ensures
        closes_quote(quote_gap(s.skip(at)) + links_prefixed(s.subrange(at, to), name_stem) + behind),
{
    reveal_strlit("");
    reveal_strlit("\n");
    reveal_strlit("\n\n");
    let rest = s.skip(at);
    let part = s.subrange(at, to);
    let links = links_prefixed(part, name_stem);
    let all = quote_gap(rest) + links + behind;
    lemma_links_keep_feeds(part, name_stem);
    if rest.len() == 0 {
        assert(all =~= seq![]);
    } else if rest == "\n"@ {
        assert(rest[0] == '\n');
        assert(part =~= rest);
        lemma_links_keep_feeds(part.drop_first(), name_stem);
        assert(all =~= "\n"@);
    } else if starts_with(rest, "\n\n"@) {
        assert(rest.subrange(0, 2)[0] == '\n');
        assert(rest.subrange(0, 2)[1] == '\n');
        assert(s[at] == rest[0] && s[at + 1] == rest[1]);
        assert(to >= at + 2);
        assert(part[0] == '\n' && part.drop_first()[0] == '\n');
        lemma_links_keep_feeds(part.drop_first(), name_stem);
        assert(all.subrange(0, 2) =~= "\n\n"@);
    } else if rest[0] == '\n' {
        assert(s[at] == '\n');
        assert(to > at);
        assert(part[0] == '\n');
        assert(all.subrange(0, 2) =~= "\n\n"@);
    } else {
        assert(all.subrange(0, 2) =~= "\n\n"@);
    }
}

/// What follows the block behind marker `j` closes it.
proof fn lemma_block_is_closed(fold: Folding, p: int, j: nat)
    requires
        0 <= p < fold.head(fold.figures().len()).len(),
        fold.annotated(j as int),
        j < fold.figures().len(),
        ({
            let head = fold.head(fold.figures().len());
            &&& p + 1 == head.len() ==> j + 1 == fold.figures().len()
            &&& p + 1 < head.len() ==> j + 1 < fold.figures().len() && (head[p + 1]
                == Piece::Extracted(fold.passage(j + 1)) || head[p + 1] == Piece::Extracted(
                fold.passage(j + 1) + "\n\n"@,
            ))
        }),
    ensures
        closes_quote(assembled(fold.pieces().skip(p + 1))),
{
    let n = fold.figures().len();
    let s = fold.markdown;
    let at = fold.figures()[j as int].end as int;
    let after = fold.pieces().skip(p + 1);
    lemma_figures(s, 0, fold.images);
    lemma_assembled_split(after, 0);
    assert(after.take(0) =~= seq![]);
    let later = assembled(after.skip(1));
    assert(assembled(after) =~= after[0].text() + later);
    assert(fold.gap(j + 1) == quote_gap(s.skip(at)));
    if p + 1 == fold.head(n).len() {
        assert(after.skip(1) =~= seq![]);
        assert(after[0].text() == fold.tail());
        assert(s.subrange(at, s.len() as int) =~= s.skip(at));
        lemma_gap_closes(s, at, s.len() as int, fold.name_stem, later);
    } else {
        let next = fold.figures()[(j + 1) as int];
        let to = next.start as int;
        reveal_strlit("![图片");
        assert(s[to] == '!') by {
            assert(s.subrange(to, next.end as int)[0] == '!');
        }
        let marker = fold.marker((j + 1) as int);
        let start = quote_gap(s.skip(at)) + links_prefixed(s.subrange(at, to), fold.name_stem);
        assert(fold.passage(j + 1) == start + marker);
        let behind = if after[0].text() == fold.passage(j + 1) {
            marker + later
        } else {
            marker + "\n\n"@ + later
        };
        assert(assembled(after) =~= start + behind);
        lemma_gap_closes(s, at, to, fold.name_stem, behind);
    }
}

/// Recognized text cannot break out of its block: the block starts behind a blank
/// line, every line of it is quoted, and a blank line or the end closes it.
pub proof fn law_recognized_text_is_quoted(fold: Folding, p: int)
    requires
        0 <= p < fold.pieces().len(),
        fold.pieces()[p] is Recognized,
    ensures
        ({
            let before = assembled(fold.pieces().take(p));
            let block = fold.pieces()[p].text();
            let behind = assembled(fold.pieces().skip(p + 1));
            &&& assembled(fold.pieces()) == before + block + behind
            &&& ends_with(before, "\n\n"@)
            &&& forall|i: int| 0 <= i < lines(block).len() ==> is_quote(#[trigger] lines(block)[i])
            &&& closes_quote(behind)
        }),
{
    let n = fold.figures().len();
    let pieces = fold.pieces();
    assert(fold.head(n)[p] == pieces[p]);
    let j = lemma_recognized_piece(fold, n, p);
    let label = fold.figures()[j as int].label;
    lemma_assembled_split(pieces, p);
    let before = assembled(pieces.take(p));
    assert(ends_with(before, "\n\n"@)) by {
        assert(pieces.take(p).drop_last() =~= pieces.take(p - 1));
        assert(pieces.take(p).last() == fold.head(n)[p - 1]);
        let lead = assembled(pieces.take(p - 1)) + fold.passage(j);
        assert(before =~= lead + "\n\n"@);
        assert(before.subrange(before.len() - "\n\n"@.len(), before.len() as int) =~= "\n\n"@);
    }
    assert(!label.contains('\n')) by {
        lemma_figures(fold.markdown, 0, fold.images);
        assert(is_figure(fold.figures()[j as int], fold.markdown, fold.images));
        if label.contains('\n') {
            let k = choose|k: int| 0 <= k < label.len() && label[k] == '\n';
            assert(is_digit_char(label[k]));
        }
    }
    lemma_figure_annotation_is_quoted(label, fold.outcomes[fold.hash(j as int)]);
    lemma_block_is_closed(fold, p, j);
}

proof fn lemma_head_grows(fold: Folding, m: nat, n: nat)
    requires
        m <= n,
    ensures
        starts_with(assembled(fold.head(n)), assembled(fold.head(m))),
    decreases n,
{
    let a = assembled(fold.head(m));
    let b = assembled(fold.head(n));
    if m < n {
        let k = (n - 1) as nat;
        lemma_head_grows(fold, m, k);
        lemma_head_step(fold, k);
        assert(b.subrange(0, a.len() as int) =~= assembled(fold.head(k)).subrange(0, a.len() as int));
    } else {
        assert(b.subrange(0, a.len() as int) =~= a);
    }
}

/// A marker keeps the number under which it was extracted, and its link is the
/// name of the asset.
pub proof fn law_marker_links_to_its_asset(fold: Folding, j: int)
    requires
        0 <= j < fold.figures().len(),
    ensures
        ({
            let f = fold.figures()[j];
            let name = fold.images[f.image as int].name@;
            &&& f.image < fold.images.len()
            &&& fold.markdown.subrange(f.start as int, f.end as int) == figure_marker(f.label, name)
            &&& has_sub(
                assembled(fold.pieces()),
                figure_marker(f.label, asset_name(fold.name_stem, name)),
            )
        }),
{
    let n = fold.figures().len();
    lemma_figures(fold.markdown, 0, fold.images);
    lemma_head_step(fold, j as nat);
    lemma_head_grows(fold, (j + 1) as nat, n);
    lemma_assembled_push(fold.head(n), Piece::Extracted(fold.tail()));
    let marker = fold.marker(j);
    let passage = fold.passage(j as nat);
    let front = assembled(fold.head(j as nat));
    let upto = assembled(fold.head((j + 1) as nat));
    let head = assembled(fold.head(n));
    let all = assembled(fold.pieces());
    let at = front.len() + passage.len() - marker.len();
    let to = at + marker.len();
    assert(passage.subrange(passage.len() - marker.len(), passage.len() as int) =~= marker);
    assert(upto.subrange(at, to) =~= passage.subrange(
        passage.len() - marker.len(),
        passage.len() as int,
    ));
    assert(head.subrange(at, to) =~= head.subrange(0, upto.len() as int).subrange(at, to));
    assert(all.subrange(at, to) =~= head.subrange(at, to));
    assert(occurs_at(all, marker, at));
}

} // verus!
