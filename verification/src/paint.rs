//! What is drawn for a row of cells: runs of background, runs of text, and the
//! separators of status lines, which are drawn as shapes.

use crate::grid;
use crate::grid::Cell;
use crate::grid::CellView;
use crate::grid::GridView;
use crate::scrolling;
use crate::scrolling::AnimationView;
use crate::scrolling::ScrollAnimation;
use crate::text;
use crate::ui::Highlight;
use crate::ui::Ui;
use crate::ui::UiView;
use vstd::prelude::*;
use vstd::string::*;

verus! {

broadcast use vstd::std_specs::hash::group_hash_axioms;

/// A highlight with the default colours filled in and foreground and background
/// swapped where it says so.
#[derive(Clone, Copy, Debug, PartialEq, Eq, Structural)]
pub struct ResolvedHighlight {
    pub foreground: u32,
    pub background: u32,
    pub special: u32,
    pub bold: bool,
    pub italic: bool,
    pub underline: bool,
    pub undercurl: bool,
    pub strikethrough: bool,
    pub dim: bool,
    pub blend: u8,
}

/// A colour, the default one where none is given.
pub open spec fn given_or(color: Option<u32>, default: u32) -> u32 {
    match color {
        Some(color) => color,
        None => default,
    }
}

impl UiView {
    /// The highlight under a number, the plain one where none is defined.
    pub open spec fn highlight(self, id: u64) -> Highlight {
        if self.highlights.contains_key(id) {
            self.highlights[id]
        } else {
            crate::ui::plain_highlight()
        }
    }

    /// What text under a highlight looks like. All styles of straight underline
    /// are drawn alike.
    pub open spec fn resolved(self, id: u64) -> ResolvedHighlight {
        let highlight = self.highlight(id);
        let foreground = given_or(highlight.foreground, self.default_foreground);
        let background = given_or(highlight.background, self.default_background);
        ResolvedHighlight {
            foreground: if highlight.reverse {
                background
            } else {
                foreground
            },
            background: if highlight.reverse {
                foreground
            } else {
                background
            },
            special: given_or(highlight.special, self.default_special),
            bold: highlight.bold,
            italic: highlight.italic,
            underline: highlight.underline || highlight.underdouble || highlight.underdotted
                || highlight.underdashed,
            undercurl: highlight.undercurl,
            strikethrough: highlight.strikethrough,
            dim: highlight.dim,
            blend: highlight.blend,
        }
    }
}

fn color_or(color: Option<u32>, default: u32) -> (chosen: u32)
    ensures
        chosen == given_or(color, default),
{
    match color {
        Some(color) => color,
        None => default,
    }
}

impl Ui {
    /// What text under a highlight looks like.
    pub fn resolved(&self, id: u64) -> (resolved: ResolvedHighlight)
        ensures
            resolved == self@.resolved(id),
    {
        let highlight: Highlight = match self.highlights.get(&id) {
            Some(highlight) => *highlight,
            None => Highlight::default(),
        };
        let foreground: u32 = color_or(highlight.foreground, self.default_foreground);
        let background: u32 = color_or(highlight.background, self.default_background);
        ResolvedHighlight {
            foreground: if highlight.reverse { background } else { foreground },
            background: if highlight.reverse { foreground } else { background },
            special: color_or(highlight.special, self.default_special),
            bold: highlight.bold,
            italic: highlight.italic,
            underline: highlight.underline || highlight.underdouble || highlight.underdotted
                || highlight.underdashed,
            undercurl: highlight.undercurl,
            strikethrough: highlight.strikethrough,
            dim: highlight.dim,
            blend: highlight.blend,
        }
    }
}

/// The separators of powerline status lines. They are drawn as shapes that fill
/// their cell exactly, which no font's glyph does.
#[derive(Clone, Copy, Debug, PartialEq, Eq, Structural)]
pub enum PowerlineSeparator {
    HardRight,
    SoftRight,
    HardLeft,
    SoftLeft,
    AngledUpper,
    AngledThin,
    AngledLower,
}

/// The separator that a cell's text is, if it is one.
pub open spec fn separator_of(text: Seq<char>) -> Option<PowerlineSeparator> {
    if text.len() != 1 {
        None
    } else if text[0] == '\u{e0b0}' {
        Some(PowerlineSeparator::HardRight)
    } else if text[0] == '\u{e0b1}' {
        Some(PowerlineSeparator::SoftRight)
    } else if text[0] == '\u{e0b2}' {
        Some(PowerlineSeparator::HardLeft)
    } else if text[0] == '\u{e0b3}' {
        Some(PowerlineSeparator::SoftLeft)
    } else if text[0] == '\u{e0ba}' {
        Some(PowerlineSeparator::AngledLower)
    } else if text[0] == '\u{e0bb}' || text[0] == '\u{e0bd}' {
        Some(PowerlineSeparator::AngledThin)
    } else if text[0] == '\u{e0bc}' {
        Some(PowerlineSeparator::AngledUpper)
    } else {
        None
    }
}

/// Recognizes the separator that a cell's text is.
pub fn powerline_separator(text: &str) -> (separator: Option<PowerlineSeparator>)
    ensures
        separator == separator_of(text@),
{
    if text.unicode_len() != 1 {
        return None;
    }
    let c: char = text.get_char(0);
    if c == '\u{e0b0}' {
        Some(PowerlineSeparator::HardRight)
    } else if c == '\u{e0b1}' {
        Some(PowerlineSeparator::SoftRight)
    } else if c == '\u{e0b2}' {
        Some(PowerlineSeparator::HardLeft)
    } else if c == '\u{e0b3}' {
        Some(PowerlineSeparator::SoftLeft)
    } else if c == '\u{e0ba}' {
        Some(PowerlineSeparator::AngledLower)
    } else if c == '\u{e0bb}' || c == '\u{e0bd}' {
        Some(PowerlineSeparator::AngledThin)
    } else if c == '\u{e0bc}' {
        Some(PowerlineSeparator::AngledUpper)
    } else {
        None
    }
}

/// A horizontal place in a cell. The outer ones overlap the cell next to it by
/// half a pixel, so that no seam shows.
#[derive(Clone, Copy, Debug, PartialEq, Eq)]
pub enum Across {
    BeforeLeft,
    Left,
    Right,
    BeyondRight,
}

/// A vertical place in a cell.
#[derive(Clone, Copy, Debug, PartialEq, Eq)]
pub enum Down {
    Top,
    Middle,
    Bottom,
}

/// The outline of a shape that is drawn in a cell.
#[derive(Debug, PartialEq, Eq)]
pub struct Outline {
    /// Drawn as a line of one pixel, not filled.
    pub stroked: bool,
    /// The corners, in order. A filled outline returns to the first one.
    pub points: Vec<(Across, Down)>,
}

/// Whether a separator is a thin line.
pub open spec fn is_thin(separator: PowerlineSeparator) -> bool {
    ||| separator == PowerlineSeparator::SoftRight
    ||| separator == PowerlineSeparator::SoftLeft
    ||| separator == PowerlineSeparator::AngledThin
}

/// The corners of a separator.
pub open spec fn separator_points(separator: PowerlineSeparator) -> Seq<(Across, Down)> {
    match separator {
        PowerlineSeparator::HardRight => seq![
            (Across::BeforeLeft, Down::Top),
            (Across::Right, Down::Middle),
            (Across::BeforeLeft, Down::Bottom),
        ],
        PowerlineSeparator::SoftRight => seq![
            (Across::Left, Down::Top),
            (Across::Right, Down::Middle),
            (Across::Left, Down::Bottom),
        ],
        PowerlineSeparator::HardLeft => seq![
            (Across::BeyondRight, Down::Top),
            (Across::Left, Down::Middle),
            (Across::BeyondRight, Down::Bottom),
        ],
        PowerlineSeparator::SoftLeft => seq![
            (Across::Right, Down::Top),
            (Across::Left, Down::Middle),
            (Across::Right, Down::Bottom),
        ],
        PowerlineSeparator::AngledUpper => seq![
            (Across::BeforeLeft, Down::Top),
            (Across::Right, Down::Top),
            (Across::BeforeLeft, Down::Bottom),
        ],
        PowerlineSeparator::AngledThin => seq![
            (Across::Left, Down::Bottom),
            (Across::Right, Down::Top),
        ],
        PowerlineSeparator::AngledLower => seq![
            (Across::BeyondRight, Down::Top),
            (Across::BeyondRight, Down::Bottom),
            (Across::Left, Down::Bottom),
        ],
    }
}

/// The outline of a separator.
pub fn powerline_path(separator: PowerlineSeparator) -> (outline: Outline)
    ensures
        outline.stroked == is_thin(separator),
        outline.points@ == separator_points(separator),
{
    let (stroked, points) = match separator {
        PowerlineSeparator::HardRight => (
            false,
            vec![
                (Across::BeforeLeft, Down::Top),
                (Across::Right, Down::Middle),
                (Across::BeforeLeft, Down::Bottom),
            ],
        ),
        PowerlineSeparator::SoftRight => (
            true,
            vec![
                (Across::Left, Down::Top),
                (Across::Right, Down::Middle),
                (Across::Left, Down::Bottom),
            ],
        ),
        PowerlineSeparator::HardLeft => (
            false,
            vec![
                (Across::BeyondRight, Down::Top),
                (Across::Left, Down::Middle),
                (Across::BeyondRight, Down::Bottom),
            ],
        ),
        PowerlineSeparator::SoftLeft => (
            true,
            vec![
                (Across::Right, Down::Top),
                (Across::Left, Down::Middle),
                (Across::Right, Down::Bottom),
            ],
        ),
        PowerlineSeparator::AngledUpper => (
            false,
            vec![
                (Across::BeforeLeft, Down::Top),
                (Across::Right, Down::Top),
                (Across::BeforeLeft, Down::Bottom),
            ],
        ),
        PowerlineSeparator::AngledThin => (
            true,
            vec![(Across::Left, Down::Bottom), (Across::Right, Down::Top)],
        ),
        PowerlineSeparator::AngledLower => (
            false,
            vec![
                (Across::BeyondRight, Down::Top),
                (Across::BeyondRight, Down::Bottom),
                (Across::Left, Down::Bottom),
            ],
        ),
    };
    assert(points@ =~= separator_points(separator));
    Outline { stroked, points }
}

/// A stretch of cells, from a column up to another one, with one background.
#[derive(Clone, Copy, Debug, PartialEq, Eq)]
pub struct BackgroundRun {
    pub start: usize,
    pub end: usize,
    pub color: u32,
    /// How far the background lets through what is below it, in percent.
    pub blend: u8,
}

impl BackgroundRun {
    /// Whether a cell's background is that of the run.
    pub open spec fn matches(self, highlight: ResolvedHighlight) -> bool {
        self.color == highlight.background && self.blend == highlight.blend
    }
}

/// Whether runs of background cover the cells from the first on up to a column,
/// each as far as its background goes.
pub open spec fn covered_by(
    runs: Seq<BackgroundRun>,
    highlights: Seq<ResolvedHighlight>,
    end: int,
) -> bool {
    // The runs follow one another from the first column to the last.
    &&& runs.len() == 0 <==> end == 0
    &&& runs.len() > 0 ==> runs[0].start == 0 && runs.last().end == end
    &&& forall|i: int| 0 <= i < runs.len() ==> (#[trigger] runs[i]).start < runs[i].end <= end
    &&& forall|i: int, j: int|
        0 <= i && j == i + 1 && j < runs.len() ==> (#[trigger] runs[i]).end == (
        #[trigger] runs[j]).start
    // The background is that of every cell of the run, and not that of the next.
    &&& forall|i: int, c: int|
        0 <= i < runs.len() && runs[i].start <= c < runs[i].end ==> (#[trigger] runs[i]).matches(
            #[trigger] highlights[c],
        )
    &&& forall|i: int|
        0 <= i < runs.len() && runs[i].end < highlights.len() ==> !(#[trigger] runs[i]).matches(
            highlights[runs[i].end as int],
        )
}

/// Finds the runs of equal background in a row of cells.
pub fn background_runs(highlights: &[ResolvedHighlight]) -> (runs: Vec<BackgroundRun>)
    ensures
        covered_by(runs@, highlights@, highlights@.len() as int),
{
    let mut runs: Vec<BackgroundRun> = Vec::new();
    let mut start: usize = 0;
    while start < highlights.len()
        invariant
            start <= highlights@.len(),
            covered_by(runs@, highlights@, start as int),
        decreases highlights@.len() - start,
    {
        let color: u32 = highlights[start].background;
        let blend: u8 = highlights[start].blend;
        let mut end: usize = start + 1;
        while end < highlights.len() && highlights[end].background == color
            && highlights[end].blend == blend
            invariant
                start < end <= highlights@.len(),
                forall|c: int|
                    start <= c < end ==> (#[trigger] highlights@[c]).background == color
                        && highlights@[c].blend == blend,
            decreases highlights@.len() - end,
        {
            end += 1;
        }
        runs.push(BackgroundRun { start, end, color, blend });
        start = end;
    }
    runs
}

/// What is drawn over the background.
#[derive(Debug, PartialEq, Eq)]
pub enum Glyph {
    /// A separator in the cell at a column.
    Separator { col: usize, separator: PowerlineSeparator, foreground: u32, dim: bool },
    /// A run of text that starts at a column.
    Text { start: usize, text: String, highlight: ResolvedHighlight },
}

/// What a glyph holds.
#[verifier::ext_equal]
pub enum GlyphView {
    Separator { col: int, separator: PowerlineSeparator, foreground: u32, dim: bool },
    Text { start: int, text: Seq<char>, highlight: ResolvedHighlight },
}

impl View for Glyph {
    type V = GlyphView;

    open spec fn view(&self) -> GlyphView {
        match *self {
            Glyph::Separator { col, separator, foreground, dim } => GlyphView::Separator {
                col: col as int,
                separator,
                foreground,
                dim,
            },
            Glyph::Text { start, text, highlight } => GlyphView::Text {
                start: start as int,
                text: text@,
                highlight,
            },
        }
    }
}

/// What a list of glyphs holds.
pub open spec fn glyphs_view(glyphs: Seq<Glyph>) -> Seq<GlyphView> {
    Seq::new(glyphs.len(), |i: int| glyphs[i]@)
}

/// A run of text that may go on with the next cell.
#[verifier::ext_equal]
pub struct TextRun {
    pub start: int,
    pub text: Seq<char>,
    pub highlight: ResolvedHighlight,
}

impl TextRun {
    /// Whether anything of the run is seen: text that is not all white space, or
    /// a line through or under it.
    pub open spec fn is_visible(self) -> bool {
        self.text.len() > 0 && (self.highlight.underline || self.highlight.undercurl
            || self.highlight.strikethrough || !text::all_space(self.text))
    }
}

/// The glyphs of a row of cells up to a column: those that are complete, and the
/// run of text that the column ends.
#[verifier::ext_equal]
pub struct Glyphs {
    pub complete: Seq<GlyphView>,
    pub run: Option<TextRun>,
}

impl Glyphs {
    /// All glyphs, the run included if anything of it is seen.
    pub open spec fn all(self) -> Seq<GlyphView> {
        match self.run {
            Some(run) => if run.is_visible() {
                self.complete.push(
                    GlyphView::Text { start: run.start, text: run.text, highlight: run.highlight },
                )
            } else {
                self.complete
            },
            None => self.complete,
        }
    }

    /// With one cell more. A separator stands alone; other text goes on with the
    /// run of its highlight.
    pub open spec fn with(self, col: int, cell: CellView, highlight: ResolvedHighlight) -> Glyphs {
        match separator_of(cell.text) {
            Some(separator) => Glyphs {
                complete: self.all().push(
                    GlyphView::Separator {
                        col,
                        separator,
                        foreground: highlight.foreground,
                        dim: highlight.dim,
                    },
                ),
                run: None,
            },
            None => if self.run is Some && self.run->0.highlight == highlight {
                Glyphs {
                    complete: self.complete,
                    run: Some(
                        TextRun {
                            start: self.run->0.start,
                            text: self.run->0.text + cell.text,
                            highlight,
                        },
                    ),
                }
            } else {
                Glyphs {
                    complete: self.all(),
                    run: Some(TextRun { start: col, text: cell.text, highlight }),
                }
            },
        }
    }
}

/// The glyphs of the first `n` cells of a row.
pub open spec fn glyphs_to(
    cells: Seq<CellView>,
    highlights: Seq<ResolvedHighlight>,
    n: nat,
) -> Glyphs
    decreases n,
{
    if n == 0 {
        Glyphs { complete: Seq::empty(), run: None }
    } else {
        glyphs_to(cells, highlights, (n - 1) as nat).with(n - 1, cells[n - 1], highlights[n - 1])
    }
}

/// Finds the runs of text and the separators in a row of cells.
pub fn glyph_runs(cells: &[Cell], highlights: &[ResolvedHighlight]) -> (glyphs: Vec<Glyph>)
    requires
        cells@.len() == highlights@.len(),
    ensures
        glyphs_view(glyphs@) == glyphs_to(
            grid::cells_view(cells@),
            highlights@,
            cells@.len(),
        ).all(),
{
    let ghost row = grid::cells_view(cells@);
    let mut glyphs: Vec<Glyph> = Vec::new();
    let mut col: usize = 0;
    assert(glyphs_view(glyphs@) =~= Seq::empty());
    while col < cells.len()
        invariant
            cells@.len() == highlights@.len(),
            row == grid::cells_view(cells@),
            col <= cells@.len(),
            glyphs_view(glyphs@) == glyphs_to(row, highlights@, col as nat).all(),
            col < cells@.len() && separator_of(row[col as int].text) is None ==> (
            glyphs_to(row, highlights@, col as nat).run matches Some(run) ==> run.highlight
                != highlights@[col as int]),
        decreases cells@.len() - col,
    {
        let ghost before = glyphs_view(glyphs@);
        let highlight: ResolvedHighlight = highlights[col];
        if let Some(separator) = powerline_separator(cells[col].as_str()) {
            let glyph = Glyph::Separator {
                col,
                separator,
                foreground: highlight.foreground,
                dim: highlight.dim,
            };
            let ghost added = glyph@;
            glyphs.push(glyph);
            assert(glyphs_view(glyphs@) =~= before.push(added));
            col += 1;
            continue ;
        }
        let start: usize = col;
        let ghost first = glyphs_to(row, highlights@, start as nat);
        let mut text = cells[col].as_str().to_owned();
        col += 1;
        while col < cells.len() && highlights[col] == highlight && powerline_separator(
            cells[col].as_str(),
        ).is_none()
            invariant
                cells@.len() == highlights@.len(),
                row == grid::cells_view(cells@),
                start < col <= cells@.len(),
                glyphs_to(row, highlights@, col as nat) == (Glyphs {
                    complete: before,
                    run: Some(TextRun { start: start as int, text: text@, highlight }),
                }),
            decreases cells@.len() - col,
        {
            text.append(cells[col].as_str());
            col += 1;
        }
        let seen = text.as_str().unicode_len() > 0 && (highlight.underline || highlight.undercurl
            || highlight.strikethrough || !text::is_blank(text.as_str()));
        if seen {
            let glyph = Glyph::Text { start, text, highlight };
            let ghost added = glyph@;
            glyphs.push(glyph);
            assert(glyphs_view(glyphs@) =~= before.push(added));
        }
    }
    glyphs
}

/// Whether a text is part of another one.
pub open spec fn is_part(part: Seq<char>, text: Seq<char>) -> bool {
    exists|at: int| #[trigger] part_at(part, text, at)
}

/// Whether a text stands in another one at a place.
pub open spec fn part_at(part: Seq<char>, text: Seq<char>, at: int) -> bool {
    0 <= at <= at + part.len() <= text.len() && text.subrange(at, at + part.len()) == part
}

/// Whether a cell has anything to draw but its background: a separator, text that
/// is not all white space, or a line through or under its text.
pub open spec fn is_seen(cell: CellView, highlight: ResolvedHighlight) -> bool {
    separator_of(cell.text) is Some || has_text(cell, highlight)
}

/// Whether a cell by itself makes a run of text that is seen.
pub open spec fn has_text(cell: CellView, highlight: ResolvedHighlight) -> bool {
    TextRun { start: 0, text: cell.text, highlight }.is_visible()
}

/// Whether a glyph draws the text of a cell, in the cell's highlight.
pub open spec fn draws(
    glyph: GlyphView,
    col: int,
    cell: CellView,
    highlight: ResolvedHighlight,
) -> bool {
    match glyph {
        GlyphView::Separator { col: at, separator, foreground, dim } => {
            &&& at == col
            &&& separator_of(cell.text) == Some(separator)
            &&& foreground == highlight.foreground
            &&& dim == highlight.dim
        },
        GlyphView::Text { start, text, highlight: look } => {
            &&& start <= col
            &&& look == highlight
            &&& is_part(cell.text, text)
        },
    }
}

/// Whether one of some glyphs draws the text of a cell.
pub open spec fn is_drawn(
    glyphs: Seq<GlyphView>,
    col: int,
    cell: CellView,
    highlight: ResolvedHighlight,
) -> bool {
    exists|i: int| 0 <= i < glyphs.len() && draws(#[trigger] glyphs[i], col, cell, highlight)
}

/// Whether the run of text that may go on holds the text of a cell.
spec fn in_run(
    glyphs: Glyphs,
    col: int,
    cell: CellView,
    highlight: ResolvedHighlight,
) -> bool {
    glyphs.run matches Some(run) && run.start <= col && run.highlight == highlight && is_part(
        cell.text,
        run.text,
    )
}

proof fn lemma_drawn_with_one_more(
    glyphs: Seq<GlyphView>,
    added: GlyphView,
    col: int,
    cell: CellView,
    highlight: ResolvedHighlight,
)
    ensures
        is_drawn(glyphs, col, cell, highlight) ==> is_drawn(
            glyphs.push(added),
            col,
            cell,
            highlight,
        ),
        draws(added, col, cell, highlight) ==> is_drawn(glyphs.push(added), col, cell, highlight),
{
    let more = glyphs.push(added);
    if is_drawn(glyphs, col, cell, highlight) {
        let i = choose|i: int|
            0 <= i < glyphs.len() && draws(#[trigger] glyphs[i], col, cell, highlight);
        assert(draws(more[i], col, cell, highlight));
    }
    if draws(added, col, cell, highlight) {
        assert(draws(more[glyphs.len() as int], col, cell, highlight));
    }
}

/// A run that holds the text of a cell that is seen is seen.
proof fn lemma_run_is_visible(run: TextRun, cell: CellView)
    requires
        is_part(cell.text, run.text),
        has_text(cell, run.highlight),
    ensures
        run.is_visible(),
{
    let part = cell.text;
    let at = choose|at: int| #[trigger] part_at(part, run.text, at);
    if !text::all_space(part) {
        let i = choose|i: int| 0 <= i < part.len() && !text::is_space(#[trigger] part[i]);
        assert(run.text.subrange(at, at + part.len())[i] == run.text[at + i]);
        assert(!text::is_space(run.text[at + i]));
    }
}

/// What is drawn so far stays drawn when the run of text ends.
proof fn lemma_all_keeps_drawn(
    glyphs: Glyphs,
    col: int,
    cell: CellView,
    highlight: ResolvedHighlight,
)
    requires
        is_drawn(glyphs.complete, col, cell, highlight) || (in_run(glyphs, col, cell, highlight)
            && has_text(cell, highlight)),
    ensures
        is_drawn(glyphs.all(), col, cell, highlight),
{
    match glyphs.run {
        Some(run) => {
            let added = GlyphView::Text {
                start: run.start,
                text: run.text,
                highlight: run.highlight,
            };
            lemma_drawn_with_one_more(glyphs.complete, added, col, cell, highlight);
            if !is_drawn(glyphs.complete, col, cell, highlight) {
                lemma_run_is_visible(run, cell);
                assert(draws(added, col, cell, highlight));
            }
        },
        None => {},
    }
}

proof fn lemma_seen_cells_are_kept(
    cells: Seq<CellView>,
    highlights: Seq<ResolvedHighlight>,
    n: nat,
    col: int,
)
    requires
        n <= cells.len(),
        cells.len() == highlights.len(),
        0 <= col < n,
        is_seen(cells[col], highlights[col]),
    ensures
        is_drawn(glyphs_to(cells, highlights, n).complete, col, cells[col], highlights[col]) || (
        in_run(glyphs_to(cells, highlights, n), col, cells[col], highlights[col])
            && has_text(cells[col], highlights[col])),
    decreases n,
{
    let m = (n - 1) as nat;
    let before = glyphs_to(cells, highlights, m);
    let now = glyphs_to(cells, highlights, n);
    let cell = cells[col];
    let highlight = highlights[col];
    let last = cells[m as int];
    if col < m {
        lemma_seen_cells_are_kept(cells, highlights, m, col);
        match separator_of(last.text) {
            Some(separator) => {
                lemma_all_keeps_drawn(before, col, cell, highlight);
                let added = now.complete.last();
                assert(now.complete == before.all().push(added));
                lemma_drawn_with_one_more(before.all(), added, col, cell, highlight);
            },
            None => {
                if before.run is Some && before.run->0.highlight == highlights[m as int] {
                    if in_run(before, col, cell, highlight) {
                        let run = before.run->0.text;
                        let longer = run + last.text;
                        let at = choose|at: int| #[trigger] part_at(cell.text, run, at);
                        assert(longer.subrange(at, at + cell.text.len()) =~= run.subrange(
                            at,
                            at + cell.text.len(),
                        ));
                        assert(part_at(cell.text, longer, at));
                    }
                } else {
                    lemma_all_keeps_drawn(before, col, cell, highlight);
                }
            },
        }
    } else {
        match separator_of(last.text) {
            Some(separator) => {
                let added = now.complete.last();
                assert(now.complete == before.all().push(added));
                lemma_drawn_with_one_more(before.all(), added, col, cell, highlight);
            },
            None => {
                let text = now.run->0.text;
                let at = text.len() - cell.text.len();
                assert(text.subrange(at, text.len() as int) =~= cell.text);
                assert(part_at(cell.text, text, at));
                lemma_runs_start_before(cells, highlights, n);
            },
        }
    }
}

/// A run of text starts at a column that was passed.
proof fn lemma_runs_start_before(
    cells: Seq<CellView>,
    highlights: Seq<ResolvedHighlight>,
    n: nat,
)
    ensures
        glyphs_to(cells, highlights, n).run matches Some(run) ==> run.start < n,
    decreases n,
{
    if n > 0 {
        lemma_runs_start_before(cells, highlights, (n - 1) as nat);
    }
}

/// Nothing that can be seen is lost: every separator, and every cell whose text or
/// line is seen, is drawn by a glyph, in its own highlight.
pub proof fn law_everything_seen_is_drawn(
    cells: Seq<CellView>,
    highlights: Seq<ResolvedHighlight>,
    col: int,
)
    requires
        cells.len() == highlights.len(),
        0 <= col < cells.len(),
        is_seen(cells[col], highlights[col]),
    ensures
        is_drawn(
            glyphs_to(cells, highlights, cells.len()).all(),
            col,
            cells[col],
            highlights[col],
        ),
{
    lemma_seen_cells_are_kept(cells, highlights, cells.len(), col);
    lemma_all_keeps_drawn(
        glyphs_to(cells, highlights, cells.len()),
        col,
        cells[col],
        highlights[col],
    );
}

/// The texts of the cells from one up to another, one after the other.
pub open spec fn text_between(cells: Seq<CellView>, start: int, end: int) -> Seq<char>
    decreases end - start,
{
    if start >= end {
        Seq::empty()
    } else {
        text_between(cells, start, end - 1) + cells[end - 1].text
    }
}

/// Whether the cells from one up to another are drawn as one text: they hold no
/// separator and are in one highlight, and neither goes on to a side.
pub open spec fn is_text_run(
    cells: Seq<CellView>,
    highlights: Seq<ResolvedHighlight>,
    start: int,
    end: int,
) -> bool {
    &&& 0 <= start < end <= cells.len()
    &&& forall|c: int|
        start <= c < end ==> separator_of((#[trigger] cells[c]).text) is None && highlights[c]
            == highlights[start]
    &&& start == 0 || separator_of(cells[start - 1].text) is Some || highlights[start - 1]
        != highlights[start]
    &&& end == cells.len() || separator_of(cells[end].text) is Some || highlights[end]
        != highlights[start]
}

/// Whether a text in a highlight leaves a mark: it has a character that is not white
/// space, or any at all and a line through or under it.
pub open spec fn leaves_mark(text: Seq<char>, highlight: ResolvedHighlight) -> bool {
    ||| exists|i: int| 0 <= i < text.len() && !text::is_space(#[trigger] text[i])
    ||| text.len() > 0 && highlight.underline
    ||| text.len() > 0 && highlight.undercurl
    ||| text.len() > 0 && highlight.strikethrough
}

/// The column of a glyph.
pub open spec fn column_of(glyph: GlyphView) -> int {
    match glyph {
        GlyphView::Separator { col, .. } => col,
        GlyphView::Text { start, .. } => start,
    }
}

/// The glyph of the cells from one up to another.
pub open spec fn text_glyph(
    cells: Seq<CellView>,
    highlights: Seq<ResolvedHighlight>,
    start: int,
    end: int,
) -> GlyphView {
    GlyphView::Text { start, text: text_between(cells, start, end), highlight: highlights[start] }
}

/// Whether a glyph is one that a row of cells is drawn with: a separator of the row, or
/// all the text of a run that leaves a mark.
pub open spec fn stands_in_row(
    glyph: GlyphView,
    cells: Seq<CellView>,
    highlights: Seq<ResolvedHighlight>,
) -> bool {
    match glyph {
        GlyphView::Separator { col, separator, foreground, dim } => {
            &&& 0 <= col < cells.len()
            &&& separator_of(cells[col].text) == Some(separator)
            &&& foreground == highlights[col].foreground
            &&& dim == highlights[col].dim
        },
        GlyphView::Text { start, text, highlight } => exists|end: int|
            #[trigger] is_text_run(cells, highlights, start, end) && glyph == text_glyph(
                cells,
                highlights,
                start,
                end,
            ) && leaves_mark(text, highlight),
    }
}

/// Whether glyphs are those of the runs and separators that start before a column: from
/// left to right, and none left out.
spec fn cover_to(
    glyphs: Seq<GlyphView>,
    cells: Seq<CellView>,
    highlights: Seq<ResolvedHighlight>,
    bound: int,
) -> bool {
    &&& forall|i: int|
        0 <= i < glyphs.len() ==> stands_in_row(#[trigger] glyphs[i], cells, highlights)
            && column_of(glyphs[i]) < bound
    &&& forall|i: int, j: int|
        0 <= i < j < glyphs.len() ==> column_of(#[trigger] glyphs[i]) < column_of(
            #[trigger] glyphs[j],
        )
    &&& forall|start: int, end: int| #[trigger]
        is_text_run(cells, highlights, start, end) && start < bound && leaves_mark(
            text_between(cells, start, end),
            highlights[start],
        ) ==> glyphs.contains(text_glyph(cells, highlights, start, end))
    &&& forall|c: int|
        0 <= c < bound && separator_of((#[trigger] cells[c]).text) is Some ==> glyphs.contains(
            GlyphView::Separator {
                col: c,
                separator: separator_of(cells[c].text)->0,
                foreground: highlights[c].foreground,
                dim: highlights[c].dim,
            },
        )
}

/// Whether a run of text that may go on is all that stands from its start up to a column.
spec fn is_open_run(
    run: TextRun,
    cells: Seq<CellView>,
    highlights: Seq<ResolvedHighlight>,
    n: int,
) -> bool {
    let start = run.start;
    &&& 0 <= start < n
    &&& run.highlight == highlights[start]
    &&& run.text == text_between(cells, start, n)
    &&& forall|c: int|
        start <= c < n ==> separator_of((#[trigger] cells[c]).text) is None && highlights[c]
            == highlights[start]
    &&& start == 0 || separator_of(cells[start - 1].text) is Some || highlights[start - 1]
        != highlights[start]
}

/// A run of text ends in one place only.
proof fn lemma_one_end(
    cells: Seq<CellView>,
    highlights: Seq<ResolvedHighlight>,
    start: int,
    a: int,
    b: int,
)
    requires
        is_text_run(cells, highlights, start, a),
        is_text_run(cells, highlights, start, b),
    ensures
        a == b,
{
    if a < b {
        assert(separator_of(cells[a].text) is None);
    }
    if b < a {
        assert(separator_of(cells[b].text) is None);
    }
}

/// With one glyph more, of the run or separator at a column, the next column is covered.
proof fn lemma_cover_more(
    glyphs: Seq<GlyphView>,
    cells: Seq<CellView>,
    highlights: Seq<ResolvedHighlight>,
    bound: int,
    added: GlyphView,
    next: int,
)
    requires
        cover_to(glyphs, cells, highlights, bound),
        stands_in_row(added, cells, highlights),
        bound <= column_of(added) < next,
        forall|start: int, end: int| #[trigger]
            is_text_run(cells, highlights, start, end) && bound <= start < next && leaves_mark(
                text_between(cells, start, end),
                highlights[start],
            ) ==> added == text_glyph(cells, highlights, start, end),
        forall|c: int|
            bound <= c < next && separator_of((#[trigger] cells[c]).text) is Some ==> added == (
            GlyphView::Separator {
                col: c,
                separator: separator_of(cells[c].text)->0,
                foreground: highlights[c].foreground,
                dim: highlights[c].dim,
            }),
    ensures
        cover_to(glyphs.push(added), cells, highlights, next),
{
    let more = glyphs.push(added);
    assert(more[glyphs.len() as int] == added);
    assert forall|glyph: GlyphView| glyphs.contains(glyph) implies more.contains(glyph) by {
        let i = choose|i: int| 0 <= i < glyphs.len() && glyphs[i] == glyph;
        assert(more[i] == glyph);
    }
    assert(more.contains(added));
}

/// With nothing that leaves a mark before it, the next column is covered too.
proof fn lemma_cover_no_more(
    glyphs: Seq<GlyphView>,
    cells: Seq<CellView>,
    highlights: Seq<ResolvedHighlight>,
    bound: int,
    next: int,
)
    requires
        cover_to(glyphs, cells, highlights, bound),
        bound <= next,
        forall|start: int, end: int| #[trigger]
            is_text_run(cells, highlights, start, end) && bound <= start < next ==> !leaves_mark(
                text_between(cells, start, end),
                highlights[start],
            ),
        forall|c: int|
            bound <= c < next ==> separator_of((#[trigger] cells[c]).text) is None,
    ensures
        cover_to(glyphs, cells, highlights, next),
{
}

/// When a run of text ends, everything up to there is covered.
proof fn lemma_close_run(
    glyphs: Glyphs,
    cells: Seq<CellView>,
    highlights: Seq<ResolvedHighlight>,
    n: int,
)
    requires
        cells.len() == highlights.len(),
        0 <= n <= cells.len(),
        glyphs.run matches Some(run) ==> is_open_run(run, cells, highlights, n) && cover_to(
            glyphs.complete,
            cells,
            highlights,
            run.start,
        ) && (n == cells.len() || separator_of(cells[n].text) is Some || highlights[n]
            != run.highlight),
        glyphs.run is None ==> cover_to(glyphs.complete, cells, highlights, n),
    ensures
        cover_to(glyphs.all(), cells, highlights, n),
{
    match glyphs.run {
        Some(run) => {
            let start = run.start;
            let glyph = text_glyph(cells, highlights, start, n);
            assert(is_text_run(cells, highlights, start, n));
            assert forall|s: int, e: int| #[trigger]
                is_text_run(cells, highlights, s, e) && start <= s < n implies s == start && e
                == n by {
                if s > start {
                    assert(separator_of(cells[s - 1].text) is None);
                    assert(highlights[s - 1] == highlights[start]);
                    assert(separator_of(cells[s].text) is None);
                    assert(highlights[s] == highlights[start]);
                }
                lemma_one_end(cells, highlights, start, e, n);
            }
            assert(run.is_visible() == leaves_mark(run.text, run.highlight));
            if run.is_visible() {
                lemma_cover_more(glyphs.complete, cells, highlights, start, glyph, n);
            } else {
                lemma_cover_no_more(glyphs.complete, cells, highlights, start, n);
            }
        },
        None => {},
    }
}

proof fn lemma_glyphs_cover(
    cells: Seq<CellView>,
    highlights: Seq<ResolvedHighlight>,
    n: nat,
)
    requires
        cells.len() == highlights.len(),
        n <= cells.len(),
    ensures
        ({
            let glyphs = glyphs_to(cells, highlights, n);
            match glyphs.run {
                Some(run) => is_open_run(run, cells, highlights, n as int) && cover_to(
                    glyphs.complete,
                    cells,
                    highlights,
                    run.start,
                ),
                None => cover_to(glyphs.complete, cells, highlights, n as int) && (n == 0
                    || separator_of(cells[n - 1].text) is Some),
            }
        }),
    decreases n,
{
    if n > 0 {
        let m = n - 1;
        lemma_glyphs_cover(cells, highlights, m as nat);
        let before = glyphs_to(cells, highlights, m as nat);
        let now = glyphs_to(cells, highlights, n);
        let cell = cells[m];
        match separator_of(cell.text) {
            Some(separator) => {
                lemma_close_run(before, cells, highlights, m);
                let added = GlyphView::Separator {
                    col: m,
                    separator,
                    foreground: highlights[m].foreground,
                    dim: highlights[m].dim,
                };
                assert forall|s: int, e: int| #[trigger]
                    is_text_run(cells, highlights, s, e) && m <= s < n implies false by {
                    assert(separator_of(cells[s].text) is None);
                }
                lemma_cover_more(before.all(), cells, highlights, m, added, n as int);
            },
            None => {
                if before.run is Some && before.run->0.highlight == highlights[m] {
                } else {
                    lemma_close_run(before, cells, highlights, m);
                    assert(text_between(cells, m, m) =~= Seq::empty());
                    assert(text_between(cells, m, m + 1) =~= cell.text);
                    if before.run is Some {
                        assert(highlights[m - 1] == before.run->0.highlight) by {
                            assert(separator_of(cells[m - 1].text) is None);
                        }
                    }
                }
            },
        }
    }
}

/// What a row of cells is drawn with, from left to right: each separator in its cell, and
/// each run of text that leaves a mark, from the column where the run starts and with the
/// texts of all its cells one after the other, blank ones included. Nothing else is drawn,
/// and none of these is left out.
pub proof fn law_rows_are_drawn_as_they_stand(
    cells: Seq<CellView>,
    highlights: Seq<ResolvedHighlight>,
)
    requires
        cells.len() == highlights.len(),
    ensures
        ({
            let glyphs = glyphs_to(cells, highlights, cells.len()).all();
            &&& forall|i: int|
                0 <= i < glyphs.len() ==> stands_in_row(#[trigger] glyphs[i], cells, highlights)
            &&& forall|i: int, j: int|
                0 <= i < j < glyphs.len() ==> column_of(#[trigger] glyphs[i]) < column_of(
                    #[trigger] glyphs[j],
                )
            &&& forall|start: int, end: int| #[trigger]
                is_text_run(cells, highlights, start, end) && leaves_mark(
                    text_between(cells, start, end),
                    highlights[start],
                ) ==> glyphs.contains(text_glyph(cells, highlights, start, end))
            &&& forall|c: int|
                0 <= c < cells.len() && separator_of((#[trigger] cells[c]).text) is Some
                    ==> glyphs.contains(
                    GlyphView::Separator {
                        col: c,
                        separator: separator_of(cells[c].text)->0,
                        foreground: highlights[c].foreground,
                        dim: highlights[c].dim,
                    },
                )
        }),
{
    lemma_glyphs_cover(cells, highlights, cells.len());
    lemma_close_run(
        glyphs_to(cells, highlights, cells.len()),
        cells,
        highlights,
        cells.len() as int,
    );
}

proof fn lemma_text_between_splits(cells: Seq<CellView>, start: int, middle: int, end: int)
    requires
        start <= middle <= end,
    ensures
        text_between(cells, start, end) == text_between(cells, start, middle) + text_between(
            cells,
            middle,
            end,
        ),
    decreases end - middle,
{
    if middle < end {
        lemma_text_between_splits(cells, start, middle, end - 1);
        assert(text_between(cells, start, end) =~= text_between(cells, start, middle)
            + text_between(cells, middle, end));
    } else {
        assert(text_between(cells, start, end) =~= text_between(cells, start, middle)
            + text_between(cells, middle, end));
    }
}

/// Each cell's text stands in the text of its run after the texts of all the cells before
/// it in the run.
pub proof fn law_cells_keep_their_place_in_a_run(
    cells: Seq<CellView>,
    start: int,
    col: int,
    end: int,
)
    requires
        start <= col < end,
    ensures
        ({
            let text = text_between(cells, start, end);
            let at = text_between(cells, start, col).len() as int;
            &&& at + cells[col].text.len() <= text.len()
            &&& text.subrange(at, at + cells[col].text.len()) == cells[col].text
        }),
{
    lemma_text_between_splits(cells, start, col, end);
    lemma_text_between_splits(cells, col, col + 1, end);
    assert(text_between(cells, col, col) =~= Seq::empty());
    assert(text_between(cells, col, col + 1) =~= cells[col].text);
    let text = text_between(cells, start, end);
    let at = text_between(cells, start, col).len() as int;
    assert(text.subrange(at, at + cells[col].text.len()) =~= cells[col].text);
}

/// Neighbouring cells of a row that are drawn together: the row that they are
/// drawn in, the column that they start at, and the cells.
#[verifier::ext_equal]
pub struct StripView {
    pub row: int,
    pub start_col: int,
    pub cells: Seq<CellView>,
}

/// What is drawn for neighbouring cells of a row. Columns count from the start.
#[derive(Debug, PartialEq, Eq)]
pub struct Strip {
    /// Rows above the grid are negative.
    pub row: i128,
    pub start_col: usize,
    pub backgrounds: Vec<BackgroundRun>,
    pub glyphs: Vec<Glyph>,
}

/// What each of a row's cells looks like.
pub open spec fn looks(ui: UiView, cells: Seq<CellView>) -> Seq<ResolvedHighlight> {
    Seq::new(cells.len(), |c: int| ui.resolved(cells[c].highlight))
}

impl Strip {
    /// Whether this is what is drawn for some cells.
    pub open spec fn paints(self, ui: UiView, strip: StripView) -> bool {
        let highlights = looks(ui, strip.cells);
        &&& self.row == strip.row
        &&& self.start_col == strip.start_col
        &&& covered_by(self.backgrounds@, highlights, strip.cells.len() as int)
        &&& glyphs_view(self.glyphs@) == glyphs_to(
            strip.cells,
            highlights,
            strip.cells.len(),
        ).all()
    }
}

/// Whether strips are what is drawn for a list of stretches of cells.
pub open spec fn all_paint(strips: Seq<Strip>, ui: UiView, plan: Seq<StripView>) -> bool {
    &&& strips.len() == plan.len()
    &&& forall|i: int| 0 <= i < plan.len() ==> (#[trigger] strips[i]).paints(ui, plan[i])
}

/// Works out what is drawn for neighbouring cells of a row.
pub fn paint_cells(ui: &Ui, cells: &[Cell], row: i128, start_col: usize) -> (strip: Strip)
    ensures
        strip.paints(
            ui@,
            (StripView {
                row: row as int,
                start_col: start_col as int,
                cells: grid::cells_view(cells@),
            }),
        ),
{
    let ghost contents = grid::cells_view(cells@);
    let mut highlights: Vec<ResolvedHighlight> = Vec::new();
    while highlights.len() < cells.len()
        invariant
            contents == grid::cells_view(cells@),
            highlights@.len() <= cells@.len(),
            highlights@ == looks(ui@, contents).take(highlights@.len() as int),
        decreases cells@.len() - highlights@.len(),
    {
        let ghost before = highlights@;
        let at: usize = highlights.len();
        highlights.push(ui.resolved(cells[at].highlight));
        assert(highlights@ =~= looks(ui@, contents).take(at + 1));
    }
    assert(highlights@ =~= looks(ui@, contents));
    let backgrounds = background_runs(highlights.as_slice());
    let glyphs = glyph_runs(cells, highlights.as_slice());
    Strip { row, start_col, backgrounds, glyphs }
}

/// The smaller of two numbers.
pub open spec fn least(a: int, b: int) -> int {
    if a < b {
        a
    } else {
        b
    }
}

fn lesser(a: usize, b: usize) -> (least: usize)
    ensures
        least == self::least(a as int, b as int),
{
    if a < b {
        a
    } else {
        b
    }
}

/// A rectangle of cells: up to, and not including, its last row and column.
#[derive(Clone, Copy, Debug, PartialEq, Eq)]
pub struct CellRect {
    pub top: usize,
    pub bottom: usize,
    pub left: usize,
    pub right: usize,
}

/// What of a moving region is in view, when so many rows and columns are.
pub open spec fn region_in_view<S>(region: AnimationView<S>, rows: int, cols: int) -> CellRect {
    CellRect {
        top: least(region.top as int, rows) as usize,
        bottom: least(region.bottom as int, rows) as usize,
        left: least(region.left as int, cols) as usize,
        right: least(region.right as int, cols) as usize,
    }
}

/// The moving region as it cuts a row, if it has any columns in view.
pub open spec fn moving_in_row<S>(
    animation: Option<AnimationView<S>>,
    row: int,
    cols: int,
) -> Option<(int, int)> {
    match animation {
        Some(region) => {
            let left = least(region.left as int, cols);
            let right = least(region.right as int, cols);
            if region.top <= row < region.bottom && left < right {
                Some((left, right))
            } else {
                None
            }
        },
        None => None,
    }
}

/// The cells of the first `n` rows that stand still.
pub open spec fn still_strips<S>(
    grid: GridView,
    animation: Option<AnimationView<S>>,
    cols: int,
    n: nat,
) -> Seq<StripView>
    decreases n,
{
    if n == 0 {
        Seq::empty()
    } else {
        let before = still_strips(grid, animation, cols, (n - 1) as nat);
        let row = grid.rows[n - 1];
        match moving_in_row(animation, n - 1, cols) {
            Some((left, right)) => before.push(
                StripView { row: n - 1, start_col: 0, cells: row.subrange(0, left) },
            ).push(StripView { row: n - 1, start_col: right, cells: row.subrange(right, cols) }),
            None => before.push(
                StripView { row: n - 1, start_col: 0, cells: row.subrange(0, cols) },
            ),
        }
    }
}

/// The cells of the first `n` rows that move.
pub open spec fn moving_strips<S>(
    grid: GridView,
    animation: Option<AnimationView<S>>,
    cols: int,
    n: nat,
) -> Seq<StripView>
    decreases n,
{
    if n == 0 {
        Seq::empty()
    } else {
        let before = moving_strips(grid, animation, cols, (n - 1) as nat);
        match moving_in_row(animation, n - 1, cols) {
            Some((left, right)) => before.push(
                StripView {
                    row: n - 1,
                    start_col: left,
                    cells: grid.rows[n - 1].subrange(left, right),
                },
            ),
            None => before,
        }
    }
}

/// The row that a trailing row is drawn in: before the region where its contents
/// move up, after it where they move down.
pub open spec fn trailing_row<S>(region: AnimationView<S>, index: int) -> int {
    if region.direction > 0 {
        region.top + index - region.trailing.len()
    } else {
        region.bottom + index
    }
}

/// The first `n` rows that are on their way out of a region.
pub open spec fn trailing_strips<S>(region: AnimationView<S>, cols: int, n: nat) -> Seq<StripView> {
    let left = least(region.left as int, cols);
    let right = least(region.right as int, cols);
    Seq::new(
        if left < right {
            n
        } else {
            0
        },
        |i: int|
            StripView {
                row: trailing_row(region, i),
                start_col: left,
                cells: region.trailing[i].subrange(0, right - left),
            },
    )
}

/// What moves, drawn only within the region in view.
#[derive(Debug, PartialEq, Eq)]
pub struct ScrollLayer {
    pub mask: CellRect,
    pub strips: Vec<Strip>,
}

/// How the cursor is drawn.
#[derive(Clone, Copy, Debug, PartialEq, Eq)]
pub struct CursorPaint {
    pub color: u32,
    /// Drawn only within the moving region.
    pub masked: bool,
}

/// All that is drawn for the grid.
#[derive(Debug, PartialEq, Eq)]
pub struct Frame {
    pub still: Vec<Strip>,
    pub scroll: Option<ScrollLayer>,
    pub cursor: Option<CursorPaint>,
}

impl UiView {
    /// The colour of the cursor: the background of its highlight, or the default
    /// foreground where it has none.
    pub open spec fn cursor_color(self) -> u32 {
        if self.cursor().attr_id == 0 {
            self.default_foreground
        } else {
            self.resolved(self.cursor().attr_id).background
        }
    }
}

impl Ui {
    /// The colour of the cursor.
    pub fn cursor_color(&self) -> (color: u32)
        requires
            self.wf(),
        ensures
            color == self@.cursor_color(),
    {
        let attr_id: u64 = self.cursor_mode().attr_id;
        if attr_id == 0 {
            self.default_foreground
        } else {
            self.resolved(attr_id).background
        }
    }
}

/// The part of a moving region that is in view, if there is any.
pub open spec fn mask_of<S>(
    animation: Option<AnimationView<S>>,
    rows: int,
    cols: int,
) -> Option<CellRect> {
    match animation {
        Some(region) => {
            let view = region_in_view(region, rows, cols);
            if view.top < view.bottom && view.left < view.right {
                Some(view)
            } else {
                None
            }
        },
        None => None,
    }
}

/// How the cursor is drawn, if it is seen, shown, and in view.
pub open spec fn cursor_of<S>(
    ui: UiView,
    animation: Option<AnimationView<S>>,
    shown: bool,
    rows: int,
    cols: int,
) -> Option<CursorPaint> {
    let row = ui.grid.cursor_row as int;
    let col = ui.grid.cursor_col as int;
    if shown && !ui.busy && row < rows && col < cols {
        Some(
            CursorPaint {
                color: ui.cursor_color(),
                masked: mask_of(animation, rows, cols) is Some && animation->0.covers(row, col),
            },
        )
    } else {
        None
    }
}

/// Whether a frame is all that is drawn for the grid when there is room for so many
/// rows and columns.
pub open spec fn shows<S>(
    frame: Frame,
    ui: UiView,
    animation: Option<AnimationView<S>>,
    cursor_shown: bool,
    room_rows: int,
    room_cols: int,
) -> bool {
    let rows = least(ui.grid.height as int, room_rows);
    let cols = least(ui.grid.width as int, room_cols);
    &&& all_paint(frame.still@, ui, still_strips(ui.grid, animation, cols, rows as nat))
    &&& match mask_of(animation, rows, cols) {
        Some(mask) => {
            &&& frame.scroll is Some
            &&& frame.scroll->0.mask == mask
            &&& all_paint(
                frame.scroll->0.strips@,
                ui,
                moving_strips(ui.grid, animation, cols, rows as nat) + trailing_strips(
                    animation->0,
                    cols,
                    animation->0.trailing.len(),
                ),
            )
        },
        None => frame.scroll is None,
    }
    &&& frame.cursor == cursor_of(ui, animation, cursor_shown, rows, cols)
}

/// Works out all that is drawn for the grid when there is room for so many rows
/// and columns.
pub fn frame<S>(
    ui: &Ui,
    animation: &Option<ScrollAnimation<S>>,
    cursor_shown: bool,
    room_rows: usize,
    room_cols: usize,
) -> (frame: Frame)
    requires
        ui.wf(),
        scrolling::animation_wf(*animation),
    ensures
        shows(
            frame,
            ui@,
            scrolling::animation_view(*animation),
            cursor_shown,
            room_rows as int,
            room_cols as int,
        ),
{
    let ghost moving = scrolling::animation_view(*animation);
    let rows: usize = lesser(ui.grid.height, room_rows);
    let cols: usize = lesser(ui.grid.width, room_cols);
    let mut still: Vec<Strip> = Vec::new();
    let mut strips: Vec<Strip> = Vec::new();
    let mut row: usize = 0;
    while row < rows
        invariant
            ui.wf(),
            moving == scrolling::animation_view(*animation),
            row <= rows <= ui.grid.height,
            cols <= ui.grid.width,
            all_paint(still@, ui@, still_strips(ui@.grid, moving, cols as int, row as nat)),
            all_paint(strips@, ui@, moving_strips(ui@.grid, moving, cols as int, row as nat)),
        decreases rows - row,
    {
        let place: i128 = row as i128;
        let ghost cells = ui@.grid.rows[row as int];
        let cut: Option<(usize, usize)> = match animation {
            Some(region) => {
                let left: usize = lesser(region.left, cols);
                let right: usize = lesser(region.right, cols);
                if row >= region.top && row < region.bottom && left < right {
                    Some((left, right))
                } else {
                    None
                }
            },
            None => None,
        };
        match cut {
            Some((left, right)) => {
                still.push(paint_cells(ui, ui.grid.row_part(row, 0, left), place, 0));
                strips.push(paint_cells(ui, ui.grid.row_part(row, left, right), place, left));
                still.push(paint_cells(ui, ui.grid.row_part(row, right, cols), place, right));
            },
            None => {
                still.push(paint_cells(ui, ui.grid.row_part(row, 0, cols), place, 0));
            },
        }
        row += 1;
    }
    let scroll = match animation {
        Some(region) => {
            let mask = CellRect {
                top: lesser(region.top, rows),
                bottom: lesser(region.bottom, rows),
                left: lesser(region.left, cols),
                right: lesser(region.right, cols),
            };
            if mask.top < mask.bottom && mask.left < mask.right {
                let ghost before = moving_strips(ui@.grid, moving, cols as int, rows as nat);
                let ghost trailing = trailing_strips(moving->0, cols as int, 0);
                assert(before + trailing =~= before);
                let mut index: usize = 0;
                while index < region.trailing.len()
                    invariant
                        moving == Some(region@),
                        region@.wf(),
                        index <= region.trailing@.len(),
                        mask.left < mask.right,
                        mask.left == least(region.left as int, cols as int),
                        mask.right == least(region.right as int, cols as int),
                        all_paint(
                            strips@,
                            ui@,
                            before + trailing_strips(region@, cols as int, index as nat),
                        ),
                    decreases region.trailing@.len() - index,
                {
                    let place: i128 = if region.direction > 0 {
                        region.top as i128 + index as i128 - region.trailing.len() as i128
                    } else {
                        region.bottom as i128 + index as i128
                    };
                    let cells = &region.trailing[index];
                    assert(grid::cells_view(cells@) == region@.trailing[index as int]);
                    let part: &[Cell] = vstd::slice::slice_subrange(
                        cells.as_slice(),
                        0,
                        mask.right - mask.left,
                    );
                    assert(grid::cells_view(part@) =~= region@.trailing[index as int].subrange(
                        0,
                        mask.right - mask.left,
                    ));
                    strips.push(paint_cells(ui, part, place, mask.left));
                    index += 1;
                }
                Some(ScrollLayer { mask, strips })
            } else {
                None
            }
        },
        None => None,
    };
    let cursor_row: usize = ui.grid.cursor_row;
    let cursor_col: usize = ui.grid.cursor_col;
    let cursor = if cursor_shown && !ui.busy && cursor_row < rows && cursor_col < cols {
        let inside = match animation {
            Some(region) => region.contains(cursor_row, cursor_col),
            None => false,
        };
        Some(CursorPaint { color: ui.cursor_color(), masked: inside && scroll.is_some() })
    } else {
        None
    };
    Frame { still, scroll, cursor }
}

impl StripView {
    /// Whether a cell is among those of the strip.
    pub open spec fn has(self, row: int, col: int) -> bool {
        self.row == row && self.start_col <= col < self.start_col + self.cells.len()
    }

    /// Whether the strip shows cells of a grid at their place.
    pub open spec fn shows_part_of(self, grid: GridView) -> bool {
        &&& 0 <= self.row < grid.height
        &&& 0 <= self.start_col
        &&& self.start_col + self.cells.len() <= grid.width
        &&& self.cells == grid.rows[self.row].subrange(
            self.start_col,
            self.start_col + self.cells.len(),
        )
    }
}

/// How many strips of a list have a cell.
pub open spec fn times_drawn(strips: Seq<StripView>, row: int, col: int) -> nat
    decreases strips.len(),
{
    if strips.len() == 0 {
        0
    } else {
        times_drawn(strips.drop_last(), row, col) + if strips.last().has(row, col) {
            1nat
        } else {
            0nat
        }
    }
}

proof fn lemma_one_strip_more(strips: Seq<StripView>, strip: StripView, row: int, col: int)
    ensures
        times_drawn(strips.push(strip), row, col) == times_drawn(strips, row, col) + if strip.has(
            row,
            col,
        ) {
            1nat
        } else {
            0nat
        },
{
    assert(strips.push(strip).drop_last() =~= strips);
}

proof fn lemma_drawn_once<S>(
    grid: GridView,
    animation: Option<AnimationView<S>>,
    cols: int,
    n: nat,
    row: int,
    col: int,
)
    requires
        grid.wf(),
        n <= grid.height,
        0 <= cols <= grid.width,
        0 <= row,
        0 <= col < cols,
    ensures
        times_drawn(still_strips(grid, animation, cols, n), row, col) + times_drawn(
            moving_strips(grid, animation, cols, n),
            row,
            col,
        ) == if row < n {
            1nat
        } else {
            0nat
        },
        forall|i: int|
            0 <= i < still_strips(grid, animation, cols, n).len() ==> (#[trigger] still_strips(
                grid,
                animation,
                cols,
                n,
            )[i]).shows_part_of(grid),
        forall|i: int|
            0 <= i < moving_strips(grid, animation, cols, n).len() ==> (#[trigger] moving_strips(
                grid,
                animation,
                cols,
                n,
            )[i]).shows_part_of(grid),
    decreases n,
{
    if n > 0 {
        let m = (n - 1) as nat;
        lemma_drawn_once(grid, animation, cols, m, row, col);
        let still = still_strips(grid, animation, cols, m);
        let moving = moving_strips(grid, animation, cols, m);
        let cells = grid.rows[m as int];
        let all_still = still_strips(grid, animation, cols, n);
        let all_moving = moving_strips(grid, animation, cols, n);
        match moving_in_row(animation, m as int, cols) {
            Some((left, right)) => {
                let first = StripView { row: m as int, start_col: 0, cells: cells.subrange(0, left) };
                let last = StripView {
                    row: m as int,
                    start_col: right,
                    cells: cells.subrange(right, cols),
                };
                let middle = StripView {
                    row: m as int,
                    start_col: left,
                    cells: cells.subrange(left, right),
                };
                lemma_one_strip_more(still, first, row, col);
                lemma_one_strip_more(still.push(first), last, row, col);
                lemma_one_strip_more(moving, middle, row, col);
                assert(first.shows_part_of(grid));
                assert(middle.shows_part_of(grid));
                assert(last.shows_part_of(grid));
                assert forall|i: int| 0 <= i < all_still.len() implies (
                #[trigger] all_still[i]).shows_part_of(grid) by {
                    if i < still.len() {
                        assert(all_still[i] == still[i]);
                    }
                }
                assert forall|i: int| 0 <= i < all_moving.len() implies (
                #[trigger] all_moving[i]).shows_part_of(grid) by {
                    if i < moving.len() {
                        assert(all_moving[i] == moving[i]);
                    }
                }
            },
            None => {
                let whole = StripView { row: m as int, start_col: 0, cells: cells.subrange(0, cols) };
                lemma_one_strip_more(still, whole, row, col);
                assert(whole.shows_part_of(grid));
                assert forall|i: int| 0 <= i < all_still.len() implies (
                #[trigger] all_still[i]).shows_part_of(grid) by {
                    if i < still.len() {
                        assert(all_still[i] == still[i]);
                    }
                }
            },
        }
    }
}

/// Every cell in view is drawn once, with the cells that stand still or with those that
/// move, and at its own place but for the move.
pub proof fn law_every_cell_is_drawn_once<S>(
    grid: GridView,
    animation: Option<AnimationView<S>>,
    rows: int,
    cols: int,
    row: int,
    col: int,
)
    requires
        grid.wf(),
        0 <= row < rows <= grid.height,
        0 <= col < cols <= grid.width,
    ensures
        times_drawn(still_strips(grid, animation, cols, rows as nat), row, col) + times_drawn(
            moving_strips(grid, animation, cols, rows as nat),
            row,
            col,
        ) == 1,
        forall|i: int|
            0 <= i < still_strips(grid, animation, cols, rows as nat).len() ==> (
            #[trigger] still_strips(grid, animation, cols, rows as nat)[i]).shows_part_of(grid),
        forall|i: int|
            0 <= i < moving_strips(grid, animation, cols, rows as nat).len() ==> (
            #[trigger] moving_strips(grid, animation, cols, rows as nat)[i]).shows_part_of(grid),
{
    lemma_drawn_once(grid, animation, cols, rows as nat, row, col);
}

/// Text is drawn in the colours of its highlight, in the default ones where that gives
/// none, and with text and background swapped where it says so. Any straight underline is
/// an underline, and everything else is as the highlight says.
pub proof fn law_highlights_are_drawn_as_defined(ui: UiView, id: u64)
    ensures
        ({
            let drawn = ui.resolved(id);
            if ui.highlights.contains_key(id) {
                let defined = ui.highlights[id];
                let text = if defined.reverse {
                    drawn.background
                } else {
                    drawn.foreground
                };
                let behind = if defined.reverse {
                    drawn.foreground
                } else {
                    drawn.background
                };
                &&& defined.foreground is Some ==> Some(text) == defined.foreground
                &&& defined.foreground is None ==> text == ui.default_foreground
                &&& defined.background is Some ==> Some(behind) == defined.background
                &&& defined.background is None ==> behind == ui.default_background
                &&& defined.special is Some ==> Some(drawn.special) == defined.special
                &&& defined.special is None ==> drawn.special == ui.default_special
                &&& !drawn.underline <==> !defined.underline && !defined.underdouble
                    && !defined.underdotted && !defined.underdashed
                &&& drawn.bold == defined.bold
                &&& drawn.italic == defined.italic
                &&& drawn.undercurl == defined.undercurl
                &&& drawn.strikethrough == defined.strikethrough
                &&& drawn.dim == defined.dim
                &&& drawn.blend == defined.blend
            } else {
                &&& drawn.foreground == ui.default_foreground
                &&& drawn.background == ui.default_background
                &&& drawn.special == ui.default_special
                &&& !drawn.underline && !drawn.bold && !drawn.italic && !drawn.undercurl
                &&& !drawn.strikethrough && !drawn.dim && drawn.blend == 0
            }
        }),
{
}

proof fn lemma_run_at(runs: Seq<BackgroundRun>, n: int, c: int)
    requires
        0 < n <= runs.len(),
        runs[0].start == 0,
        forall|i: int, j: int|
            0 <= i && j == i + 1 && j < runs.len() ==> (#[trigger] runs[i]).end == (
            #[trigger] runs[j]).start,
        0 <= c < runs[n - 1].end,
    ensures
        exists|i: int| 0 <= i < n && (#[trigger] runs[i]).start <= c < runs[i].end,
    decreases n,
{
    if n > 1 && c < runs[n - 1].start {
        assert(runs[n - 2].end == runs[n - 1].start);
        lemma_run_at(runs, n - 1, c);
    } else {
        assert(runs[n - 1].start <= c < runs[n - 1].end);
    }
}

proof fn lemma_runs_ascend(runs: Seq<BackgroundRun>, i: int, j: int)
    requires
        0 <= i < j < runs.len(),
        forall|k: int| 0 <= k < runs.len() ==> (#[trigger] runs[k]).start < runs[k].end,
        forall|k: int, l: int|
            0 <= k && l == k + 1 && l < runs.len() ==> (#[trigger] runs[k]).end == (
            #[trigger] runs[l]).start,
    ensures
        runs[i].end <= runs[j].start,
    decreases j - i,
{
    if i + 1 < j {
        lemma_runs_ascend(runs, i, j - 1);
        assert(runs[j - 1].end == runs[j].start);
    } else {
        assert(runs[i].end == runs[j].start);
    }
}

/// Every cell has exactly one background under it, of its own colour and blend, and two
/// backgrounds side by side differ.
pub proof fn law_every_cell_has_its_background(
    runs: Seq<BackgroundRun>,
    highlights: Seq<ResolvedHighlight>,
    c: int,
)
    requires
        covered_by(runs, highlights, highlights.len() as int),
        0 <= c < highlights.len(),
    ensures
        exists|i: int|
            {
                &&& 0 <= i < runs.len()
                &&& (#[trigger] runs[i]).start <= c < runs[i].end
                &&& runs[i].color == highlights[c].background
                &&& runs[i].blend == highlights[c].blend
            },
        forall|i: int, j: int|
            0 <= i < j < runs.len() && (#[trigger] runs[i]).start <= c < runs[i].end ==> !((
            #[trigger] runs[j]).start <= c < runs[j].end),
        forall|i: int, j: int|
            0 <= i && j == i + 1 && j < runs.len() ==> (#[trigger] runs[i]).color != (
            #[trigger] runs[j]).color || runs[i].blend != runs[j].blend,
{
    lemma_run_at(runs, runs.len() as int, c);
    let i = choose|i: int| 0 <= i < runs.len() && (#[trigger] runs[i]).start <= c < runs[i].end;
    assert(runs[i].matches(highlights[c]));
    assert forall|i: int, j: int|
        0 <= i < j < runs.len() && (#[trigger] runs[i]).start <= c < runs[i].end implies !((
    #[trigger] runs[j]).start <= c < runs[j].end) by {
        lemma_runs_ascend(runs, i, j);
    }
    assert forall|i: int, j: int| 0 <= i && j == i + 1 && j < runs.len() implies (
    #[trigger] runs[i]).color != (#[trigger] runs[j]).color || runs[i].blend != runs[j].blend by {
        assert(runs[i].end == runs[j].start);
        assert(runs[j].matches(highlights[runs[j].start as int]));
        assert(!runs[i].matches(highlights[runs[i].end as int]));
    }
}

proof fn lemma_moving_count<S>(
    grid: GridView,
    animation: Option<AnimationView<S>>,
    cols: int,
    n: nat,
    row: int,
    col: int,
)
    requires
        grid.wf(),
        n <= grid.height,
        0 <= cols <= grid.width,
        0 <= row,
        0 <= col < cols,
    ensures
        times_drawn(moving_strips(grid, animation, cols, n), row, col) == if row < n && (
        animation matches Some(region) && region.top <= row < region.bottom && region.left <= col
            < region.right) {
            1nat
        } else {
            0nat
        },
    decreases n,
{
    if n > 0 {
        let m = (n - 1) as nat;
        lemma_moving_count(grid, animation, cols, m, row, col);
        match moving_in_row(animation, m as int, cols) {
            Some((left, right)) => {
                let strip = StripView {
                    row: m as int,
                    start_col: left,
                    cells: grid.rows[m as int].subrange(left, right),
                };
                lemma_one_strip_more(moving_strips(grid, animation, cols, m), strip, row, col);
            },
            None => {},
        }
    }
}

/// The cells that move are those of the moving region; all others in view stand still.
pub proof fn law_cells_move_with_their_region<S>(
    grid: GridView,
    animation: Option<AnimationView<S>>,
    rows: int,
    cols: int,
    row: int,
    col: int,
)
    requires
        grid.wf(),
        0 <= row < rows <= grid.height,
        0 <= col < cols <= grid.width,
    ensures
        ({
            let moves = animation matches Some(region) && region.top <= row < region.bottom
                && region.left <= col < region.right;
            &&& times_drawn(moving_strips(grid, animation, cols, rows as nat), row, col) == if moves {
                1nat
            } else {
                0nat
            }
            &&& times_drawn(still_strips(grid, animation, cols, rows as nat), row, col) == if moves {
                0nat
            } else {
                1nat
            }
        }),
{
    lemma_moving_count(grid, animation, cols, rows as nat, row, col);
    law_every_cell_is_drawn_once(grid, animation, rows, cols, row, col);
}

/// The rows that are on their way out follow on the region without a gap, in order: above
/// it where its contents move up, and below it where they move down. Of each the columns
/// in view are drawn.
pub proof fn law_rows_move_out_at_the_edge<S>(region: AnimationView<S>, cols: int, index: int)
    requires
        region.wf(),
        0 <= index < region.trailing.len(),
        region.left < region.right,
        region.left < cols,
    ensures
        ({
            let strips = trailing_strips(region, cols, region.trailing.len());
            &&& strips.len() == region.trailing.len()
            &&& region.direction == 1 ==> strips.last().row == region.top - 1
            &&& region.direction == -1 ==> strips[0].row == region.bottom
            &&& strips[index].row == strips[0].row + index
            &&& strips[index].start_col == region.left
            &&& region.right <= cols ==> strips[index].cells == region.trailing[index]
            &&& cols < region.right ==> strips[index].cells == region.trailing[index].take(
                cols - region.left,
            )
        }),
{
    let strips = trailing_strips(region, cols, region.trailing.len());
    assert(region.trailing[index].len() == region.right - region.left);
    if region.right <= cols {
        assert(strips[index].cells =~= region.trailing[index]);
    } else {
        assert(strips[index].cells =~= region.trailing[index].take(cols - region.left));
    }
}

/// Nothing is drawn of rows that are on their way out beside the columns in view.
pub proof fn law_nothing_moves_out_of_view<S>(region: AnimationView<S>, cols: int)
    requires
        region.left >= region.right || region.left >= cols,
    ensures
        trailing_strips(region, cols, region.trailing.len()).len() == 0,
{
}

/// What moves is shown in the cells of the moving region that are in view, and in no
/// others.
pub proof fn law_moving_cells_are_masked<S>(
    animation: Option<AnimationView<S>>,
    rows: int,
    cols: int,
    row: int,
    col: int,
)
    requires
        0 <= row < rows <= usize::MAX,
        0 <= col < cols <= usize::MAX,
    ensures
        (mask_of(animation, rows, cols) matches Some(mask) && mask.top <= row < mask.bottom
            && mask.left <= col < mask.right) <==> (animation matches Some(region) && region.top
            <= row < region.bottom && region.left <= col < region.right),
        mask_of(animation, rows, cols) matches Some(mask) ==> mask.top < mask.bottom <= rows
            && mask.left < mask.right <= cols,
{
}

/// The cursor is drawn exactly when it is shown, Neovim is not busy, and its cell is in
/// view. It is in the background colour of its highlight, or else in that of text, and
/// masked exactly when it stands in the moving region.
pub proof fn law_the_cursor_is_drawn_where_it_stands<S>(
    ui: UiView,
    animation: Option<AnimationView<S>>,
    shown: bool,
    rows: int,
    cols: int,
)
    requires
        0 <= rows <= usize::MAX,
        0 <= cols <= usize::MAX,
    ensures
        ({
            let row = ui.grid.cursor_row as int;
            let col = ui.grid.cursor_col as int;
            let cursor = cursor_of(ui, animation, shown, rows, cols);
            &&& cursor is Some <==> shown && !ui.busy && row < rows && col < cols
            &&& cursor matches Some(paint) ==> {
                &&& ui.cursor().attr_id == 0 ==> paint.color == ui.default_foreground
                &&& ui.cursor().attr_id != 0 ==> paint.color == ui.resolved(
                    ui.cursor().attr_id,
                ).background
                &&& paint.masked <==> (animation matches Some(region) && region.top <= row
                    < region.bottom && region.left <= col < region.right)
            }
        }),
{
}

proof fn lemma_separator_char(c: char)
    ensures
        match c as u32 {
            0xe0b0 => separator_of(seq![c]) == Some(PowerlineSeparator::HardRight),
            0xe0b1 => separator_of(seq![c]) == Some(PowerlineSeparator::SoftRight),
            0xe0b2 => separator_of(seq![c]) == Some(PowerlineSeparator::HardLeft),
            0xe0b3 => separator_of(seq![c]) == Some(PowerlineSeparator::SoftLeft),
            0xe0ba => separator_of(seq![c]) == Some(PowerlineSeparator::AngledLower),
            0xe0bb => separator_of(seq![c]) == Some(PowerlineSeparator::AngledThin),
            0xe0bc => separator_of(seq![c]) == Some(PowerlineSeparator::AngledUpper),
            0xe0bd => separator_of(seq![c]) == Some(PowerlineSeparator::AngledThin),
            _ => separator_of(seq![c]) is None,
        },
{
}

/// A cell is drawn as a separator where it holds one of the eight characters of powerline
/// status lines and nothing else.
pub proof fn law_separators_are_told_by_their_character(text: Seq<char>)
    ensures
        separator_of(text) is Some ==> text.len() == 1,
        text.len() == 1 ==> match text[0] as u32 {
            0xe0b0 => separator_of(text) == Some(PowerlineSeparator::HardRight),
            0xe0b1 => separator_of(text) == Some(PowerlineSeparator::SoftRight),
            0xe0b2 => separator_of(text) == Some(PowerlineSeparator::HardLeft),
            0xe0b3 => separator_of(text) == Some(PowerlineSeparator::SoftLeft),
            0xe0ba => separator_of(text) == Some(PowerlineSeparator::AngledLower),
            0xe0bb => separator_of(text) == Some(PowerlineSeparator::AngledThin),
            0xe0bc => separator_of(text) == Some(PowerlineSeparator::AngledUpper),
            0xe0bd => separator_of(text) == Some(PowerlineSeparator::AngledThin),
            _ => separator_of(text) is None,
        },
{
    if text.len() == 1 {
        lemma_separator_char(text[0]);
        assert(text =~= seq![text[0]]);
    }
}

/// A place seen in a mirror.
pub open spec fn mirrored(place: Across) -> Across {
    match place {
        Across::BeforeLeft => Across::BeyondRight,
        Across::Left => Across::Right,
        Across::Right => Across::Left,
        Across::BeyondRight => Across::BeforeLeft,
    }
}

/// A place in the cell itself: without the overlap with the next one.
pub open spec fn without_overlap(place: Across) -> Across {
    match place {
        Across::BeforeLeft => Across::Left,
        Across::BeyondRight => Across::Right,
        _ => place,
    }
}

/// Separators to the left are those to the right in a mirror. The soft ones have the corners
/// of the hard ones, without the overlap, and are not filled. The angled ones share the line
/// from the bottom left to the top right.
pub proof fn law_separators_mirror_each_other(i: int)
    requires
        0 <= i < 3,
    ensures
        ({
            let hard_right = separator_points(PowerlineSeparator::HardRight);
            let hard_left = separator_points(PowerlineSeparator::HardLeft);
            let soft_right = separator_points(PowerlineSeparator::SoftRight);
            let soft_left = separator_points(PowerlineSeparator::SoftLeft);
            let upper = separator_points(PowerlineSeparator::AngledUpper);
            let lower = separator_points(PowerlineSeparator::AngledLower);
            let thin = separator_points(PowerlineSeparator::AngledThin);
            &&& hard_right.len() == 3 && hard_left.len() == 3
            &&& soft_right.len() == 3 && soft_left.len() == 3
            &&& hard_right[0] == (Across::BeforeLeft, Down::Top)
            &&& hard_right[1] == (Across::Right, Down::Middle)
            &&& hard_right[2] == (Across::BeforeLeft, Down::Bottom)
            &&& hard_left[i] == (mirrored(hard_right[i].0), hard_right[i].1)
            &&& soft_left[i] == (mirrored(soft_right[i].0), soft_right[i].1)
            &&& soft_right[i] == (without_overlap(hard_right[i].0), hard_right[i].1)
            &&& thin == seq![(Across::Left, Down::Bottom), (Across::Right, Down::Top)]
            &&& upper == seq![
                (Across::BeforeLeft, Down::Top),
                thin[1],
                (Across::BeforeLeft, Down::Bottom),
            ]
            &&& lower == seq![
                (Across::BeyondRight, Down::Top),
                (Across::BeyondRight, Down::Bottom),
                thin[0],
            ]
        }),
        !is_thin(PowerlineSeparator::HardRight) && !is_thin(PowerlineSeparator::HardLeft),
        !is_thin(PowerlineSeparator::AngledUpper) && !is_thin(PowerlineSeparator::AngledLower),
        is_thin(PowerlineSeparator::SoftRight) && is_thin(PowerlineSeparator::SoftLeft),
        is_thin(PowerlineSeparator::AngledThin),
{
}

/// Each cell is drawn in its own highlight.
pub proof fn law_cells_look_as_their_highlights(ui: UiView, cells: Seq<CellView>, index: int)
    requires
        0 <= index < cells.len(),
    ensures
        looks(ui, cells).len() == cells.len(),
        looks(ui, cells)[index] == ui.resolved(cells[index].highlight),
{
}

proof fn lemma_strip_with_cell(strips: Seq<StripView>, row: int, col: int)
    requires
        times_drawn(strips, row, col) > 0,
    ensures
        exists|i: int| 0 <= i < strips.len() && (#[trigger] strips[i]).has(row, col),
    decreases strips.len(),
{
    if strips.last().has(row, col) {
        assert(strips[strips.len() - 1].has(row, col));
    } else {
        lemma_strip_with_cell(strips.drop_last(), row, col);
        let i = choose|i: int|
            0 <= i < strips.drop_last().len() && (#[trigger] strips.drop_last()[i]).has(row, col);
        assert(strips[i].has(row, col));
    }
}

/// Whether strips draw a cell of a grid: one of them is of neighbouring cells of the grid, at
/// their place, with the background and the glyphs of those cells, and the cell is among them.
pub open spec fn strips_draw(strips: Seq<Strip>, ui: UiView, row: int, col: int) -> bool {
    exists|i: int, part: StripView|
        {
            &&& 0 <= i < strips.len()
            &&& part.row == row
            &&& 0 <= part.start_col <= col < part.start_col + part.cells.len()
            &&& part.start_col + part.cells.len() <= ui.grid.width
            &&& part.cells == ui.grid.rows[row].subrange(
                part.start_col,
                part.start_col + part.cells.len(),
            )
            &&& strips[i].row == row
            &&& strips[i].start_col == part.start_col
            &&& #[trigger] strips[i].paints(ui, part)
        }
}

/// A frame draws every cell of the grid that there is room for: with those that stand still,
/// or with those that move if it is in the moving region. What moves is masked by the region.
pub proof fn law_frames_draw_every_cell<S>(
    frame: Frame,
    ui: UiView,
    animation: Option<AnimationView<S>>,
    cursor_shown: bool,
    room_rows: int,
    room_cols: int,
    row: int,
    col: int,
)
    requires
        ui.grid.wf(),
        shows(frame, ui, animation, cursor_shown, room_rows, room_cols),
        0 <= row < ui.grid.height,
        row < room_rows <= usize::MAX,
        0 <= col < ui.grid.width,
        col < room_cols <= usize::MAX,
    ensures
        ({
            let moves = animation matches Some(region) && region.top <= row < region.bottom
                && region.left <= col < region.right;
            &&& !moves ==> strips_draw(frame.still@, ui, row, col)
            &&& moves ==> frame.scroll is Some && strips_draw(
                frame.scroll->0.strips@,
                ui,
                row,
                col,
            ) && frame.scroll->0.mask.top <= row < frame.scroll->0.mask.bottom
                && frame.scroll->0.mask.left <= col < frame.scroll->0.mask.right
            &&& ui.grid.cursor_row == row && ui.grid.cursor_col == col ==> (frame.cursor is Some <==>
                cursor_shown && !ui.busy)
        }),
{
    let rows = least(ui.grid.height as int, room_rows);
    let cols = least(ui.grid.width as int, room_cols);
    law_every_cell_is_drawn_once(ui.grid, animation, rows, cols, row, col);
    law_cells_move_with_their_region(ui.grid, animation, rows, cols, row, col);
    law_moving_cells_are_masked(animation, rows, cols, row, col);
    let still = still_strips(ui.grid, animation, cols, rows as nat);
    let moving = moving_strips(ui.grid, animation, cols, rows as nat);
    let moves = animation matches Some(region) && region.top <= row < region.bottom && region.left
        <= col < region.right;
    if moves {
        lemma_strip_with_cell(moving, row, col);
        let i = choose|i: int| 0 <= i < moving.len() && (#[trigger] moving[i]).has(row, col);
        assert(moving[i].shows_part_of(ui.grid));
        let plan = moving + trailing_strips(animation->0, cols, animation->0.trailing.len());
        assert(plan[i] == moving[i]);
        let strips = frame.scroll->0.strips@;
        assert(strips[i].paints(ui, plan[i]));
        assert(strips[i].paints(ui, moving[i]));
    } else {
        lemma_strip_with_cell(still, row, col);
        let i = choose|i: int| 0 <= i < still.len() && (#[trigger] still[i]).has(row, col);
        assert(still[i].shows_part_of(ui.grid));
        assert(frame.still@[i].paints(ui, still[i]));
    }
}

/// A strip is drawn in its row and from its column on, with the backgrounds and the glyphs of
/// its cells, each in its own highlight.
pub proof fn law_strips_are_painted_as_they_are(strip: Strip, ui: UiView, part: StripView)
    requires
        strip.paints(ui, part),
    ensures
        ({
            let highlights = Seq::new(
                part.cells.len(),
                |c: int| ui.resolved(part.cells[c].highlight),
            );
            &&& strip.row == part.row
            &&& strip.start_col == part.start_col
            &&& covered_by(strip.backgrounds@, highlights, part.cells.len() as int)
            &&& glyphs_view(strip.glyphs@) == glyphs_to(
                part.cells,
                highlights,
                part.cells.len(),
            ).all()
        }),
{
    let highlights = Seq::new(part.cells.len(), |c: int| ui.resolved(part.cells[c].highlight));
    assert(highlights =~= looks(ui, part.cells));
}

/// What stands still in a frame is cells of the grid at their place, and in view.
pub proof fn law_frames_draw_nothing_else<S>(
    frame: Frame,
    ui: UiView,
    animation: Option<AnimationView<S>>,
    cursor_shown: bool,
    room_rows: int,
    room_cols: int,
    index: int,
)
    requires
        ui.grid.wf(),
        shows(frame, ui, animation, cursor_shown, room_rows, room_cols),
        0 < room_rows <= usize::MAX,
        0 < room_cols <= usize::MAX,
        ui.grid.height > 0,
        ui.grid.width > 0,
        0 <= index < frame.still@.len(),
    ensures
        exists|part: StripView| #[trigger]
            frame.still@[index].paints(ui, part) && 0 <= part.row < ui.grid.height && 0
                <= part.start_col && part.start_col + part.cells.len() <= ui.grid.width
                && part.cells == ui.grid.rows[part.row].subrange(
                part.start_col,
                part.start_col + part.cells.len(),
            ),
        animation is None ==> frame.scroll is None,
{
    let rows = least(ui.grid.height as int, room_rows);
    let cols = least(ui.grid.width as int, room_cols);
    law_every_cell_is_drawn_once(ui.grid, animation, rows, cols, 0, 0);
    let still = still_strips(ui.grid, animation, cols, rows as nat);
    assert(still[index].shows_part_of(ui.grid));
    assert(frame.still@[index].paints(ui, still[index]));
}

/// Of a region that moves in view, the rows on their way out are drawn too: next to it, above
/// where its contents move up and below where they move down, and as wide as it is in view.
pub proof fn law_frames_draw_what_moves_out<S>(
    frame: Frame,
    ui: UiView,
    region: AnimationView<S>,
    cursor_shown: bool,
    room_rows: int,
    room_cols: int,
    index: int,
)
    requires
        ui.grid.wf(),
        region.wf(),
        shows(frame, ui, Some(region), cursor_shown, room_rows, room_cols),
        0 < room_rows <= usize::MAX,
        0 < room_cols <= usize::MAX,
        region.top < region.bottom,
        region.left < region.right,
        region.top < room_rows && region.top < ui.grid.height,
        region.left < room_cols && region.left < ui.grid.width,
        0 <= index < region.trailing.len(),
    ensures
        exists|i: int, part: StripView|
            {
                &&& frame.scroll is Some
                &&& 0 <= i < frame.scroll->0.strips@.len()
                &&& #[trigger] frame.scroll->0.strips@[i].paints(ui, part)
                &&& part.row == if region.direction == 1 {
                    region.top - region.trailing.len() + index
                } else {
                    region.bottom + index
                }
                &&& part.start_col == region.left
                &&& region.right <= room_cols && region.right <= ui.grid.width ==> part.cells
                    == region.trailing[index]
                &&& part.cells == region.trailing[index].take(part.cells.len() as int)
                &&& part.start_col + part.cells.len() <= room_cols
                &&& part.start_col + part.cells.len() == region.right || part.start_col
                    + part.cells.len() == room_cols || part.start_col + part.cells.len()
                    == ui.grid.width
            },
{
    let rows = least(ui.grid.height as int, room_rows);
    let cols = least(ui.grid.width as int, room_cols);
    let moving = moving_strips(ui.grid, Some(region), cols, rows as nat);
    let trailing = trailing_strips(region, cols, region.trailing.len());
    let plan = moving + trailing;
    law_rows_move_out_at_the_edge(region, cols, index);
    assert(region.trailing[index].len() == region.right - region.left);
    let i = moving.len() + index;
    let part = trailing[index];
    assert(plan[i] == part);
    assert(mask_of(Some(region), rows, cols) is Some);
    assert(frame.scroll->0.strips@[i].paints(ui, plan[i]));
    assert(part.cells =~= region.trailing[index].take(part.cells.len() as int));
}

} // verus!
