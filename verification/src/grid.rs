//! The cell buffer of the grid that Neovim draws on.

use crate::text;
use crate::text::CellText;
use crate::value;
use crate::value::Value;
use vstd::prelude::*;

verus! {

/// One cell of the grid: a grapheme and the highlight it is drawn with.
#[derive(Debug, PartialEq, Eq)]
pub struct Cell {
    // Inline storage: almost every cell is one grapheme, and cells are written,
    // moved, and blanked in bulk on every resize and scroll.
    pub text: CellText,
    pub highlight: u64,
}

/// What a cell holds.
#[verifier::ext_equal]
pub struct CellView {
    pub text: Seq<char>,
    pub highlight: u64,
}

impl View for Cell {
    type V = CellView;

    open spec fn view(&self) -> CellView {
        CellView { text: text::cell_chars(self.text), highlight: self.highlight }
    }
}

impl Cell {
    /// A cell with a text in a highlight.
    pub fn new(text: &str, highlight: u64) -> (cell: Self)
        ensures
            cell@ == (CellView { text: text@, highlight }),
    {
        Cell { text: CellText::copied(text), highlight }
    }

    /// The text of the cell.
    pub fn as_str(&self) -> (text: &str)
        ensures
            text@ == self@.text,
    {
        self.text.lent()
    }
}

impl Clone for Cell {
    fn clone(&self) -> (copy: Self)
        ensures
            copy@ == self@,
    {
        Cell { text: self.text.duplicate(), highlight: self.highlight }
    }
}

/// A space in the default highlight.
pub open spec fn blank() -> CellView {
    CellView { text: seq![' '], highlight: 0 }
}

impl Default for Cell {
    fn default() -> (cell: Self)
        ensures
            cell@ == blank(),
    {
        proof {
            reveal_strlit(" ");
        }
        let cell = Cell { text: CellText::literal(" "), highlight: 0 };
        assert(cell@.text =~= seq![' ']);
        cell
    }
}

/// A part of the grid that moved by whole rows, with the cells that moved out
/// of it.
#[derive(Clone, Debug, PartialEq, Eq)]
pub struct ScrollRecord {
    pub top: usize,
    pub bottom: usize,
    pub left: usize,
    pub right: usize,
    /// Rows by which the contents moved up; negative where they moved down.
    pub rows: i64,
    pub evicted: Vec<Vec<Cell>>,
}

/// The contents of a list of cells.
pub open spec fn cells_view(cells: Seq<Cell>) -> Seq<CellView> {
    Seq::new(cells.len(), |c: int| cells[c]@)
}

/// The contents of a list of rows of cells.
pub open spec fn rows_view(rows: Seq<Vec<Cell>>) -> Seq<Seq<CellView>> {
    Seq::new(rows.len(), |r: int| cells_view(rows[r]@))
}

/// What a scroll record holds.
#[verifier::ext_equal]
pub struct ScrollView {
    pub top: usize,
    pub bottom: usize,
    pub left: usize,
    pub right: usize,
    pub rows: i64,
    pub evicted: Seq<Seq<CellView>>,
}

impl View for ScrollRecord {
    type V = ScrollView;

    open spec fn view(&self) -> ScrollView {
        ScrollView {
            top: self.top,
            bottom: self.bottom,
            left: self.left,
            right: self.right,
            rows: self.rows,
            evicted: rows_view(self.evicted@),
        }
    }
}

/// The cell buffer of a single grid, row by row.
#[derive(Clone, Debug)]
pub struct Grid {
    pub width: usize,
    pub height: usize,
    pub cells: Vec<Cell>,
    pub cursor_row: usize,
    pub cursor_col: usize,
}

/// What a grid shows: its rows of cells and where the cursor stands.
#[verifier::ext_equal]
pub struct GridView {
    pub width: usize,
    pub height: usize,
    pub rows: Seq<Seq<CellView>>,
    pub cursor_row: usize,
    pub cursor_col: usize,
}

/// The rows that a buffer of cells is made of.
pub open spec fn buffer_rows(width: nat, height: nat, cells: Seq<Cell>) -> Seq<Seq<CellView>> {
    Seq::new(height, |r: int| Seq::new(width, |c: int| cells[r * width + c]@))
}

impl View for Grid {
    type V = GridView;

    open spec fn view(&self) -> GridView {
        GridView {
            width: self.width,
            height: self.height,
            rows: buffer_rows(self.width as nat, self.height as nat, self.cells@),
            cursor_row: self.cursor_row,
            cursor_col: self.cursor_col,
        }
    }
}

/// A row in which every cell is the same.
pub open spec fn uniform(width: nat, cell: CellView) -> Seq<CellView> {
    Seq::new(width, |c: int| cell)
}

impl GridView {
    /// Whether there are as many rows, and cells in each, as the size says.
    pub open spec fn wf(self) -> bool {
        &&& self.rows.len() == self.height
        &&& forall|r: int| 0 <= r < self.height ==> (#[trigger] self.rows[r]).len() == self.width
    }

    /// The grid with each cell given by a function of its row and column.
    pub open spec fn with_cells(self, cell: spec_fn(int, int) -> CellView) -> GridView {
        GridView {
            rows: Seq::new(
                self.height as nat,
                |r: int| Seq::new(self.width as nat, |c: int| cell(r, c)),
            ),
            ..self
        }
    }

    /// The grid with one cell replaced.
    pub open spec fn put(self, row: int, col: int, cell: CellView) -> GridView {
        GridView { rows: self.rows.update(row, self.rows[row].update(col, cell)), ..self }
    }

    /// The grid in another size: what both sizes share stays, the rest is blank.
    pub open spec fn resized(self, width: usize, height: usize) -> GridView {
        GridView {
            width,
            height,
            rows: Seq::new(
                height as nat,
                |r: int|
                    Seq::new(
                        width as nat,
                        |c: int|
                            if r < self.height && c < self.width {
                                self.rows[r][c]
                            } else {
                                blank()
                            },
                    ),
            ),
            cursor_row: self.cursor_row,
            cursor_col: self.cursor_col,
        }
    }

    /// The grid with every cell blank.
    pub open spec fn cleared(self) -> GridView {
        self.with_cells(|r: int, c: int| blank())
    }

    /// The grid with a run of cells written over a row from a column on. What
    /// lies past the right edge is dropped.
    pub open spec fn written(self, row: int, col: int, run: Seq<CellView>) -> GridView {
        self.with_cells(
            |r: int, c: int|
                if r == row && col <= c < col + run.len() {
                    run[c - col]
                } else {
                    self.rows[r][c]
                },
        )
    }
}

/// The cells that the first items of a line event stand for, and the highlight
/// that the next item takes over where it names none.
#[verifier::ext_equal]
pub struct LineRun {
    pub cells: Seq<CellView>,
    pub highlight: u64,
}

/// What the first `n` items of a line event stand for. An item is a text, an
/// optional highlight (by default that of the item before it) and an optional
/// count of cells to fill (by default one). Anything else stands for no cell.
pub open spec fn line_run(items: Seq<Value>, n: nat) -> LineRun
    decreases n,
{
    if n == 0 {
        LineRun { cells: Seq::empty(), highlight: 0 }
    } else {
        let before = line_run(items, (n - 1) as nat);
        let parts = items[n - 1].array_value();
        if parts is Some && value::param(parts->0, 0).str_value() is Some {
            let highlight = match value::param(parts->0, 1).u64_value() {
                Some(named) => named,
                None => before.highlight,
            };
            let count: nat = match value::param(parts->0, 2).usize_value() {
                Some(given) => given as nat,
                None => 1,
            };
            let cell = CellView { text: value::param(parts->0, 0).str_value()->0, highlight };
            LineRun { cells: before.cells + uniform(count, cell), highlight }
        } else {
            before
        }
    }
}

impl GridView {
    /// The grid after a line event: its cells written from the row and column
    /// that it gives, if the grid has that row.
    pub open spec fn line(self, p: Seq<Value>) -> GridView {
        match (
            value::param(p, 1).usize_value(),
            value::param(p, 2).usize_value(),
            value::param(p, 3).array_value(),
        ) {
            (Some(row), Some(col), Some(items)) => if row < self.height {
                self.written(row as int, col as int, line_run(items, items.len()).cells)
            } else {
                self
            },
            _ => self,
        }
    }
}

/// The part of the grid that a scroll event moves, cut to the grid's size.
#[derive(Clone, Copy, Debug, PartialEq, Eq)]
pub struct ScrollRegion {
    pub top: usize,
    pub bottom: usize,
    pub left: usize,
    pub right: usize,
    pub rows: i64,
}

impl ScrollRegion {
    /// Whether the region has cells, lies in a grid of this size and moves.
    pub open spec fn wf(self, width: int, height: int) -> bool {
        &&& self.top < self.bottom <= height
        &&& self.left < self.right <= width
        &&& self.rows != 0
    }

    /// By how many rows the contents move: no further than the region is high.
    pub open spec fn shift(self) -> int {
        let distance = if self.rows < 0 {
            -self.rows
        } else {
            self.rows as int
        };
        if distance < self.bottom - self.top {
            distance
        } else {
            self.bottom - self.top
        }
    }

    /// The first of the rows whose cells move out of the region.
    pub open spec fn first_evicted(self) -> int {
        if self.rows > 0 {
            self.top as int
        } else {
            self.bottom - self.shift()
        }
    }

    /// Whether a cell is in the region.
    pub open spec fn covers(self, r: int, c: int) -> bool {
        self.top <= r < self.bottom && self.left <= c < self.right
    }

    /// Counts the rows by which the contents move.
    fn distance(&self) -> (distance: usize)
        requires
            self.top < self.bottom,
            self.rows != 0,
        ensures
            distance == self.shift(),
            0 < distance <= self.bottom - self.top,
    {
        let height: usize = self.bottom - self.top;
        let far: i128 = self.rows as i128;
        let far: i128 = if far < 0 { -far } else { far };
        if far < height as i128 {
            far as usize
        } else {
            height
        }
    }

    /// The row whose cell is at row `r` after the move.
    pub open spec fn source(self, r: int) -> int {
        if self.rows > 0 {
            r + self.shift()
        } else {
            r - self.shift()
        }
    }
}

impl GridView {
    /// The region that a scroll event moves, if it moves one. Nothing moves
    /// where the region is empty or the event asks for a move by columns, which
    /// the protocol reserves.
    pub open spec fn scroll_region(self, p: Seq<Value>) -> Option<ScrollRegion> {
        match (
            value::param(p, 1).usize_value(),
            value::param(p, 2).usize_value(),
            value::param(p, 3).usize_value(),
            value::param(p, 4).usize_value(),
            value::param(p, 5).int_value(),
            value::param(p, 6).int_value(),
        ) {
            (Some(top), Some(bottom), Some(left), Some(right), Some(rows), Some(cols)) => {
                let region = ScrollRegion {
                    top,
                    bottom: if bottom < self.height {
                        bottom
                    } else {
                        self.height
                    },
                    left,
                    right: if right < self.width {
                        right
                    } else {
                        self.width
                    },
                    rows,
                };
                if region.wf(self.width as int, self.height as int) && cols == 0 {
                    Some(region)
                } else {
                    None
                }
            },
            _ => None,
        }
    }

    /// The grid after the contents of a region moved: each cell of the region
    /// shows what was as many rows further on, blank where that is outside it.
    pub open spec fn scrolled(self, region: ScrollRegion) -> GridView {
        self.with_cells(
            |r: int, c: int|
                if !region.covers(r, c) {
                    self.rows[r][c]
                } else if region.covers(region.source(r), c) {
                    self.rows[region.source(r)][c]
                } else {
                    blank()
                },
        )
    }

    /// The cells that a move takes out of a region, top row first.
    pub open spec fn evicted(self, region: ScrollRegion) -> Seq<Seq<CellView>> {
        Seq::new(
            region.shift() as nat,
            |r: int|
                Seq::new(
                    (region.right - region.left) as nat,
                    |c: int| self.rows[region.first_evicted() + r][region.left + c],
                ),
        )
    }

    /// The record of a move.
    pub open spec fn scroll_record(self, region: ScrollRegion) -> ScrollView {
        ScrollView {
            top: region.top,
            bottom: region.bottom,
            left: region.left,
            right: region.right,
            rows: region.rows,
            evicted: self.evicted(region),
        }
    }

    /// The grid with the cells of some rows of a region blank, and in the last
    /// of them only those before a column.
    spec fn evicting(self, region: ScrollRegion, row: int, col: int) -> GridView {
        self.with_cells(
            |r: int, c: int|
                if region.covers(r, c) && region.first_evicted() <= r && (r < row || (r == row && c
                    < col)) {
                    blank()
                } else {
                    self.rows[r][c]
                },
        )
    }

    /// The grid while a region's rows move up: those before a row have moved,
    /// and of that row the cells before a column.
    spec fn moving_up(self, region: ScrollRegion, row: int, col: int) -> GridView {
        self.with_cells(
            |r: int, c: int|
                if !region.covers(r, c) {
                    self.rows[r][c]
                } else if r + region.shift() < row || (r + region.shift() == row && c < col) {
                    self.rows[r + region.shift()][c]
                } else if r < row || (r == row && c < col) {
                    blank()
                } else {
                    self.rows[r][c]
                },
        )
    }

    /// The grid while a region's rows move down: those after a row have moved,
    /// and of that row the cells before a column.
    spec fn moving_down(self, region: ScrollRegion, row: int, col: int) -> GridView {
        self.with_cells(
            |r: int, c: int|
                if !region.covers(r, c) {
                    self.rows[r][c]
                } else if r - region.shift() > row || (r - region.shift() == row && c < col) {
                    self.rows[r - region.shift()][c]
                } else if r > row || (r == row && c < col) {
                    blank()
                } else {
                    self.rows[r][c]
                },
        )
    }
}

impl Default for Grid {
    fn default() -> (grid: Self)
        ensures
            grid.wf(),
            grid.width == 0,
            grid.height == 0,
            grid.cursor_row == 0,
            grid.cursor_col == 0,
    {
        Grid { width: 0, height: 0, cells: Vec::new(), cursor_row: 0, cursor_col: 0 }
    }
}

/// A cell's place in the buffer is within it, and no other cell's place.
proof fn lemma_place(width: int, height: int, row: int, col: int)
    requires
        0 <= row < height,
        0 <= col < width,
    ensures
        0 <= row * width + col < width * height,
        0 <= row * width,
        forall|r: int, c: int|
            0 <= c < width && #[trigger] (r * width + c) == row * width + col ==> r == row && c
                == col,
{
    assert(0 <= row * width && row * width + col < width * height) by (nonlinear_arith)
        requires
            0 <= row < height,
            0 <= col < width,
    ;
    assert forall|r: int, c: int|
        0 <= c < width && #[trigger] (r * width + c) == row * width + col implies r == row && c
        == col by {
        assert(r == row) by (nonlinear_arith)
            requires
                0 <= c < width,
                0 <= col < width,
                r * width + c == row * width + col,
        ;
    }
}

impl Grid {
    /// Whether the buffer has one cell for each place of the grid.
    pub open spec fn wf(&self) -> bool {
        self.cells@.len() == self.width * self.height
    }

    /// Where the buffer holds the cell at a row and column.
    fn place(&self, row: usize, col: usize) -> (place: usize)
        requires
            self.wf(),
            row < self.height,
            col < self.width,
        ensures
            place == row * self.width + col,
            place < self.cells@.len(),
    {
        proof {
            lemma_place(self.width as int, self.height as int, row as int, col as int);
            assert(self.cells.len() <= usize::MAX);
        }
        row * self.width + col
    }

    /// The cell at a row and column, if the grid has one there.
    pub fn cell(&self, row: usize, col: usize) -> (cell: Option<&Cell>)
        requires
            self.wf(),
        ensures
            cell is Some <==> row < self.height && col < self.width,
            cell matches Some(found) ==> found@ == self@.rows[row as int][col as int],
    {
        if row < self.height && col < self.width {
            Some(&self.cells[self.place(row, col)])
        } else {
            None
        }
    }

    /// The cells of a row from one column up to another.
    pub fn row_part(&self, row: usize, from: usize, to: usize) -> (part: &[Cell])
        requires
            self.wf(),
            row < self.height,
            from <= to <= self.width,
        ensures
            cells_view(part@) == self@.rows[row as int].subrange(from as int, to as int),
    {
        if from == to {
            let part: &[Cell] = vstd::slice::slice_subrange(self.cells.as_slice(), 0, 0);
            assert(cells_view(part@) =~= self@.rows[row as int].subrange(from as int, to as int));
            return part;
        }
        let first: usize = self.place(row, from);
        let last: usize = self.place(row, to - 1);
        assert(self.cells.len() <= usize::MAX);
        let part: &[Cell] = vstd::slice::slice_subrange(self.cells.as_slice(), first, last + 1);
        assert(cells_view(part@) =~= self@.rows[row as int].subrange(from as int, to as int));
        part
    }

    fn set_cell(&mut self, row: usize, col: usize, cell: Cell)
        requires
            old(self).wf(),
            row < old(self).height,
            col < old(self).width,
        ensures
            final(self).wf(),
            final(self)@ == old(self)@.put(row as int, col as int, cell@),
    {
        let ghost before = self@;
        let place: usize = self.place(row, col);
        self.cells.set(place, cell);
        assert forall|r: int, c: int|
            0 <= r < self.height && 0 <= c < self.width implies self@.rows[r][c] == before.put(
            row as int,
            col as int,
            cell@,
        ).rows[r][c] by {
            lemma_place(self.width as int, self.height as int, r, c);
        }
        assert(self@.rows =~~= before.put(row as int, col as int, cell@).rows);
    }

    fn take_cell(&mut self, row: usize, col: usize) -> (cell: Cell)
        requires
            old(self).wf(),
            row < old(self).height,
            col < old(self).width,
        ensures
            final(self).wf(),
            cell@ == old(self)@.rows[row as int][col as int],
            final(self)@ == old(self)@.put(row as int, col as int, blank()),
    {
        let ghost before = self@;
        let place: usize = self.place(row, col);
        let mut cell = Cell::default();
        std::mem::swap(&mut cell, &mut self.cells[place]);
        assert forall|r: int, c: int|
            0 <= r < self.height && 0 <= c < self.width implies self@.rows[r][c] == before.put(
            row as int,
            col as int,
            blank(),
        ).rows[r][c] by {
            lemma_place(self.width as int, self.height as int, r, c);
        }
        assert(self@.rows =~~= before.put(row as int, col as int, blank()).rows);
        cell
    }

    /// A grid of blank cells.
    fn blank_grid(width: usize, height: usize) -> (grid: Self)
        requires
            width * height <= usize::MAX,
        ensures
            grid.wf(),
            grid.width == width,
            grid.height == height,
            grid@ == grid@.cleared(),
            grid.cursor_row == 0,
            grid.cursor_col == 0,
    {
        let total: usize = width * height;
        let mut cells: Vec<Cell> = Vec::with_capacity(total);
        while cells.len() < total
            invariant
                cells@.len() <= total,
                forall|i: int| 0 <= i < cells@.len() ==> (#[trigger] cells@[i])@ == blank(),
            decreases total - cells@.len(),
        {
            cells.push(Cell::default());
        }
        let grid = Grid { width, height, cells, cursor_row: 0, cursor_col: 0 };
        assert forall|r: int, c: int| 0 <= r < height && 0 <= c < width implies grid@.rows[r][c]
            == blank() by {
            lemma_place(width as int, height as int, r, c);
        }
        assert(grid@.rows =~~= grid@.cleared().rows);
        grid
    }

    /// Gives the grid another size. The cells that both sizes have keep their
    /// contents and their place, new cells are blank.
    pub fn resize(&mut self, width: usize, height: usize)
        requires
            old(self).wf(),
            width * height <= usize::MAX,
        ensures
            final(self).wf(),
            final(self)@ == old(self)@.resized(width, height),
    {
        let ghost before = self@;
        let mut next = Grid::blank_grid(width, height);
        next.cursor_row = self.cursor_row;
        next.cursor_col = self.cursor_col;
        let shared_rows: usize = if height < self.height { height } else { self.height };
        let shared_cols: usize = if width < self.width { width } else { self.width };
        let mut row: usize = 0;
        while row < shared_rows
            invariant
                self.wf(),
                next.wf(),
                self.width == before.width,
                self.height == before.height,
                next.width == width,
                next.height == height,
                next.cursor_row == before.cursor_row,
                next.cursor_col == before.cursor_col,
                row <= shared_rows <= height,
                shared_rows <= before.height,
                shared_cols <= width,
                shared_cols <= before.width,
                forall|r: int, c: int|
                    row <= r < shared_rows && 0 <= c < shared_cols ==> #[trigger] self@.rows[r][c]
                        == before.rows[r][c],
                forall|r: int, c: int|
                    0 <= r < height && 0 <= c < width ==> #[trigger] next@.rows[r][c] == if r < row
                        && c < shared_cols {
                        before.rows[r][c]
                    } else {
                        blank()
                    },
            decreases shared_rows - row,
        {
            let mut col: usize = 0;
            while col < shared_cols
                invariant
                    self.wf(),
                    next.wf(),
                    self.width == before.width,
                    self.height == before.height,
                    next.width == width,
                    next.height == height,
                    next.cursor_row == before.cursor_row,
                    next.cursor_col == before.cursor_col,
                    row < shared_rows <= height,
                    shared_rows <= before.height,
                    col <= shared_cols <= width,
                    shared_cols <= before.width,
                    forall|r: int, c: int|
                        row < r < shared_rows && 0 <= c < shared_cols
                            ==> #[trigger] self@.rows[r][c] == before.rows[r][c],
                    forall|c: int|
                        col <= c < shared_cols ==> #[trigger] self@.rows[row as int][c]
                            == before.rows[row as int][c],
                    forall|r: int, c: int|
                        0 <= r < height && 0 <= c < width ==> #[trigger] next@.rows[r][c] == if (r
                            < row && c < shared_cols) || (r == row && c < col) {
                            before.rows[r][c]
                        } else {
                            blank()
                        },
                decreases shared_cols - col,
            {
                let cell = self.take_cell(row, col);
                next.set_cell(row, col, cell);
                col += 1;
            }
            row += 1;
        }
        assert(next@.rows =~~= before.resized(width, height).rows);
        *self = next;
    }

    /// Makes every cell blank.
    pub fn clear(&mut self)
        requires
            old(self).wf(),
        ensures
            final(self).wf(),
            final(self)@ == old(self)@.cleared(),
    {
        let ghost before = self@;
        let mut at: usize = 0;
        while at < self.cells.len()
            invariant
                self.wf(),
                self.width == before.width,
                self.height == before.height,
                self.cursor_row == before.cursor_row,
                self.cursor_col == before.cursor_col,
                at <= self.cells@.len(),
                forall|i: int| 0 <= i < at ==> (#[trigger] self.cells@[i])@ == blank(),
            decreases self.cells@.len() - at,
        {
            self.cells.set(at, Cell::default());
            at += 1;
        }
        assert forall|r: int, c: int|
            0 <= r < self.height && 0 <= c < self.width implies self@.rows[r][c] == blank() by {
            lemma_place(self.width as int, self.height as int, r, c);
        }
        assert(self@.rows =~~= before.cleared().rows);
    }

    /// Applies a line event: writes the cells that it lists over a row.
    pub fn line(&mut self, p: &[Value])
        requires
            old(self).wf(),
        ensures
            final(self).wf(),
            final(self)@ == old(self)@.line(p@),
    {
        let ghost before = self@;
        let (row, start, items) = match (
            value::usize_at(p, 1),
            value::usize_at(p, 2),
            value::array_at(p, 3),
        ) {
            (Some(row), Some(start), Some(items)) => (row, start, items),
            _ => {
                return ;
            },
        };
        if row >= self.height {
            return ;
        }
        let mut highlight: u64 = 0;
        let mut col: usize = start;
        let mut index: usize = 0;
        assert(before.written(row as int, start as int, line_run(items@, 0).cells).rows
            =~~= before.rows);
        while index < items.len()
            invariant
                self.wf(),
                index <= items@.len(),
                self.height == before.height,
                self.width == before.width,
                row < self.height,
                before.wf(),
                highlight == line_run(items@, index as nat).highlight,
                col == start + line_run(items@, index as nat).cells.len() || (col == usize::MAX
                    && start + line_run(items@, index as nat).cells.len() >= usize::MAX),
                self@ == before.written(
                    row as int,
                    start as int,
                    line_run(items@, index as nat).cells,
                ),
            decreases items@.len() - index,
        {
            let ghost run = line_run(items@, index as nat);
            let parts = match items[index].as_array() {
                Some(parts) => parts,
                None => {
                    index += 1;
                    continue ;
                },
            };
            let text = match value::str_at(parts, 0) {
                Some(text) => text,
                None => {
                    index += 1;
                    continue ;
                },
            };
            if let Some(named) = value::u64_at(parts, 1) {
                highlight = named;
            }
            let count: usize = match value::usize_at(parts, 2) {
                Some(given) => given,
                None => 1,
            };
            let end: usize = col.saturating_add(count);
            let ghost cell = CellView { text: text@, highlight };
            assert(run.cells + uniform(0, cell) =~= run.cells);
            let mut at: usize = col;
            while at < end && at < self.width
                invariant
                    self.wf(),
                    self.height == before.height,
                    self.width == before.width,
                    before.wf(),
                    row < self.height,
                    col <= at <= end,
                    cell == (CellView { text: text@, highlight }),
                    at < self.width ==> col == start + run.cells.len(),
                    self@ == before.written(
                        row as int,
                        start as int,
                        run.cells + uniform((at - col) as nat, cell),
                    ),
                decreases end - at,
            {
                let fresh = Cell::new(text, highlight);
                self.set_cell(row, at, fresh);
                at += 1;
                assert(self@.rows =~~= before.written(
                    row as int,
                    start as int,
                    run.cells + uniform((at - col) as nat, cell),
                ).rows);
            }
            assert(self@.rows =~~= before.written(
                row as int,
                start as int,
                run.cells + uniform(count as nat, cell),
            ).rows);
            col = end;
            index += 1;
        }
    }

    /// Takes out the cells that a move evicts from a region.
    fn evict(&mut self, region: ScrollRegion, first: usize, end: usize) -> (evicted: Vec<
        Vec<Cell>,
    >)
        requires
            old(self).wf(),
            region.wf(old(self).width as int, old(self).height as int),
            first == region.first_evicted(),
            end == first + region.shift(),
        ensures
            final(self).wf(),
            rows_view(evicted@) == old(self)@.evicted(region),
            final(self)@ == old(self)@.evicting(region, end as int, 0),
    {
        let ghost before = self@;
        let mut evicted: Vec<Vec<Cell>> = Vec::new();
        let mut row: usize = first;
        assert(before.evicting(region, first as int, 0).rows =~~= before.rows);
        while row < end
            invariant
                self.wf(),
                before.wf(),
                self.width == before.width,
                self.height == before.height,
                region.wf(before.width as int, before.height as int),
                first == region.first_evicted(),
                end == first + region.shift(),
                first <= row <= end,
                evicted@.len() == row - first,
                forall|r: int|
                    0 <= r < evicted@.len() ==> cells_view(#[trigger] evicted@[r]@)
                        == before.evicted(region)[r],
                self@ == before.evicting(region, row as int, 0),
            decreases end - row,
        {
            let mut cells: Vec<Cell> = Vec::new();
            let mut col: usize = region.left;
            assert(before.evicting(region, row as int, region.left as int).rows =~~= before.evicting(
                region,
                row as int,
                0,
            ).rows);
            while col < region.right
                invariant
                    self.wf(),
                    before.wf(),
                    self.width == before.width,
                    self.height == before.height,
                    region.wf(before.width as int, before.height as int),
                    first == region.first_evicted(),
                    end == first + region.shift(),
                    first <= row < end,
                    region.left <= col <= region.right,
                    cells@.len() == col - region.left,
                    forall|c: int|
                        0 <= c < cells@.len() ==> (#[trigger] cells@[c])@ == before.rows[row as int][
                            region.left + c],
                    self@ == before.evicting(region, row as int, col as int),
                decreases region.right - col,
            {
                cells.push(self.take_cell(row, col));
                col += 1;
                assert(self@.rows =~~= before.evicting(region, row as int, col as int).rows);
            }
            assert(cells_view(cells@) =~= before.evicted(region)[row - first]);
            evicted.push(cells);
            assert(before.evicting(region, row as int, region.right as int).rows =~~= before.evicting(
                region,
                row + 1,
                0,
            ).rows);
            row += 1;
        }
        assert(rows_view(evicted@) =~= before.evicted(region));
        evicted
    }

    /// Moves a cell. A blank cell takes its place.
    fn move_cell(&mut self, from_row: usize, to_row: usize, col: usize)
        requires
            old(self).wf(),
            from_row < old(self).height,
            to_row < old(self).height,
            from_row != to_row,
            col < old(self).width,
        ensures
            final(self).wf(),
            final(self)@ == old(self)@.put(from_row as int, col as int, blank()).put(
                to_row as int,
                col as int,
                old(self)@.rows[from_row as int][col as int],
            ),
    {
        let cell = self.take_cell(from_row, col);
        self.set_cell(to_row, col, cell);
    }

    /// Moves the rows of a region up, once the rows on top are taken out.
    fn move_up(&mut self, region: ScrollRegion, shift: usize, Ghost(before): Ghost<GridView>)
        requires
            old(self).wf(),
            before.wf(),
            before.width == old(self).width,
            before.height == old(self).height,
            region.wf(before.width as int, before.height as int),
            region.rows > 0,
            shift == region.shift(),
            old(self)@ == before.evicting(region, region.top + shift, 0),
        ensures
            final(self).wf(),
            final(self)@ == before.scrolled(region),
    {
        let mut row: usize = region.top + shift;
        assert(before.moving_up(region, row as int, 0).rows =~~= self@.rows);
        while row < region.bottom
            invariant
                self.wf(),
                before.wf(),
                self.width == before.width,
                self.height == before.height,
                region.wf(before.width as int, before.height as int),
                region.rows > 0,
                0 < shift == region.shift(),
                region.top + shift <= row <= region.bottom,
                self@ == before.moving_up(region, row as int, 0),
            decreases region.bottom - row,
        {
            let mut col: usize = region.left;
            assert(before.moving_up(region, row as int, region.left as int).rows
                =~~= before.moving_up(region, row as int, 0).rows);
            while col < region.right
                invariant
                    self.wf(),
                    before.wf(),
                    self.width == before.width,
                    self.height == before.height,
                    region.wf(before.width as int, before.height as int),
                    region.rows > 0,
                    0 < shift == region.shift(),
                    region.top + shift <= row < region.bottom,
                    region.left <= col <= region.right,
                    self@ == before.moving_up(region, row as int, col as int),
                decreases region.right - col,
            {
                self.move_cell(row, row - shift, col);
                col += 1;
                assert(self@.rows =~~= before.moving_up(region, row as int, col as int).rows);
            }
            assert(before.moving_up(region, row as int, region.right as int).rows
                =~~= before.moving_up(region, row + 1, 0).rows);
            row += 1;
        }
        assert(self@.rows =~~= before.scrolled(region).rows);
    }

    /// Moves the rows of a region down, once the rows at its bottom are taken
    /// out.
    fn move_down(&mut self, region: ScrollRegion, shift: usize, Ghost(before): Ghost<GridView>)
        requires
            old(self).wf(),
            before.wf(),
            before.width == old(self).width,
            before.height == old(self).height,
            region.wf(before.width as int, before.height as int),
            region.rows < 0,
            shift == region.shift(),
            old(self)@ == before.evicting(region, region.bottom as int, 0),
        ensures
            final(self).wf(),
            final(self)@ == before.scrolled(region),
    {
        let mut end: usize = region.bottom - shift;
        assert(before.moving_down(region, end as int, region.right as int).rows =~~= self@.rows);
        while end > region.top
            invariant
                self.wf(),
                before.wf(),
                self.width == before.width,
                self.height == before.height,
                region.wf(before.width as int, before.height as int),
                region.rows < 0,
                0 < shift == region.shift(),
                region.top <= end <= region.bottom - shift,
                self@ == before.moving_down(region, end as int, region.right as int),
            decreases end,
        {
            let row: usize = end - 1;
            let mut col: usize = region.left;
            assert(before.moving_down(region, row as int, region.left as int).rows
                =~~= before.moving_down(region, end as int, region.right as int).rows);
            while col < region.right
                invariant
                    self.wf(),
                    before.wf(),
                    self.width == before.width,
                    self.height == before.height,
                    region.wf(before.width as int, before.height as int),
                    region.rows < 0,
                    0 < shift == region.shift(),
                    region.top <= row < region.bottom - shift,
                    region.left <= col <= region.right,
                    self@ == before.moving_down(region, row as int, col as int),
                decreases region.right - col,
            {
                self.move_cell(row, row + shift, col);
                col += 1;
                assert(self@.rows =~~= before.moving_down(region, row as int, col as int).rows);
            }
            end = row;
        }
        assert(self@.rows =~~= before.scrolled(region).rows);
    }

    /// Applies a scroll event: moves the contents of a region by whole rows.
    /// The record holds the cells that moved out of it.
    pub fn scroll(&mut self, p: &[Value]) -> (record: Option<ScrollRecord>)
        requires
            old(self).wf(),
        ensures
            final(self).wf(),
            match old(self)@.scroll_region(p@) {
                Some(region) => {
                    &&& final(self)@ == old(self)@.scrolled(region)
                    &&& record matches Some(made) && made@ == old(self)@.scroll_record(region)
                },
                None => final(self)@ == old(self)@ && record is None,
            },
    {
        let ghost before = self@;
        let (top, bottom, left, right, rows, cols) = match (
            value::usize_at(p, 1),
            value::usize_at(p, 2),
            value::usize_at(p, 3),
            value::usize_at(p, 4),
            value::int_at(p, 5),
            value::int_at(p, 6),
        ) {
            (Some(top), Some(bottom), Some(left), Some(right), Some(rows), Some(cols)) => (
                top,
                bottom,
                left,
                right,
                rows,
                cols,
            ),
            _ => {
                return None;
            },
        };
        let bottom: usize = if bottom < self.height { bottom } else { self.height };
        let right: usize = if right < self.width { right } else { self.width };
        if top >= bottom || left >= right || rows == 0 {
            return None;
        }
        if cols != 0 {
            // Reserved by the protocol: Neovim always sends zero columns.
            return None;
        }
        let region = ScrollRegion { top, bottom, left, right, rows };
        let shift: usize = region.distance();
        let evicted = if rows > 0 {
            let evicted = self.evict(region, top, top + shift);
            self.move_up(region, shift, Ghost(before));
            evicted
        } else {
            let evicted = self.evict(region, bottom - shift, bottom);
            self.move_down(region, shift, Ghost(before));
            evicted
        };
        Some(ScrollRecord { top, bottom, left, right, rows, evicted })
    }
}

/// Making a grid larger and then as large as it was gives it back as it was.
pub proof fn law_growing_and_shrinking_changes_nothing(grid: GridView, width: usize, height: usize)
    requires
        grid.wf(),
        width >= grid.width,
        height >= grid.height,
    ensures
        grid.resized(width, height).resized(grid.width, grid.height) == grid,
{
    let back = grid.resized(width, height).resized(grid.width, grid.height);
    assert(back.rows =~~= grid.rows);
}

/// A resize keeps every cell that both sizes have at its row and column.
pub proof fn law_resizing_keeps_what_fits(
    grid: GridView,
    width: usize,
    height: usize,
    row: int,
    col: int,
)
    requires
        grid.wf(),
        0 <= row < grid.height,
        0 <= col < grid.width,
        row < height,
        col < width,
    ensures
        grid.resized(width, height).rows[row][col] == grid.rows[row][col],
{
}

/// A scroll changes nothing outside its region.
pub proof fn law_scrolling_stays_in_its_region(
    grid: GridView,
    region: ScrollRegion,
    row: int,
    col: int,
)
    requires
        grid.wf(),
        0 <= row < grid.height,
        0 <= col < grid.width,
        !region.covers(row, col),
    ensures
        grid.scrolled(region).rows[row][col] == grid.rows[row][col],
{
}

/// A scroll loses nothing: each cell of the region is found again, in the record of
/// what moved out or as many rows further on.
pub proof fn law_scrolling_loses_nothing(
    grid: GridView,
    region: ScrollRegion,
    row: int,
    col: int,
)
    requires
        grid.wf(),
        region.wf(grid.width as int, grid.height as int),
        region.covers(row, col),
    ensures
        ({
            let out = row - region.first_evicted();
            let moved = if region.rows > 0 {
                row - region.shift()
            } else {
                row + region.shift()
            };
            if 0 <= out < region.shift() {
                grid.scroll_record(region).evicted[out][col - region.left] == grid.rows[row][col]
            } else {
                region.covers(moved, col) && grid.scrolled(region).rows[moved][col]
                    == grid.rows[row][col]
            }
        }),
{
}

/// A line event writes over one row at most, from its column on.
pub proof fn law_lines_write_over_one_row(grid: GridView, p: Seq<Value>, row: int, col: int)
    requires
        grid.wf(),
        0 <= row < grid.height,
        0 <= col < grid.width,
        !(value::param(p, 1).usize_value() matches Some(at) && at == row) || (value::param(
            p,
            2,
        ).usize_value() matches Some(start) && col < start),
    ensures
        grid.line(p).rows[row][col] == grid.rows[row][col],
{
}

/// How many cells an item of a line event fills: none where it has no text, as many as it
/// counts, or one.
pub open spec fn cells_filled(item: Value) -> nat {
    match item {
        Value::Array(parts) => if parts@.len() > 0 && parts@[0] is Text {
            if parts@.len() > 2 && parts@[2].usize_value() is Some {
                parts@[2].usize_value()->0 as nat
            } else {
                1
            }
        } else {
            0
        },
        _ => 0,
    }
}

/// How many cells the first `n` items of a line event fill.
pub open spec fn cells_before(items: Seq<Value>, n: nat) -> nat
    decreases n,
{
    if n == 0 {
        0
    } else {
        cells_before(items, (n - 1) as nat) + cells_filled(items[n - 1])
    }
}

/// Whether an item of a line event has a text.
pub open spec fn item_has_text(item: Value) -> bool {
    item matches Value::Array(parts) && parts@.len() > 0 && parts@[0] is Text
}

/// Whether an item of a line event has a text and names a highlight.
pub open spec fn item_names(item: Value, highlight: u64) -> bool {
    item matches Value::Array(parts) && parts@.len() > 1 && parts@[0] is Text && parts@[1]
        is Integer && parts@[1]->Integer_0 == highlight
}

/// Whether a highlight is the one that the item at an index fills its cells with: the one
/// that it names, or else that of the nearest item before it that names one, or else 0.
pub open spec fn holds_highlight(items: Seq<Value>, index: int, highlight: u64) -> bool {
    ||| exists|k: int|
        {
            &&& 0 <= k <= index
            &&& item_names(#[trigger] items[k], highlight)
            &&& forall|j: int, other: u64|
                k < j <= index ==> !#[trigger] item_names(items[j], other)
        }
    ||| highlight == 0 && forall|j: int, other: u64|
        0 <= j <= index ==> !#[trigger] item_names(items[j], other)
}

proof fn lemma_run_length(items: Seq<Value>, n: nat)
    requires
        n <= items.len(),
    ensures
        line_run(items, n).cells.len() == cells_before(items, n),
    decreases n,
{
    if n > 0 {
        lemma_run_length(items, (n - 1) as nat);
        match items[n - 1] {
            Value::Array(parts) => {
                if parts@.len() <= 2 {
                    assert(value::param(parts@, 2) == Value::Nil);
                }
            },
            _ => {},
        }
    }
}

proof fn lemma_run_highlight(items: Seq<Value>, n: nat)
    requires
        0 < n <= items.len(),
    ensures
        holds_highlight(items, n - 1, line_run(items, n).highlight),
    decreases n,
{
    let index = n - 1;
    let now = line_run(items, n).highlight;
    if exists|named: u64| item_names(items[index], named) {
        let named = choose|named: u64| item_names(items[index], named);
        assert(now == named);
        assert(item_names(items[index], now));
    } else {
        assert(now == line_run(items, index as nat).highlight) by {
            match items[index] {
                Value::Array(parts) => {
                    if parts@.len() > 1 && parts@[0] is Text {
                        match parts@[1] {
                            Value::Integer(number) => {
                                if 0 <= number <= u64::MAX {
                                    assert(item_names(items[index], number as u64));
                                }
                            },
                            _ => {},
                        }
                    }
                },
                _ => {},
            }
        }
        if index > 0 {
            lemma_run_highlight(items, index as nat);
            if exists|k: int|
                {
                    &&& 0 <= k <= index - 1
                    &&& item_names(#[trigger] items[k], now)
                    &&& forall|j: int, other: u64|
                        k < j <= index - 1 ==> !#[trigger] item_names(items[j], other)
                } {
                let k = choose|k: int|
                    {
                        &&& 0 <= k <= index - 1
                        &&& item_names(#[trigger] items[k], now)
                        &&& forall|j: int, other: u64|
                            k < j <= index - 1 ==> !#[trigger] item_names(items[j], other)
                    };
                assert(item_names(items[k], now));
                assert forall|j: int, other: u64| k < j <= index implies !#[trigger] item_names(
                    items[j],
                    other,
                ) by {}
            } else {
                assert forall|j: int, other: u64| 0 <= j <= index implies !#[trigger] item_names(
                    items[j],
                    other,
                ) by {}
            }
        } else {
            assert(line_run(items, 0).highlight == 0);
        }
    }
}

proof fn lemma_run_cells(items: Seq<Value>, n: nat, index: int, i: int)
    requires
        0 <= index < n <= items.len(),
        item_has_text(items[index]),
        0 <= i < cells_filled(items[index]),
    ensures
        ({
            let at = cells_before(items, index as nat) + i;
            let run = line_run(items, n).cells;
            &&& at < run.len()
            &&& run[at].text == (items[index]->Array_0)@[0].str_value()->0
            &&& holds_highlight(items, index, run[at].highlight)
        }),
    decreases n,
{
    lemma_run_length(items, (n - 1) as nat);
    if index < n - 1 {
        lemma_run_cells(items, (n - 1) as nat, index, i);
    } else {
        lemma_run_length(items, n);
        lemma_run_highlight(items, n);
    }
}

/// Each item of a line event that has a text fills its cells with that text, after the
/// cells of the items before it, and with exactly the highlight that it names, 0 included.
/// Where it names none it takes that of the nearest item before it that does, or 0.
pub proof fn law_lines_hold_their_items(
    grid: GridView,
    p: Seq<Value>,
    row: usize,
    col: usize,
    items: Seq<Value>,
    index: int,
    i: int,
)
    requires
        grid.wf(),
        p.len() > 3,
        p[1].usize_value() == Some(row),
        p[2].usize_value() == Some(col),
        p[3].array_value() == Some(items),
        row < grid.height,
        0 <= index < items.len(),
        item_has_text(items[index]),
        0 <= i < cells_filled(items[index]),
        col + cells_before(items, index as nat) + i < grid.width,
    ensures
        ({
            let cell = grid.line(p).rows[row as int][col + cells_before(items, index as nat) + i];
            &&& (items[index]->Array_0)@[0].str_value() == Some(cell.text)
            &&& holds_highlight(items, index, cell.highlight)
        }),
{
    lemma_run_cells(items, items.len(), index, i);
}

/// A line event changes nothing but the cells that its items fill: neither those before and
/// after them, nor the size of the grid, nor where the cursor stands.
pub proof fn law_lines_change_nothing_else(
    grid: GridView,
    p: Seq<Value>,
    items: Seq<Value>,
    row: int,
    col: int,
)
    requires
        grid.wf(),
        p.len() > 3 ==> (p[3].array_value() is Some ==> p[3].array_value() == Some(items)),
        0 <= row < grid.height,
        0 <= col < grid.width,
        p.len() <= 3 || p[1].usize_value() != Some(row as usize) || p[2].usize_value() is None
            || p[3].array_value() is None || col < p[2].usize_value()->0 || col
            >= p[2].usize_value()->0 + cells_before(items, items.len()),
    ensures
        grid.line(p).rows[row][col] == grid.rows[row][col],
        grid.line(p).width == grid.width,
        grid.line(p).height == grid.height,
        grid.line(p).cursor_row == grid.cursor_row,
        grid.line(p).cursor_col == grid.cursor_col,
        grid.line(p).wf(),
{
    lemma_run_length(items, items.len());
}

/// A resize gives the grid the size that is asked for. The cells that it did not have are
/// spaces without a highlight, and the cursor stays.
pub proof fn law_resizing_adds_blank_cells(
    grid: GridView,
    width: usize,
    height: usize,
    row: int,
    col: int,
)
    requires
        grid.wf(),
        0 <= row < height,
        0 <= col < width,
        row >= grid.height || col >= grid.width,
    ensures
        ({
            let after = grid.resized(width, height);
            &&& after.wf()
            &&& after.width == width
            &&& after.height == height
            &&& after.rows[row][col].text == seq![' ']
            &&& after.rows[row][col].highlight == 0
            &&& after.cursor_row == grid.cursor_row
            &&& after.cursor_col == grid.cursor_col
        }),
{
}

/// A grid that is cleared holds spaces without a highlight. Its size and the cursor stay.
pub proof fn law_clearing_leaves_blank_cells(grid: GridView, row: int, col: int)
    requires
        grid.wf(),
        0 <= row < grid.height,
        0 <= col < grid.width,
    ensures
        ({
            let after = grid.cleared();
            &&& after.wf()
            &&& after.rows[row][col].text == seq![' ']
            &&& after.rows[row][col].highlight == 0
            &&& after.width == grid.width
            &&& after.height == grid.height
            &&& after.cursor_row == grid.cursor_row
            &&& after.cursor_col == grid.cursor_col
        }),
{
}

/// A scroll event moves the region that it names, cut to the grid, if that has cells, the
/// event asks for a move by rows, and not for one by columns.
pub proof fn law_scroll_events_name_their_region(
    grid: GridView,
    p: Seq<Value>,
    top: usize,
    bottom: usize,
    left: usize,
    right: usize,
    rows: i64,
    cols: i64,
)
    requires
        p.len() > 6,
        p[1].usize_value() == Some(top),
        p[2].usize_value() == Some(bottom),
        p[3].usize_value() == Some(left),
        p[4].usize_value() == Some(right),
        p[5].int_value() == Some(rows),
        p[6].int_value() == Some(cols),
    ensures
        grid.scroll_region(p) is Some <==> top < bottom && top < grid.height && left < right
            && left < grid.width && rows != 0 && cols == 0,
        grid.scroll_region(p) matches Some(region) ==> {
            &&& region.top == top
            &&& region.left == left
            &&& region.rows == rows
            &&& region.bottom <= bottom && region.bottom <= grid.height
            &&& region.bottom == bottom || region.bottom == grid.height
            &&& region.right <= right && region.right <= grid.width
            &&& region.right == right || region.right == grid.width
        },
{
}

/// A scroll event that lacks a number moves nothing.
pub proof fn law_incomplete_scroll_events_do_nothing(grid: GridView, p: Seq<Value>, missing: int)
    requires
        1 <= missing <= 6,
        p.len() <= missing || (if missing < 5 {
            p[missing].usize_value() is None
        } else {
            p[missing].int_value() is None
        }),
    ensures
        grid.scroll_region(p) is None,
{
    if p.len() <= missing {
        assert(value::param(p, missing) == Value::Nil);
    }
}

/// A move by a number of rows brings each row of the region that many rows up, or down
/// where the number is negative, and leaves blank rows behind. Those that it takes out are
/// recorded, from the top.
pub proof fn law_scrolling_moves_rows(
    grid: GridView,
    region: ScrollRegion,
    row: int,
    col: int,
)
    requires
        grid.wf(),
        region.wf(grid.width as int, grid.height as int),
        region.top <= row < region.bottom,
        region.left <= col < region.right,
    ensures
        ({
            let after = grid.scrolled(region);
            let from = row + region.rows;
            &&& region.top <= from < region.bottom ==> after.rows[row][col] == grid.rows[from][col]
            &&& !(region.top <= from < region.bottom) ==> after.rows[row][col].text == seq![' ']
                && after.rows[row][col].highlight == 0
            &&& after.wf()
            &&& after.width == grid.width
            &&& after.height == grid.height
            &&& after.cursor_row == grid.cursor_row
            &&& after.cursor_col == grid.cursor_col
        }),
{
}

/// The record of a move names the region and the number of rows, and holds the rows that
/// the move takes out, from the top: each with the cells of the region, from the left.
pub proof fn law_scroll_records_hold_what_moved_out(
    grid: GridView,
    region: ScrollRegion,
    row: int,
    col: int,
)
    requires
        grid.wf(),
        region.wf(grid.width as int, grid.height as int),
        region.top <= row < region.bottom,
        region.left <= col < region.right,
        !(region.top <= row - region.rows < region.bottom),
    ensures
        ({
            let record = grid.scroll_record(region);
            let height = region.bottom - region.top;
            let far = if region.rows < 0 {
                -region.rows
            } else {
                region.rows as int
            };
            let first = if region.rows < 0 && far < height {
                region.bottom - far
            } else {
                region.top as int
            };
            &&& record.top == region.top
            &&& record.bottom == region.bottom
            &&& record.left == region.left
            &&& record.right == region.right
            &&& record.rows == region.rows
            &&& far <= height ==> record.evicted.len() == far
            &&& far > height ==> record.evicted.len() == height
            &&& 0 <= row - first < record.evicted.len()
            &&& record.evicted[row - first].len() == region.right - region.left
            &&& record.evicted[row - first][col - region.left] == grid.rows[row][col]
        }),
{
}

} // verus!
