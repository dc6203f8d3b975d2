//! The frame buffer: a grid of brightness bytes in row-major order.
//!
//! A byte is 0 where the ray through the pixel misses the torus and 1 to 255
//! where it hits. A frame starts empty and is filled cell by cell; a cell can
//! be overwritten once it exists, so one frame serves a whole animation.

use vstd::prelude::*;
use crate::glyph::{glyph, glyph_of};

verus! {

/// What a frame holds: its dimensions and the cells filled so far.
pub struct FrameView {
    pub width: nat,
    pub height: nat,
    pub cells: Seq<u8>,
}

impl FrameView {
    /// Position of the cell in row `row` and column `col`.
    pub open spec fn index_of(self, row: int, col: int) -> int {
        row * self.width + col
    }

    /// Whether every cell of the grid has been filled.
    pub open spec fn is_complete(self) -> bool {
        self.width * self.height <= self.cells.len()
    }

    /// The frame after `value` was stored at position `pos`: appended where
    /// `pos` is the first unfilled position, written over the old byte below it.
    pub open spec fn put(self, pos: int, value: u8) -> FrameView {
        FrameView {
            width: self.width,
            height: self.height,
            cells: if pos == self.cells.len() {
                self.cells.push(value)
            } else {
                self.cells.update(pos, value)
            },
        }
    }

    /// The bytes of row `row`.
    pub open spec fn row_bytes(self, row: int) -> Seq<u8> {
        self.cells.subrange(self.index_of(row, 0), self.index_of(row, self.width as int))
    }
}

/// A grid of brightness bytes.
pub struct Frame {
    height: usize,
    width: usize,
    inner: Vec<u8>,
}

impl View for Frame {
    type V = FrameView;

    closed spec fn view(&self) -> FrameView {
        FrameView { width: self.width as nat, height: self.height as nat, cells: self.inner@ }
    }
}

impl Frame {
    /// An empty frame of the given dimensions, with room for all its cells.
    /// The cells must fit in memory.
    pub fn with_capacity(width: usize, height: usize) -> (frame: Frame)
        requires
            width * height <= isize::MAX,
        ensures
            frame@ == (FrameView { width: width as nat, height: height as nat, cells: Seq::empty() }),
    {
        let inner = Vec::with_capacity(width * height);
        Frame { inner, width, height }
    }

    /// Number of columns.
    pub fn width(&self) -> (width: usize)
        ensures
            width == self@.width,
    {
        self.width
    }

    /// Number of rows.
    pub fn height(&self) -> (height: usize)
        ensures
            height == self@.height,
    {
        self.height
    }

    /// Number of cells filled so far.
    pub fn len(&self) -> (len: usize)
        ensures
            len == self@.cells.len(),
    {
        self.inner.len()
    }

    /// Whether every cell of the grid has been filled.
    pub fn is_complete(&self) -> (complete: bool)
        ensures
            complete == self@.is_complete(),
    {
        let len = self.inner.len();
        match self.width.checked_mul(self.height) {
            Some(cells) => cells <= len,
            None => false,
        }
    }

    /// Stores `value` in column `i` of row `j`. The cell must exist already or
    /// be the first unfilled one.
    pub fn fill_char(&mut self, i: usize, j: usize, value: u8)
        requires
            old(self)@.index_of(j as int, i as int) <= old(self)@.cells.len(),
        ensures
            final(self)@ == old(self)@.put(old(self)@.index_of(j as int, i as int), value),
    {
        let len = self.inner.len();
        assert(0 <= j * self.width) by (nonlinear_arith);
        let pos = j * self.width + i;
        if pos == len {
            self.push(value)
        } else {
            self.inner[pos] = value;
        }
    }

    /// Starts a walk over the rows, from the top.
    pub fn rows(&self) -> (rows: FrameIter<'_>)
        ensures
            rows@ == (RowsView { frame: self@, row: 0 }),
    {
        FrameIter { iter: self, row: 0 }
    }

    /// Appends `val` as the next cell.
    pub fn push(&mut self, val: u8)
        ensures
            final(self)@ == (FrameView { cells: old(self)@.cells.push(val), ..old(self)@ }),
    {
        self.inner.push(val)
    }
}

/// The cells of the grid are laid out row after row: the position of a cell of
/// the grid lies within its row, and its row lies within the grid. In a
/// complete frame all these positions are filled.
pub proof fn lemma_index_in_grid(frame: FrameView, row: int, col: int)
    requires
        0 <= row < frame.height,
        0 <= col < frame.width,
    ensures
        0 <= frame.index_of(row, 0) <= frame.index_of(row, col) < frame.index_of(
            row,
            frame.width as int,
        ) <= frame.width * frame.height,
{
    let w = frame.width as int;
    let h = frame.height as int;
    assert(0 <= row * w) by (nonlinear_arith)
        requires
            0 <= row,
            0 <= w,
    ;
    assert(row * w + w <= w * h) by (nonlinear_arith)
        requires
            row + 1 <= h,
            0 <= w,
    ;
}

/// No two cells of the grid share a position.
pub proof fn lemma_index_is_injective(frame: FrameView, r1: int, c1: int, r2: int, c2: int)
    requires
        0 <= r1,
        0 <= r2,
        0 <= c1 < frame.width,
        0 <= c2 < frame.width,
        frame.index_of(r1, c1) == frame.index_of(r2, c2),
    ensures
        r1 == r2,
        c1 == c2,
{
    let w = frame.width as int;
    if r1 < r2 {
        assert(r1 * w + w <= r2 * w) by (nonlinear_arith)
            requires
                r1 + 1 <= r2,
                0 <= w,
        ;
    } else if r2 < r1 {
        assert(r2 * w + w <= r1 * w) by (nonlinear_arith)
            requires
                r2 + 1 <= r1,
                0 <= w,
        ;
    }
}

/// Where a walk over the rows of a frame stands.
pub struct RowsView {
    /// The frame that is walked.
    pub frame: FrameView,
    /// The row that comes next.
    pub row: nat,
}

impl RowsView {
    /// Whether the walk is below the last row.
    pub open spec fn at_end(self) -> bool {
        self.row >= self.frame.height
    }

    /// The walk one row further down.
    pub open spec fn advance(self) -> RowsView {
        RowsView { frame: self.frame, row: self.row + 1 }
    }

    /// The row that comes next, with the walk over it at its first column.
    pub open spec fn current(self) -> RowView {
        RowView { frame: self.frame, row: self.row, col: 0 }
    }
}

/// Where a walk over one row of a frame stands.
pub struct RowView {
    /// The frame that the row belongs to.
    pub frame: FrameView,
    /// The number of the row, counted from the top.
    pub row: nat,
    /// The column that comes next.
    pub col: nat,
}

impl RowView {
    /// Whether the walk is past the last column.
    pub open spec fn at_end(self) -> bool {
        self.col >= self.frame.width
    }

    /// Position in the frame of the cell that comes next.
    pub open spec fn cursor(self) -> int {
        self.frame.index_of(self.row as int, self.col as int)
    }

    /// Whether the cell that comes next has been filled.
    pub open spec fn is_filled(self) -> bool {
        self.cursor() < self.frame.cells.len()
    }

    /// The byte that comes next.
    pub open spec fn byte(self) -> u8 {
        self.frame.cells[self.cursor()]
    }

    /// The walk one column further right.
    pub open spec fn advance(self) -> RowView {
        RowView { frame: self.frame, row: self.row, col: self.col + 1 }
    }
}

/// In a complete frame every row that the walk over the rows hands out can be
/// read, byte by byte and as a whole.
pub proof fn lemma_complete_frame_is_readable(walk: RowView)
    requires
        walk.frame.is_complete(),
        walk.row < walk.frame.height,
    ensures
        !walk.at_end() ==> walk.is_filled(),
        walk.frame.index_of(walk.row as int, walk.frame.width as int) <= walk.frame.cells.len(),
{
    if walk.at_end() {
        if walk.frame.width > 0 {
            lemma_index_in_grid(walk.frame, walk.row as int, 0);
        } else {
            assert(walk.row * walk.frame.width == 0) by (nonlinear_arith)
                requires
                    walk.frame.width == 0,
            ;
        }
    } else {
        lemma_index_in_grid(walk.frame, walk.row as int, walk.col as int);
    }
}

/// A walk over the rows of a frame, from the top.
pub struct FrameIter<'a> {
    iter: &'a Frame,
    row: usize,
}

impl<'a> View for FrameIter<'a> {
    type V = RowsView;

    closed spec fn view(&self) -> RowsView {
        RowsView { frame: self.iter@, row: self.row as nat }
    }
}

impl<'a> FrameIter<'a> {
    /// Hands out the next row and moves on, or gives `None` below the last row.
    pub fn next(&mut self) -> (out: Option<FrameRow<'a>>)
        ensures
            old(self)@.at_end() ==> out is None && final(self)@ == old(self)@,
            !old(self)@.at_end() ==> final(self)@ == old(self)@.advance(),
            !old(self)@.at_end() ==> (out matches Some(row) && row@ == old(self)@.current()),
    {
        if self.row >= self.iter.height {
            return None;
        }
        let out = FrameRow { bytes: self.iter, row: self.row, idx: 0 };
        self.row += 1;
        Some(out)
    }
}

/// One row of a frame, and a walk over its bytes from the left.
pub struct FrameRow<'a> {
    bytes: &'a Frame,
    row: usize,
    idx: usize,
}

impl<'a> View for FrameRow<'a> {
    type V = RowView;

    closed spec fn view(&self) -> RowView {
        RowView { frame: self.bytes@, row: self.row as nat, col: self.idx as nat }
    }
}

impl<'a> FrameRow<'a> {
    /// The bytes of the whole row, wherever the walk stands. The row must be
    /// filled to its end.
    pub fn as_bytes(&self) -> (bytes: &[u8])
        requires
            self@.frame.index_of(self@.row as int, self@.frame.width as int)
                <= self@.frame.cells.len(),
        ensures
            bytes@ == self@.frame.row_bytes(self@.row as int),
    {
        let width = self.bytes.width;
        assert(self.bytes.inner.len() <= usize::MAX);
        assert(0 <= self.row * width) by (nonlinear_arith);
        let start = self.row * width;
        let end = start + width;
        &self.bytes.inner[start..end]
    }

    /// The number of the row, counted from the top.
    pub fn row(&self) -> (row: usize)
        ensures
            row == self@.row,
    {
        self.row
    }

    /// Turns the walk over the row's bytes into one over their glyphs, from
    /// where it stands.
    pub fn chars(self) -> (chars: FrameChars<'a>)
        ensures
            chars@ == self@,
    {
        let FrameRow { bytes, row, idx } = self;
        FrameChars { bytes, row, idx }
    }

    /// Hands out the next byte of the row and moves on, or gives `None` at
    /// the end of the row. The cell must be filled.
    pub fn next(&mut self) -> (out: Option<u8>)
        requires
            !old(self)@.at_end() ==> old(self)@.is_filled(),
        ensures
            old(self)@.at_end() ==> out is None && final(self)@ == old(self)@,
            !old(self)@.at_end() ==> out == Some(old(self)@.byte()) && final(self)@ == old(self)@.advance(),
    {
        if self.idx >= self.bytes.width {
            return None;
        }
        assert(self.bytes.inner.len() <= usize::MAX);
        assert(0 <= self.row * self.bytes.width) by (nonlinear_arith);
        let start = self.row * self.bytes.width;
        let idx = start + self.idx;
        self.idx += 1;
        Some(self.bytes.inner[idx])
    }
}

/// A walk over the glyphs of one row of a frame, from the left.
pub struct FrameChars<'a> {
    bytes: &'a Frame,
    row: usize,
    idx: usize,
}

impl<'a> View for FrameChars<'a> {
    type V = RowView;

    closed spec fn view(&self) -> RowView {
        RowView { frame: self.bytes@, row: self.row as nat, col: self.idx as nat }
    }
}

impl<'a> FrameChars<'a> {
    /// Hands out the glyph of the next byte of the row and moves on, or gives
    /// `None` at the end of the row. The cell must be filled.
    pub fn next(&mut self) -> (out: Option<char>)
        requires
            !old(self)@.at_end() ==> old(self)@.is_filled(),
        ensures
            old(self)@.at_end() ==> out is None && final(self)@ == old(self)@,
            !old(self)@.at_end() ==> out == Some(glyph_of(old(self)@.byte())) && final(self)@
                == old(self)@.advance(),
    {
        if self.idx >= self.bytes.width {
            return None;
        }
        assert(self.bytes.inner.len() <= usize::MAX);
        assert(0 <= self.row * self.bytes.width) by (nonlinear_arith);
        let start = self.row * self.bytes.width;
        let idx = start + self.idx;
        self.idx += 1;
        Some(glyph(self.bytes.inner[idx]))
    }
}

} // verus!
