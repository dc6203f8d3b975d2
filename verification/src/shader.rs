//! Rendering one frame: which pixels are shaded, in which order, and which
//! byte each one gets.

use vstd::prelude::*;
use crate::binary64::Binary64;
use crate::frame::{lemma_index_in_grid, lemma_index_is_injective, Frame, FrameView};

verus! {

/// Why a scene cannot be rendered.
#[derive(Clone, Copy, Debug, PartialEq, Eq, Structural)]
pub enum RenderError {
    /// The grid has fewer than two rows or fewer than two columns, so the
    /// screen corners cannot be interpolated over it.
    DegenerateGrid,
    /// The radii are not numbers with `0 < inner <= outer`.
    InvalidRadii,
}

/// Whether the radii describe a torus: both are numbers, the inner one is
/// positive and the outer one is not smaller.
pub open spec fn radii_are_valid(inner: Binary64, outer: Binary64) -> bool {
    (Binary64 { bits: 0 }).lt(inner) && inner.le(outer)
}

/// Accepts the radii of a torus, or says why they describe none.
pub fn check_radii(inner: Binary64, outer: Binary64) -> (outcome: Result<(), RenderError>)
    ensures
        outcome is Ok <==> radii_are_valid(inner, outer),
        outcome is Err ==> outcome == Err::<(), RenderError>(RenderError::InvalidRadii),
{
    let zero = Binary64 { bits: 0 };
    if zero.lt(inner) && inner.le(outer) {
        Ok(())
    } else {
        Err(RenderError::InvalidRadii)
    }
}

/// The byte of one pixel. `hit` is the brightness of the surface point that
/// the ray through the pixel hits first, or `None` where it misses the torus.
/// A miss is 0, and no hit is: a hit too dim to show is raised to 1.
pub fn get_pixel(hit: Option<u8>) -> (byte: u8)
    ensures
        byte == match hit {
            None => 0u8,
            Some(level) => if level == 0 {
                1u8
            } else {
                level
            },
        },
        byte == 0 <==> hit is None,
{
    match hit {
        None => 0,
        Some(level) => if level == 0 {
            1
        } else {
            level
        },
    }
}

/// Whether `after` is `before` with its whole grid shaded by `shade`: every
/// cell of the grid holds a byte that `shade` gave for its row and column,
/// and what `before` held beyond the grid is still there.
pub open spec fn rendered<F: Fn(usize, usize) -> u8>(
    before: FrameView,
    after: FrameView,
    shade: F,
) -> bool {
    &&& after.width == before.width
    &&& after.height == before.height
    &&& after.is_complete()
    &&& after.cells.len() == if before.is_complete() {
        before.cells.len()
    } else {
        after.width * after.height
    }
    &&& forall|row: usize, col: usize|
        row < after.height && col < after.width ==> call_ensures(
            shade,
            (row, col),
            after.cells[#[trigger] after.index_of(row as int, col as int)],
        )
    &&& forall|k: int|
        after.width * after.height <= k < before.cells.len() ==> after.cells[k]
            == before.cells[k]
}

/// Shades every pixel of the frame, row by row from the top and from left to
/// right within a row, and stores what `shade` gives for each row and column.
///
/// A frame with fewer than two rows or columns is refused and left as it was.
pub fn get_frame<F: Fn(usize, usize) -> u8>(frame: &mut Frame, shade: F) -> (outcome: Result<
    (),
    RenderError,
>)
    requires
        forall|row: usize, col: usize|
            row < old(frame)@.height && col < old(frame)@.width ==> call_requires(
                shade,
                (row, col),
            ),
    ensures
        outcome is Err <==> old(frame)@.width < 2 || old(frame)@.height < 2,
        outcome is Err ==> outcome == Err::<(), RenderError>(RenderError::DegenerateGrid)
            && final(frame)@ == old(frame)@,
        outcome is Ok ==> rendered(old(frame)@, final(frame)@, shade),
{
    let height = frame.height();
    let width = frame.width();
    if width < 2 || height < 2 {
        return Err(RenderError::DegenerateGrid);
    }
    let ghost before = frame@;
    let ghost mut start: int = 0;
    let mut row: usize = 0;
    while row < height
        invariant
            frame@.width == before.width == width,
            frame@.height == before.height == height,
            row <= height,
            start == before.index_of(row as int, 0),
            start <= frame@.cells.len(),
            0 <= start,
            frame@.cells.len() == if before.cells.len() >= start {
                before.cells.len()
            } else {
                start as nat
            },
            forall|r: usize, c: usize|
                r < height && c < width ==> call_requires(shade, (r, c)),
            forall|r: usize, c: usize|
                r < height && c < width && before.index_of(r as int, c as int) < start
                    ==> call_ensures(
                    shade,
                    (r, c),
                    frame@.cells[#[trigger] before.index_of(r as int, c as int)],
                ),
            forall|k: int| start <= k < before.cells.len() ==> frame@.cells[k] == before.cells[k],
        decreases height - row,
    {
        let mut col: usize = 0;
        while col < width
            invariant
                frame@.width == before.width == width,
                frame@.height == before.height == height,
                row < height,
                col <= width,
                start == before.index_of(row as int, 0),
                0 <= start,
                start + col <= frame@.cells.len(),
                frame@.cells.len() == if before.cells.len() >= start + col {
                    before.cells.len()
                } else {
                    (start + col) as nat
                },
                forall|r: usize, c: usize|
                    r < height && c < width ==> call_requires(shade, (r, c)),
                forall|r: usize, c: usize|
                    r < height && c < width && before.index_of(r as int, c as int) < start + col
                        ==> call_ensures(
                        shade,
                        (r, c),
                        frame@.cells[#[trigger] before.index_of(r as int, c as int)],
                    ),
                forall|k: int|
                    start + col <= k < before.cells.len() ==> frame@.cells[k] == before.cells[k],
            decreases width - col,
        {
            let byte = shade(row, col);
            let ghost filled = frame@;
            frame.fill_char(col, row, byte);
            proof {
                let pos = start + col;
                assert forall|r: usize, c: usize|
                    r < height && c < width && before.index_of(r as int, c as int) < pos + 1
                    implies call_ensures(
                    shade,
                    (r, c),
                    frame@.cells[#[trigger] before.index_of(r as int, c as int)],
                ) by {
                    if before.index_of(r as int, c as int) == pos {
                        lemma_index_is_injective(
                            before,
                            r as int,
                            c as int,
                            row as int,
                            col as int,
                        );
                    } else {
                        assert(frame@.cells[before.index_of(r as int, c as int)]
                            == filled.cells[before.index_of(r as int, c as int)]);
                    }
                }
            }
            col += 1;
        }
        proof {
            assert(before.index_of(row + 1, 0) == start + width) by (nonlinear_arith)
                requires
                    start == before.index_of(row as int, 0),
                    width == before.width,
            ;
            start = start + width;
        }
        row += 1;
    }
    proof {
        assert(start == before.width * before.height) by (nonlinear_arith)
            requires
                start == before.index_of(height as int, 0),
                height == before.height,
        ;
        assert forall|r: usize, c: usize| r < height && c < width implies call_ensures(
            shade,
            (r, c),
            frame@.cells[#[trigger] frame@.index_of(r as int, c as int)],
        ) by {
            lemma_index_in_grid(before, r as int, c as int);
            assert(frame@.index_of(r as int, c as int) == before.index_of(r as int, c as int));
        }
    }
    Ok(())
}

} // verus!
