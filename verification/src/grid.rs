//! The pixel grid: where a pixel lies along each axis, and where its byte lies
//! in the row-major buffer.

use vstd::prelude::*;

verus! {

/// A pixel's place in its grid.
///
/// Along each axis the place is the fraction of index over span, which the
/// caller's arithmetic carries into the viewport: index 0 lies on the lower
/// bound, and an index equal to the span lies on the upper bound.
#[derive(Clone, Copy, Debug, PartialEq, Eq)]
pub struct Pixel {
    /// Column index, counted from 0.
    pub column: usize,
    /// Row index, counted from 0.
    pub row: usize,
    /// Divisor of the column index: the grid's width less 1, but never below 1.
    pub column_span: usize,
    /// Divisor of the row index: the grid's height less 1, but never below 1.
    pub row_span: usize,
}

/// The divisor for an axis of `extent` pixels: the larger of `extent - 1` and 1.
pub open spec fn span_of(extent: int) -> int {
    if extent - 1 >= 1 {
        extent - 1
    } else {
        1
    }
}

/// The pixel at `column` and `row` of a grid of `width` by `height` pixels.
pub open spec fn pixel_at(width: usize, height: usize, column: int, row: int) -> Pixel {
    Pixel {
        column: column as usize,
        row: row as usize,
        column_span: span_of(width as int) as usize,
        row_span: span_of(height as int) as usize,
    }
}

/// Index in the row-major buffer of the byte at `column` and `row`, for rows of
/// `width` bytes.
pub open spec fn offset(width: int, column: int, row: int) -> int {
    row * width + column
}

/// Computes the divisor for an axis of `extent` pixels.
///
/// An axis of a single pixel gets the divisor 1, so that its one index, 0,
/// divides to 0 and the pixel lies on the axis's lower bound.
pub fn axis_span(extent: usize) -> (span: usize)
    ensures
        span == span_of(extent as int),
{
    if extent >= 2 {
        extent - 1
    } else {
        1
    }
}

/// Builds the pixel at `column` and `row` of a grid of `width` by `height`
/// pixels.
pub fn pixel(width: usize, height: usize, column: usize, row: usize) -> (p: Pixel)
    ensures
        p == pixel_at(width, height, column as int, row as int),
{
    Pixel { column, row, column_span: axis_span(width), row_span: axis_span(height) }
}

/// A span is never 0, and no index of the axis exceeds it: the fraction of
/// index over span is defined and lies between 0 and 1.
pub proof fn lemma_index_within_span(extent: int, index: int)
    requires
        0 <= index < extent,
    ensures
        1 <= span_of(extent),
        index <= span_of(extent),
        extent >= 2 ==> span_of(extent) == extent - 1,
{
}

/// The only pixel of a grid of one by one has index 0 over span 1 on both
/// axes: it lies on the lower bound of each.
pub proof fn lemma_single_pixel(column: int, row: int)
    requires
        0 <= column < 1,
        0 <= row < 1,
    ensures
        pixel_at(1, 1, column, row) == (Pixel { column: 0, row: 0, column_span: 1, row_span: 1 }),
{
}

/// A grid without columns or without rows has no pixel.
pub proof fn lemma_empty_grid(width: int, height: int)
    ensures
        width == 0 || height == 0 ==> width * height == 0,
{
    assert(width == 0 || height == 0 ==> width * height == 0) by (nonlinear_arith);
}

/// Row `row` of the buffer is the `width` bytes from `row * width` on, and it
/// ends within the buffer's `width * height` bytes.
pub proof fn lemma_row_within_buffer(width: int, height: int, row: int)
    requires
        0 <= width,
        0 <= row < height,
    ensures
        0 <= offset(width, 0, row),
        offset(width, 0, row) + width == offset(width, 0, row + 1),
        offset(width, 0, row + 1) <= width * height,
{
    assert(row * width >= 0) by (nonlinear_arith)
        requires
            0 <= width,
            0 <= row,
    ;
    assert((row + 1) * width == row * width + width) by (nonlinear_arith);
    assert((row + 1) * width <= height * width) by (nonlinear_arith)
        requires
            0 <= width,
            row + 1 <= height,
    ;
    assert(height * width == width * height) by (nonlinear_arith);
}

/// Every pixel of the grid has its byte inside the buffer, within its own row.
pub proof fn lemma_offset_within_row(width: int, height: int, column: int, row: int)
    requires
        0 <= column < width,
        0 <= row < height,
    ensures
        offset(width, 0, row) <= offset(width, column, row) < offset(width, 0, row + 1),
        0 <= offset(width, column, row) < width * height,
{
    lemma_row_within_buffer(width, height, row);
}

/// The offset tells the pixel: two pixels of the grid with the same offset are
/// the same pixel. So rows share no byte, and neither do the pixels of a row.
pub proof fn lemma_offset_injective(width: int, c1: int, r1: int, c2: int, r2: int)
    requires
        0 <= c1 < width,
        0 <= c2 < width,
        0 <= r1,
        0 <= r2,
        offset(width, c1, r1) == offset(width, c2, r2),
    ensures
        c1 == c2,
        r1 == r2,
{
    if r1 < r2 {
        assert((r1 + 1) * width <= r2 * width) by (nonlinear_arith)
            requires
                0 <= width,
                r1 + 1 <= r2,
        ;
        assert((r1 + 1) * width == r1 * width + width) by (nonlinear_arith);
    } else if r2 < r1 {
        assert((r2 + 1) * width <= r1 * width) by (nonlinear_arith)
            requires
                0 <= width,
                r2 + 1 <= r1,
        ;
        assert((r2 + 1) * width == r2 * width + width) by (nonlinear_arith);
    }
}

} // verus!
