//! The raster: one byte per pixel, row after row.

use vstd::prelude::*;
use crate::escape::{escapes_at, lemma_escape_time_unique, mandel_escape, orbit_functional};
use crate::grid::{
    lemma_empty_grid, lemma_offset_injective, lemma_offset_within_row, lemma_single_pixel, offset,
    pixel, pixel_at, Pixel,
};
use crate::quantize::{capped, clamp_to_byte};

verus! {

/// The caller's arithmetic: how a pixel becomes a point of the plane, where
/// every orbit starts, and how an orbit is tested and advanced.
pub struct Plane<S, P, B, A> {
    /// The point of the plane that a pixel stands for.
    pub point: P,
    /// The state in which every orbit starts.
    pub start: S,
    /// Whether a state still counts as in bounds.
    pub in_bounds: B,
    /// The state that follows a state on the orbit of a point.
    pub advance: A,
}

/// The plane's functions accept every argument that rendering a grid of `width`
/// by `height` pixels hands them.
pub open spec fn plane_total<C, S, P: Fn(Pixel) -> C, B: Fn(S) -> bool, A: Fn(C, S) -> S>(
    plane: Plane<S, P, B, A>,
    width: usize,
    height: usize,
) -> bool {
    &&& forall|column: int, row: int|
        0 <= column < width && 0 <= row < height ==> plane.point.requires(
            (#[trigger] pixel_at(width, height, column, row),),
        )
    &&& forall|z: S| plane.in_bounds.requires((z,))
    &&& forall|c: C, z: S| plane.advance.requires((c, z))
}

/// `count` is an escape time of the point that `pixel` stands for.
pub open spec fn pixel_escapes_at<C, S, P: Fn(Pixel) -> C, B: Fn(S) -> bool, A: Fn(C, S) -> S>(
    count: u16,
    pixel: Pixel,
    max_iter: u16,
    plane: Plane<S, P, B, A>,
) -> bool {
    exists|c: C|
        {
            &&& #[trigger] plane.point.ensures((pixel,), c)
            &&& escapes_at(count, c, plane.start, max_iter, plane.in_bounds, plane.advance)
        }
}

/// `byte` is what rendering stores for `pixel`: an escape time of the pixel's
/// point, capped at 255.
pub open spec fn cell_rendered<C, S, P: Fn(Pixel) -> C, B: Fn(S) -> bool, A: Fn(C, S) -> S>(
    byte: u8,
    pixel: Pixel,
    max_iter: u16,
    plane: Plane<S, P, B, A>,
) -> bool {
    exists|count: u16| #[trigger]
        pixel_escapes_at(count, pixel, max_iter, plane) && byte == capped(count)
}

/// `cells` is row `row` of the grid, rendered: one byte for each column, in
/// order.
pub open spec fn row_rendered<C, S, P: Fn(Pixel) -> C, B: Fn(S) -> bool, A: Fn(C, S) -> S>(
    cells: Seq<u8>,
    width: usize,
    height: usize,
    row: int,
    max_iter: u16,
    plane: Plane<S, P, B, A>,
) -> bool {
    &&& cells.len() == width
    &&& forall|column: int|
        0 <= column < width ==> cell_rendered(
            #[trigger] cells[column],
            pixel_at(width, height, column, row),
            max_iter,
            plane,
        )
}

/// `buffer` is the grid of `width` by `height` pixels, rendered: `width *
/// height` bytes, row-major, each the byte of its pixel.
pub open spec fn is_raster<C, S, P: Fn(Pixel) -> C, B: Fn(S) -> bool, A: Fn(C, S) -> S>(
    buffer: Seq<u8>,
    width: usize,
    height: usize,
    max_iter: u16,
    plane: Plane<S, P, B, A>,
) -> bool {
    &&& buffer.len() == width * height
    &&& forall|column: int, row: int|
        0 <= column < width && 0 <= row < height ==> cell_rendered(
            buffer[#[trigger] offset(width as int, column, row)],
            pixel_at(width, height, column, row),
            max_iter,
            plane,
        )
}

/// Renders one pixel: maps it to its point, counts the point's escape time and
/// narrows the count to a byte.
pub fn render_cell<C: Copy, S: Copy, P: Fn(Pixel) -> C, B: Fn(S) -> bool, A: Fn(C, S) -> S>(
    width: usize,
    height: usize,
    column: usize,
    row: usize,
    max_iter: u16,
    plane: &Plane<S, P, B, A>,
) -> (byte: u8)
    requires
        column < width,
        row < height,
        plane_total(*plane, width, height),
    ensures
        cell_rendered(byte, pixel_at(width, height, column as int, row as int), max_iter, *plane),
{
    let p = pixel(width, height, column, row);
    let c = (plane.point)(p);
    let count = mandel_escape(c, plane.start, max_iter, &plane.in_bounds, &plane.advance);
    assert(pixel_escapes_at(count, p, max_iter, *plane));
    clamp_to_byte(count, max_iter)
}

/// Renders the grid of `width` by `height` pixels on the calling thread, row by
/// row.
pub fn mandelbrot<C: Copy, S: Copy, P: Fn(Pixel) -> C, B: Fn(S) -> bool, A: Fn(C, S) -> S>(
    width: usize,
    height: usize,
    max_iter: u16,
    plane: &Plane<S, P, B, A>,
) -> (out: Vec<u8>)
    requires
        width * height <= isize::MAX,
        plane_total(*plane, width, height),
    ensures
        is_raster(out@, width, height, max_iter, *plane),
        out@.len() == width * height,
        width == 0 || height == 0 ==> out@.len() == 0,
{
    proof {
        lemma_empty_grid(width as int, height as int);
    }
    let mut out = vec![0u8; width * height];
    for j in 0..height
        invariant
            width * height <= isize::MAX,
            plane_total(*plane, width, height),
            out.len() == width * height,
            forall|column: int, row: int|
                0 <= column < width && 0 <= row < j ==> cell_rendered(
                    out@[#[trigger] offset(width as int, column, row)],
                    pixel_at(width, height, column, row),
                    max_iter,
                    *plane,
                ),
    {
        for i in 0..width
            invariant
                j < height,
                width * height <= isize::MAX,
                plane_total(*plane, width, height),
                out.len() == width * height,
                forall|column: int, row: int|
                    0 <= column < width && 0 <= row < j ==> cell_rendered(
                        out@[#[trigger] offset(width as int, column, row)],
                        pixel_at(width, height, column, row),
                        max_iter,
                        *plane,
                    ),
                forall|column: int|
                    0 <= column < i ==> cell_rendered(
                        out@[#[trigger] offset(width as int, column, j as int)],
                        pixel_at(width, height, column, j as int),
                        max_iter,
                        *plane,
                    ),
        {
            let v = render_cell(width, height, i, j, max_iter, plane);
            proof {
                lemma_offset_within_row(width as int, height as int, i as int, j as int);
                lemma_write_keeps_others(width as int, height as int, i as int, j as int);
            }
            out[j * width + i] = v;
        }
    }
    out
}

/// Writing the byte of one pixel touches the byte of no pixel that was rendered
/// before it, in row-major order, and each of those bytes lies in the buffer.
proof fn lemma_write_keeps_others(width: int, height: int, column: int, row: int)
    requires
        0 <= column < width,
        0 <= row < height,
    ensures
        forall|c: int, r: int|
            0 <= c < width && 0 <= r < row ==> {
                let at = #[trigger] offset(width, c, r);
                0 <= at < width * height && at != offset(width, column, row)
            },
        forall|c: int|
            0 <= c < column ==> {
                let at = #[trigger] offset(width, c, row);
                0 <= at < width * height && at != offset(width, column, row)
            },
{
    assert forall|c: int, r: int| 0 <= c < width && 0 <= r < row implies {
        let at = #[trigger] offset(width, c, r);
        0 <= at < width * height && at != offset(width, column, row)
    } by {
        lemma_offset_within_row(width, height, c, r);
        if offset(width, c, r) == offset(width, column, row) {
            lemma_offset_injective(width, c, r, column, row);
        }
    }
    assert forall|c: int| 0 <= c < column implies {
        let at = #[trigger] offset(width, c, row);
        0 <= at < width * height && at != offset(width, column, row)
    } by {
        lemma_offset_within_row(width, height, c, row);
    }
}

/// The plane's arithmetic is made of functions: a pixel stands for one point,
/// and on the orbit of every point the bounds test and the step are functions.
pub open spec fn plane_functional<C, S, P: Fn(Pixel) -> C, B: Fn(S) -> bool, A: Fn(C, S) -> S>(
    plane: Plane<S, P, B, A>,
) -> bool {
    &&& forall|p: Pixel, c1: C, c2: C|
        #![trigger plane.point.ensures((p,), c1), plane.point.ensures((p,), c2)]
        plane.point.ensures((p,), c1) && plane.point.ensures((p,), c2) ==> c1 == c2
    &&& forall|c: C| #[trigger] orbit_functional(c, plane.in_bounds, plane.advance)
}

/// Every index of the buffer is the offset of one pixel of the grid.
proof fn lemma_offset_covers(width: int, height: int, at: int) -> (place: (int, int))
    requires
        0 <= at < width * height,
        0 <= height,
    ensures
        0 <= place.0 < width,
        0 <= place.1 < height,
        offset(width, place.0, place.1) == at,
{
    assert(width > 0) by (nonlinear_arith)
        requires
            0 <= at < width * height,
            0 <= height,
    ;
    let column = at % width;
    let row = at / width;
    vstd::arithmetic::div_mod::lemma_fundamental_div_mod(at, width);
    vstd::arithmetic::div_mod::lemma_mod_bound(at, width);
    assert(width * row == row * width) by (nonlinear_arith);
    assert(0 <= row < height) by (nonlinear_arith)
        requires
            0 < width,
            0 <= column < width,
            row * width + column == at,
            0 <= at < width * height,
    ;
    (column, row)
}

/// A pixel has one escape time, where the plane's arithmetic is made of
/// functions.
proof fn lemma_pixel_escape_time_unique<C, S, P: Fn(Pixel) -> C, B: Fn(S) -> bool, A: Fn(C, S) -> S>(
    count1: u16,
    count2: u16,
    pixel: Pixel,
    max_iter: u16,
    plane: Plane<S, P, B, A>,
)
    requires
        plane_functional(plane),
        pixel_escapes_at(count1, pixel, max_iter, plane),
        pixel_escapes_at(count2, pixel, max_iter, plane),
    ensures
        count1 == count2,
{
    let c1 = choose|c: C|
        {
            &&& #[trigger] plane.point.ensures((pixel,), c)
            &&& escapes_at(count1, c, plane.start, max_iter, plane.in_bounds, plane.advance)
        };
    let c2 = choose|c: C|
        {
            &&& #[trigger] plane.point.ensures((pixel,), c)
            &&& escapes_at(count2, c, plane.start, max_iter, plane.in_bounds, plane.advance)
        };
    assert(c1 == c2);
    assert(orbit_functional(c1, plane.in_bounds, plane.advance));
    lemma_escape_time_unique(
        count1,
        count2,
        c1,
        plane.start,
        max_iter,
        plane.in_bounds,
        plane.advance,
    );
}

/// Rendering is a function of its inputs: where the plane's arithmetic is made
/// of functions, any two rasters of the same grid under the same budget are
/// equal byte for byte.
///
/// Both renderers return such a raster, the parallel one whichever workers it
/// was given. So two renderings of the same inputs agree, be they sequential or
/// parallel, and whatever the number of workers.
pub proof fn lemma_raster_unique<C, S, P: Fn(Pixel) -> C, B: Fn(S) -> bool, A: Fn(C, S) -> S>(
    first: Seq<u8>,
    second: Seq<u8>,
    width: usize,
    height: usize,
    max_iter: u16,
    plane: Plane<S, P, B, A>,
)
    requires
        plane_functional(plane),
        is_raster(first, width, height, max_iter, plane),
        is_raster(second, width, height, max_iter, plane),
    ensures
        first == second,
{
    assert forall|at: int| 0 <= at < first.len() implies first[at] == second[at] by {
        let (column, row) = lemma_offset_covers(width as int, height as int, at);
        assert(offset(width as int, column, row) == at);
        let p = pixel_at(width, height, column, row);
        assert(cell_rendered(first[at], p, max_iter, plane));
        assert(cell_rendered(second[at], p, max_iter, plane));
        let count1 = choose|count: u16| #[trigger]
            pixel_escapes_at(count, p, max_iter, plane) && first[at] == capped(count);
        let count2 = choose|count: u16| #[trigger]
            pixel_escapes_at(count, p, max_iter, plane) && second[at] == capped(count);
        lemma_pixel_escape_time_unique(count1, count2, p, max_iter, plane);
    }
    assert(first =~= second);
}

/// Under a budget of at most 255 nothing is lost: every byte of a raster is
/// itself an escape time of its pixel's point.
pub proof fn lemma_small_budget_exact<C, S, P: Fn(Pixel) -> C, B: Fn(S) -> bool, A: Fn(C, S) -> S>(
    buffer: Seq<u8>,
    width: usize,
    height: usize,
    max_iter: u16,
    plane: Plane<S, P, B, A>,
)
    requires
        max_iter <= 255,
        is_raster(buffer, width, height, max_iter, plane),
    ensures
        forall|column: int, row: int|
            0 <= column < width && 0 <= row < height ==> pixel_escapes_at(
                buffer[#[trigger] offset(width as int, column, row)] as u16,
                pixel_at(width, height, column, row),
                max_iter,
                plane,
            ),
{
    assert forall|column: int, row: int|
        0 <= column < width && 0 <= row < height implies pixel_escapes_at(
        buffer[#[trigger] offset(width as int, column, row)] as u16,
        pixel_at(width, height, column, row),
        max_iter,
        plane,
    ) by {
        let p = pixel_at(width, height, column, row);
        let at = offset(width as int, column, row);
        assert(cell_rendered(buffer[at], p, max_iter, plane));
        let count = choose|count: u16| #[trigger]
            pixel_escapes_at(count, p, max_iter, plane) && buffer[at] == capped(count);
        lemma_escape_within_budget(count, p, max_iter, plane);
        assert(buffer[at] as u16 == count);
    }
}

/// Under a budget above 255 every byte of a raster is the smaller of 255 and an
/// escape time of its pixel's point: every escape time from 255 on is stored as
/// 255.
pub proof fn lemma_large_budget_capped<C, S, P: Fn(Pixel) -> C, B: Fn(S) -> bool, A: Fn(C, S) -> S>(
    buffer: Seq<u8>,
    width: usize,
    height: usize,
    max_iter: u16,
    plane: Plane<S, P, B, A>,
    column: int,
    row: int,
)
    requires
        max_iter > 255,
        is_raster(buffer, width, height, max_iter, plane),
        0 <= column < width,
        0 <= row < height,
    ensures
        exists|count: u16|
            {
                &&& #[trigger] pixel_escapes_at(
                    count,
                    pixel_at(width, height, column, row),
                    max_iter,
                    plane,
                )
                &&& buffer[offset(width as int, column, row)] == if count < 255 {
                    count
                } else {
                    255
                }
            },
{
    let p = pixel_at(width, height, column, row);
    let at = offset(width as int, column, row);
    assert(cell_rendered(buffer[at], p, max_iter, plane));
    let count = choose|count: u16| #[trigger]
        pixel_escapes_at(count, p, max_iter, plane) && buffer[at] == capped(count);
    assert(pixel_escapes_at(count, p, max_iter, plane));
}

/// The raster of a grid of one by one is the byte of the pixel with index 0
/// over span 1 on both axes: the one pixel lies on the lower bound of each
/// axis, and no index is divided by 0.
pub proof fn lemma_single_pixel_raster<C, S, P: Fn(Pixel) -> C, B: Fn(S) -> bool, A: Fn(C, S) -> S>(
    buffer: Seq<u8>,
    max_iter: u16,
    plane: Plane<S, P, B, A>,
)
    requires
        is_raster(buffer, 1, 1, max_iter, plane),
    ensures
        buffer.len() == 1,
        cell_rendered(
            buffer[0],
            Pixel { column: 0, row: 0, column_span: 1, row_span: 1 },
            max_iter,
            plane,
        ),
{
    assert(offset(1, 0, 0) == 0);
    lemma_single_pixel(0, 0);
}

/// No escape time of a pixel exceeds the budget.
pub proof fn lemma_escape_within_budget<C, S, P: Fn(Pixel) -> C, B: Fn(S) -> bool, A: Fn(C, S) -> S>(
    count: u16,
    pixel: Pixel,
    max_iter: u16,
    plane: Plane<S, P, B, A>,
)
    requires
        pixel_escapes_at(count, pixel, max_iter, plane),
    ensures
        count <= max_iter,
{
}

} // verus!
