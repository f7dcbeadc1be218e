//! Rendering across a pool of workers, row by row.

use vstd::prelude::*;
use rayon::iter::{IndexedParallelIterator, ParallelIterator};
use rayon::slice::ParallelSliceMut;
use crate::grid::{
    lemma_empty_grid, lemma_offset_within_row, lemma_row_within_buffer, offset, pixel_at, Pixel,
};
use crate::raster::{cell_rendered, is_raster, plane_total, render_cell, row_rendered, Plane};

verus! {

/// A pool of worker threads, as `rayon` builds it.
#[verifier::external_type_specification]
#[verifier::external_body]
pub struct ExThreadPool(rayon::ThreadPool);

/// The reason for which `rayon` could not build a pool.
#[verifier::external_type_specification]
#[verifier::external_body]
pub struct ExThreadPoolBuildError(rayon::ThreadPoolBuildError);

/// Which workers render.
#[derive(Clone, Copy, Debug, PartialEq, Eq)]
pub enum WorkerChoice {
    /// The ambient pool, sized by the runtime.
    Ambient,
    /// A pool of the caller's size, built for the one rendering.
    Exactly(usize),
}

/// The only failure of rendering: the pool that the caller asked for could not
/// be built.
#[derive(Debug)]
pub enum RenderError {
    /// The runtime's account of why no pool was built.
    PoolConstruction(String),
}

/// The workers that a request for `threads` workers selects: a pool of that
/// size for a request of 1 or more, the ambient pool for none or for 0.
pub open spec fn choice_of(threads: Option<usize>) -> WorkerChoice {
    match threads {
        Some(n) if n >= 1 => WorkerChoice::Exactly(n),
        _ => WorkerChoice::Ambient,
    }
}

/// Selects the workers for a request.
pub fn worker_choice(threads: Option<usize>) -> (choice: WorkerChoice)
    ensures
        choice == choice_of(threads),
{
    match threads {
        Some(n) if n >= 1 => WorkerChoice::Exactly(n),
        _ => WorkerChoice::Ambient,
    }
}

/// Renders row `row` into `cells`, column by column.
pub fn fill_row<C: Copy, S: Copy, P: Fn(Pixel) -> C, B: Fn(S) -> bool, A: Fn(C, S) -> S>(
    cells: &mut [u8],
    width: usize,
    height: usize,
    row: usize,
    max_iter: u16,
    plane: &Plane<S, P, B, A>,
)
    requires
        old(cells)@.len() == width,
        row < height,
        plane_total(*plane, width, height),
    ensures
        row_rendered(final(cells)@, width, height, row as int, max_iter, *plane),
{
    for i in 0..width
        invariant
            cells@.len() == width,
            row < height,
            plane_total(*plane, width, height),
            forall|column: int|
                0 <= column < i ==> cell_rendered(
                    #[trigger] cells@[column],
                    pixel_at(width, height, column, row as int),
                    max_iter,
                    *plane,
                ),
    {
        let v = render_cell(width, height, i, row, max_iter, plane);
        cells[i] = v;
    }
}

/// Calls `rayon`'s `par_chunks_mut`, `enumerate` and `for_each`: the buffer is
/// cut into consecutive rows of `width` bytes, each row is paired with its
/// index, and `fill_row` runs once on each pair, on whichever worker takes it.
///
/// Claimed of `rayon`: the rows are exactly the consecutive chunks of `width`
/// bytes, numbered from 0 in buffer order, every one of them is visited, and
/// nothing but the visits changes the buffer. Each row then ends as `fill_row`
/// leaves it.
///
/// `par_chunks_mut` panics on chunks of 0 bytes; a `width` of 1 or more keeps
/// clear of that. Called outside a pool, the iterator runs in `rayon`'s global
/// pool, which is started on first use; `rayon` panics if the host then gives
/// it no thread, and nothing stated here covers that.
#[verifier::external_body]
fn for_each_row<C, S, P, B, A>(
    out: &mut Vec<u8>,
    width: usize,
    height: usize,
    max_iter: u16,
    plane: &Plane<S, P, B, A>,
) where
    C: Copy,
    S: Copy + Sync,
    P: Fn(Pixel) -> C + Sync,
    B: Fn(S) -> bool + Sync,
    A: Fn(C, S) -> S + Sync,

    requires
        width >= 1,
        old(out)@.len() == width * height,
        plane_total(*plane, width, height),
    ensures
        final(out)@.len() == old(out)@.len(),
        forall|row: int|
            0 <= row < height ==> row_rendered(
                final(out)@.subrange(
                    #[trigger] offset(width as int, 0, row),
                    offset(width as int, 0, row + 1),
                ),
                width,
                height,
                row,
                max_iter,
                *plane,
            ),
{
    out.par_chunks_mut(width).enumerate().for_each(
        |(row, cells)| fill_row(cells, width, height, row, max_iter, plane),
    );
}

/// Renders every row of the buffer, the rows handed out to the workers of the
/// pool in which the call runs.
pub fn render_rows<C, S, P, B, A>(
    out: &mut Vec<u8>,
    width: usize,
    height: usize,
    max_iter: u16,
    plane: &Plane<S, P, B, A>,
) where
    C: Copy,
    S: Copy + Sync,
    P: Fn(Pixel) -> C + Sync,
    B: Fn(S) -> bool + Sync,
    A: Fn(C, S) -> S + Sync,

    requires
        width >= 1,
        old(out)@.len() == width * height,
        plane_total(*plane, width, height),
    ensures
        is_raster(final(out)@, width, height, max_iter, *plane),
{
    for_each_row(out, width, height, max_iter, plane);
    proof {
        assert forall|column: int, row: int|
            0 <= column < width && 0 <= row < height implies cell_rendered(
            out@[#[trigger] offset(width as int, column, row)],
            pixel_at(width, height, column, row),
            max_iter,
            *plane,
        ) by {
            lemma_row_within_buffer(width as int, height as int, row);
            lemma_offset_within_row(width as int, height as int, column, row);
            let cells = out@.subrange(
                offset(width as int, 0, row),
                offset(width as int, 0, row + 1),
            );
            assert(row_rendered(cells, width, height, row, max_iter, *plane));
            assert(cells[column] == out@[offset(width as int, column, row)]);
        }
    }
}

/// Calls `ThreadPool::install` of `rayon`, which runs its argument inside the
/// pool, waits for it and returns what it returned. The argument is one call of
/// `render_rows`.
///
/// Claimed of `rayon`: the call of `render_rows` is made once, with these
/// arguments, and is complete when `install` returns; so the buffer ends as
/// `render_rows` leaves it.
#[verifier::external_body]
fn install_rows<C, S, P, B, A>(
    pool: &rayon::ThreadPool,
    out: &mut Vec<u8>,
    width: usize,
    height: usize,
    max_iter: u16,
    plane: &Plane<S, P, B, A>,
) where
    C: Copy,
    S: Copy + Sync,
    P: Fn(Pixel) -> C + Sync,
    B: Fn(S) -> bool + Sync,
    A: Fn(C, S) -> S + Sync,

    requires
        width >= 1,
        old(out)@.len() == width * height,
        plane_total(*plane, width, height),
    ensures
        is_raster(final(out)@, width, height, max_iter, *plane),
{
    pool.install(|| render_rows(out, width, height, max_iter, plane));
}

/// Calls `ThreadPoolBuilder::new`, `num_threads` and `build` of `rayon`: asks
/// for a pool of `workers` threads.
///
/// Nothing is claimed of the outcome: whether the threads can be had is the
/// host's to say.
#[verifier::external_body]
fn build_pool(workers: usize) -> (built: Result<rayon::ThreadPool, rayon::ThreadPoolBuildError>) {
    rayon::ThreadPoolBuilder::new().num_threads(workers).build()
}

/// Calls `to_string` on `rayon`'s error, which formats it as its `Display`
/// does. Nothing is claimed of the text.
#[verifier::external_body]
fn describe(error: &rayon::ThreadPoolBuildError) -> (text: String) {
    error.to_string()
}

/// Renders the grid of `width` by `height` pixels across workers: those of
/// `pool` where one is given, else those of the ambient pool.
///
/// Each worker renders whole rows, and no two workers share a row.
pub fn mandelbrot_in<C, S, P, B, A>(
    pool: Option<&rayon::ThreadPool>,
    width: usize,
    height: usize,
    max_iter: u16,
    plane: &Plane<S, P, B, A>,
) -> (out: Vec<u8>) where
    C: Copy,
    S: Copy + Sync,
    P: Fn(Pixel) -> C + Sync,
    B: Fn(S) -> bool + Sync,
    A: Fn(C, S) -> S + Sync,

    requires
        width * height <= isize::MAX,
        plane_total(*plane, width, height),
    ensures
        is_raster(out@, width, height, max_iter, *plane),
        out@.len() == width * height,
        width == 0 || height == 0 ==> out@.len() == 0,
{
    proof {
        lemma_empty_grid(width as int, height as int);
    }
    if width == 0 || height == 0 {
        return Vec::new();
    }
    let mut out = vec![0u8; width * height];
    match pool {
        Some(workers) => install_rows(workers, &mut out, width, height, max_iter, plane),
        None => render_rows(&mut out, width, height, max_iter, plane),
    }
    out
}

/// Renders in the pool that an attempt to build one came to, or fails with the
/// runtime's account of why there is none.
///
/// A pool that was built is used for this rendering and dropped with it. Where
/// none was built nothing is rendered.
pub fn render_built<C, S, P, B, A>(
    built: Result<rayon::ThreadPool, rayon::ThreadPoolBuildError>,
    width: usize,
    height: usize,
    max_iter: u16,
    plane: &Plane<S, P, B, A>,
) -> (rendered: Result<Vec<u8>, RenderError>) where
    C: Copy,
    S: Copy + Sync,
    P: Fn(Pixel) -> C + Sync,
    B: Fn(S) -> bool + Sync,
    A: Fn(C, S) -> S + Sync,

    requires
        width * height <= isize::MAX,
        plane_total(*plane, width, height),
    ensures
        built is Ok <==> rendered is Ok,
        rendered is Ok ==> is_raster(rendered->Ok_0@, width, height, max_iter, *plane),
        rendered is Ok ==> rendered->Ok_0@.len() == width * height,
{
    match built {
        Ok(pool) => Ok(mandelbrot_in(Some(&pool), width, height, max_iter, plane)),
        Err(error) => Err(RenderError::PoolConstruction(describe(&error))),
    }
}

/// Renders the grid of `width` by `height` pixels across workers.
///
/// A request for 1 or more `threads` builds a pool of that size for this one
/// rendering; no request, or a request for 0, renders in the ambient pool. An
/// empty grid is rendered at once, and no pool is built for it. The rendering
/// fails only where the pool asked for cannot be built, before any pixel is
/// rendered.
pub fn mandelbrot_parallel<C, S, P, B, A>(
    width: usize,
    height: usize,
    max_iter: u16,
    plane: &Plane<S, P, B, A>,
    threads: Option<usize>,
) -> (rendered: Result<Vec<u8>, RenderError>) where
    C: Copy,
    S: Copy + Sync,
    P: Fn(Pixel) -> C + Sync,
    B: Fn(S) -> bool + Sync,
    A: Fn(C, S) -> S + Sync,

    requires
        width * height <= isize::MAX,
        plane_total(*plane, width, height),
    ensures
        rendered is Ok ==> is_raster(rendered->Ok_0@, width, height, max_iter, *plane),
        rendered is Ok ==> rendered->Ok_0@.len() == width * height,
        width == 0 || height == 0 ==> rendered is Ok && rendered->Ok_0@.len() == 0,
        choice_of(threads) is Ambient ==> rendered is Ok,
        rendered is Err ==> choice_of(threads) is Exactly && width >= 1 && height >= 1,
{
    if width == 0 || height == 0 {
        proof {
            lemma_empty_grid(width as int, height as int);
        }
        return Ok(Vec::new());
    }
    match worker_choice(threads) {
        WorkerChoice::Exactly(workers) => render_built(
            build_pool(workers),
            width,
            height,
            max_iter,
            plane,
        ),
        WorkerChoice::Ambient => Ok(mandelbrot_in(None, width, height, max_iter, plane)),
    }
}

} // verus!
