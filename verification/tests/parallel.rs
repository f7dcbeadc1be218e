use escape_raster::grid::Pixel;
use escape_raster::parallel::{
    fill_row, mandelbrot_in, mandelbrot_parallel, render_built, render_rows, worker_choice,
    RenderError, WorkerChoice,
};
use escape_raster::raster::{mandelbrot, Plane};

type Point = (f64, f64);

fn in_bounds(z: Point) -> bool {
    z.0 * z.0 + z.1 * z.1 <= 4.0
}

fn advance(c: Point, z: Point) -> Point {
    (z.0 * z.0 - z.1 * z.1 + c.0, 2.0 * z.0 * z.1 + c.1)
}

fn along(min: f64, max: f64, index: usize, span: usize) -> f64 {
    min + (max - min) * (index as f64) / (span as f64)
}

fn viewport(
    xmin: f64,
    xmax: f64,
    ymin: f64,
    ymax: f64,
) -> Plane<Point, impl Fn(Pixel) -> Point + Sync, fn(Point) -> bool, fn(Point, Point) -> Point> {
    Plane {
        point: move |p: Pixel| {
            (along(xmin, xmax, p.column, p.column_span), along(ymin, ymax, p.row, p.row_span))
        },
        start: (0.0, 0.0),
        in_bounds,
        advance,
    }
}

/// A plane of integers in which the pixel at `column` and `row` escapes after
/// `10 * row + column + 1` steps.
fn counting_plane() -> Plane<
    (u16, u16),
    fn(Pixel) -> u16,
    fn((u16, u16)) -> bool,
    fn(u16, (u16, u16)) -> (u16, u16),
> {
    fn point(p: Pixel) -> u16 {
        (10 * p.row + p.column + 1) as u16
    }
    fn below_target(z: (u16, u16)) -> bool {
        z.0 < z.1
    }
    fn step(target: u16, z: (u16, u16)) -> (u16, u16) {
        (z.0 + 1, target)
    }
    Plane { point, start: (0, u16::MAX), in_bounds: below_target, advance: step }
}

/// An error as the runtime gives it: a pool that is to take over the current
/// thread cannot be built on a thread that already works for another pool.
fn refused_pool() -> rayon::ThreadPoolBuildError {
    let outer = rayon::ThreadPoolBuilder::new().num_threads(1).build().unwrap();
    let built = outer.install(|| rayon::ThreadPoolBuilder::new().use_current_thread().build());
    match built {
        Ok(_) => panic!("a pool was built on a worker of another pool"),
        Err(error) => error,
    }
}

#[test]
fn no_request_and_zero_select_the_ambient_pool() {
    assert_eq!(worker_choice(None), WorkerChoice::Ambient);
    assert_eq!(worker_choice(Some(0)), WorkerChoice::Ambient);
}

#[test]
fn one_or_more_select_a_pool_of_that_size() {
    assert_eq!(worker_choice(Some(1)), WorkerChoice::Exactly(1));
    assert_eq!(worker_choice(Some(8)), WorkerChoice::Exactly(8));
    assert_eq!(worker_choice(Some(usize::MAX)), WorkerChoice::Exactly(usize::MAX));
}

#[test]
fn parallel_equals_sequential_for_every_worker_count() {
    let plane = viewport(-2.0, 1.0, -1.5, 1.5);
    let sequential = mandelbrot(100, 100, 100, &plane);
    assert_eq!(sequential.len(), 10_000);
    for threads in [None, Some(0), Some(1), Some(2), Some(3), Some(8)] {
        let parallel = mandelbrot_parallel(100, 100, 100, &plane, threads).unwrap();
        assert_eq!(parallel, sequential);
    }
}

#[test]
fn parallel_equals_sequential_on_uneven_grids() {
    let plane = viewport(-0.8, -0.7, 0.05, 0.15);
    for (width, height) in [(1usize, 1usize), (1, 13), (13, 1), (7, 5), (33, 17)] {
        let sequential = mandelbrot(width, height, 300, &plane);
        for threads in [None, Some(1), Some(2)] {
            assert_eq!(mandelbrot_parallel(width, height, 300, &plane, threads).unwrap(), sequential);
        }
    }
}

#[test]
fn two_parallel_renderings_are_byte_identical() {
    let plane = viewport(-2.0, 1.0, -1.5, 1.5);
    let first = mandelbrot_parallel(50, 40, 60, &plane, Some(4)).unwrap();
    let second = mandelbrot_parallel(50, 40, 60, &plane, Some(4)).unwrap();
    assert_eq!(first, second);
}

#[test]
fn empty_grid_succeeds_with_empty_buffer() {
    let plane = viewport(-2.0, 1.0, -1.5, 1.5);
    for threads in [None, Some(0), Some(1), Some(2)] {
        assert_eq!(mandelbrot_parallel(0, 0, 10, &plane, threads).unwrap(), Vec::<u8>::new());
        assert_eq!(mandelbrot_parallel(0, 9, 10, &plane, threads).unwrap(), Vec::<u8>::new());
        assert_eq!(mandelbrot_parallel(9, 0, 10, &plane, threads).unwrap(), Vec::<u8>::new());
    }
    assert_eq!(mandelbrot_in(None, 0, 9, 10, &plane), Vec::<u8>::new());
}

#[test]
fn parallel_buffer_is_row_major() {
    let plane = counting_plane();
    for threads in [None, Some(1), Some(2)] {
        let out = mandelbrot_parallel(3, 2, 100, &plane, threads).unwrap();
        assert_eq!(out, vec![1, 2, 3, 11, 12, 13]);
    }
}

#[test]
fn parallel_caps_large_counts() {
    let plane = counting_plane();
    let out = mandelbrot_parallel(2, 31, 1000, &plane, Some(2)).unwrap();
    assert_eq!(out.len(), 62);
    assert_eq!(out[24 * 2], 241);
    assert_eq!(out[25 * 2 + 1], 252);
    assert_eq!(out[25 * 2 + 1], (10 * 25 + 1 + 1) as u8);
    assert_eq!(out[26 * 2], 255);
    assert_eq!(out[30 * 2 + 1], 255);
}

#[test]
fn renders_in_a_pool_handed_in() {
    let plane = viewport(-2.0, 1.0, -1.5, 1.5);
    let sequential = mandelbrot(40, 30, 90, &plane);
    let pool = rayon::ThreadPoolBuilder::new().num_threads(3).build().unwrap();
    assert_eq!(mandelbrot_in(Some(&pool), 40, 30, 90, &plane), sequential);
    assert_eq!(mandelbrot_in(None, 40, 30, 90, &plane), sequential);
}

#[test]
fn pool_that_was_built_renders() {
    let plane = viewport(-2.0, 1.0, -1.5, 1.5);
    let sequential = mandelbrot(40, 30, 90, &plane);
    let built = rayon::ThreadPoolBuilder::new().num_threads(2).build();
    assert_eq!(render_built(built, 40, 30, 90, &plane).unwrap(), sequential);
}

#[test]
fn pool_that_was_not_built_fails_the_rendering() {
    let plane = viewport(-2.0, 1.0, -1.5, 1.5);
    let text = refused_pool().to_string();
    assert!(!text.is_empty());
    match render_built(Err(refused_pool()), 40, 30, 90, &plane) {
        Ok(_) => panic!("rendered without a pool"),
        Err(RenderError::PoolConstruction(message)) => assert_eq!(message, text),
    }
}

#[test]
fn rows_of_a_buffer_are_rendered_in_place() {
    let plane = counting_plane();
    let mut out = vec![0u8; 8];
    render_rows(&mut out, 4, 2, 100, &plane);
    assert_eq!(out, vec![1, 2, 3, 4, 11, 12, 13, 14]);
}

#[test]
fn one_row_is_filled_column_by_column() {
    let plane = counting_plane();
    let mut cells = [0u8; 5];
    fill_row(&mut cells, 5, 9, 7, 100, &plane);
    assert_eq!(cells, [71, 72, 73, 74, 75]);
}
