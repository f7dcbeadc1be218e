use escape_raster::grid::{axis_span, pixel, Pixel};

#[test]
fn span_is_extent_less_one_but_never_below_one() {
    assert_eq!(axis_span(0), 1);
    assert_eq!(axis_span(1), 1);
    assert_eq!(axis_span(2), 1);
    assert_eq!(axis_span(3), 2);
    assert_eq!(axis_span(100), 99);
    assert_eq!(axis_span(usize::MAX), usize::MAX - 1);
}

#[test]
fn pixel_carries_indices_and_spans() {
    assert_eq!(
        pixel(100, 50, 7, 9),
        Pixel { column: 7, row: 9, column_span: 99, row_span: 49 }
    );
    assert_eq!(
        pixel(2, 1, 1, 0),
        Pixel { column: 1, row: 0, column_span: 1, row_span: 1 }
    );
}

#[test]
fn single_pixel_has_index_zero_over_span_one() {
    assert_eq!(
        pixel(1, 1, 0, 0),
        Pixel { column: 0, row: 0, column_span: 1, row_span: 1 }
    );
}

#[test]
fn last_index_equals_span() {
    for extent in 2usize..50 {
        let p = pixel(extent, extent, extent - 1, extent - 1);
        assert_eq!(p.column, p.column_span);
        assert_eq!(p.row, p.row_span);
    }
}
