use raster_tiles::error::ReadError;
use raster_tiles::window::{resolve_axis, resolve_window, AxisWindow, PixelBounds, PixelWindow, ReadPlan};

fn window(x: usize, y: usize, width: usize, height: usize, clamped: [bool; 4]) -> PixelWindow {
    PixelWindow {
        x,
        y,
        width,
        height,
        clamped_left: clamped[0],
        clamped_top: clamped[1],
        clamped_right: clamped[2],
        clamped_bottom: clamped[3],
    }
}

fn axis(origin: usize, extent: usize, read: usize, offset: usize, clamped: [bool; 2]) -> AxisWindow {
    AxisWindow { origin, extent, read, offset, clamped_low: clamped[0], clamped_high: clamped[1] }
}

fn bounds(min_x: isize, max_x: isize, min_y: isize, max_y: isize) -> PixelBounds {
    PixelBounds { min_x, max_x, min_y, max_y }
}

#[test]
fn contained_window_fills_the_output() {
    let plan = resolve_window((1000, 800), bounds(100, 356, 50, 306), (256, 256)).unwrap();
    assert_eq!(
        plan,
        ReadPlan {
            window: window(100, 50, 256, 256, [false; 4]),
            read_width: 256,
            read_height: 256,
            off_x: 0,
            off_y: 0,
            out_width: 256,
            out_height: 256,
        }
    );
}

#[test]
fn contained_window_is_scaled_to_the_output() {
    let plan = resolve_window((1024, 1024), bounds(0, 1024, 512, 1024), (256, 100)).unwrap();
    assert_eq!(plan.window, window(0, 512, 1024, 512, [false; 4]));
    assert_eq!((plan.read_width, plan.read_height), (256, 100));
    assert_eq!((plan.off_x, plan.off_y), (0, 0));
}

#[test]
fn window_over_the_low_edge_lands_at_the_high_edge() {
    let plan = resolve_window((1000, 1000), bounds(-100, 156, -64, 192), (256, 256)).unwrap();
    assert_eq!(plan.window, window(0, 0, 156, 192, [true, true, false, false]));
    assert_eq!((plan.read_width, plan.read_height), (156, 192));
    assert_eq!((plan.off_x, plan.off_y), (100, 64));
    assert_eq!(plan.off_x, 256 - plan.read_width);
    assert_eq!(plan.off_y, 256 - plan.read_height);
}

#[test]
fn window_over_the_high_edge_lands_at_the_low_edge() {
    let plan = resolve_window((1000, 1000), bounds(900, 1156, 800, 1312), (256, 256)).unwrap();
    assert_eq!(plan.window, window(900, 800, 100, 200, [false, false, true, true]));
    assert_eq!((plan.read_width, plan.read_height), (100, 100));
    assert_eq!((plan.off_x, plan.off_y), (0, 0));
}

#[test]
fn window_that_holds_the_raster_places_it_in_proportion() {
    let plan = resolve_window((100, 50), bounds(-100, 300, -50, 150), (256, 256)).unwrap();
    assert_eq!(plan.window, window(0, 0, 100, 50, [true; 4]));
    assert_eq!((plan.read_width, plan.read_height), (64, 64));
    assert_eq!((plan.off_x, plan.off_y), (64, 64));
}

#[test]
fn offset_of_an_enclosing_window_is_rounded_to_nearest() {
    // 256 * 2 / 3 = 170.67 rounds to 171; 256 * 1 / 3 = 85.33 is cut to 85.
    assert_eq!(
        resolve_axis(-2, 1, 1, 256),
        Some(axis(0, 1, 85, 171, [true, false]))
    );
    // 256 * 1 / 3 = 85.33 rounds to 85.
    assert_eq!(
        resolve_axis(-1, 2, 1, 256),
        Some(axis(0, 1, 85, 85, [true, true]))
    );
    // 5 * 1 / 2 = 2.5 rounds up to 3.
    assert_eq!(
        resolve_axis(-1, 1, 1, 5),
        Some(axis(0, 1, 2, 3, [true, false]))
    );
}

#[test]
fn box_without_width_or_height_is_degenerate() {
    assert_eq!(
        resolve_window((100, 100), bounds(5, 5, 0, 10), (256, 256)),
        Err(ReadError::DegenerateWindow)
    );
    assert_eq!(
        resolve_window((100, 100), bounds(0, 10, -3, -3), (256, 256)),
        Err(ReadError::DegenerateWindow)
    );
    assert_eq!(resolve_axis(7, 7, 100, 256), None);
}

#[test]
fn window_outside_the_raster_reads_nothing() {
    // Beyond the high edge: the origin is brought back to the edge.
    assert_eq!(
        resolve_axis(2000, 2256, 1000, 256),
        Some(axis(1000, 0, 0, 256, [true, true]))
    );
    // Before the low edge.
    assert_eq!(
        resolve_axis(-512, -256, 1000, 256),
        Some(axis(0, 0, 0, 256, [true, false]))
    );
}

#[test]
fn inverted_box_reads_nothing() {
    assert_eq!(
        resolve_axis(10, 5, 100, 256),
        Some(axis(10, 0, 0, 0, [false, false]))
    );
    assert_eq!(
        resolve_axis(-5, -10, 100, 256),
        Some(axis(0, 0, 0, 256, [true, false]))
    );
}

#[test]
fn extreme_coordinates_are_resolved() {
    let axis = resolve_axis(isize::MIN, isize::MAX, 1000, 256).unwrap();
    assert_eq!(axis.origin, 0);
    assert_eq!(axis.extent, 1000);
    assert_eq!(axis.read, 0);
    assert_eq!(axis.offset, 128);
    let axis = resolve_axis(isize::MAX, isize::MIN, usize::MAX, usize::MAX).unwrap();
    assert_eq!(axis.extent, 0);
    assert_eq!(axis.read, 0);
    assert_eq!(axis.offset, 0);
    let axis = resolve_axis(0, isize::MAX, usize::MAX, usize::MAX).unwrap();
    assert_eq!(axis.origin, 0);
    assert_eq!(axis.extent, isize::MAX as usize);
    assert_eq!(axis.read, usize::MAX);
    assert_eq!(axis.offset, 0);
}

#[test]
fn read_size_and_offset_fit_the_output() {
    for low in -12isize..12 {
        for high in -12isize..12 {
            for raster in 0usize..8 {
                for out in [0usize, 1, 3, 7, 256] {
                    match resolve_axis(low, high, raster, out) {
                        None => assert_eq!(low, high),
                        Some(axis) => {
                            assert!(axis.offset + axis.read <= out);
                            assert!(axis.origin + axis.extent <= raster);
                        }
                    }
                }
            }
        }
    }
}
