use raster_tiles::background::Background;
use raster_tiles::composite::{check_band_count, Compositor, ReadRequest, Resampling};
use raster_tiles::error::ReadError;
use raster_tiles::window::{PixelBounds, PixelWindow};

fn bounds(min_x: isize, max_x: isize, min_y: isize, max_y: isize) -> PixelBounds {
    PixelBounds { min_x, max_x, min_y, max_y }
}

fn window(x: usize, y: usize, width: usize, height: usize, clamped_left: bool) -> PixelWindow {
    PixelWindow {
        x,
        y,
        width,
        height,
        clamped_left,
        clamped_top: false,
        clamped_right: false,
        clamped_bottom: false,
    }
}

fn error_of(r: Result<Compositor, ReadError>) -> Option<ReadError> {
    match r {
        Ok(_) => None,
        Err(e) => Some(e),
    }
}

#[test]
fn two_or_five_bands_are_refused() {
    for bands in [0usize, 1, 2, 5, 6, 255] {
        assert_eq!(check_band_count(bands), Err(ReadError::BandCountError));
        for background in [Background::Alpha, Background::Rgb(1, 2, 3)] {
            for b in [bounds(0, 10, 0, 10), bounds(-5, 500, -5, 500), bounds(3, 3, 0, 10)] {
                let r = Compositor::begin(bands, (100, 100), b, (16, 16), background);
                assert_eq!(error_of(r), Some(ReadError::BandCountError));
            }
        }
    }
    assert_eq!(check_band_count(3), Ok(()));
    assert_eq!(check_band_count(4), Ok(()));
}

#[test]
fn degenerate_box_is_refused_after_the_band_count() {
    let r = Compositor::begin(3, (100, 100), bounds(3, 3, 0, 10), (16, 16), Background::Alpha);
    assert_eq!(error_of(r), Some(ReadError::DegenerateWindow));
    let r = Compositor::begin(4, (100, 100), bounds(0, 10, 7, 7), (16, 16), Background::Alpha);
    assert_eq!(error_of(r), Some(ReadError::DegenerateWindow));
}

fn request(band: usize, mask: bool, window: PixelWindow, width: usize, height: usize) -> ReadRequest {
    ReadRequest { band, mask, window, width, height, resampling: Resampling::NearestNeighbour }
}

#[test]
fn three_bands_are_read_mask_first_and_copied() {
    let mut c =
        Compositor::begin(3, (10, 10), bounds(2, 4, 3, 5), (2, 2), Background::Rgb(7, 8, 9)).unwrap();
    assert!(!c.has_alpha());
    let window = window(2, 3, 2, 2, false);
    assert_eq!(c.plan().window, window);
    let mut asked = Vec::new();
    let masks = [vec![255, 255, 0, 255], vec![0, 255, 255, 255], vec![255, 0, 255, 255]];
    let bands = [vec![10, 11, 12, 13], vec![20, 21, 22, 23], vec![30, 31, 32, 33]];
    while let Some(next) = c.next_read() {
        asked.push(next);
        let samples = if next.mask { &masks[next.band - 1] } else { &bands[next.band - 1] };
        c.supply(samples.clone());
    }
    assert_eq!(
        asked,
        vec![
            request(1, true, window, 2, 2),
            request(1, false, window, 2, 2),
            request(2, true, window, 2, 2),
            request(2, false, window, 2, 2),
            request(3, true, window, 2, 2),
            request(3, false, window, 2, 2),
        ]
    );
    let (has_alpha, pixels) = c.finish();
    assert!(!has_alpha);
    assert_eq!(pixels, vec![10, 8, 30, 11, 21, 9, 7, 22, 32, 13, 23, 33]);
}

#[test]
fn four_bands_over_transparency_are_blended_and_premultiplied() {
    let mut c =
        Compositor::begin(4, (10, 10), bounds(0, 1, 0, 1), (1, 1), Background::Alpha).unwrap();
    assert!(c.has_alpha());
    let window = window(0, 0, 1, 1, false);
    let mut asked = Vec::new();
    let bands = [200u8, 100, 0, 128];
    while let Some(next) = c.next_read() {
        asked.push(next);
        let sample = if next.mask { 255 } else { bands[next.band - 1] };
        c.supply(vec![sample]);
    }
    assert_eq!(
        asked,
        vec![
            request(4, false, window, 1, 1),
            request(1, true, window, 1, 1),
            request(1, false, window, 1, 1),
            request(2, true, window, 1, 1),
            request(2, false, window, 1, 1),
            request(3, true, window, 1, 1),
            request(3, false, window, 1, 1),
            request(4, true, window, 1, 1),
            request(4, false, window, 1, 1),
        ]
    );
    let (has_alpha, pixels) = c.finish();
    assert!(has_alpha);
    // Blended over nothing at alpha 128: 100, 50, 0, 64; then the colours
    // scaled by 64 of 255.
    assert_eq!(pixels, vec![25, 12, 0, 64]);
}

#[test]
fn four_bands_over_a_colour_give_three_samples() {
    let mut c =
        Compositor::begin(4, (10, 10), bounds(0, 1, 0, 1), (1, 1), Background::Rgb(1, 2, 3)).unwrap();
    assert!(!c.has_alpha());
    let mut reads = 0;
    while let Some(next) = c.next_read() {
        assert!(next.band <= 3);
        reads += 1;
        c.supply(vec![if next.mask { 0 } else { 99 }]);
    }
    assert_eq!(reads, 6);
    assert_eq!(c.finish(), (false, vec![1, 2, 3]));
}

#[test]
fn output_length_is_width_by_height_by_channels() {
    for (bands, background, channels) in [
        (3usize, Background::Alpha, 3usize),
        (3, Background::Rgb(0, 0, 0), 3),
        (4, Background::Alpha, 4),
        (4, Background::Rgb(0, 0, 0), 3),
    ] {
        for size in [(0usize, 0usize), (1, 1), (5, 3), (16, 16)] {
            let mut c =
                Compositor::begin(bands, (100, 100), bounds(-5, 50, 20, 300), size, background)
                    .unwrap();
            let count = c.plan().read_width * c.plan().read_height;
            while let Some(_) = c.next_read() {
                c.supply(vec![200; count]);
            }
            let (has_alpha, pixels) = c.finish();
            assert_eq!(has_alpha, channels == 4);
            assert_eq!(pixels.len(), size.0 * size.1 * channels);
        }
    }
}

#[test]
fn columns_before_the_offset_keep_the_background() {
    // The box starts two pixels before the raster: half of the output's
    // columns have nothing to show.
    let mut c =
        Compositor::begin(3, (10, 10), bounds(-2, 2, 0, 4), (4, 4), Background::Rgb(9, 8, 7)).unwrap();
    let plan = c.plan();
    assert_eq!(plan.window, window(0, 0, 2, 4, true));
    assert_eq!((plan.read_width, plan.read_height), (2, 4));
    assert_eq!((plan.off_x, plan.off_y), (2, 0));
    while let Some(next) = c.next_read() {
        let sample = if next.mask { 255 } else { 100 + next.band as u8 };
        c.supply(vec![sample; 8]);
    }
    let (_, pixels) = c.finish();
    for row in 0..4 {
        for col in 0..4 {
            let at = (row * 4 + col) * 3;
            let pixel = &pixels[at..at + 3];
            if col < plan.off_x {
                assert_eq!(pixel, &[9, 8, 7]);
            } else {
                assert_eq!(pixel, &[101, 102, 103]);
            }
        }
    }
}

#[test]
fn transparent_tile_outside_the_raster_stays_empty() {
    let mut c =
        Compositor::begin(4, (10, 10), bounds(20, 30, 20, 30), (4, 4), Background::Alpha).unwrap();
    assert_eq!((c.plan().read_width, c.plan().read_height), (0, 0));
    let mut reads = 0;
    while let Some(next) = c.next_read() {
        assert_eq!((next.width, next.height), (0, 0));
        c.supply(Vec::new());
        reads += 1;
    }
    assert_eq!(reads, 9);
    assert_eq!(c.finish(), (true, vec![0; 64]));
}

#[test]
fn masked_out_samples_keep_the_background() {
    let mut c =
        Compositor::begin(4, (4, 4), bounds(0, 2, 0, 1), (2, 1), Background::Alpha).unwrap();
    while let Some(next) = c.next_read() {
        let samples = if next.mask { vec![0, 255] } else { vec![255, 255] };
        c.supply(samples);
    }
    assert_eq!(c.finish(), (true, vec![0, 0, 0, 0, 255, 255, 255, 255]));
}

#[test]
fn a_tile_of_common_size_is_composited() {
    let mut c = Compositor::begin(4, (4096, 4096), bounds(-128, 384, 3968, 4480), (256, 256), Background::Alpha)
        .unwrap();
    let plan = c.plan();
    assert_eq!((plan.window.x, plan.window.y), (0, 3968));
    assert_eq!((plan.window.width, plan.window.height), (384, 128));
    assert_eq!((plan.read_width, plan.read_height), (192, 64));
    assert_eq!((plan.off_x, plan.off_y), (64, 0));
    let count = plan.read_width * plan.read_height;
    while let Some(next) = c.next_read() {
        let sample = if next.mask { 255 } else if next.band == 4 { 255 } else { 40 * next.band as u8 };
        c.supply(vec![sample; count]);
    }
    let (has_alpha, pixels) = c.finish();
    assert!(has_alpha);
    assert_eq!(pixels.len(), 256 * 256 * 4);
    for row in 0..256 {
        for col in 0..256 {
            let at = (row * 256 + col) * 4;
            let expected: [u8; 4] =
                if row < 64 && col >= 64 { [40, 80, 120, 255] } else { [0, 0, 0, 0] };
            assert_eq!(&pixels[at..at + 4], &expected, "row {row}, column {col}");
        }
    }
}
