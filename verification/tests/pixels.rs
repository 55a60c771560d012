use raster_tiles::background::Background;
use raster_tiles::pixels::{
    background_channel, blend_band, blend_sample, fill_background, output_channels, premultiply,
    premultiply_sample,
};
use raster_tiles::window::{PixelWindow, ReadPlan};

#[test]
fn blend_of_half_opaque_sample_over_nothing() {
    // (200 * 128 + 0 * 127) / 255 = 100
    assert_eq!(blend_sample(200, 128, 0), 100);
}

#[test]
fn blend_at_the_ends_of_opacity() {
    assert_eq!(blend_sample(200, 255, 17), 200);
    assert_eq!(blend_sample(200, 0, 17), 17);
    assert_eq!(blend_sample(255, 255, 255), 255);
    assert_eq!(blend_sample(0, 0, 0), 0);
    // (10 * 100 + 250 * 155) / 255 = 39750 / 255 = 155
    assert_eq!(blend_sample(10, 100, 250), 155);
}

#[test]
fn premultiply_scales_by_alpha() {
    // 200 * 128 / 255 = 100
    assert_eq!(premultiply_sample(200, 128), 100);
    assert_eq!(premultiply_sample(200, 255), 200);
    assert_eq!(premultiply_sample(200, 0), 0);
    // 85 * 3 / 255 = 1
    assert_eq!(premultiply_sample(85, 3), 1);
    // 254 * 254 / 255 = 253
    assert_eq!(premultiply_sample(254, 254), 253);
}

#[test]
fn premultiply_keeps_alpha_and_walks_by_pixel() {
    let mut buffer = vec![200, 100, 50, 128, 255, 255, 255, 0, 10, 20, 30, 255];
    premultiply(&mut buffer);
    assert_eq!(buffer, vec![100, 50, 25, 128, 0, 0, 0, 0, 10, 20, 30, 255]);
    let mut empty: Vec<u8> = Vec::new();
    premultiply(&mut empty);
    assert!(empty.is_empty());
}

#[test]
fn four_samples_only_for_four_bands_over_transparency() {
    assert_eq!(output_channels(4, Background::Alpha), 4);
    assert_eq!(output_channels(3, Background::Alpha), 3);
    assert_eq!(output_channels(4, Background::Rgb(1, 2, 3)), 3);
    assert_eq!(output_channels(3, Background::Rgb(1, 2, 3)), 3);
}

#[test]
fn background_is_replicated_per_pixel() {
    assert_eq!(fill_background(Background::Rgb(1, 2, 3), 3, 2), vec![1, 2, 3, 1, 2, 3]);
    assert_eq!(fill_background(Background::Rgb(1, 2, 3), 4, 2), vec![1, 2, 3, 255, 1, 2, 3, 255]);
    assert_eq!(fill_background(Background::Alpha, 4, 2), vec![0; 8]);
    assert_eq!(fill_background(Background::Alpha, 3, 3), vec![0; 9]);
    assert_eq!(fill_background(Background::Alpha, 3, 0), Vec::<u8>::new());
    assert_eq!(background_channel(Background::Rgb(7, 8, 9), 1), 8);
    assert_eq!(background_channel(Background::Rgb(7, 8, 9), 3), 255);
    assert_eq!(background_channel(Background::Alpha, 3), 0);
}

fn plan(out: (usize, usize), read: (usize, usize), off: (usize, usize)) -> ReadPlan {
    ReadPlan {
        window: PixelWindow {
            x: 0,
            y: 0,
            width: read.0,
            height: read.1,
            clamped_left: false,
            clamped_top: false,
            clamped_right: false,
            clamped_bottom: false,
        },
        read_width: read.0,
        read_height: read.1,
        off_x: off.0,
        off_y: off.1,
        out_width: out.0,
        out_height: out.1,
    }
}

#[test]
fn band_is_copied_through_its_mask() {
    let plan = plan((2, 2), (2, 2), (0, 0));
    let mut buffer = vec![9; 12];
    blend_band(&mut buffer, &plan, 3, 1, &vec![255, 0, 1, 0], &vec![10, 20, 30, 40], None);
    assert_eq!(buffer, vec![9, 10, 9, 9, 9, 9, 9, 30, 9, 9, 9, 9]);
}

#[test]
fn band_is_blended_through_alpha() {
    let plan = plan((2, 1), (2, 1), (0, 0));
    let mut buffer = vec![0, 0, 0, 0, 100, 0, 0, 0];
    let alpha = vec![128, 255];
    blend_band(&mut buffer, &plan, 4, 0, &vec![255, 255], &vec![200, 50], Some(&alpha));
    assert_eq!(buffer, vec![100, 0, 0, 0, 50, 0, 0, 0]);
}

#[test]
fn band_is_placed_at_the_offset() {
    // Output of 3 columns and 2 rows; one column and one row were read and
    // land in the last column of the last row.
    let plan = plan((3, 2), (1, 1), (2, 1));
    let mut buffer = vec![0; 18];
    blend_band(&mut buffer, &plan, 3, 2, &vec![255], &vec![77], None);
    let mut expected = vec![0; 18];
    expected[17] = 77;
    assert_eq!(buffer, expected);
}

#[test]
fn rows_and_columns_are_not_swapped() {
    // Output of 3 columns and 2 rows, read in full.
    let plan = plan((3, 2), (3, 2), (0, 0));
    let mut buffer = vec![0; 6];
    blend_band(&mut buffer, &plan, 1, 0, &vec![1; 6], &vec![1, 2, 3, 4, 5, 6], None);
    assert_eq!(buffer, vec![1, 2, 3, 4, 5, 6]);
    // Two columns and one row, placed in the second row from the second column.
    let plan = self::plan((3, 2), (2, 1), (1, 1));
    let mut buffer = vec![0; 6];
    blend_band(&mut buffer, &plan, 1, 0, &vec![1; 2], &vec![8, 9], None);
    assert_eq!(buffer, vec![0, 0, 0, 0, 8, 9]);
}
