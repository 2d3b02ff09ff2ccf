use image_grid::quantize::{bin_of, combine_bins, quantize, QuantizationConfig};
use image_grid::raster::RasterImage;

fn raster_2x2() -> RasterImage {
    RasterImage::new(2, 2, vec![0, 0, 0, 255, 255, 255, 255, 0, 0, 0, 0, 255])
}

#[test]
fn default_config_has_five_levels() {
    let config = QuantizationConfig::default();
    assert_eq!(config.levels, 5);
}

#[test]
fn zero_levels_are_rejected() {
    assert!(QuantizationConfig::new(0).is_none());
    assert_eq!(QuantizationConfig::new(5).unwrap().levels, 5);
}

#[test]
fn bins_at_five_levels() {
    // bin width is 256 / 5 == 51
    assert_eq!(bin_of(0, 5), 0);
    assert_eq!(bin_of(50, 5), 0);
    assert_eq!(bin_of(51, 5), 1);
    assert_eq!(bin_of(101, 5), 1);
    assert_eq!(bin_of(102, 5), 2);
    assert_eq!(bin_of(254, 5), 4);
    // 255 / 51 == 5 is clamped to the top bin
    assert_eq!(bin_of(255, 5), 4);
}

#[test]
fn one_level_puts_everything_in_bin_zero() {
    assert_eq!(bin_of(0, 1), 0);
    assert_eq!(bin_of(128, 1), 0);
    assert_eq!(bin_of(255, 1), 0);
}

#[test]
fn full_range_bins_at_max_levels() {
    assert_eq!(bin_of(0, 255), 0);
    assert_eq!(bin_of(255, 255), 254);
}

#[test]
fn combined_index_mixes_with_fixed_radix() {
    assert_eq!(combine_bins(0, 0, 0, 5), 0);
    assert_eq!(combine_bins(4, 4, 4, 5), 124);
    assert_eq!(combine_bins(4, 0, 0, 5), 100);
    assert_eq!(combine_bins(0, 0, 4, 5), 4);
    assert_eq!(combine_bins(1, 2, 3, 5), 25 + 10 + 3);
}

#[test]
fn quantized_scenario_2x2() {
    let img = raster_2x2();
    let config = QuantizationConfig::default();
    let q = quantize(&img, &config);
    assert_eq!(q.width, 2);
    assert_eq!(q.height, 2);
    assert_eq!(q.cells, vec![0, 124, 100, 4]);
    assert_eq!(q.cell_at(0, 1), 124);
    assert_eq!(q.cell_at(1, 0), 100);
}

#[test]
fn quantized_indices_stay_in_range() {
    let mut data: Vec<u8> = Vec::new();
    for p in 0..64 {
        data.push((p * 4) as u8);
        data.push(255 - (p * 4) as u8);
        data.push((p * 7 % 256) as u8);
    }
    let img = RasterImage::new(8, 8, data);
    for levels in 1..=16u8 {
        let config = QuantizationConfig::new(levels).unwrap();
        let q = quantize(&img, &config);
        let bound = (levels as u32).pow(3);
        assert!(q.cells.iter().all(|&c| c < bound));
    }
}

#[test]
fn equal_pixels_get_equal_indices() {
    // bijection at the bin level: pixels in the same bins share an
    // index, pixels in different bins never do
    assert_eq!(bin_of(10, 5), bin_of(40, 5));
    assert_eq!(combine_bins(bin_of(10, 5), 0, 0, 5), combine_bins(bin_of(40, 5), 0, 0, 5));
    assert_ne!(
        combine_bins(bin_of(10, 5), 0, 0, 5),
        combine_bins(bin_of(60, 5), 0, 0, 5),
    );
}

#[test]
fn raster_channels_are_row_major() {
    let img = raster_2x2();
    assert_eq!(img.channel_at(0, 0, 0), 0);
    assert_eq!(img.channel_at(0, 1, 1), 255);
    assert_eq!(img.channel_at(1, 0, 0), 255);
    assert_eq!(img.channel_at(1, 0, 2), 0);
    assert_eq!(img.channel_at(1, 1, 2), 255);
}
