use image_grid::grid::{digits_of, encode_grid, render_cell};
use image_grid::quantize::{quantize, QuantizationConfig};
use image_grid::raster::RasterImage;

#[test]
fn digit_counts() {
    assert_eq!(digits_of(0), 1);
    assert_eq!(digits_of(9), 1);
    assert_eq!(digits_of(10), 2);
    assert_eq!(digits_of(124), 3);
    assert_eq!(digits_of(999), 3);
    assert_eq!(digits_of(1000), 4);
    assert_eq!(digits_of(16581374), 8);
}

#[test]
fn cells_render_zero_padded() {
    assert_eq!(render_cell(4, 3), "004");
    assert_eq!(render_cell(124, 3), "124");
    assert_eq!(render_cell(0, 1), "0");
    assert_eq!(render_cell(7, 2), "07");
}

#[test]
fn grid_of_2x2_scenario() {
    let img = RasterImage::new(2, 2, vec![0, 0, 0, 255, 255, 255, 255, 0, 0, 0, 0, 255]);
    let config = QuantizationConfig::default();
    let q = quantize(&img, &config);
    let text = encode_grid(&q);
    assert_eq!(text, "000 124\n100 004\n");
}

#[test]
fn grid_shape_matches_dimensions() {
    let img = RasterImage::new(3, 2, vec![17; 18]);
    let config = QuantizationConfig::default();
    let q = quantize(&img, &config);
    let text = encode_grid(&q);
    let rows: Vec<&str> = text.lines().collect();
    assert_eq!(rows.len(), 2);
    for row in rows {
        assert_eq!(row.split(' ').count(), 3);
    }
}

#[test]
fn one_level_grid_uses_single_digit_cells() {
    let img = RasterImage::new(1, 1, vec![200, 100, 50]);
    let config = QuantizationConfig::new(1).unwrap();
    let q = quantize(&img, &config);
    let text = encode_grid(&q);
    assert_eq!(text, "0\n");
}

#[test]
fn wide_indices_keep_fixed_width() {
    // at 255 levels the largest index has eight digits
    let img = RasterImage::new(1, 1, vec![255, 255, 255]);
    let config = QuantizationConfig::new(255).unwrap();
    let q = quantize(&img, &config);
    let text = encode_grid(&q);
    let expected = 254u32 * 255 * 255 + 254 * 255 + 254;
    assert_eq!(text, format!("{:08}\n", expected));
}
