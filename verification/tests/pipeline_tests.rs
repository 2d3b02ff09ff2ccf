use image_grid::pipeline::{convert_image_to_base_64, process_image, process_submission, PipelineError};
use image_grid::quantize::QuantizationConfig;

fn png_bytes_2x2() -> Vec<u8> {
    // black, white / red, blue
    let raw: Vec<u8> = vec![0, 0, 0, 255, 255, 255, 255, 0, 0, 0, 0, 255];
    let img: image::RgbImage = image::ImageBuffer::from_raw(2, 2, raw).unwrap();
    let mut out: Vec<u8> = Vec::new();
    img.write_to(&mut std::io::Cursor::new(&mut out), image::ImageFormat::Png).unwrap();
    out
}

#[test]
fn empty_input_yields_decode_error() {
    let config = QuantizationConfig::default();
    let r = process_image(&Vec::new(), &config);
    assert_eq!(r, Err(PipelineError::DecodeError));
}

#[test]
fn garbage_input_yields_decode_error() {
    let config = QuantizationConfig::default();
    let r = process_image(&vec![1, 2, 3, 4, 5, 6, 7, 8], &config);
    assert_eq!(r, Err(PipelineError::DecodeError));
}

#[test]
fn missing_input_yields_no_input_selected() {
    let config = QuantizationConfig::default();
    let r = process_submission(&None, &config);
    assert_eq!(r, Err(PipelineError::NoInputSelected));
}

#[test]
fn submission_with_bytes_matches_process_image() {
    let config = QuantizationConfig::default();
    let bytes = png_bytes_2x2();
    let direct = process_image(&bytes, &config);
    let submitted = process_submission(&Some(bytes), &config);
    assert_eq!(direct, submitted);
}

#[test]
fn pipeline_grid_of_2x2_scenario() {
    let config = QuantizationConfig::default();
    let bytes = png_bytes_2x2();
    let (_, grid) = process_image(&bytes, &config).unwrap();
    assert_eq!(grid, "000 124\n100 004\n");
}

#[test]
fn display_round_trip_is_lossless() {
    let config = QuantizationConfig::default();
    let bytes = png_bytes_2x2();
    let (url, _) = process_image(&bytes, &config).unwrap();
    let prefix = "data:image/png;base64,";
    assert!(url.starts_with(prefix));
    let payload = base64::Engine::decode(
        &base64::engine::general_purpose::STANDARD,
        &url[prefix.len()..],
    )
    .unwrap();
    let redecoded = image::load_from_memory(&payload).unwrap().into_rgb8();
    assert_eq!(redecoded.width(), 2);
    assert_eq!(redecoded.height(), 2);
    let expected: Vec<u8> = vec![0, 0, 0, 255, 255, 255, 255, 0, 0, 0, 0, 255];
    assert_eq!(redecoded.into_raw(), expected);
}

#[test]
fn display_function_agrees_with_pipeline() {
    let config = QuantizationConfig::default();
    let bytes = png_bytes_2x2();
    let url_alone = convert_image_to_base_64(&bytes).unwrap();
    let (url, _) = process_image(&bytes, &config).unwrap();
    assert_eq!(url_alone, url);
}

#[test]
fn pipeline_is_deterministic() {
    let config = QuantizationConfig::default();
    let bytes = png_bytes_2x2();
    let first = process_image(&bytes, &config);
    let second = process_image(&bytes, &config);
    assert_eq!(first, second);
}

#[test]
fn grayscale_is_promoted_to_rgb() {
    let config = QuantizationConfig::default();
    let img: image::GrayImage = image::ImageBuffer::from_raw(1, 2, vec![0, 255]).unwrap();
    let mut bytes: Vec<u8> = Vec::new();
    img.write_to(&mut std::io::Cursor::new(&mut bytes), image::ImageFormat::Png).unwrap();
    let (_, grid) = process_image(&bytes, &config).unwrap();
    assert_eq!(grid, "000\n124\n");
}

#[test]
fn alpha_is_discarded() {
    let config = QuantizationConfig::default();
    let img: image::RgbaImage = image::ImageBuffer::from_raw(1, 1, vec![255, 0, 0, 128]).unwrap();
    let mut bytes: Vec<u8> = Vec::new();
    img.write_to(&mut std::io::Cursor::new(&mut bytes), image::ImageFormat::Png).unwrap();
    let (_, grid) = process_image(&bytes, &config).unwrap();
    assert_eq!(grid, "100\n");
}

#[test]
fn display_fails_on_empty_input() {
    let r = convert_image_to_base_64(&Vec::new());
    assert_eq!(r, Err(PipelineError::DecodeError));
}
