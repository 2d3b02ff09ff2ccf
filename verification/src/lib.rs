//! Image-to-grid pipeline: decode raw image bytes into an RGB raster,
//! quantize each pixel into a small palette index by uniform per-channel
//! binning, and serialize the index array as fixed-width grid text.

pub mod raster;
pub mod quantize;
pub mod grid;
pub mod codec;
pub mod pipeline;
pub mod session;

pub use raster::RasterImage;
pub use raster::RasterView;
pub use quantize::QuantizationConfig;
pub use quantize::QuantizedIndexArray;
