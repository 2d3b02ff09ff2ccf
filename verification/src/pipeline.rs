//! The full pipeline: decode raw bytes to a raster, re-encode the
//! raster losslessly to a PNG data URL for display, quantize it, and
//! serialize the quantized indices as grid text. Every failure is
//! surfaced as a tagged error; nothing is silently replaced by a
//! default.

use vstd::prelude::*;
use vstd::string::StringExecFns;
use crate::codec::{decode_spec, png_encode, base64_of, decode_image, encode_png, base64_encode};
use crate::grid::{
    grid_text, cell_width, encode_grid, row_text, row_len, lemma_grid_shape, lemma_row_shape,
    lemma_n_digits_covers,
};
use crate::quantize::{QuantizationConfig, quantize, quantized_seq};
use crate::raster::RasterView;

verus! {

/// The pipeline's tagged failures: no buffer was handed in at all, the
/// bytes are not a decodable image, or the display re-encoding failed.
#[derive(Clone, Copy, Debug, PartialEq, Eq, Structural)]
pub enum PipelineError {
    NoInputSelected,
    DecodeError,
    EncodeError,
}

/// Whether a PNG byte stream of this length can be base64-encoded
/// without the encoded length overflowing.
pub open spec fn display_encodable(n: int) -> bool {
    n / 3 < usize::MAX as int / 4
}

/// A length that passes the encodability test keeps the base64 output
/// length within `usize`.
proof fn lemma_display_encodable(n: int)
    requires
        0 <= n,
        display_encodable(n),
    ensures
        4 * ((n + 2) / 3) <= usize::MAX,
{
    assert((n + 2) / 3 <= n / 3 + 1) by (nonlinear_arith)
        requires n >= 0;
    assert(4 * (usize::MAX as int / 4) <= usize::MAX);
}

/// The display artifact of a PNG byte stream: a base64 data URL.
pub open spec fn data_url_view(png: Seq<u8>) -> Seq<char> {
    "data:image/png;base64,"@ + base64_of(png)
}

/// The grid text of a decoded raster under a given bin count.
pub open spec fn grid_view(v: RasterView, levels: u8) -> Seq<char> {
    grid_text(quantized_seq(v, levels), v.width as int, v.height as int, cell_width(levels))
}

/// What re-encoding a decoded raster for display yields: the data URL,
/// or the re-encoding failure.
pub open spec fn display_spec(bytes: Seq<u8>) -> Result<Seq<char>, PipelineError> {
    match decode_spec(bytes) {
        Option::None => Err(PipelineError::DecodeError),
        Option::Some(v) => match png_encode(v) {
            Option::None => Err(PipelineError::EncodeError),
            Option::Some(png) => if display_encodable(png.len() as int) {
                Ok(data_url_view(png))
            } else {
                Err(PipelineError::EncodeError)
            },
        },
    }
}

/// What the whole pipeline yields on given bytes and bin count: the
/// display data URL and the grid text, or the first failure. The result
/// is a function of the inputs alone.
pub open spec fn pipeline_spec(bytes: Seq<u8>, levels: u8) -> Result<
    (Seq<char>, Seq<char>),
    PipelineError,
>
    recommends
        levels >= 1,
{
    match decode_spec(bytes) {
        Option::None => Err(PipelineError::DecodeError),
        Option::Some(v) => match png_encode(v) {
            Option::None => Err(PipelineError::EncodeError),
            Option::Some(png) => if display_encodable(png.len() as int) {
                Ok((data_url_view(png), grid_view(v, levels)))
            } else {
                Err(PipelineError::EncodeError)
            },
        },
    }
}

/// The mathematical value of an executable pipeline result.
pub open spec fn result_view(r: Result<(String, String), PipelineError>) -> Result<
    (Seq<char>, Seq<char>),
    PipelineError,
> {
    match r {
        Ok(pair) => Ok((pair.0@, pair.1@)),
        Err(e) => Err(e),
    }
}

/// Law (shape preservation): the grid text that the pipeline produces
/// for a raster has exactly the raster's height in rows — each row
/// segment is one row's text, which holds exactly the raster's width in
/// fixed-width cells and ends in its only newline.
pub proof fn lemma_grid_view_shape(v: RasterView, levels: u8)
    requires
        levels >= 1,
    ensures
        cell_width(levels) >= 1,
        grid_view(v, levels).len()
            == v.height * row_len(v.width as int, cell_width(levels)),
        forall|i: int| 0 <= i < v.height
            ==> #[trigger] grid_view(v, levels).subrange(
                    i * row_len(v.width as int, cell_width(levels)),
                    (i + 1) * row_len(v.width as int, cell_width(levels)),
                ) == row_text(
                    quantized_seq(v, levels), v.width as int, i, cell_width(levels)),
        forall|i: int| 0 <= i < v.height
            ==> #[trigger] row_text(quantized_seq(v, levels), v.width as int, i, cell_width(levels))[
                    row_len(v.width as int, cell_width(levels)) - 1] == '\n',
{
    assert(1 <= levels as int * levels as int * levels as int) by (nonlinear_arith)
        requires 1 <= levels as int;
    lemma_n_digits_covers(levels as int * levels as int * levels as int - 1);
    lemma_grid_shape(
        quantized_seq(v, levels), v.width as int, v.height as int, cell_width(levels));
    assert forall|i: int| 0 <= i < v.height
        implies #[trigger] row_text(quantized_seq(v, levels), v.width as int, i, cell_width(levels))[
            row_len(v.width as int, cell_width(levels)) - 1] == '\n' by {
        lemma_row_shape(quantized_seq(v, levels), v.width as int, i, cell_width(levels));
    }
}

/// Law: the pipeline is deterministic. Identical bytes and identical
/// configuration yield identical display and grid outputs, including
/// identical failures.
pub proof fn lemma_pipeline_deterministic(b1: Seq<u8>, b2: Seq<u8>, l1: u8, l2: u8)
    requires
        b1 == b2,
        l1 == l2,
    ensures
        pipeline_spec(b1, l1) == pipeline_spec(b2, l2),
        display_spec(b1) == display_spec(b2),
{
}

/// Law: both pipeline outputs are computed from the same decoded
/// raster and are mutually consistent — the display artifact of a full
/// pipeline run is exactly what the display path alone yields on the
/// same bytes, and the two fail alike.
pub proof fn lemma_outputs_mutually_consistent(bytes: Seq<u8>, levels: u8)
    ensures
        match pipeline_spec(bytes, levels) {
            Ok(pair) => display_spec(bytes) == Ok::<Seq<char>, PipelineError>(pair.0),
            Err(e) => display_spec(bytes) == Err::<Seq<char>, PipelineError>(e),
        },
{
}

/// Decode image bytes and re-encode them losslessly as a PNG data URL
/// for display. On success, whenever the URL's PNG payload decodes
/// again it yields exactly the raster that the input bytes decode to,
/// and it is guaranteed to decode for rasters within the decoder's
/// allocation headroom.
pub fn convert_image_to_base_64(bytes: &Vec<u8>) -> (r: Result<String, PipelineError>)
    ensures
        (match r {
            Ok(url) => Ok(url@),
            Err(e) => Err(e),
        }) == display_spec(bytes@),
        bytes@.len() == 0 ==> r == Err::<String, PipelineError>(PipelineError::DecodeError),
        r is Ok ==> (decode_spec(bytes@) matches Some(v) && png_encode(v) matches Some(png)
            && (decode_spec(png) matches Some(v2) ==> v2 == v)
            && (v.width * v.height * 3 <= 0x10000000 ==> decode_spec(png) == Some(v))),
{
    let img = match decode_image(bytes) {
        Some(img) => img,
        None => {
            return Err(PipelineError::DecodeError);
        },
    };
    let png = match encode_png(&img) {
        Some(png) => png,
        None => {
            return Err(PipelineError::EncodeError);
        },
    };
    if !(png.len() / 3 < usize::MAX / 4) {
        return Err(PipelineError::EncodeError);
    }
    proof {
        lemma_display_encodable(png@.len() as int);
    }
    let b64 = base64_encode(&png);
    let url = String::from_str("data:image/png;base64,").concat(b64.as_str());
    Ok(url)
}

/// Run the whole pipeline: decode, re-encode for display, quantize,
/// serialize. Both outputs come from the same decoded raster; whenever
/// the display PNG decodes again it yields exactly that raster (the
/// lossless round trip), and it is guaranteed to decode for rasters
/// within the decoder's allocation headroom; no partial success is
/// returned.
pub fn process_image(bytes: &Vec<u8>, config: &QuantizationConfig) -> (r: Result<
    (String, String),
    PipelineError,
>)
    requires
        config.wf(),
    ensures
        result_view(r) == pipeline_spec(bytes@, config.levels),
        bytes@.len() == 0 ==> r == Err::<(String, String), PipelineError>(
            PipelineError::DecodeError,
        ),
        r is Ok ==> (decode_spec(bytes@) matches Some(v) && png_encode(v) matches Some(png)
            && (decode_spec(png) matches Some(v2) ==> v2 == v)
            && (v.width * v.height * 3 <= 0x10000000 ==> decode_spec(png) == Some(v))),
{
    let img = match decode_image(bytes) {
        Some(img) => img,
        None => {
            return Err(PipelineError::DecodeError);
        },
    };
    let png = match encode_png(&img) {
        Some(png) => png,
        None => {
            return Err(PipelineError::EncodeError);
        },
    };
    if !(png.len() / 3 < usize::MAX / 4) {
        return Err(PipelineError::EncodeError);
    }
    proof {
        lemma_display_encodable(png@.len() as int);
    }
    let b64 = base64_encode(&png);
    let url = String::from_str("data:image/png;base64,").concat(b64.as_str());
    let indices = quantize(&img, config);
    let grid = encode_grid(&indices);
    Ok((url, grid))
}

/// The pipeline behind the submission boundary: an absent buffer is a
/// tagged failure of its own, distinct from every decoding failure.
pub fn process_submission(input: &Option<Vec<u8>>, config: &QuantizationConfig) -> (r: Result<
    (String, String),
    PipelineError,
>)
    requires
        config.wf(),
    ensures
        input is None ==> r == Err::<(String, String), PipelineError>(
            PipelineError::NoInputSelected,
        ),
        input matches Some(bytes) ==> result_view(r) == pipeline_spec(bytes@, config.levels),
{
    match input {
        None => Err(PipelineError::NoInputSelected),
        Some(bytes) => process_image(bytes, config),
    }
}

} // verus!
