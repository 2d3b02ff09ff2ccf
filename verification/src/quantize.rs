//! Uniform per-channel color quantization: each 8-bit channel value is
//! mapped to a bin in `[0, levels - 1]` by dividing by the bin width
//! `256 / levels`, and the three bins are mixed into a single index in
//! `[0, levels^3 - 1]` by fixed-radix combination.

use vstd::prelude::*;
use crate::raster::{RasterImage, RasterView};

verus! {

/// The single quantization parameter: the number of bins per channel.
pub struct QuantizationConfig {
    pub levels: u8,
}

impl QuantizationConfig {
    /// At least one bin per channel.
    pub open spec fn wf(self) -> bool {
        self.levels >= 1
    }

    /// Build a configuration, rejecting a bin count of zero.
    pub fn new(levels: u8) -> (r: Option<QuantizationConfig>)
        ensures
            levels >= 1 <==> r == Some(QuantizationConfig { levels }),
            levels == 0 <==> r is None,
    {
        if levels >= 1 {
            Some(QuantizationConfig { levels })
        } else {
            None
        }
    }
}

impl Default for QuantizationConfig {
    /// The default is five bins per channel.
    fn default() -> (r: Self)
        ensures
            r.levels == 5,
            r.wf(),
    {
        QuantizationConfig { levels: 5 }
    }
}

/// Span of raw channel values mapped to one bin.
pub open spec fn bin_width(levels: u8) -> int {
    256int / levels as int
}

/// The bin of one channel value: divide by the bin width, clamped to
/// `[0, levels - 1]`.
pub open spec fn bin_spec(c: u8, levels: u8) -> u8
    recommends
        levels >= 1,
{
    let b = c as int / bin_width(levels);
    if b >= levels as int {
        (levels - 1) as u8
    } else {
        b as u8
    }
}

/// Fixed-radix mixing of the three channel bins.
pub open spec fn index_val(rb: u8, gb: u8, bb: u8, levels: u8) -> int {
    levels as int * levels as int * rb as int + levels as int * gb as int + bb as int
}

/// The quantized index of the pixel at (`row`, `col`).
pub open spec fn quantized_cell(v: RasterView, levels: u8, row: int, col: int) -> u32 {
    index_val(
        bin_spec(v.channel(row, col, 0), levels),
        bin_spec(v.channel(row, col, 1), levels),
        bin_spec(v.channel(row, col, 2), levels),
        levels,
    ) as u32
}

/// The whole image's quantized indices, row-major.
pub open spec fn quantized_seq(v: RasterView, levels: u8) -> Seq<u32> {
    Seq::new(
        v.height * v.width,
        |k: int| quantized_cell(v, levels, k / v.width as int, k % v.width as int),
    )
}

/// The bin is always below `levels`.
pub proof fn lemma_bin_in_range(c: u8, levels: u8)
    requires
        levels >= 1,
    ensures
        bin_spec(c, levels) < levels,
        bin_width(levels) >= 1,
{
    assert(256int / levels as int >= 1) by (nonlinear_arith)
        requires 1 <= levels as int <= 255;
    assert(c as int / bin_width(levels) >= 0) by (nonlinear_arith)
        requires bin_width(levels) >= 1, c as int >= 0;
}

/// The mixed index of in-range bins lies in `[0, levels^3 - 1]`, and
/// `levels^3` itself fits comfortably in 32 bits.
pub proof fn lemma_index_range(rb: u8, gb: u8, bb: u8, levels: u8)
    by (nonlinear_arith)
    requires
        1 <= levels,
        rb < levels,
        gb < levels,
        bb < levels,
    ensures
        0 <= index_val(rb, gb, bb, levels),
        index_val(rb, gb, bb, levels) < levels as int * levels as int * levels as int,
        levels as int * levels as int * levels as int <= 0x1000000,
        levels as int * levels as int <= 0x10000,
        levels as int * levels as int * rb as int <= 0x1000000,
        levels as int * gb as int <= 0x10000,
{
}

/// The fixed-radix mixing is a bijection between bin triples and
/// indices: two in-range triples give the same index exactly when they
/// are the same triple.
pub proof fn lemma_index_bijective(rb1: u8, gb1: u8, bb1: u8, rb2: u8, gb2: u8, bb2: u8, levels: u8)
    by (nonlinear_arith)
    requires
        1 <= levels,
        rb1 < levels,
        gb1 < levels,
        bb1 < levels,
        rb2 < levels,
        gb2 < levels,
        bb2 < levels,
    ensures
        index_val(rb1, gb1, bb1, levels) == index_val(rb2, gb2, bb2, levels)
            <==> (rb1 == rb2 && gb1 == gb2 && bb1 == bb2),
{
}

/// Law: for every pixel of every image and every bin count of at least
/// one, the quantized index lies in `[0, levels^3 - 1]`.
pub proof fn lemma_quantized_range(v: RasterView, levels: u8, row: int, col: int)
    requires
        levels >= 1,
    ensures
        0 <= quantized_cell(v, levels, row, col),
        quantized_cell(v, levels, row, col) < levels as int * levels as int * levels as int,
{
    lemma_bin_in_range(v.channel(row, col, 0), levels);
    lemma_bin_in_range(v.channel(row, col, 1), levels);
    lemma_bin_in_range(v.channel(row, col, 2), levels);
    lemma_index_range(
        bin_spec(v.channel(row, col, 0), levels),
        bin_spec(v.channel(row, col, 1), levels),
        bin_spec(v.channel(row, col, 2), levels),
        levels,
    );
}

/// Law: quantization is consistent through the bins. Two pixels whose
/// per-channel bins agree always get the same index, and two pixels
/// with the same index always had the same per-channel bins.
pub proof fn lemma_quantized_bijective(
    r1: u8, g1: u8, b1: u8,
    r2: u8, g2: u8, b2: u8,
    levels: u8,
)
    requires
        levels >= 1,
    ensures
        index_val(bin_spec(r1, levels), bin_spec(g1, levels), bin_spec(b1, levels), levels)
            == index_val(bin_spec(r2, levels), bin_spec(g2, levels), bin_spec(b2, levels), levels)
        <==> (bin_spec(r1, levels) == bin_spec(r2, levels)
            && bin_spec(g1, levels) == bin_spec(g2, levels)
            && bin_spec(b1, levels) == bin_spec(b2, levels)),
{
    lemma_bin_in_range(r1, levels);
    lemma_bin_in_range(g1, levels);
    lemma_bin_in_range(b1, levels);
    lemma_bin_in_range(r2, levels);
    lemma_bin_in_range(g2, levels);
    lemma_bin_in_range(b2, levels);
    lemma_index_bijective(
        bin_spec(r1, levels), bin_spec(g1, levels), bin_spec(b1, levels),
        bin_spec(r2, levels), bin_spec(g2, levels), bin_spec(b2, levels),
        levels,
    );
}

/// Quantize one channel value.
pub fn bin_of(c: u8, levels: u8) -> (b: u8)
    requires
        levels >= 1,
    ensures
        b == bin_spec(c, levels),
        b < levels,
{
    proof {
        lemma_bin_in_range(c, levels);
    }
    let bw: u16 = 256 / (levels as u16);
    let q: u16 = (c as u16) / bw;
    if q >= levels as u16 {
        levels - 1
    } else {
        q as u8
    }
}

/// Mix three in-range bins into one index.
pub fn combine_bins(rb: u8, gb: u8, bb: u8, levels: u8) -> (x: u32)
    requires
        levels >= 1,
        rb < levels,
        gb < levels,
        bb < levels,
    ensures
        x == index_val(rb, gb, bb, levels),
        x < levels as u32 * levels as u32 * levels as u32,
{
    proof {
        lemma_index_range(rb, gb, bb, levels);
    }
    let l: u32 = levels as u32;
    l * l * (rb as u32) + l * (gb as u32) + (bb as u32)
}

/// A 2-D array of quantized indices with the dimensions of its source
/// image, each cell in `[0, levels^3 - 1]`.
pub struct QuantizedIndexArray {
    pub width: usize,
    pub height: usize,
    pub levels: u8,
    pub cells: Vec<u32>,
}

impl QuantizedIndexArray {
    /// Cell count matches the dimensions and every cell is in range.
    pub open spec fn wf(self) -> bool {
        &&& self.levels >= 1
        &&& self.cells@.len() == self.width * self.height
        &&& forall|k: int| 0 <= k < self.cells@.len()
                ==> self.cells@[k] < self.levels as int * self.levels as int * self.levels as int
    }

    /// Every cell is the quantized index of the corresponding pixel of `v`.
    pub open spec fn matches_raster(self, v: RasterView) -> bool {
        &&& self.width == v.width
        &&& self.height == v.height
        &&& forall|row: int, col: int| 0 <= row < self.height && 0 <= col < self.width
                ==> self.cells@[row * self.width + col] == quantized_cell(v, self.levels, row, col)
    }

    /// Read one cell.
    pub fn cell_at(&self, row: usize, col: usize) -> (x: u32)
        requires
            self.wf(),
            row < self.height,
            col < self.width,
        ensures
            x == self.cells@[row as int * self.width + col],
    {
        proof {
            crate::raster::lemma_pixel_offset_in_bounds(
                self.width as nat, self.height as nat, row as int, col as int);
        }
        let n: usize = self.cells.len();
        self.cells[row * self.width + col]
    }
}

/// Row-by-row bound: an index inside a finished row prefix lies below
/// the prefix's total length.
proof fn lemma_prefix_index(w: int, i: int, row: int, col: int)
    by (nonlinear_arith)
    requires
        0 <= row < i,
        0 <= col < w,
    ensures
        0 <= row * w + col,
        row * w + col < i * w,
{
}

/// Quantize a whole image: the result has the image's dimensions and
/// each cell is the fixed-radix index of its pixel's channel bins.
pub fn quantize(img: &RasterImage, config: &QuantizationConfig) -> (q: QuantizedIndexArray)
    requires
        img.wf(),
        config.wf(),
    ensures
        q.wf(),
        q.levels == config.levels,
        q.matches_raster(img@),
        q.cells@ == quantized_seq(img@, config.levels),
{
    let w = img.width;
    let h = img.height;
    let levels = config.levels;
    let n: usize = img.data.len();
    let mut cells: Vec<u32> = Vec::new();
    let mut i: usize = 0;
    while i < h
        invariant
            img.wf(),
            levels >= 1,
            w == img@.width,
            h == img@.height,
            n == img@.data.len(),
            i <= h,
            cells@.len() == i * w,
            forall|row: int, col: int| 0 <= row < i && 0 <= col < w
                ==> cells@[row * w + col] == quantized_cell(img@, levels, row, col),
            forall|k: int| 0 <= k < cells@.len()
                ==> cells@[k] < levels as int * levels as int * levels as int,
        decreases h - i,
    {
        let mut j: usize = 0;
        proof {
            assert(i * w + w == (i + 1) * w) by (nonlinear_arith);
            assert((i + 1) * w <= h * w) by (nonlinear_arith)
                requires i + 1 <= h, w >= 0;
            assert(h * w * 3 == w * h * 3) by (nonlinear_arith);
        }
        while j < w
            invariant
                img.wf(),
                levels >= 1,
                w == img@.width,
                h == img@.height,
                n == img@.data.len(),
                i < h,
                j <= w,
                i * w + w == (i + 1) * w,
                (i + 1) * w <= h * w,
                h * w * 3 == n,
                cells@.len() == i * w + j,
                forall|row: int, col: int| 0 <= row < i && 0 <= col < w
                    ==> cells@[row * w + col] == quantized_cell(img@, levels, row, col),
                forall|col: int| 0 <= col < j
                    ==> cells@[i * w + col] == quantized_cell(img@, levels, i as int, col),
                forall|k: int| 0 <= k < cells@.len()
                    ==> cells@[k] < levels as int * levels as int * levels as int,
            decreases w - j,
        {
            let r = img.channel_at(i, j, 0);
            let g = img.channel_at(i, j, 1);
            let b = img.channel_at(i, j, 2);
            let rb = bin_of(r, levels);
            let gb = bin_of(g, levels);
            let bb = bin_of(b, levels);
            let x = combine_bins(rb, gb, bb, levels);
            cells.push(x);
            proof {
                assert forall|row: int, col: int| 0 <= row < i && 0 <= col < w
                    implies #[trigger] (row * w + col) < i * w by {
                    lemma_prefix_index(w as int, i as int, row, col);
                }
            }
            j = j + 1;
        }
        i = i + 1;
    }
    proof {
        assert(h * w == w * h) by (nonlinear_arith);
        lemma_row_major_flat(cells@, img@, levels);
    }
    QuantizedIndexArray { width: w, height: h, levels, cells }
}

/// A row-major cell buffer that matches an image cell-by-(row, col)
/// equals the flat quantized sequence of that image.
proof fn lemma_row_major_flat(cells: Seq<u32>, v: RasterView, levels: u8)
    requires
        cells.len() == v.height * v.width,
        forall|row: int, col: int| 0 <= row < v.height && 0 <= col < v.width
            ==> cells[row * v.width + col] == quantized_cell(v, levels, row, col),
    ensures
        cells == quantized_seq(v, levels),
{
    let w = v.width as int;
    let h = v.height as int;
    assert forall|k: int| 0 <= k < cells.len()
        implies cells[k] == quantized_cell(v, levels, k / w, k % w) by {
        assert(w >= 1) by (nonlinear_arith)
            requires h * w > k, k >= 0, h >= 0, w >= 0;
        let row = k / w;
        let col = k % w;
        vstd::arithmetic::div_mod::lemma_fundamental_div_mod(k, w);
        assert(0 <= col < w) by (nonlinear_arith) requires w >= 1, col == k % w;
        assert(0 <= row < h) by (nonlinear_arith)
            requires w >= 1, 0 <= k < h * w, row == k / w;
        assert(row * w + col == k);
    }
    assert(cells =~= quantized_seq(v, levels));
}

} // verus!
