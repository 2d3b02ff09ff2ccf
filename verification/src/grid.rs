//! Serialization of a quantized index array to grid text: one text row
//! per image row, each cell rendered as a zero-padded decimal of fixed
//! width (the number of digits of the largest possible index,
//! `levels^3 - 1`), cells separated by a single space, every row
//! terminated by a newline.

use vstd::prelude::*;
use vstd::string::StringExecFns;
use crate::quantize::QuantizedIndexArray;

verus! {

/// The decimal digit character for `d` in `[0, 9]`.
pub open spec fn digit_char(d: int) -> char
    recommends
        0 <= d <= 9,
{
    if d == 0 { '0' }
    else if d == 1 { '1' }
    else if d == 2 { '2' }
    else if d == 3 { '3' }
    else if d == 4 { '4' }
    else if d == 5 { '5' }
    else if d == 6 { '6' }
    else if d == 7 { '7' }
    else if d == 8 { '8' }
    else { '9' }
}

/// `n` rendered as exactly `width` decimal digits, most significant
/// first, zero-padded on the left.
pub open spec fn padded_dec(n: int, width: int) -> Seq<char>
    decreases width,
{
    if width <= 0 {
        Seq::empty()
    } else {
        padded_dec(n / 10, width - 1).push(digit_char(n % 10))
    }
}

/// How many decimal digits `n` has (one for zero).
pub open spec fn n_digits(n: int) -> int
    decreases n,
{
    if n < 10 {
        1
    } else {
        1 + n_digits(n / 10)
    }
}

/// The fixed cell width used for a given bin count: the digit count of
/// the largest possible index, `levels^3 - 1`.
pub open spec fn cell_width(levels: u8) -> int {
    n_digits(levels as int * levels as int * levels as int - 1)
}

/// Powers of ten.
pub open spec fn pow10(e: int) -> int
    decreases e,
{
    if e <= 0 {
        1
    } else {
        10 * pow10(e - 1)
    }
}

/// Powers of ten are positive.
pub proof fn lemma_pow10_pos(e: int)
    ensures
        pow10(e) >= 1,
    decreases e,
{
    if e > 0 {
        lemma_pow10_pos(e - 1);
    }
}

/// A number between two adjacent powers of ten has exactly the
/// corresponding digit count.
pub proof fn lemma_n_digits_of_range(n: int, d: int)
    requires
        1 <= d,
        pow10(d - 1) <= n < pow10(d),
    ensures
        n_digits(n) == d,
    decreases d,
{
    lemma_pow10_pos(d - 1);
    if d == 1 {
        assert(pow10(1) == 10);
    } else {
        lemma_pow10_pos(d - 2);
        assert(pow10(d - 1) == 10 * pow10(d - 2));
        assert(pow10(d) == 10 * pow10(d - 1));
        lemma_n_digits_of_range(n / 10, d - 1);
    }
}

/// The first `j` cells of row `row`, separated by single spaces.
pub open spec fn row_prefix(cells: Seq<u32>, w: int, row: int, j: int, width: int) -> Seq<char>
    decreases j,
{
    if j <= 0 {
        Seq::empty()
    } else {
        row_prefix(cells, w, row, j - 1, width)
            + (if j == 1 { Seq::<char>::empty() } else { seq![' '] })
            + padded_dec(cells[row * w + (j - 1)] as int, width)
    }
}

/// One full text row: `w` cells and the terminating newline.
pub open spec fn row_text(cells: Seq<u32>, w: int, row: int, width: int) -> Seq<char> {
    row_prefix(cells, w, row, w, width) + seq!['\n']
}

/// The first `i` text rows.
pub open spec fn grid_prefix(cells: Seq<u32>, w: int, i: int, width: int) -> Seq<char>
    decreases i,
{
    if i <= 0 {
        Seq::empty()
    } else {
        grid_prefix(cells, w, i - 1, width) + row_text(cells, w, i - 1, width)
    }
}

/// The whole grid text of an `h`-row, `w`-column cell buffer.
pub open spec fn grid_text(cells: Seq<u32>, w: int, h: int, width: int) -> Seq<char> {
    grid_prefix(cells, w, h, width)
}

/// A decimal digit character.
pub open spec fn is_digit(ch: char) -> bool {
    ch == '0' || ch == '1' || ch == '2' || ch == '3' || ch == '4'
        || ch == '5' || ch == '6' || ch == '7' || ch == '8' || ch == '9'
}

/// A character that may stand inside a row before its newline: a digit
/// or the cell separator.
pub open spec fn is_cell_char(ch: char) -> bool {
    is_digit(ch) || ch == ' '
}

/// A rendered cell has exactly the fixed width.
pub proof fn lemma_padded_dec_len(n: int, width: int)
    ensures
        padded_dec(n, width).len() == if width <= 0 { 0int } else { width },
    decreases width,
{
    if width > 0 {
        lemma_padded_dec_len(n / 10, width - 1);
    }
}

/// Every character of a rendered cell is a decimal digit.
pub proof fn lemma_padded_dec_digits(n: int, width: int)
    requires
        n >= 0,
    ensures
        forall|p: int| 0 <= p < padded_dec(n, width).len()
            ==> is_digit(#[trigger] padded_dec(n, width)[p]),
    decreases width,
{
    if width > 0 {
        lemma_padded_dec_digits(n / 10, width - 1);
        lemma_padded_dec_len(n / 10, width - 1);
        assert(is_digit(digit_char(n % 10)));
    }
}

/// Every non-negative value lies below ten to its own digit count; in
/// particular every index up to `levels^3 - 1` fits its fixed cell
/// width.
pub proof fn lemma_n_digits_covers(n: int)
    requires
        n >= 0,
    ensures
        n < pow10(n_digits(n)),
        n_digits(n) >= 1,
    decreases n,
{
    if n < 10 {
        assert(pow10(0) == 1);
        assert(pow10(1) == 10);
    } else {
        lemma_n_digits_covers(n / 10);
        vstd::arithmetic::div_mod::lemma_fundamental_div_mod(n, 10);
    }
}

/// Law (unambiguity): fixed-width rendering is injective. Two values
/// below `10^width` with the same rendering are the same value, so a
/// grid of in-range cells can be decoded without guessing cell
/// boundaries.
pub proof fn lemma_padded_dec_injective(n1: int, n2: int, width: int)
    requires
        0 <= n1 < pow10(width),
        0 <= n2 < pow10(width),
        padded_dec(n1, width) == padded_dec(n2, width),
    ensures
        n1 == n2,
    decreases width,
{
    if width <= 0 {
        assert(pow10(width) == 1);
    } else {
        let p1 = padded_dec(n1 / 10, width - 1);
        let p2 = padded_dec(n2 / 10, width - 1);
        lemma_padded_dec_len(n1 / 10, width - 1);
        lemma_padded_dec_len(n2 / 10, width - 1);
        assert(p1.push(digit_char(n1 % 10)) == p2.push(digit_char(n2 % 10)));
        assert(p1.push(digit_char(n1 % 10))[width - 1] == digit_char(n1 % 10));
        assert(p2.push(digit_char(n2 % 10))[width - 1] == digit_char(n2 % 10));
        assert(digit_char(n1 % 10) == digit_char(n2 % 10));
        assert(n1 % 10 == n2 % 10);
        assert forall|p: int| 0 <= p < width - 1 implies p1[p] == p2[p] by {
            assert(p1[p] == p1.push(digit_char(n1 % 10))[p]);
            assert(p2[p] == p2.push(digit_char(n2 % 10))[p]);
        }
        assert(p1 =~= p2);
        assert(pow10(width) == 10 * pow10(width - 1));
        lemma_pow10_pos(width - 1);
        lemma_padded_dec_injective(n1 / 10, n2 / 10, width - 1);
        vstd::arithmetic::div_mod::lemma_fundamental_div_mod(n1, 10);
        vstd::arithmetic::div_mod::lemma_fundamental_div_mod(n2, 10);
    }
}

/// A row prefix of `j` cells has length `j * (width + 1) - 1` (cells of
/// the fixed width, one separator between neighbours).
pub proof fn lemma_row_prefix_len(cells: Seq<u32>, w: int, row: int, j: int, width: int)
    requires
        width >= 1,
    ensures
        row_prefix(cells, w, row, j, width).len() == if j <= 0 { 0int } else { j * (width + 1) - 1 },
    decreases j,
{
    if j > 0 {
        lemma_row_prefix_len(cells, w, row, j - 1, width);
        lemma_padded_dec_len(cells[row * w + (j - 1)] as int, width);
        assert((j - 1) * (width + 1) == j * (width + 1) - (width + 1)) by (nonlinear_arith);
    }
}

/// Every character of a row prefix is a digit or a separator.
pub proof fn lemma_row_prefix_chars(cells: Seq<u32>, w: int, row: int, j: int, width: int)
    requires
        width >= 1,
    ensures
        forall|p: int| 0 <= p < row_prefix(cells, w, row, j, width).len()
            ==> is_cell_char(#[trigger] row_prefix(cells, w, row, j, width)[p]),
    decreases j,
{
    if j > 0 {
        lemma_row_prefix_chars(cells, w, row, j - 1, width);
        lemma_padded_dec_digits(cells[row * w + (j - 1)] as int, width);
        let prev = row_prefix(cells, w, row, j - 1, width);
        let sep: Seq<char> = if j == 1 { Seq::empty() } else { seq![' '] };
        let cell = padded_dec(cells[row * w + (j - 1)] as int, width);
        assert(row_prefix(cells, w, row, j, width) == prev + sep + cell);
        assert forall|p: int| 0 <= p < row_prefix(cells, w, row, j, width).len()
            implies is_cell_char(#[trigger] row_prefix(cells, w, row, j, width)[p]) by {
            if p < prev.len() {
                assert(row_prefix(cells, w, row, j, width)[p] == prev[p]);
            } else if p < prev.len() + sep.len() {
                assert(row_prefix(cells, w, row, j, width)[p] == ' ');
            } else {
                assert(row_prefix(cells, w, row, j, width)[p]
                    == cell[p - prev.len() - sep.len()]);
            }
        }
    }
}

/// The length of one text row: `w` cells of the fixed width with single
/// separators between them plus the newline; a zero-width grid's row is
/// the bare newline.
pub open spec fn row_len(w: int, width: int) -> int {
    if w <= 0 {
        1
    } else {
        w * (width + 1)
    }
}

/// Law (row shape): one text row of a `w`-column grid is exactly
/// `row_len(w, width)` characters: `w` cells of the fixed width, single
/// separators between them, and exactly one newline, at the end.
pub proof fn lemma_row_shape(cells: Seq<u32>, w: int, row: int, width: int)
    requires
        width >= 1,
    ensures
        row_text(cells, w, row, width).len() == row_len(w, width),
        row_text(cells, w, row, width)[row_len(w, width) - 1] == '\n',
        forall|p: int| 0 <= p < row_len(w, width) - 1
            ==> is_cell_char(#[trigger] row_text(cells, w, row, width)[p]),
        forall|p: int| 0 <= p < row_len(w, width) - 1
            ==> row_text(cells, w, row, width)[p] != '\n',
{
    lemma_row_prefix_len(cells, w, row, w, width);
    lemma_row_prefix_chars(cells, w, row, w, width);
}

/// The first `i` rows of grid text have length `i` times the row length.
pub proof fn lemma_grid_prefix_len(cells: Seq<u32>, w: int, i: int, width: int)
    requires
        width >= 1,
    ensures
        grid_prefix(cells, w, i, width).len() == if i <= 0 { 0int } else { i * row_len(w, width) },
    decreases i,
{
    if i > 0 {
        lemma_grid_prefix_len(cells, w, i - 1, width);
        lemma_row_shape(cells, w, i - 1, width);
        assert((i - 1) * row_len(w, width) == i * row_len(w, width) - row_len(w, width))
            by (nonlinear_arith);
    }
}

/// Law (shape preservation): the grid text of an `h`-row, `w`-column
/// cell buffer has exactly `h` rows — its length is `h` times the row
/// length, and the segment at each row's offset is exactly that row's
/// text, which by the row shape law holds exactly `w` cells and ends in
/// the row's only newline.
pub proof fn lemma_grid_shape(cells: Seq<u32>, w: int, h: int, width: int)
    requires
        h >= 0,
        width >= 1,
    ensures
        grid_text(cells, w, h, width).len() == h * row_len(w, width),
        forall|i: int| 0 <= i < h
            ==> #[trigger] grid_text(cells, w, h, width).subrange(
                    i * row_len(w, width),
                    (i + 1) * row_len(w, width),
                ) == row_text(cells, w, i, width),
    decreases h,
{
    let rl = row_len(w, width);
    if w >= 1 {
        assert(w * (width + 1) >= 1) by (nonlinear_arith)
            requires w >= 1, width >= 1;
    }
    lemma_grid_prefix_len(cells, w, h, width);
    assert(grid_text(cells, w, h, width) == grid_prefix(cells, w, h, width));
    if h == 0 {
        assert(h * rl == 0) by (nonlinear_arith)
            requires h == 0;
    }
    if h > 0 {
        lemma_grid_shape(cells, w, h - 1, width);
        lemma_grid_prefix_len(cells, w, h - 1, width);
        lemma_row_shape(cells, w, h - 1, width);
        let prev = grid_prefix(cells, w, h - 1, width);
        let last = row_text(cells, w, h - 1, width);
        let whole = grid_text(cells, w, h, width);
        assert(whole == prev + last);
        assert forall|i: int| 0 <= i < h
            implies #[trigger] whole.subrange(i * rl, (i + 1) * rl)
                == row_text(cells, w, i, width) by {
            assert((i + 1) * rl == i * rl + rl) by (nonlinear_arith);
            assert(0 <= i * rl) by (nonlinear_arith)
                requires 0 <= i, 0 < rl;
            if i < h - 1 {
                assert((i + 1) * rl <= (h - 1) * rl) by (nonlinear_arith)
                    requires i + 1 <= h - 1, 0 < rl;
                assert(whole.subrange(i * rl, (i + 1) * rl)
                    =~= prev.subrange(i * rl, (i + 1) * rl));
            } else {
                assert(i * rl == prev.len());
                assert(whole.subrange(i * rl, (i + 1) * rl) =~= last);
            }
        }
    }
}

/// One digit as a string slice.
fn digit_str(d: u32) -> (s: &'static str)
    requires
        d < 10,
    ensures
        s@ == seq![digit_char(d as int)],
{
    proof {
        reveal_strlit("0");
        reveal_strlit("1");
        reveal_strlit("2");
        reveal_strlit("3");
        reveal_strlit("4");
        reveal_strlit("5");
        reveal_strlit("6");
        reveal_strlit("7");
        reveal_strlit("8");
        reveal_strlit("9");
    }
    let s = match d {
        0 => "0",
        1 => "1",
        2 => "2",
        3 => "3",
        4 => "4",
        5 => "5",
        6 => "6",
        7 => "7",
        8 => "8",
        _ => "9",
    };
    proof {
        assert(s@ =~= seq![digit_char(d as int)]);
    }
    s
}

/// Render `x` as exactly `width` zero-padded decimal digits.
pub fn render_cell(x: u32, width: usize) -> (s: String)
    ensures
        s@ == padded_dec(x as int, width as int),
    decreases width,
{
    if width == 0 {
        String::new()
    } else {
        let mut s = render_cell(x / 10, width - 1);
        s.append(digit_str(x % 10));
        proof {
            assert(s@ =~= padded_dec(x as int, width as int));
        }
        s
    }
}

/// The digit count of any index that fits the quantizer's range.
pub fn digits_of(n: u32) -> (d: usize)
    requires
        n < 100000000,
    ensures
        d == n_digits(n as int),
{
    proof {
        assert(pow10(0) == 1);
        assert(pow10(1) == 10);
        assert(pow10(2) == 100);
        assert(pow10(3) == 1000);
        assert(pow10(4) == 10000);
        assert(pow10(5) == 100000);
        assert(pow10(6) == 1000000);
        assert(pow10(7) == 10000000);
        assert(pow10(8) == 100000000);
    }
    if n < 10 { 1 }
    else if n < 100 { proof { lemma_n_digits_of_range(n as int, 2); } 2 }
    else if n < 1000 { proof { lemma_n_digits_of_range(n as int, 3); } 3 }
    else if n < 10000 { proof { lemma_n_digits_of_range(n as int, 4); } 4 }
    else if n < 100000 { proof { lemma_n_digits_of_range(n as int, 5); } 5 }
    else if n < 1000000 { proof { lemma_n_digits_of_range(n as int, 6); } 6 }
    else if n < 10000000 { proof { lemma_n_digits_of_range(n as int, 7); } 7 }
    else { proof { lemma_n_digits_of_range(n as int, 8); } 8 }
}

/// Serialize a quantized index array: one line per row, fixed-width
/// zero-padded decimal cells separated by single spaces.
pub fn encode_grid(q: &QuantizedIndexArray) -> (s: String)
    requires
        q.wf(),
    ensures
        s@ == grid_text(q.cells@, q.width as int, q.height as int, cell_width(q.levels)),
{
    let w = q.width;
    let h = q.height;
    let l: u32 = q.levels as u32;
    proof {
        assert(1 <= l * l * l <= 0x1000000 && l * l <= 0x10000) by (nonlinear_arith)
            requires 1 <= l <= 255;
    }
    let m: u32 = l * l * l - 1;
    let width = digits_of(m);
    let mut s = String::new();
    let mut i: usize = 0;
    while i < h
        invariant
            q.wf(),
            w == q.width,
            h == q.height,
            width == cell_width(q.levels),
            i <= h,
            s@ == grid_prefix(q.cells@, w as int, i as int, width as int),
        decreases h - i,
    {
        let mut j: usize = 0;
        while j < w
            invariant
                q.wf(),
                w == q.width,
                h == q.height,
                width == cell_width(q.levels),
                i < h,
                j <= w,
                s@ == grid_prefix(q.cells@, w as int, i as int, width as int)
                    + row_prefix(q.cells@, w as int, i as int, j as int, width as int),
            decreases w - j,
        {
            if j > 0 {
                proof {
                    reveal_strlit(" ");
                    assert(" "@ =~= seq![' ']);
                }
                s.append(" ");
            }
            let x = q.cell_at(i, j);
            let cs = render_cell(x, width);
            s.append(cs.as_str());
            proof {
                assert(s@ =~= grid_prefix(q.cells@, w as int, i as int, width as int)
                    + row_prefix(q.cells@, w as int, i as int, j + 1 as int, width as int));
            }
            j = j + 1;
        }
        proof {
            reveal_strlit("\n");
            assert("\n"@ =~= seq!['\n']);
        }
        s.append("\n");
        proof {
            assert(s@ =~= grid_prefix(q.cells@, w as int, i + 1 as int, width as int));
        }
        i = i + 1;
    }
    s
}

} // verus!
