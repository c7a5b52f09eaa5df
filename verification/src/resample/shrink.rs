//! Integer shrink in both directions: a horizontal box shrink followed by a
//! vertical one, with the libvips floor geometry `width / hshrink` ×
//! `height / vshrink`. An 8-bit 2×2 shrink has a direct kernel that rounds
//! exactly as the two passes do.
use vstd::prelude::*;
use vstd::string::StringExecFns;

use crate::error::{BuildError, ViprsError};
use crate::format::{BandFormat, BandFormatId, U8};
use crate::op::{DemandHint, DynOperation, NodeSpec};
use crate::region::{clamp_to_i32, Region};

use crate::resample::shrinkh::{
    lemma_mean_mul_pair, lemma_mean_mul_unit, lemma_shrink_h_unit_factor_is_identity, mean_div,
    saturate_u32, saturating_scale_i32, shrink_h_geometry, shrink_h_input_region,
    shrink_h_u8_cuts_rows, shrink_h_u8_samples, ShrinkH,
    box_multiplier, lemma_mean_mul_fits, lemma_shift_24, lemma_strided_sum_bound, mean_mul,
    strided_sum,
};
use crate::layout::{
    band_of, column_of, lemma_flat_index_split, lemma_sample_index_split, lemma_sample_index_step,
    lemma_sample_offsets, overwrite_prefix, row_of, sample_index, tile_fits,
};

verus! {

/// Rounded mean of two samples, `(a + b + 1) / 2`.
pub open spec fn pair_mean(a: int, b: int) -> int {
    (a + b + 1) / 2
}

/// The direct 2×2 shrink of an 8-bit tile whose input rows are `2 * out_w`
/// pixels long: each row pair is averaged horizontally, then the two row
/// means are averaged, each step rounding half up.
pub open spec fn shrink_2x2_samples(input: Seq<u8>, bands: int, out_w: int, out_h: int) -> Seq<
    u8,
> {
    Seq::new(
        (out_w * out_h * bands) as nat,
        |i: int|
            {
                let x = column_of(i, out_w, bands);
                let y = row_of(i, out_w, bands);
                let b = band_of(i, bands);
                let top = pair_mean(
                    input[sample_index(2 * out_w, bands, 2 * x, 2 * y, b)] as int,
                    input[sample_index(2 * out_w, bands, 2 * x + 1, 2 * y, b)] as int,
                );
                let bottom = pair_mean(
                    input[sample_index(2 * out_w, bands, 2 * x, 2 * y + 1, b)] as int,
                    input[sample_index(2 * out_w, bands, 2 * x + 1, 2 * y + 1, b)] as int,
                );
                pair_mean(top, bottom) as u8
            },
    )
}

/// Where the four samples of a 2×2 window lie in the input buffer.
proof fn lemma_2x2_window(w: int, h: int, nb: int, x: int, y: int, b: int)
    requires
        0 <= x < w,
        0 <= y < h,
        0 <= b < nb,
    ensures
        2 * y * (w * 2 * nb) + x * 2 * nb + b == sample_index(2 * w, nb, 2 * x, 2 * y, b),
        sample_index(2 * w, nb, 2 * x + 1, 2 * y, b) == sample_index(2 * w, nb, 2 * x, 2 * y, b)
            + nb,
        sample_index(2 * w, nb, 2 * x, 2 * y + 1, b) == sample_index(2 * w, nb, 2 * x, 2 * y, b)
            + w * 2 * nb,
        sample_index(2 * w, nb, 2 * x + 1, 2 * y + 1, b) == sample_index(
            2 * w,
            nb,
            2 * x,
            2 * y,
            b,
        ) + w * 2 * nb + nb,
        0 <= sample_index(2 * w, nb, 2 * x, 2 * y, b),
        sample_index(2 * w, nb, 2 * x + 1, 2 * y + 1, b) < (2 * y + 2) * (w * 2 * nb),
        0 <= x * 2 * nb,
        x * 2 * nb + 2 * nb <= w * 2 * nb,
        (2 * y + 2) * (w * 2 * nb) <= 2 * h * (w * 2 * nb),
        0 <= 2 * y * (w * 2 * nb),
{
    assert(2 * y * (w * 2 * nb) + x * 2 * nb + b == sample_index(2 * w, nb, 2 * x, 2 * y, b))
        by (nonlinear_arith);
    assert(sample_index(2 * w, nb, 2 * x + 1, 2 * y, b) == sample_index(2 * w, nb, 2 * x, 2 * y, b)
        + nb) by (nonlinear_arith);
    assert(sample_index(2 * w, nb, 2 * x, 2 * y + 1, b) == sample_index(2 * w, nb, 2 * x, 2 * y, b)
        + w * 2 * nb) by (nonlinear_arith);
    assert(sample_index(2 * w, nb, 2 * x + 1, 2 * y + 1, b) == sample_index(
        2 * w,
        nb,
        2 * x,
        2 * y,
        b,
    ) + w * 2 * nb + nb) by (nonlinear_arith);
    assert(0 <= x * 2 * nb && x * 2 * nb + 2 * nb <= w * 2 * nb) by (nonlinear_arith)
        requires
            0 <= x < w,
            0 <= nb,
    ;
    assert(0 <= 2 * y * (w * 2 * nb) && (2 * y + 2) * (w * 2 * nb) <= 2 * h * (w * 2 * nb))
        by (nonlinear_arith)
        requires
            0 <= y < h,
            0 <= w,
            0 <= nb,
    ;
    assert(sample_index(2 * w, nb, 2 * x + 1, 2 * y + 1, b) < (2 * y + 2) * (w * 2 * nb))
        by (nonlinear_arith)
        requires
            0 <= x < w,
            0 <= b < nb,
            sample_index(2 * w, nb, 2 * x + 1, 2 * y + 1, b) == 2 * y * (w * 2 * nb) + x * 2 * nb
                + b + w * 2 * nb + nb,
    ;
}

/// Shrinks an 8-bit tile by 2 in both directions; the input rows are
/// `2 * out_w` pixels long and the samples past the output tile are left as
/// they were.
pub fn shrink_u8_2x2(input: &[u8], bands: usize, out_w: usize, out_h: usize, output: &mut [u8])
    requires
        tile_fits(out_w as int, out_h as int, bands as int),
        2 * out_h * (out_w * 2 * bands) <= input@.len(),
        out_h * (out_w * bands) <= old(output)@.len(),
    ensures
        final(output)@ == overwrite_prefix(
            old(output)@,
            shrink_2x2_samples(input@, bands as int, out_w as int, out_h as int),
        ),
{
    let ghost nb = bands as int;
    let ghost w = out_w as int;
    let ghost h = out_h as int;
    let ghost old_out = output@;
    let ghost expected = shrink_2x2_samples(input@, nb, w, h);
    proof {
        vstd::slice::axiom_spec_len(input);
        vstd::slice::axiom_spec_len(output);
        assert(h * (w * nb) == w * h * nb) by (nonlinear_arith);
        assert(sample_index(w, nb, 0, 0, 0) == 0) by (nonlinear_arith);
        assert(0 <= w * 2 * nb <= 2 * h * (w * 2 * nb) || h == 0) by (nonlinear_arith)
            requires
                0 <= w,
                0 <= h,
                0 <= nb,
        ;
    }
    let input_row_len = if out_h == 0 {
        0
    } else {
        proof {
            assert(w * nb * 2 == w * 2 * nb) by (nonlinear_arith);
            assert(w * nb <= w * h * nb && w * nb * 2 <= 2 * h * (w * 2 * nb)) by (nonlinear_arith)
                requires
                    0 <= w,
                    1 <= h,
                    0 <= nb,
            ;
        }
        out_w * bands * 2
    };
    let mut row0: usize = 0;
    let mut y: usize = 0;
    assert(2 * (y as int) * (w * 2 * nb) == 0) by (nonlinear_arith)
        requires
            y == 0,
    ;
    while y < out_h
        invariant
            y <= out_h,
            row0 == 2 * y * (w * 2 * nb),
            nb == bands,
            w == out_w,
            h == out_h,
            h > 0 ==> input_row_len == w * 2 * nb,
            tile_fits(w, h, nb),
            2 * h * (w * 2 * nb) <= input@.len(),
            h * (w * nb) <= old_out.len(),
            w * h * nb <= old_out.len(),
            old_out.len() <= usize::MAX,
            input@.len() <= usize::MAX,
            output@.len() == old_out.len(),
            expected == shrink_2x2_samples(input@, nb, w, h),
            forall|i: int|
                0 <= i < sample_index(w, nb, 0, y as int, 0) ==> #[trigger] output@[i]
                    == expected[i],
            forall|i: int|
                sample_index(w, nb, 0, y as int, 0) <= i < old_out.len() ==> #[trigger] output@[i]
                    == old_out[i],
        decreases out_h - y,
    {
        proof {
            assert(0 <= 2 * y * (w * 2 * nb) && 2 * y * (w * 2 * nb) + 2 * (w * 2 * nb) <= 2 * h
                * (w * 2 * nb)) by (nonlinear_arith)
                requires
                    0 <= y < h,
                    0 <= w,
                    0 <= nb,
            ;
        }
        let row1 = row0 + input_row_len;
        let mut x: usize = 0;
        while x < out_w
            invariant
                y < out_h,
                x <= out_w,
                nb == bands,
                w == out_w,
                h == out_h,
                input_row_len == w * 2 * nb,
                row0 == 2 * y * (w * 2 * nb),
                row1 == row0 + w * 2 * nb,
                tile_fits(w, h, nb),
                2 * h * (w * 2 * nb) <= input@.len(),
                w * h * nb <= old_out.len(),
                old_out.len() <= usize::MAX,
                input@.len() <= usize::MAX,
                output@.len() == old_out.len(),
                expected == shrink_2x2_samples(input@, nb, w, h),
                forall|i: int|
                    0 <= i < sample_index(w, nb, x as int, y as int, 0) ==> #[trigger] output@[i]
                        == expected[i],
                forall|i: int|
                    sample_index(w, nb, x as int, y as int, 0) <= i < old_out.len()
                        ==> #[trigger] output@[i] == old_out[i],
            decreases out_w - x,
        {
            proof {
                assert(x * nb * 2 == x * 2 * nb) by (nonlinear_arith);
                assert(0 <= x * 2 * nb && x * 2 * nb + 2 * nb <= w * 2 * nb) by (nonlinear_arith)
                    requires
                        0 <= x < w,
                        0 <= nb,
                ;
                assert(0 <= y * w + x && (y * w + x) * nb <= w * h * nb && y * w + x <= w * h)
                    by (nonlinear_arith)
                    requires
                        0 <= x < w,
                        0 <= y < h,
                        0 <= nb,
                ;
            }
            let base = x * bands * 2;
            let out_base = (y * out_w + x) * bands;
            let mut band: usize = 0;
            while band < bands
                invariant
                    y < out_h,
                    x < out_w,
                    band <= bands,
                    nb == bands,
                    w == out_w,
                    h == out_h,
                    row0 == 2 * y * (w * 2 * nb),
                    row1 == row0 + w * 2 * nb,
                    base == x * 2 * nb,
                    out_base == (y * w + x) * nb,
                    tile_fits(w, h, nb),
                    2 * h * (w * 2 * nb) <= input@.len(),
                    w * h * nb <= old_out.len(),
                    old_out.len() <= usize::MAX,
                    input@.len() <= usize::MAX,
                    output@.len() == old_out.len(),
                    expected == shrink_2x2_samples(input@, nb, w, h),
                    forall|i: int|
                        0 <= i < sample_index(w, nb, x as int, y as int, band as int)
                            ==> #[trigger] output@[i] == expected[i],
                    forall|i: int|
                        sample_index(w, nb, x as int, y as int, band as int) <= i < old_out.len()
                            ==> #[trigger] output@[i] == old_out[i],
                decreases bands - band,
            {
                proof {
                    lemma_2x2_window(w, h, nb, x as int, y as int, band as int);
                    lemma_sample_offsets(w, h, nb, x as int, y as int, band as int);
                    lemma_sample_index_split(w, nb, x as int, y as int, band as int);
                }
                let a = input[row0 + base + band] as u16;
                let b = input[row0 + base + bands + band] as u16;
                let c = input[row1 + base + band] as u16;
                let d = input[row1 + base + bands + band] as u16;
                let top = (a + b + 1) >> 1u16;
                let bottom = (c + d + 1) >> 1u16;
                proof {
                    assert((a + b + 1) as u16 >> 1u16 == (a + b + 1) as u16 / 2) by (bit_vector);
                    assert((c + d + 1) as u16 >> 1u16 == (c + d + 1) as u16 / 2) by (bit_vector);
                }
                let mean = (top + bottom + 1) >> 1u16;
                proof {
                    assert((top + bottom + 1) as u16 >> 1u16 == (top + bottom + 1) as u16 / 2)
                        by (bit_vector);
                }
                output[out_base + band] = mean as u8;
                band += 1;
            }
            proof {
                lemma_sample_index_step(w, nb, x as int, y as int);
            }
            x += 1;
        }
        proof {
            lemma_sample_index_step(w, nb, w, y as int);
            assert(2 * (y + 1) * (w * 2 * nb) == 2 * y * (w * 2 * nb) + 2 * (w * 2 * nb))
                by (nonlinear_arith);
        }
        row0 = row1 + input_row_len;
        y += 1;
    }
    proof {
        if h > 0 {
            lemma_sample_index_step(w, nb, 0, h);
        } else {
            assert(w * h * nb == 0) by (nonlinear_arith)
                requires
                    h == 0,
            ;
        }
        assert(output@ =~= overwrite_prefix(old_out, expected));
    }
}


/// Sum of the `factor` samples of band `b` in column `x` that output row `y`
/// of a vertical shrink averages, in a tile `width` pixels wide.
pub open spec fn column_window_sum(
    input: Seq<u8>,
    bands: int,
    width: int,
    factor: int,
    x: int,
    y: int,
    b: int,
) -> int {
    strided_sum(input, sample_index(width, bands, x, y * factor, b), factor as nat, width * bands)
}

/// The vertical shrink of a `width × (out_h * factor)` tile to `width ×
/// out_h`, with libvips fixed-point means.
pub open spec fn shrink_v_mul_samples(
    input: Seq<u8>,
    bands: int,
    width: int,
    factor: int,
    out_h: int,
) -> Seq<u8> {
    Seq::new(
        (width * out_h * bands) as nat,
        |i: int|
            mean_mul(
                factor,
                column_window_sum(
                    input,
                    bands,
                    width,
                    factor,
                    column_of(i, width, bands),
                    row_of(i, width, bands),
                    band_of(i, bands),
                ),
            ) as u8,
    )
}

/// Where sample `k` of the column window of output pixel `(x, y)`, band `b`,
/// lies in the input of a vertical shrink.
proof fn lemma_column_window_index(
    w: int,
    h: int,
    f: int,
    nb: int,
    x: int,
    y: int,
    b: int,
    k: int,
)
    requires
        0 <= x < w,
        0 <= y < h,
        0 <= b < nb,
        0 <= k < f,
    ensures
        sample_index(w, nb, x, y * f, b) + k * (w * nb) == sample_index(w, nb, x, y * f + k, b),
        0 <= sample_index(w, nb, x, y * f + k, b) < w * (h * f) * nb,
        0 <= k * (w * nb) <= (f - 1) * (w * nb),
        0 <= y * f,
{
    assert(0 <= y * f + k < h * f) by (nonlinear_arith)
        requires
            0 <= y < h,
            0 <= k < f,
    ;
    lemma_sample_offsets(w, h * f, nb, x, y * f + k, b);
    assert(w * (h * f) * nb == w * (h * f) * nb);
    assert(sample_index(w, nb, x, y * f, b) + k * (w * nb) == sample_index(w, nb, x, y * f + k, b))
        by (nonlinear_arith);
    assert(0 <= k * (w * nb) <= (f - 1) * (w * nb)) by (nonlinear_arith)
        requires
            0 <= k < f,
            0 <= w,
            0 <= nb,
    ;
    assert(0 <= y * f) by (nonlinear_arith)
        requires
            0 <= y,
            0 <= k < f,
    ;
}

/// Shrinks an 8-bit `width × (out_h * factor)` tile vertically by `factor`:
/// output pixel `(x, y)` is the mean of input pixels `(x, y * factor ..
/// (y + 1) * factor)`. The samples past the output tile are left as they were.
fn shrink_v_u8(
    factor: usize,
    input: &[u8],
    bands: usize,
    width: usize,
    out_h: usize,
    output: &mut [u8],
)
    requires
        1 <= factor <= u32::MAX,
        tile_fits(width as int, out_h as int, bands as int),
        width * (out_h * factor) * bands <= input@.len(),
        width * out_h * bands <= old(output)@.len(),
    ensures
        final(output)@ == overwrite_prefix(
            old(output)@,
            shrink_v_mul_samples(input@, bands as int, width as int, factor as int, out_h as int),
        ),
{
    let ghost nb = bands as int;
    let ghost w = width as int;
    let ghost h = out_h as int;
    let ghost f = factor as int;
    let ghost old_out = output@;
    let ghost expected = shrink_v_mul_samples(input@, nb, w, f, h);
    proof {
        vstd::slice::axiom_spec_len(input);
        vstd::slice::axiom_spec_len(output);
        assert(sample_index(w, nb, 0, 0, 0) == 0) by (nonlinear_arith);
        assert((1u64 << 32u64) == 4294967296u64) by (bit_vector);
        assert((1u64 << 8u64) == 256u64) by (bit_vector);
    }
    let amend = (factor / 2) as u64;
    let multiplier = (1u64 << 32u64) / ((1u64 << 8u64) * factor as u64);
    let mut y: usize = 0;
    while y < out_h
        invariant
            y <= out_h,
            nb == bands,
            w == width,
            h == out_h,
            f == factor,
            1 <= f <= u32::MAX,
            amend == f / 2,
            multiplier == box_multiplier(f),
            tile_fits(w, h, nb),
            w * (h * f) * nb <= input@.len(),
            w * h * nb <= old_out.len(),
            old_out.len() <= usize::MAX,
            input@.len() <= usize::MAX,
            output@.len() == old_out.len(),
            expected == shrink_v_mul_samples(input@, nb, w, f, h),
            forall|i: int|
                0 <= i < sample_index(w, nb, 0, y as int, 0) ==> #[trigger] output@[i]
                    == expected[i],
            forall|i: int|
                sample_index(w, nb, 0, y as int, 0) <= i < old_out.len() ==> #[trigger] output@[i]
                    == old_out[i],
        decreases out_h - y,
    {
        let mut x: usize = 0;
        while x < width
            invariant
                y < out_h,
                x <= width,
                nb == bands,
                w == width,
                h == out_h,
                f == factor,
                1 <= f <= u32::MAX,
                amend == f / 2,
                multiplier == box_multiplier(f),
                tile_fits(w, h, nb),
                w * (h * f) * nb <= input@.len(),
                w * h * nb <= old_out.len(),
                old_out.len() <= usize::MAX,
                input@.len() <= usize::MAX,
                output@.len() == old_out.len(),
                expected == shrink_v_mul_samples(input@, nb, w, f, h),
                forall|i: int|
                    0 <= i < sample_index(w, nb, x as int, y as int, 0) ==> #[trigger] output@[i]
                        == expected[i],
                forall|i: int|
                    sample_index(w, nb, x as int, y as int, 0) <= i < old_out.len()
                        ==> #[trigger] output@[i] == old_out[i],
            decreases width - x,
        {
            let mut band: usize = 0;
            while band < bands
                invariant
                    y < out_h,
                    x < width,
                    band <= bands,
                    nb == bands,
                    w == width,
                    h == out_h,
                    f == factor,
                    1 <= f <= u32::MAX,
                    amend == f / 2,
                    multiplier == box_multiplier(f),
                    tile_fits(w, h, nb),
                    w * (h * f) * nb <= input@.len(),
                    w * h * nb <= old_out.len(),
                    old_out.len() <= usize::MAX,
                    input@.len() <= usize::MAX,
                    output@.len() == old_out.len(),
                    expected == shrink_v_mul_samples(input@, nb, w, f, h),
                    forall|i: int|
                        0 <= i < sample_index(w, nb, x as int, y as int, band as int)
                            ==> #[trigger] output@[i] == expected[i],
                    forall|i: int|
                        sample_index(w, nb, x as int, y as int, band as int) <= i < old_out.len()
                            ==> #[trigger] output@[i] == old_out[i],
                decreases bands - band,
            {
                let ghost start = sample_index(w, nb, x as int, y * f, band as int);
                proof {
                    lemma_column_window_index(w, h, f, nb, x as int, y as int, band as int, 0);
                    assert(width * bands == w * nb);
                    assert(0 <= y * f <= (y * f) * w <= (y * f) * w + x <= ((y * f) * w + x) * nb)
                        by (nonlinear_arith)
                        requires
                            0 <= x < w,
                            0 <= band < nb,
                            0 <= y * f,
                    ;
                    assert(w * nb <= w * (h * f) * nb) by (nonlinear_arith)
                        requires
                            0 <= w,
                            0 <= nb,
                            0 <= y < h,
                            1 <= f,
                    ;
                }
                let row_len = width * bands;
                let base = ((y * factor) * width + x) * bands + band;
                let mut sum: u64 = amend;
                let mut k: usize = 0;
                while k < factor
                    invariant
                        y < out_h,
                        x < width,
                        band < bands,
                        k <= factor,
                        nb == bands,
                        w == width,
                        h == out_h,
                        f == factor,
                        1 <= f <= u32::MAX,
                        amend == f / 2,
                        row_len == w * nb,
                        base == start,
                        start == sample_index(w, nb, x as int, y * f, band as int),
                        w * (h * f) * nb <= input@.len(),
                        input@.len() <= usize::MAX,
                        sum == amend + strided_sum(input@, start, k as nat, w * nb),
                    decreases factor - k,
                {
                    proof {
                        lemma_column_window_index(
                            w,
                            h,
                            f,
                            nb,
                            x as int,
                            y as int,
                            band as int,
                            k as int,
                        );
                        lemma_strided_sum_bound(input@, start, k as nat, w * nb);
                        assert(amend + 255 * k + 255 <= f * 256) by (nonlinear_arith)
                            requires
                                amend == f / 2,
                                k < f,
                        ;
                    }
                    sum = sum + input[base + k * row_len] as u64;
                    k += 1;
                }
                proof {
                    lemma_strided_sum_bound(input@, start, f as nat, w * nb);
                    lemma_mean_mul_fits(f, strided_sum(input@, start, f as nat, w * nb));
                    lemma_sample_offsets(w, h, nb, x as int, y as int, band as int);
                    lemma_sample_index_split(w, nb, x as int, y as int, band as int);
                    lemma_shift_24((sum * multiplier) as u64);
                }
                let out_idx = (y * width + x) * bands + band;
                output[out_idx] = ((sum * multiplier) >> 24u64) as u8;
                band += 1;
            }
            proof {
                lemma_sample_index_step(w, nb, x as int, y as int);
            }
            x += 1;
        }
        proof {
            lemma_sample_index_step(w, nb, w, y as int);
        }
        y += 1;
    }
    proof {
        if h > 0 {
            lemma_sample_index_step(w, nb, 0, h);
        } else {
            assert(w * h * nb == 0) by (nonlinear_arith)
                requires
                    h == 0,
            ;
        }
        assert(output@ =~= overwrite_prefix(old_out, expected));
    }
}


/// The intermediate region of a two-pass shrink: the output columns, and the
/// output rows scaled by the vertical factor (saturating).
pub open spec fn shrink_intermediate_region(vshrink: u32, output: Region) -> Region {
    Region {
        x: output.x,
        y: clamp_to_i32(output.y * vshrink),
        width: output.width,
        height: saturate_u32(output.height * vshrink),
    }
}

/// The input region a two-pass shrink reads for an output region.
pub open spec fn shrink_input_region(hshrink: u32, vshrink: u32, output: Region) -> Region {
    shrink_h_input_region(hshrink, None, shrink_intermediate_region(vshrink, output))
}

/// The two-pass 8-bit shrink of a tile: the horizontal shrink to `out_w ×
/// (out_h * vshrink)`, then the vertical shrink to `out_w × out_h`.
pub open spec fn shrink_u8_samples(
    input: Seq<u8>,
    bands: int,
    input_width: int,
    hshrink: int,
    vshrink: int,
    out_w: int,
    out_h: int,
) -> Seq<u8> {
    shrink_v_mul_samples(
        shrink_h_u8_samples(input, bands, input_width, hshrink, out_w, out_h * vshrink),
        bands,
        out_w,
        vshrink,
        out_h,
    )
}

/// A shrink factor in `1..=u32::MAX`.
pub open spec fn shrink_factor_in_range(factor: usize) -> bool {
    1 <= factor <= u32::MAX
}

/// The message of a rejected shrink factor.
pub open spec fn shrink_factor_message(name: Seq<char>) -> Seq<char> {
    name + " must be in 1..=u32::MAX"@
}

fn validate_shrink_factor(name: &'static str, factor: usize) -> (r: Result<u32, BuildError>)
    ensures
        r is Ok <==> shrink_factor_in_range(factor),
        r matches Ok(v) ==> v == factor,
        r matches Err(e) ==> e.is_source_hint("shrink"@, shrink_factor_message(name@)),
{
    if factor == 0 || factor > u32::MAX as usize {
        let message = String::from_str(name).concat(" must be in 1..=u32::MAX");
        return Err(BuildError::SourceHint { context: "shrink", message });
    }
    Ok(factor as u32)
}

/// A vector of `n` copies of `value`.
fn filled<T: Copy>(value: T, n: usize) -> (v: Vec<T>)
    ensures
        v@ == Seq::new(n as nat, |i: int| value),
{
    let mut v: Vec<T> = Vec::with_capacity(n);
    let mut k: usize = 0;
    while k < n
        invariant
            k <= n,
            v@ == Seq::new(k as nat, |i: int| value),
        decreases n - k,
    {
        v.push(value);
        k += 1;
        proof {
            assert(v@ =~= Seq::new(k as nat, |i: int| value));
        }
    }
    v
}

/// Scratch buffers of a [`Shrink`]: the intermediate tile between the two
/// passes, and per-column sums.
pub struct ShrinkState<T> {
    pub scratch: Vec<T>,
    pub vertical_scratch: Vec<u32>,
}

/// Integer downscale by `hshrink` horizontally and `vshrink` vertically: a
/// horizontal box shrink followed by a vertical one. The output image is
/// `width / hshrink × height / vshrink` (libvips floor geometry); both
/// factors are at least 1.
pub struct Shrink<F: BandFormat> {
    hshrink: u32,
    vshrink: u32,
    horizontal: ShrinkH<F>,
}

impl<F: BandFormat> Shrink<F> {
    #[verifier::type_invariant]
    spec fn well_formed(self) -> bool {
        &&& self.hshrink >= 1
        &&& self.vshrink >= 1
        &&& self.horizontal.shrink_factor() == self.hshrink
        &&& self.horizontal.source_row_width() is None
    }

    /// Horizontal factor.
    pub closed spec fn horizontal_factor(&self) -> u32 {
        self.hshrink
    }

    /// Vertical factor.
    pub closed spec fn vertical_factor(&self) -> u32 {
        self.vshrink
    }

    /// The horizontal factor.
    pub fn hshrink(&self) -> (r: u32)
        ensures
            r == self.horizontal_factor(),
    {
        self.hshrink
    }

    /// The vertical factor.
    pub fn vshrink(&self) -> (r: u32)
        ensures
            r == self.vertical_factor(),
    {
        self.vshrink
    }

    /// The 8-bit 2×2 shrink runs a direct kernel with no intermediate tile.
    pub open spec fn is_direct_2x2(&self) -> bool {
        F::format_id() == BandFormatId::U8 && self.horizontal_factor() == 2
            && self.vertical_factor() == 2
    }

    /// Samples in the intermediate tile for a `tile_w × tile_h` output tile.
    pub open spec fn scratch_samples(&self, tile_w: u32, tile_h: u32, bands: u32) -> int {
        tile_w * saturate_u32(tile_h * self.vertical_factor()) * bands
    }

    /// Builds a shrink by `hshrink × vshrink`; fails when a factor is outside
    /// `1..=u32::MAX`, naming the horizontal one first.
    pub fn new(hshrink: usize, vshrink: usize) -> (r: Result<Self, BuildError>)
        ensures
            r is Ok <==> shrink_factor_in_range(hshrink) && shrink_factor_in_range(vshrink),
            r matches Ok(s) ==> s.horizontal_factor() == hshrink && s.vertical_factor()
                == vshrink,
            r matches Err(e) ==> if !shrink_factor_in_range(hshrink) {
                e.is_source_hint("shrink"@, shrink_factor_message("hshrink"@))
            } else {
                e.is_source_hint("shrink"@, shrink_factor_message("vshrink"@))
            },
    {
        let h = match validate_shrink_factor("hshrink", hshrink) {
            Ok(v) => v,
            Err(e) => return Err(e),
        };
        let v = match validate_shrink_factor("vshrink", vshrink) {
            Ok(v) => v,
            Err(e) => return Err(e),
        };
        match ShrinkH::new(h) {
            Ok(horizontal) => Ok(Shrink { hshrink: h, vshrink: v, horizontal }),
            Err(e) => Err(e),
        }
    }

    /// Preferred tile shape.
    pub fn demand_hint(&self) -> (r: DemandHint)
        ensures
            r == DemandHint::ThinStrip,
    {
        DemandHint::ThinStrip
    }

    /// The region the vertical pass reads for an output region.
    fn intermediate_region(&self, output: &Region) -> (r: Region)
        ensures
            r == shrink_intermediate_region(self.vertical_factor(), *output),
    {
        let height = match output.height.checked_mul(self.vshrink) {
            Some(v) => v,
            None => u32::MAX,
        };
        Region::new(output.x, saturating_scale_i32(output.y, self.vshrink), output.width, height)
    }

    /// The input region read for an output region: the vertical scaling of
    /// the rows, then the horizontal scaling of the columns.
    pub fn required_input_region(&self, output: &Region) -> (r: Region)
        ensures
            r == shrink_input_region(self.horizontal_factor(), self.vertical_factor(), *output),
    {
        proof {
            use_type_invariant(self);
        }
        let vertical_input = self.intermediate_region(output);
        self.horizontal.required_input_region(&vertical_input)
    }

    /// Tile buffer sizes for a `tile_w × tile_h` output tile: both input
    /// extents scaled by their factor (saturating).
    pub fn node_spec(&self, tile_w: u32, tile_h: u32) -> (r: NodeSpec)
        ensures
            r == (NodeSpec {
                input_tile_w: saturate_u32(tile_w * self.horizontal_factor()),
                input_tile_h: saturate_u32(tile_h * self.vertical_factor()),
                output_tile_w: tile_w,
                output_tile_h: tile_h,
            }),
    {
        let input_tile_w = match tile_w.checked_mul(self.hshrink) {
            Some(v) => v,
            None => u32::MAX,
        };
        let input_tile_h = match tile_h.checked_mul(self.vshrink) {
            Some(v) => v,
            None => u32::MAX,
        };
        NodeSpec { input_tile_w, input_tile_h, output_tile_w: tile_w, output_tile_h: tile_h }
    }

    /// Output image width: `input_w / hshrink`.
    pub fn output_width(&self, input_w: u32) -> (r: u32)
        ensures
            r == input_w / self.horizontal_factor(),
    {
        proof {
            use_type_invariant(self);
        }
        input_w / self.hshrink
    }

    /// Output image height: `input_h / vshrink`.
    pub fn output_height(&self, input_h: u32) -> (r: u32)
        ensures
            r == input_h / self.vertical_factor(),
    {
        proof {
            use_type_invariant(self);
        }
        input_h / self.vshrink
    }

    /// Output image size for an input image size.
    pub fn output_size(&self, input_w: u32, input_h: u32) -> (r: (u32, u32))
        ensures
            r == (input_w / self.horizontal_factor(), input_h / self.vertical_factor()),
    {
        (self.output_width(input_w), self.output_height(input_h))
    }

    /// Whether this shrink runs the direct 8-bit 2×2 kernel.
    pub fn uses_direct_u8_2x2(&self) -> (r: bool)
        ensures
            r == self.is_direct_2x2(),
    {
        F::id() == BandFormatId::U8 && self.hshrink == 2 && self.vshrink == 2
    }

    /// Samples in the intermediate tile for a `tile_w × tile_h` output tile
    /// of `bands` bands.
    pub fn scratch_len_for_tile(&self, tile_w: u32, tile_h: u32, bands: u32) -> (r: usize)
        requires
            self.scratch_samples(tile_w, tile_h, bands) <= usize::MAX,
        ensures
            r == self.scratch_samples(tile_w, tile_h, bands),
    {
        let spec = self.node_spec(tile_w, tile_h);
        proof {
            assert(spec.output_tile_w * spec.input_tile_h <= spec.output_tile_w
                * spec.input_tile_h * bands || bands == 0) by (nonlinear_arith)
                requires
                    0 <= spec.output_tile_w * spec.input_tile_h,
            ;
            assert(0 <= spec.output_tile_w * spec.input_tile_h) by (nonlinear_arith);
        }
        if bands == 0 {
            proof {
                assert(tile_w * saturate_u32(tile_h * self.vertical_factor()) * bands == 0)
                    by (nonlinear_arith)
                    requires
                        bands == 0,
                ;
            }
            return 0;
        }
        spec.output_tile_w as usize * spec.input_tile_h as usize * bands as usize
    }

    /// Empty scratch buffers.
    pub fn start(&self) -> (r: ShrinkState<F::Sample>)
        ensures
            r.scratch@.len() == 0,
            r.vertical_scratch@.len() == 0,
    {
        ShrinkState { scratch: Vec::new(), vertical_scratch: Vec::new() }
    }

    /// Scratch buffers sized for `tile_w × tile_h` output tiles of `bands`
    /// bands; empty for the direct 2×2 kernel, which needs none.
    pub fn start_with_tile_and_bands(&self, tile_w: u32, tile_h: u32, bands: u32) -> (r:
        ShrinkState<F::Sample>)
        requires
            !self.is_direct_2x2() ==> self.scratch_samples(tile_w, tile_h, bands) <= usize::MAX,
            !self.is_direct_2x2() ==> tile_w * bands <= usize::MAX,
        ensures
            r.scratch@ == if self.is_direct_2x2() {
                Seq::empty()
            } else {
                Seq::new(
                    self.scratch_samples(tile_w, tile_h, bands) as nat,
                    |i: int| F::zero_sample(),
                )
            },
            r.vertical_scratch@ == if self.is_direct_2x2() {
                Seq::empty()
            } else {
                Seq::new((tile_w * bands) as nat, |i: int| 0u32)
            },
    {
        if self.uses_direct_u8_2x2() {
            return ShrinkState { scratch: Vec::new(), vertical_scratch: Vec::new() };
        }
        let scratch_len = self.scratch_len_for_tile(tile_w, tile_h, bands);
        ShrinkState {
            scratch: filled(F::zero(), scratch_len),
            vertical_scratch: filled(0u32, tile_w as usize * bands as usize),
        }
    }

    /// The number of samples of a `region` with `bands` bands, or the error
    /// that says it does not fit in addressable memory.
    fn checked_scratch_len(region: Region, bands: u32) -> (r: Result<usize, ViprsError>)
        ensures
            r is Ok <==> scratch_fits(region, bands),
            r matches Ok(n) ==> n == region.area() * bands,
            r matches Err(e) ==> scratch_too_large(e, region, bands),
    {
        let count = match region.checked_pixel_count() {
            Some(n) => n.checked_mul(bands as usize),
            None => None,
        };
        match count {
            Some(n) => {
                proof {
                    let a = region.area();
                    assert(a <= usize::MAX);
                    assert(n == (a as usize) * (bands as usize));
                    assert(n == a * bands);
                }
                Ok(n)
            },
            None => {
                proof {
                    assert(region.width * region.height * bands <= 0xffff_ffff_ffff_ffff_ffff_ffff
                        && 0 <= region.width * region.height <= 0xffff_ffff_ffff_ffff)
                        by (nonlinear_arith)
                        requires
                            region.width <= 0xffff_ffff,
                            region.height <= 0xffff_ffff,
                            bands <= 0xffff_ffff,
                    ;
                }
                Err(
                    ViprsError::ImageTooLarge {
                        width: region.width,
                        height: region.height,
                        bands,
                        bytes: region.width as u128 * region.height as u128 * bands as u128,
                        limit_bytes: usize::MAX as u128,
                        details: "shrink scratch exceeds addressable memory",
                    },
                )
            },
        }
    }

    /// Checks that the intermediate tile for `output_region` fits in
    /// addressable memory; the direct 2×2 kernel needs none.
    pub fn validate_region_contract(
        &self,
        input_region: Region,
        input_bands: u32,
        output_region: Region,
        output_bands: u32,
    ) -> (r: Result<(), ViprsError>)
        ensures
            r is Ok <==> self.is_direct_2x2() || scratch_fits(
                shrink_intermediate_region(self.vertical_factor(), output_region),
                input_bands,
            ),
            r matches Err(e) ==> scratch_too_large(
                e,
                shrink_intermediate_region(self.vertical_factor(), output_region),
                input_bands,
            ),
    {
        if self.uses_direct_u8_2x2() {
            return Ok(());
        }
        let intermediate = self.intermediate_region(&output_region);
        match Self::checked_scratch_len(intermediate, input_bands) {
            Ok(_) => Ok(()),
            Err(e) => Err(e),
        }
    }
}

/// The pixel count of `region`, and its sample count with `bands` bands, fit
/// a `usize`.
pub open spec fn scratch_fits(region: Region, bands: u32) -> bool {
    region.area() <= usize::MAX && region.area() * bands <= usize::MAX
}

/// `e` reports that a `region` with `bands` bands does not fit in
/// addressable memory.
pub open spec fn scratch_too_large(e: ViprsError, region: Region, bands: u32) -> bool {
    match e {
        ViprsError::ImageTooLarge { width, height, bands: b, bytes, limit_bytes, details } => {
            &&& width == region.width
            &&& height == region.height
            &&& b == bands
            &&& bytes == region.width * region.height * bands
            &&& limit_bytes == usize::MAX
            &&& details@ == "shrink scratch exceeds addressable memory"@
        },
    }
}


/// What the direct 2×2 kernel reads and writes: input rows `2 * out_w`
/// pixels long, two per output row.
pub open spec fn direct_2x2_fits(
    bands: int,
    out_w: int,
    out_h: int,
    input_len: int,
    output_len: int,
) -> bool {
    &&& tile_fits(out_w, out_h, bands)
    &&& 2 * out_h * (out_w * 2 * bands) <= input_len
    &&& out_h * (out_w * bands) <= output_len
}

/// What the two-pass path reads and writes: an input tile whose rows hold
/// every horizontal window, an intermediate tile of `out_w × (out_h *
/// vshrink)` pixels inside the scratch buffer, and the output tile.
pub open spec fn two_pass_fits(
    hshrink: int,
    vshrink: int,
    bands: int,
    input_width: int,
    out_w: int,
    out_h: int,
    input_len: int,
    output_len: int,
    scratch_len: int,
) -> bool {
    &&& out_h * vshrink <= u32::MAX
    &&& out_w * (out_h * vshrink) <= usize::MAX
    &&& out_w * (out_h * vshrink) * bands <= scratch_len
    &&& shrink_h_geometry(
        hshrink,
        bands,
        input_width,
        out_w,
        out_h * vshrink,
        input_len,
        out_w * bands * (out_h * vshrink),
    )
    &&& shrink_h_u8_cuts_rows(hshrink, bands, out_h * vshrink) ==> (input_width * bands > 0
        && out_w * bands > 0)
    &&& tile_fits(out_w, out_h, bands)
    &&& out_w * out_h * bands <= output_len
}

impl Shrink<U8> {
    /// Shrinks an 8-bit tile: with the direct 2×2 kernel for factors of 2
    /// (see [`shrink_2x2_samples`]), otherwise with the horizontal pass into
    /// the scratch buffer and the vertical pass from it (see
    /// [`shrink_u8_samples`]). The samples past the output tile are left as
    /// they were, and the scratch buffers keep their sizes.
    pub fn process_region(
        &self,
        state: &mut ShrinkState<u8>,
        input_region: &Region,
        bands: u32,
        input: &[u8],
        output_region: &Region,
        output: &mut [u8],
    )
        requires
            self.is_direct_2x2() ==> direct_2x2_fits(
                bands as int,
                output_region.width as int,
                output_region.height as int,
                input@.len() as int,
                old(output)@.len() as int,
            ),
            !self.is_direct_2x2() ==> two_pass_fits(
                self.horizontal_factor() as int,
                self.vertical_factor() as int,
                bands as int,
                input_region.width as int,
                output_region.width as int,
                output_region.height as int,
                input@.len() as int,
                old(output)@.len() as int,
                old(state).scratch@.len() as int,
            ),
        ensures
            final(output)@ == overwrite_prefix(
                old(output)@,
                if self.is_direct_2x2() {
                    shrink_2x2_samples(
                        input@,
                        bands as int,
                        output_region.width as int,
                        output_region.height as int,
                    )
                } else {
                    shrink_u8_samples(
                        input@,
                        bands as int,
                        input_region.width as int,
                        self.horizontal_factor() as int,
                        self.vertical_factor() as int,
                        output_region.width as int,
                        output_region.height as int,
                    )
                },
            ),
            final(state).scratch@.len() == old(state).scratch@.len(),
            self.is_direct_2x2() ==> final(state).scratch@ == old(state).scratch@,
            !self.is_direct_2x2() ==> final(state).scratch@.take(
                output_region.width * (output_region.height * self.vertical_factor()) * bands,
            ) == shrink_h_u8_samples(
                input@,
                bands as int,
                input_region.width as int,
                self.horizontal_factor() as int,
                output_region.width as int,
                output_region.height * self.vertical_factor(),
            ),
            final(state).vertical_scratch@ == old(state).vertical_scratch@,
    {
        proof {
            use_type_invariant(self);
        }
        let out_w = output_region.width as usize;
        let out_h = output_region.height as usize;
        if self.uses_direct_u8_2x2() {
            shrink_u8_2x2(input, bands as usize, out_w, out_h, output);
            return;
        }
        let ghost nb = bands as int;
        let ghost w = out_w as int;
        let ghost mid_h = out_h * self.vertical_factor();
        let intermediate = self.intermediate_region(output_region);
        let available = state.scratch.len();
        proof {
            assert(intermediate.height == mid_h);
            assert(intermediate.area() == w * mid_h);
            assert(w * mid_h * nb == w * nb * mid_h) by (nonlinear_arith);
            assert(w * mid_h * nb <= usize::MAX);
        }
        let scratch_len = match Self::checked_scratch_len(intermediate, bands) {
            Ok(n) => n,
            Err(_) => return ,
        };
        let ghost old_vertical = state.vertical_scratch@;
        let ghost old_scratch_len = state.scratch@.len();
        {
            let (head, _tail) = state.scratch.as_mut_slice().split_at_mut(scratch_len);
            self.horizontal.process_region(input_region, bands, input, &intermediate, head);
        }
        let (mid, _rest) = state.scratch.as_slice().split_at(scratch_len);
        proof {
            assert(w * (out_h * self.vertical_factor()) * nb <= mid@.len());
            assert(w * (out_h * self.vertical_factor()) * nb == w * mid_h * nb);
            assert(mid@ == shrink_h_u8_samples(
                input@,
                nb,
                input_region.width as int,
                self.horizontal_factor() as int,
                w,
                mid_h,
            ));
        }
        shrink_v_u8(self.vshrink as usize, mid, bands as usize, out_w, out_h, output);
        proof {
            assert(state.scratch@.len() == old_scratch_len);
            assert(state.vertical_scratch@ == old_vertical);
            assert(state.scratch@.take(scratch_len as int) =~= mid@);
        }
    }
}


/// Format-erased wrapper of [`Shrink`] that reports the shrunk image size.
pub struct ShrinkBridge<F: BandFormat> {
    op: Shrink<F>,
    bands: u32,
}

impl<F: BandFormat> ShrinkBridge<F> {
    /// The wrapped shrink.
    pub closed spec fn shrink(&self) -> Shrink<F> {
        self.op
    }

    /// Number of bands the bridge carries.
    pub closed spec fn band_count(&self) -> u32 {
        self.bands
    }

    /// Builds the bridge; fails as [`Shrink::new`] does.
    pub fn new(hshrink: usize, vshrink: usize, bands: u32) -> (r: Result<Self, BuildError>)
        ensures
            r is Ok <==> shrink_factor_in_range(hshrink) && shrink_factor_in_range(vshrink),
            r matches Ok(b) ==> b.shrink().horizontal_factor() == hshrink
                && b.shrink().vertical_factor() == vshrink && b.band_count() == bands,
            r matches Err(e) ==> if !shrink_factor_in_range(hshrink) {
                e.is_source_hint("shrink"@, shrink_factor_message("hshrink"@))
            } else {
                e.is_source_hint("shrink"@, shrink_factor_message("vshrink"@))
            },
    {
        match Shrink::new(hshrink, vshrink) {
            Ok(op) => Ok(ShrinkBridge { op, bands }),
            Err(e) => Err(e),
        }
    }

    /// Empty scratch buffers; see [`Shrink::start`].
    pub fn dyn_start(&self) -> (r: ShrinkState<F::Sample>)
        ensures
            r.scratch@.len() == 0,
            r.vertical_scratch@.len() == 0,
    {
        self.op.start()
    }

    /// Scratch buffers for `tile_w × tile_h` output tiles of `bands` bands;
    /// see [`Shrink::start_with_tile_and_bands`].
    pub fn dyn_start_with_tile_and_bands(&self, tile_w: u32, tile_h: u32, bands: u32) -> (r:
        ShrinkState<F::Sample>)
        requires
            !self.shrink().is_direct_2x2() ==> self.shrink().scratch_samples(tile_w, tile_h, bands)
                <= usize::MAX,
            !self.shrink().is_direct_2x2() ==> tile_w * bands <= usize::MAX,
        ensures
            r.scratch@ == if self.shrink().is_direct_2x2() {
                Seq::empty()
            } else {
                Seq::new(
                    self.shrink().scratch_samples(tile_w, tile_h, bands) as nat,
                    |i: int| F::zero_sample(),
                )
            },
            r.vertical_scratch@ == if self.shrink().is_direct_2x2() {
                Seq::empty()
            } else {
                Seq::new((tile_w * bands) as nat, |i: int| 0u32)
            },
    {
        self.op.start_with_tile_and_bands(tile_w, tile_h, bands)
    }

    /// See [`Shrink::validate_region_contract`].
    pub fn validate_region_contract(
        &self,
        input_region: Region,
        input_bands: u32,
        output_region: Region,
        output_bands: u32,
    ) -> (r: Result<(), ViprsError>)
        ensures
            r is Ok <==> self.shrink().is_direct_2x2() || scratch_fits(
                shrink_intermediate_region(self.shrink().vertical_factor(), output_region),
                input_bands,
            ),
            r matches Err(e) ==> scratch_too_large(
                e,
                shrink_intermediate_region(self.shrink().vertical_factor(), output_region),
                input_bands,
            ),
    {
        self.op.validate_region_contract(input_region, input_bands, output_region, output_bands)
    }
}

impl ShrinkBridge<U8> {
    /// Runs the shrink on a tile of 8-bit samples; see
    /// [`Shrink::process_region`].
    pub fn dyn_process_region(
        &self,
        state: &mut ShrinkState<u8>,
        input: &[u8],
        output: &mut [u8],
        input_region: Region,
        output_region: Region,
    )
        requires
            self.shrink().is_direct_2x2() ==> direct_2x2_fits(
                self.band_count() as int,
                output_region.width as int,
                output_region.height as int,
                input@.len() as int,
                old(output)@.len() as int,
            ),
            !self.shrink().is_direct_2x2() ==> two_pass_fits(
                self.shrink().horizontal_factor() as int,
                self.shrink().vertical_factor() as int,
                self.band_count() as int,
                input_region.width as int,
                output_region.width as int,
                output_region.height as int,
                input@.len() as int,
                old(output)@.len() as int,
                old(state).scratch@.len() as int,
            ),
        ensures
            final(output)@ == overwrite_prefix(
                old(output)@,
                if self.shrink().is_direct_2x2() {
                    shrink_2x2_samples(
                        input@,
                        self.band_count() as int,
                        output_region.width as int,
                        output_region.height as int,
                    )
                } else {
                    shrink_u8_samples(
                        input@,
                        self.band_count() as int,
                        input_region.width as int,
                        self.shrink().horizontal_factor() as int,
                        self.shrink().vertical_factor() as int,
                        output_region.width as int,
                        output_region.height as int,
                    )
                },
            ),
            final(state).scratch@.len() == old(state).scratch@.len(),
            self.shrink().is_direct_2x2() ==> final(state).scratch@ == old(state).scratch@,
            !self.shrink().is_direct_2x2() ==> final(state).scratch@.take(
                output_region.width * (output_region.height * self.shrink().vertical_factor())
                    * self.band_count(),
            ) == shrink_h_u8_samples(
                input@,
                self.band_count() as int,
                input_region.width as int,
                self.shrink().horizontal_factor() as int,
                output_region.width as int,
                output_region.height * self.shrink().vertical_factor(),
            ),
            final(state).vertical_scratch@ == old(state).vertical_scratch@,
    {
        self.op.process_region(state, &input_region, self.bands, input, &output_region, output);
    }
}

impl<F: BandFormat> DynOperation for ShrinkBridge<F> {
    open spec fn serves_region(&self, output: Region) -> bool {
        true
    }

    open spec fn serves_slot_region(&self, output: Region, slot: int) -> bool {
        self.serves_region(output)
    }

    open spec fn serves_tile(&self, tile_w: u32, tile_h: u32) -> bool {
        true
    }

    open spec fn input_format_of(&self) -> BandFormatId {
        F::format_id()
    }

    open spec fn output_format_of(&self) -> BandFormatId {
        F::format_id()
    }

    open spec fn bands_of(&self) -> u32 {
        self.band_count()
    }

    open spec fn demand_hint_of(&self) -> DemandHint {
        DemandHint::ThinStrip
    }

    open spec fn input_slots(&self) -> usize {
        1
    }

    open spec fn input_region_of(&self, output: Region) -> Region {
        shrink_input_region(
            self.shrink().horizontal_factor(),
            self.shrink().vertical_factor(),
            output,
        )
    }

    open spec fn slot_region_of(&self, output: Region, slot: int) -> Region {
        self.input_region_of(output)
    }

    open spec fn node_spec_of(&self, tile_w: u32, tile_h: u32) -> NodeSpec {
        NodeSpec {
            input_tile_w: saturate_u32(tile_w * self.shrink().horizontal_factor()),
            input_tile_h: saturate_u32(tile_h * self.shrink().vertical_factor()),
            output_tile_w: tile_w,
            output_tile_h: tile_h,
        }
    }

    /// Floor geometry: `input_w / hshrink`.
    open spec fn output_width_of(&self, input_w: u32) -> u32 {
        (input_w / self.shrink().horizontal_factor()) as u32
    }

    /// Floor geometry: `input_h / vshrink`.
    open spec fn output_height_of(&self, input_h: u32) -> u32 {
        (input_h / self.shrink().vertical_factor()) as u32
    }

    fn input_format(&self) -> BandFormatId {
        F::id()
    }

    fn output_format(&self) -> BandFormatId {
        F::id()
    }

    fn bands(&self) -> u32 {
        self.bands
    }

    fn demand_hint(&self) -> DemandHint {
        self.op.demand_hint()
    }

    fn input_slot_count(&self) -> usize {
        1
    }

    fn required_input_region(&self, output: &Region) -> Region {
        self.op.required_input_region(output)
    }

    fn required_input_region_slot(&self, output: &Region, _slot: usize) -> Region {
        self.op.required_input_region(output)
    }

    fn node_spec(&self, tile_w: u32, tile_h: u32) -> NodeSpec {
        self.op.node_spec(tile_w, tile_h)
    }

    fn output_width(&self, input_w: u32) -> u32 {
        self.op.output_width(input_w)
    }

    fn output_height(&self, input_h: u32) -> u32 {
        self.op.output_height(input_h)
    }
}


/// The direct 2×2 kernel gives what the horizontal pass by 2 followed by the
/// vertical pass by 2 gives, on input rows `2 * out_w` pixels long.
pub proof fn lemma_shrink_2x2_matches_two_pass(input: Seq<u8>, bands: int, out_w: int, out_h: int)
    requires
        0 <= bands,
        0 <= out_w,
        0 <= out_h,
    ensures
        shrink_2x2_samples(input, bands, out_w, out_h) == shrink_u8_samples(
            input,
            bands,
            2 * out_w,
            2,
            2,
            out_w,
            out_h,
        ),
{
    let direct = shrink_2x2_samples(input, bands, out_w, out_h);
    let mid = shrink_h_u8_samples(input, bands, 2 * out_w, 2, out_w, out_h * 2);
    let two_pass = shrink_u8_samples(input, bands, 2 * out_w, 2, 2, out_w, out_h);
    assert(direct.len() == two_pass.len());
    assert forall|i: int| 0 <= i < direct.len() implies direct[i] == two_pass[i] by {
        assert(0 < out_w && 0 < bands) by (nonlinear_arith)
            requires
                0 <= i < out_w * out_h * bands,
                0 <= out_w,
                0 <= out_h,
                0 <= bands,
        ;
        lemma_flat_index_split(i, out_w, out_h, bands);
        let x = column_of(i, out_w, bands);
        let y = row_of(i, out_w, bands);
        let b = band_of(i, bands);
        let top_at = sample_index(out_w, bands, x, 2 * y, b);
        let bottom_at = sample_index(out_w, bands, x, 2 * y + 1, b);
        assert(y * 2 == 2 * y);
        assert(sample_index(out_w, bands, x, 2 * y, b) + out_w * bands == sample_index(
            out_w,
            bands,
            x,
            2 * y + 1,
            b,
        )) by (nonlinear_arith);
        assert(strided_sum(mid, top_at, 2, out_w * bands) == mid[top_at] + mid[bottom_at]) by {
            reveal_with_fuel(strided_sum, 3);
        }
        assert(0 <= 2 * y < out_h * 2 && 2 * y + 1 < out_h * 2);
        assert(mid.len() == out_w * (out_h * 2) * bands);
        assert(0 <= top_at && bottom_at < mid.len()) by {
            lemma_sample_offsets(out_w, out_h * 2, bands, x, 2 * y + 1, b);
            lemma_sample_offsets(out_w, out_h * 2, bands, x, 2 * y, b);
        }
        lemma_pair_row_mean(input, bands, out_w, out_h, x, 2 * y, b);
        lemma_pair_row_mean(input, bands, out_w, out_h, x, 2 * y + 1, b);
        let t = mid[top_at] as int;
        let u = mid[bottom_at] as int;
        lemma_mean_mul_pair(t + u);
    }
    assert(direct =~= two_pass);
}

/// Sample `(x, row, b)` of the horizontal pass by 2 is the rounded mean of
/// input pixels `2x` and `2x + 1` of that row.
proof fn lemma_pair_row_mean(input: Seq<u8>, bands: int, out_w: int, out_h: int, x: int, row: int, b: int)
    requires
        0 <= x < out_w,
        0 <= row < out_h * 2,
        0 <= b < bands,
    ensures
        ({
            let mid = shrink_h_u8_samples(input, bands, 2 * out_w, 2, out_w, out_h * 2);
            let at = sample_index(out_w, bands, x, row, b);
            &&& 0 <= at < mid.len()
            &&& mid[at] as int == pair_mean(
                input[sample_index(2 * out_w, bands, 2 * x, row, b)] as int,
                input[sample_index(2 * out_w, bands, 2 * x + 1, row, b)] as int,
            )
            &&& 0 <= mid[at] <= 255
        }),
{
    let mid = shrink_h_u8_samples(input, bands, 2 * out_w, 2, out_w, out_h * 2);
    let at = sample_index(out_w, bands, x, row, b);
    lemma_sample_offsets(out_w, out_h * 2, bands, x, row, b);
    lemma_sample_index_split(out_w, bands, x, row, b);
    let left = sample_index(2 * out_w, bands, x * 2, row, b);
    assert(x * 2 == 2 * x);
    assert(sample_index(2 * out_w, bands, x * 2, row, b) + bands == sample_index(
        2 * out_w,
        bands,
        2 * x + 1,
        row,
        b,
    )) by (nonlinear_arith);
    assert(strided_sum(input, left, 2, bands) == input[left] + input[left + bands]) by {
        reveal_with_fuel(strided_sum, 3);
    }
    let s = input[left] + input[left + bands];
    lemma_mean_mul_pair(s);
    assert(mean_div(2, s) == pair_mean(input[left] as int, input[left + bands] as int));
}

/// Shrinking by a factor of 1 in both directions gives back the input tile.
pub proof fn lemma_shrink_unit_factors_is_identity(
    input: Seq<u8>,
    bands: int,
    width: int,
    height: int,
)
    requires
        0 <= width,
        0 <= height,
        0 <= bands,
        input.len() == width * height * bands,
    ensures
        shrink_u8_samples(input, bands, width, 1, 1, width, height) == input,
{
    assert(height * 1 == height);
    lemma_shrink_h_unit_factor_is_identity(input, bands, width, height);
    let kept = shrink_v_mul_samples(input, bands, width, 1, height);
    assert forall|i: int| 0 <= i < input.len() implies #[trigger] kept[i] == input[i] by {
        assert(0 < width && 0 < bands) by (nonlinear_arith)
            requires
                0 <= i < width * height * bands,
                0 <= width,
                0 <= height,
                0 <= bands,
        ;
        lemma_flat_index_split(i, width, height, bands);
        let x = column_of(i, width, bands);
        let y = row_of(i, width, bands);
        let b = band_of(i, bands);
        assert(y * 1 == y);
        assert(strided_sum(input, i, 1, width * bands) == input[i]) by {
            reveal_with_fuel(strided_sum, 2);
            assert(0 * (width * bands) == 0);
        }
        lemma_mean_mul_unit(input[i] as int);
    }
    assert(kept =~= input);
}

} // verus!
