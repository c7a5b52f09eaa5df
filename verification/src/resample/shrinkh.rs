//! Horizontal integer shrink by a box filter.
//!
//! Output pixel `x` of a row averages input pixels `x * factor ..
//! (x + 1) * factor` of that row, band by band. 8-bit samples use the libvips
//! fixed-point rounding: `((sum + factor / 2) * (2^32 / (256 * factor))) >> 24`,
//! except the factor-5 path for 1, 3 and 4 bands, which divides exactly.
use vstd::arithmetic::div_mod::{lemma_fundamental_div_mod, lemma_multiply_divide_lt};
use std::marker::PhantomData;

use vstd::prelude::*;

use crate::error::BuildError;
use crate::format::{BandFormat, BandFormatId, U8};
use crate::op::{DemandHint, DynOperation, NodeSpec};
use crate::region::{clamp_i64_to_i32, clamp_to_i32, Region};
use crate::layout::{
    band_of, column_of, lemma_flat_index_split, lemma_sample_index_split, lemma_sample_index_step, lemma_sample_offsets,
    overwrite_prefix, row_of, sample_index, tile_fits,
};

verus! {

/// Sum of the `count` samples of `s` that start at `start` and lie `step` apart.
pub open spec fn strided_sum(s: Seq<u8>, start: int, count: nat, step: int) -> int
    decreases count,
{
    if count == 0 {
        0
    } else {
        strided_sum(s, start, (count - 1) as nat, step) + s[start + (count - 1) * step]
    }
}

/// The fixed-point reciprocal `2^32 / (256 * factor)` of the libvips shrink.
pub open spec fn box_multiplier(factor: int) -> int {
    4294967296int / (256 * factor)
}

/// Fixed-point mean of a window: `((factor / 2 + sum) * multiplier) >> 24`.
pub open spec fn mean_mul(factor: int, sum: int) -> int {
    ((factor / 2 + sum) * box_multiplier(factor)) / 16777216
}

/// Exact rounded mean of a window: `(factor / 2 + sum) / factor`.
pub open spec fn mean_div(factor: int, sum: int) -> int {
    (factor / 2 + sum) / factor
}

/// Sum of the `factor` samples of band `b` that output pixel `(x, y)` averages,
/// in an input whose rows are `stride` pixels long.
pub open spec fn window_sum(
    input: Seq<u8>,
    bands: int,
    stride: int,
    factor: int,
    x: int,
    y: int,
    b: int,
) -> int {
    strided_sum(input, sample_index(stride, bands, x * factor, y, b), factor as nat, bands)
}

/// The shrunk `out_w × out_h` tile with fixed-point means.
pub open spec fn shrink_h_mul_samples(
    input: Seq<u8>,
    bands: int,
    stride: int,
    factor: int,
    out_w: int,
    out_h: int,
) -> Seq<u8> {
    Seq::new(
        (out_w * out_h * bands) as nat,
        |i: int|
            mean_mul(
                factor,
                window_sum(
                    input,
                    bands,
                    stride,
                    factor,
                    column_of(i, out_w, bands),
                    row_of(i, out_w, bands),
                    band_of(i, bands),
                ),
            ) as u8,
    )
}

/// The shrunk `out_w × out_h` tile with exactly rounded means.
pub open spec fn shrink_h_div_samples(
    input: Seq<u8>,
    bands: int,
    stride: int,
    factor: int,
    out_w: int,
    out_h: int,
) -> Seq<u8> {
    Seq::new(
        (out_w * out_h * bands) as nat,
        |i: int|
            mean_div(
                factor,
                window_sum(
                    input,
                    bands,
                    stride,
                    factor,
                    column_of(i, out_w, bands),
                    row_of(i, out_w, bands),
                    band_of(i, bands),
                ),
            ) as u8,
    )
}

/// A window of `count` 8-bit samples sums to at most `255 * count`.
pub proof fn lemma_strided_sum_bound(s: Seq<u8>, start: int, count: nat, step: int)
    ensures
        0 <= strided_sum(s, start, count, step) <= 255 * count,
    decreases count,
{
    if count > 0 {
        lemma_strided_sum_bound(s, start, (count - 1) as nat, step);
    }
}

/// The fixed-point mean of a window of 8-bit samples is computed without
/// overflowing 32 bits and is an 8-bit value.
pub proof fn lemma_mean_mul_fits(factor: int, sum: int)
    requires
        1 <= factor,
        0 <= sum <= 255 * factor,
    ensures
        0 <= box_multiplier(factor),
        box_multiplier(factor) * factor <= 16777216,
        0 <= (factor / 2 + sum) * box_multiplier(factor) < 4294967296,
        0 <= mean_mul(factor, sum) <= 255,
{
    let m = box_multiplier(factor);
    let d = 256 * factor;
    lemma_fundamental_div_mod(4294967296, d);
    assert(0 <= m) by {
        vstd::arithmetic::div_mod::lemma_div_pos_is_pos(4294967296, d);
    }
    assert(m * factor <= 16777216) by (nonlinear_arith)
        requires
            4294967296int == d * m + 4294967296int % d,
            0 <= 4294967296int % d,
            d == 256 * factor,
    ;
    let total = factor / 2 + sum;
    assert(2 * total <= 511 * factor);
    assert(0 <= total * m && 2 * (total * m) <= 511 * 16777216) by (nonlinear_arith)
        requires
            2 * total <= 511 * factor,
            0 <= total,
            0 <= m,
            m * factor <= 16777216,
    ;
    lemma_multiply_divide_lt(total * m, 16777216, 256);
    vstd::arithmetic::div_mod::lemma_div_pos_is_pos(total * m, 16777216);
}

/// The exactly rounded mean of a window of 8-bit samples is an 8-bit value.
pub proof fn lemma_mean_div_fits(factor: int, sum: int)
    requires
        1 <= factor,
        0 <= sum <= 255 * factor,
    ensures
        0 <= mean_div(factor, sum) <= 255,
{
    let total = factor / 2 + sum;
    assert(total < 256 * factor);
    lemma_multiply_divide_lt(total, factor, 256);
    vstd::arithmetic::div_mod::lemma_div_pos_is_pos(total, factor);
}

/// `x >> 24` is `x / 2^24`.
pub proof fn lemma_shift_24(x: u64)
    ensures
        x >> 24u64 == x / 16777216,
{
    assert(x >> 24u64 == x / 16777216) by (bit_vector);
}

/// The reads of a horizontal shrink: every window lies inside its input row.
pub open spec fn shrink_h_geometry(
    factor: int,
    bands: int,
    stride: int,
    out_w: int,
    out_h: int,
    input_len: int,
    output_len: int,
) -> bool {
    &&& 1 <= factor
    &&& factor * 256 <= usize::MAX
    &&& 0 <= out_w
    &&& 0 <= out_h
    &&& 0 <= bands
    &&& stride * bands <= usize::MAX
    &&& out_w * bands <= usize::MAX
    &&& out_w * factor <= usize::MAX
    &&& factor * bands <= usize::MAX
    &&& stride >= out_w * factor
    &&& input_len == stride * bands * out_h
    &&& output_len == out_w * bands * out_h
}

/// Facts about where a window sample lies, for a loop at output pixel
/// `(x, y)`, band `b`, window position `k`.
proof fn lemma_window_index(
    factor: int,
    bands: int,
    stride: int,
    out_w: int,
    out_h: int,
    x: int,
    y: int,
    b: int,
    k: int,
)
    requires
        1 <= factor,
        0 <= x < out_w,
        0 <= y < out_h,
        0 <= b < bands,
        0 <= k < factor,
        stride >= out_w * factor,
    ensures
        0 <= x * factor * bands,
        x * factor + k < stride,
        y * stride * bands + x * factor * bands + b + k * bands == sample_index(
            stride,
            bands,
            x * factor,
            y,
            b,
        ) + k * bands,
        sample_index(stride, bands, x * factor, y, b) + k * bands < stride * bands * out_h,
        0 <= sample_index(stride, bands, x * factor, y, b) + k * bands,
        y * stride * bands + stride * bands <= stride * bands * out_h,
        0 <= y * stride * bands,
        x * factor * bands + factor * bands <= stride * bands,
{
    assert(x * factor + k < stride) by (nonlinear_arith)
        requires
            0 <= x < out_w,
            0 <= k < factor,
            stride >= out_w * factor,
    ;
    assert(x * factor * bands + factor * bands <= stride * bands && 0 <= x * factor * bands)
        by (nonlinear_arith)
        requires
            0 <= x < out_w,
            1 <= factor,
            0 <= bands,
            stride >= out_w * factor,
    ;
    lemma_sample_offsets(stride, out_h, bands, x * factor + k, y, b);
    assert(stride * out_h * bands == stride * bands * out_h) by (nonlinear_arith);
    assert(y * stride * bands + x * factor * bands + b + k * bands == (y * stride + x * factor)
        * bands + b + k * bands) by (nonlinear_arith);
    assert((y * stride + x * factor + k) * bands == (y * stride + x * factor) * bands + k * bands)
        by (nonlinear_arith);
    assert(y * stride * bands + stride * bands <= stride * bands * out_h) by (nonlinear_arith)
        requires
            0 <= y < out_h,
            0 <= stride,
            0 <= bands,
    ;
}

/// The generic 8-bit kernel: fixed-point means for any factor and band count.
pub fn shrink_h_u8_scalar(
    factor: usize,
    input: &[u8],
    bands: usize,
    input_stride: usize,
    out_w: usize,
    out_h: usize,
    output: &mut [u8],
)
    requires
        shrink_h_geometry(
            factor as int,
            bands as int,
            input_stride as int,
            out_w as int,
            out_h as int,
            input@.len() as int,
            old(output)@.len() as int,
        ),
        input_stride * bands > 0,
        out_w * bands > 0,
    ensures
        final(output)@ == shrink_h_mul_samples(
            input@,
            bands as int,
            input_stride as int,
            factor as int,
            out_w as int,
            out_h as int,
        ),
{
    let amend = factor / 2;
    proof {
        assert((1u64 << 32u64) == 4294967296u64) by (bit_vector);
        assert((1u64 << 8u64) == 256u64) by (bit_vector);
    }
    let multiplier = (1u64 << 32u64) / ((1u64 << 8u64) * factor as u64);
    let pixel_span = factor * bands;
    let input_row_width = input_stride * bands;
    let output_row_width = out_w * bands;
    let ghost f = factor as int;
    let ghost nb = bands as int;
    let ghost st = input_stride as int;
    let ghost w = out_w as int;
    let ghost h = out_h as int;
    let ghost expected = shrink_h_mul_samples(input@, nb, st, f, w, h);
    proof {
        assert(1 <= w && 1 <= nb) by (nonlinear_arith)
            requires
                w * nb > 0,
                0 <= w,
                0 <= nb,
        ;
        assert(multiplier == box_multiplier(f));
        assert(0 <= f * nb <= w * f * nb || w == 0) by (nonlinear_arith)
            requires
                1 <= f,
                0 <= nb,
                0 <= w,
        ;
        assert(f * nb <= st * nb) by (nonlinear_arith)
            requires
                st >= w * f,
                1 <= w,
                0 <= nb,
                1 <= f,
        ;
        assert(sample_index(w, nb, 0, 0, 0) == 0) by (nonlinear_arith);
        assert(h * (w * nb) == w * nb * h) by (nonlinear_arith);
        vstd::slice::axiom_spec_len(input);
        vstd::slice::axiom_spec_len(output);
        assert(tile_fits(w, h, nb) && w * h * nb == w * nb * h) by (nonlinear_arith)
            requires
                0 <= w,
                0 <= h,
                1 <= nb,
                w * nb * h <= usize::MAX,
        ;
    }

    let mut y: usize = 0;
    while y < out_h
        invariant
            y <= out_h,
            f == factor,
            nb == bands,
            st == input_stride,
            w == out_w,
            h == out_h,
            amend == factor / 2,
            multiplier == box_multiplier(f),
            pixel_span == factor * bands,
            input_row_width == input_stride * bands,
            output_row_width == out_w * bands,
            shrink_h_geometry(f, nb, st, w, h, input@.len() as int, output@.len() as int),
            input@.len() <= usize::MAX,
            output@.len() <= usize::MAX,
            tile_fits(w, h, nb),
            output@.len() == w * h * nb,
            0 < nb,
            expected == shrink_h_mul_samples(input@, nb, st, f, w, h),
            forall|i: int|
                0 <= i < sample_index(w, nb, 0, y as int, 0) ==> #[trigger] output@[i]
                    == expected[i],
        decreases out_h - y,
    {
        proof {
            assert(y * input_row_width + input_row_width <= input@.len()) by (nonlinear_arith)
                requires
                    y < h,
                    input_row_width == st * nb,
                    input@.len() == st * nb * h,
                    0 <= st * nb,
            ;
            assert(0 * factor * bands == 0) by (nonlinear_arith);
            assert(y * input_row_width == y * st * nb) by (nonlinear_arith)
                requires
                    input_row_width == st * nb,
            ;
        }
        let row_base = y * input_row_width;
        let mut input_offset: usize = 0;
        let mut x: usize = 0;
        while x < out_w
            invariant
                y < out_h,
                x <= out_w,
                f == factor,
                nb == bands,
                st == input_stride,
                w == out_w,
                h == out_h,
                amend == factor / 2,
                multiplier == box_multiplier(f),
                pixel_span == factor * bands,
                input_row_width == input_stride * bands,
                output_row_width == out_w * bands,
                row_base == y * input_row_width,
                input_offset == x * factor * bands,
                shrink_h_geometry(f, nb, st, w, h, input@.len() as int, output@.len() as int),
                input@.len() <= usize::MAX,
                output@.len() <= usize::MAX,
                tile_fits(w, h, nb),
                output@.len() == w * h * nb,
                row_base == y * st * nb,
                0 < nb,
                expected == shrink_h_mul_samples(input@, nb, st, f, w, h),
                forall|i: int|
                    0 <= i < sample_index(w, nb, x as int, y as int, 0) ==> #[trigger] output@[i]
                        == expected[i],
            decreases out_w - x,
        {
            let mut band: usize = 0;
            while band < bands
                invariant
                    y < out_h,
                    x < out_w,
                    band <= bands,
                    f == factor,
                    nb == bands,
                    st == input_stride,
                    w == out_w,
                    h == out_h,
                    amend == factor / 2,
                    multiplier == box_multiplier(f),
                    pixel_span == factor * bands,
                    input_row_width == input_stride * bands,
                    output_row_width == out_w * bands,
                    row_base == y * input_row_width,
                    input_offset == x * factor * bands,
                    shrink_h_geometry(f, nb, st, w, h, input@.len() as int, output@.len() as int),
                    input@.len() <= usize::MAX,
                    output@.len() <= usize::MAX,
                    tile_fits(w, h, nb),
                    output@.len() == w * h * nb,
                    row_base == y * st * nb,
                    0 < nb,
                    expected == shrink_h_mul_samples(input@, nb, st, f, w, h),
                    forall|i: int|
                        0 <= i < sample_index(w, nb, x as int, y as int, band as int)
                            ==> #[trigger] output@[i] == expected[i],
                decreases bands - band,
            {
                let ghost base = sample_index(st, nb, x * f, y as int, band as int);
                let mut sum = amend;
                let mut k: usize = 0;
                while k < factor
                    invariant
                        y < out_h,
                        x < out_w,
                        band < bands,
                        k <= factor,
                        f == factor,
                        nb == bands,
                        st == input_stride,
                        w == out_w,
                        h == out_h,
                        row_base == y * input_row_width,
                        input_row_width == input_stride * bands,
                        input_offset == x * factor * bands,
                        base == sample_index(st, nb, x * f, y as int, band as int),
                        shrink_h_geometry(f, nb, st, w, h, input@.len() as int, output@.len() as int),
                        input@.len() <= usize::MAX,
                        row_base == y * st * nb,
                        sum == amend + strided_sum(input@, base, k as nat, nb),
                        amend == factor / 2,
                    decreases factor - k,
                {
                    proof {
                        lemma_window_index(
                            f,
                            nb,
                            st,
                            w,
                            h,
                            x as int,
                            y as int,
                            band as int,
                            k as int,
                        );
                        lemma_strided_sum_bound(input@, base, k as nat, nb);
                        assert(amend + 255 * k + 255 <= f * 256) by (nonlinear_arith)
                            requires
                                amend == f / 2,
                                k < f,
                        ;
                    }
                    sum += input[row_base + input_offset + band + k * bands] as usize;
                    k += 1;
                }
                proof {
                    lemma_strided_sum_bound(input@, base, f as nat, nb);
                    lemma_mean_mul_fits(f, strided_sum(input@, base, f as nat, nb));
                    lemma_sample_offsets(w, h, nb, x as int, y as int, band as int);
                    lemma_sample_index_split(w, nb, x as int, y as int, band as int);
                    lemma_shift_24(((sum as u64) * multiplier) as u64);
                }
                let out_idx = (y * out_w + x) * bands + band;
                output[out_idx] = (((sum as u64) * multiplier) >> 24u64) as u8;
                band += 1;
            }
            proof {
                lemma_sample_index_step(w, nb, x as int, y as int);
                assert((x + 1) * f * nb == x * f * nb + f * nb) by (nonlinear_arith);
                lemma_window_index(f, nb, st, w, h, x as int, y as int, 0, 0);
            }
            input_offset += pixel_span;
            x += 1;
        }
        proof {
            lemma_sample_index_step(w, nb, 0, y as int);
        }
        y += 1;
    }
    proof {
        lemma_sample_index_step(w, nb, 0, h);
        assert(sample_index(w, nb, 0, h, 0) == w * h * nb) by (nonlinear_arith)
            requires
                sample_index(w, nb, 0, h, 0) == h * w * nb,
        ;
        assert(output@ =~= expected);
    }
}

/// Entry facts shared by the 8-bit shrink kernels.
proof fn lemma_shrink_h_entry(
    factor: int,
    bands: int,
    stride: int,
    out_w: int,
    out_h: int,
    input_len: int,
    output_len: int,
)
    requires
        shrink_h_geometry(factor, bands, stride, out_w, out_h, input_len, output_len),
        1 <= bands,
        output_len <= usize::MAX,
    ensures
        tile_fits(out_w, out_h, bands),
        output_len == out_w * out_h * bands,
        sample_index(out_w, bands, 0, 0, 0) == 0,
        (1u64 << 32u64) == 4294967296u64,
        (1u64 << 8u64) == 256u64,
{
    assert(tile_fits(out_w, out_h, bands) && out_w * out_h * bands == out_w * bands * out_h)
        by (nonlinear_arith)
        requires
            0 <= out_w,
            0 <= out_h,
            1 <= bands,
            out_w * bands * out_h <= usize::MAX,
    ;
    assert(sample_index(out_w, bands, 0, 0, 0) == 0) by (nonlinear_arith);
    assert((1u64 << 32u64) == 4294967296u64) by (bit_vector);
    assert((1u64 << 8u64) == 256u64) by (bit_vector);
}

/// Facts about the input row `y` of a shrink: it lies inside the input.
proof fn lemma_shrink_h_row(stride: int, bands: int, out_h: int, y: int, input_len: int)
    requires
        0 <= y < out_h,
        0 <= stride,
        0 <= bands,
        input_len == stride * bands * out_h,
    ensures
        y * (stride * bands) == y * stride * bands,
        0 <= y * stride * bands,
        y * stride * bands + stride * bands <= input_len,
{
    assert(y * (stride * bands) == y * stride * bands) by (nonlinear_arith);
    assert(0 <= y * stride * bands && y * stride * bands + stride * bands <= input_len)
        by (nonlinear_arith)
        requires
            0 <= y < out_h,
            0 <= stride,
            0 <= bands,
            input_len == stride * bands * out_h,
    ;
}

/// The 8-bit kernel for one band: fixed-point means.
pub fn shrink_h_u8_sequential_1(
    factor: usize,
    input: &[u8],
    input_stride: usize,
    out_w: usize,
    out_h: usize,
    output: &mut [u8],
)
    requires
        shrink_h_geometry(
            factor as int,
            1,
            input_stride as int,
            out_w as int,
            out_h as int,
            input@.len() as int,
            old(output)@.len() as int,
        ),
    ensures
        final(output)@ == shrink_h_mul_samples(
            input@,
            1,
            input_stride as int,
            factor as int,
            out_w as int,
            out_h as int,
        ),
{
    let ghost f = factor as int;
    let ghost st = input_stride as int;
    let ghost w = out_w as int;
    let ghost h = out_h as int;
    let ghost expected = shrink_h_mul_samples(input@, 1, st, f, w, h);
    proof {
        vstd::slice::axiom_spec_len(input);
        vstd::slice::axiom_spec_len(output);
        lemma_shrink_h_entry(f, 1, st, w, h, input@.len() as int, output@.len() as int);
    }
    let amend = factor / 2;
    let multiplier = (1u64 << 32u64) / ((1u64 << 8u64) * factor as u64);
    let input_row_width = input_stride;

    let mut y: usize = 0;
    while y < out_h
        invariant
            y <= out_h,
            f == factor,
            st == input_stride,
            w == out_w,
            h == out_h,
            amend == factor / 2,
            multiplier == box_multiplier(f),
            input_row_width == input_stride,
            shrink_h_geometry(f, 1, st, w, h, input@.len() as int, output@.len() as int),
            input@.len() <= usize::MAX,
            tile_fits(w, h, 1),
            output@.len() == w * h * 1,
            expected == shrink_h_mul_samples(input@, 1, st, f, w, h),
            forall|i: int|
                0 <= i < sample_index(w, 1, 0, y as int, 0) ==> #[trigger] output@[i]
                    == expected[i],
        decreases out_h - y,
    {
        proof {
            lemma_shrink_h_row(st, 1, h, y as int, input@.len() as int);
            lemma_sample_index_step(w, 1, 0, y as int);
            assert(y * w <= w * h && y * w * 1 == y * w) by (nonlinear_arith)
                requires
                    y < h,
                    0 <= w,
            ;
            assert(0 * factor == 0);
        }
        let row_base = y * input_row_width;
        let out_base = y * out_w;
        let mut src: usize = 0;
        let mut x: usize = 0;
        while x < out_w
            invariant
                y < out_h,
                x <= out_w,
                f == factor,
                st == input_stride,
                w == out_w,
                h == out_h,
                amend == factor / 2,
                multiplier == box_multiplier(f),
                row_base == y * st * 1,
                out_base == y * w * 1,
                src == x * factor,
                shrink_h_geometry(f, 1, st, w, h, input@.len() as int, output@.len() as int),
                input@.len() <= usize::MAX,
                tile_fits(w, h, 1),
                output@.len() == w * h * 1,
                expected == shrink_h_mul_samples(input@, 1, st, f, w, h),
                forall|i: int|
                    0 <= i < sample_index(w, 1, x as int, y as int, 0) ==> #[trigger] output@[i]
                        == expected[i],
            decreases out_w - x,
        {
            let ghost base = sample_index(st, 1, x * f, y as int, 0);
            proof {
                lemma_window_index(f, 1, st, w, h, x as int, y as int, 0, 0);
            }
            let end = src + factor;
            let mut sum = amend;
            while src < end
                invariant
                    y < out_h,
                    x < out_w,
                    f == factor,
                    st == input_stride,
                    w == out_w,
                    h == out_h,
                    amend == factor / 2,
                    row_base == y * st * 1,
                    x * factor <= src <= end,
                    end == x * factor + factor,
                    base == sample_index(st, 1, x * f, y as int, 0),
                    shrink_h_geometry(f, 1, st, w, h, input@.len() as int, output@.len() as int),
                    input@.len() <= usize::MAX,
                    sum == amend + strided_sum(input@, base, (src - x * factor) as nat, 1),
                decreases end - src,
            {
                let ghost k = src - x * f;
                proof {
                    lemma_window_index(f, 1, st, w, h, x as int, y as int, 0, k);
                    lemma_strided_sum_bound(input@, base, k as nat, 1);
                    assert(amend + 255 * k + 255 <= f * 256) by (nonlinear_arith)
                        requires
                            amend == f / 2,
                            k < f,
                    ;
                }
                sum += input[row_base + src] as usize;
                src += 1;
            }
            proof {
                lemma_strided_sum_bound(input@, base, f as nat, 1);
                lemma_mean_mul_fits(f, strided_sum(input@, base, f as nat, 1));
                lemma_sample_offsets(w, h, 1, x as int, y as int, 0);
                lemma_sample_index_split(w, 1, x as int, y as int, 0);
                lemma_shift_24(((sum as u64) * multiplier) as u64);
                lemma_sample_index_step(w, 1, x as int, y as int);
                assert(x * f + f == (x + 1) * f) by (nonlinear_arith);
            }
            output[out_base + x] = (((sum as u64) * multiplier) >> 24u64) as u8;
            x += 1;
        }
        y += 1;
    }
    proof {
        lemma_sample_index_step(w, 1, 0, h);
        assert(output@ =~= expected);
    }
}

/// The 8-bit kernel for three bands: fixed-point means.
pub fn shrink_h_u8_sequential_3(
    factor: usize,
    input: &[u8],
    input_stride: usize,
    out_w: usize,
    out_h: usize,
    output: &mut [u8],
)
    requires
        shrink_h_geometry(
            factor as int,
            3,
            input_stride as int,
            out_w as int,
            out_h as int,
            input@.len() as int,
            old(output)@.len() as int,
        ),
    ensures
        final(output)@ == shrink_h_mul_samples(
            input@,
            3,
            input_stride as int,
            factor as int,
            out_w as int,
            out_h as int,
        ),
{
    let ghost f = factor as int;
    let ghost st = input_stride as int;
    let ghost w = out_w as int;
    let ghost h = out_h as int;
    let ghost expected = shrink_h_mul_samples(input@, 3, st, f, w, h);
    proof {
        vstd::slice::axiom_spec_len(input);
        vstd::slice::axiom_spec_len(output);
        lemma_shrink_h_entry(f, 3, st, w, h, input@.len() as int, output@.len() as int);
    }
    let amend = factor / 2;
    let multiplier = (1u64 << 32u64) / ((1u64 << 8u64) * factor as u64);
    let input_row_width = input_stride * 3;
    let output_row_width = out_w * 3;

    let mut y: usize = 0;
    while y < out_h
        invariant
            y <= out_h,
            f == factor,
            st == input_stride,
            w == out_w,
            h == out_h,
            amend == factor / 2,
            multiplier == box_multiplier(f),
            input_row_width == input_stride * 3,
            output_row_width == out_w * 3,
            shrink_h_geometry(f, 3, st, w, h, input@.len() as int, output@.len() as int),
            input@.len() <= usize::MAX,
            tile_fits(w, h, 3),
            output@.len() == w * h * 3,
            expected == shrink_h_mul_samples(input@, 3, st, f, w, h),
            forall|i: int|
                0 <= i < sample_index(w, 3, 0, y as int, 0) ==> #[trigger] output@[i]
                    == expected[i],
        decreases out_h - y,
    {
        proof {
            lemma_shrink_h_row(st, 3, h, y as int, input@.len() as int);
            lemma_sample_index_step(w, 3, 0, y as int);
            assert(y * (w * 3) == y * w * 3 && y * w * 3 <= w * h * 3) by (nonlinear_arith)
                requires
                    y < h,
                    0 <= w,
            ;
            assert(0 * factor * 3 == 0);
        }
        let row_base = y * input_row_width;
        let row_out = y * output_row_width;
        let mut src: usize = 0;
        let mut x: usize = 0;
        while x < out_w
            invariant
                y < out_h,
                x <= out_w,
                f == factor,
                st == input_stride,
                w == out_w,
                h == out_h,
                amend == factor / 2,
                multiplier == box_multiplier(f),
                row_base == y * st * 3,
                row_out == y * w * 3,
                src == x * factor * 3,
                shrink_h_geometry(f, 3, st, w, h, input@.len() as int, output@.len() as int),
                input@.len() <= usize::MAX,
                tile_fits(w, h, 3),
                output@.len() == w * h * 3,
                expected == shrink_h_mul_samples(input@, 3, st, f, w, h),
                forall|i: int|
                    0 <= i < sample_index(w, 3, x as int, y as int, 0) ==> #[trigger] output@[i]
                        == expected[i],
            decreases out_w - x,
        {
            let ghost base = sample_index(st, 3, x * f, y as int, 0);
            proof {
                lemma_window_index(f, 3, st, w, h, x as int, y as int, 0, 0);
                assert(row_base + src == base) by (nonlinear_arith)
                    requires
                        row_base == y * st * 3,
                        src == x * f * 3,
                        base == sample_index(st, 3, x * f, y as int, 0),
                ;
            }
            let end = src + factor * 3;
            let mut red = amend;
            let mut green = amend;
            let mut blue = amend;
            let ghost mut k: int = 0;
            while src < end
                invariant
                    y < out_h,
                    x < out_w,
                    f == factor,
                    st == input_stride,
                    w == out_w,
                    h == out_h,
                    amend == factor / 2,
                    row_base == y * st * 3,
                    0 <= k <= f,
                    src == x * factor * 3 + k * 3,
                    end == x * factor * 3 + factor * 3,
                    row_base + x * factor * 3 == base,
                    base == sample_index(st, 3, x * f, y as int, 0),
                    shrink_h_geometry(f, 3, st, w, h, input@.len() as int, output@.len() as int),
                    input@.len() <= usize::MAX,
                    red == amend + strided_sum(input@, base + 0, k as nat, 3),
                    green == amend + strided_sum(input@, base + 1, k as nat, 3),
                    blue == amend + strided_sum(input@, base + 2, k as nat, 3),
                decreases end - src,
            {
                proof {
                    assert(k < f) by (nonlinear_arith)
                        requires
                            src < end,
                            src == x * f * 3 + k * 3,
                            end == x * f * 3 + f * 3,
                    ;
                    lemma_window_index(f, 3, st, w, h, x as int, y as int, 0, k);
                    lemma_strided_sum_bound(input@, base + 0, k as nat, 3);
                    lemma_window_index(f, 3, st, w, h, x as int, y as int, 1, k);
                    lemma_strided_sum_bound(input@, base + 1, k as nat, 3);
                    lemma_window_index(f, 3, st, w, h, x as int, y as int, 2, k);
                    lemma_strided_sum_bound(input@, base + 2, k as nat, 3);
                    assert(amend + 255 * k + 255 <= f * 256) by (nonlinear_arith)
                        requires
                            amend == f / 2,
                            k < f,
                    ;
                }
                red += input[row_base + src] as usize;
                green += input[row_base + src + 1] as usize;
                blue += input[row_base + src + 2] as usize;
                src += 3;
                proof {
                    k = k + 1;
                }
            }
            proof {
                assert(k == f) by (nonlinear_arith)
                    requires
                        src == x * f * 3 + k * 3,
                        end == x * f * 3 + f * 3,
                        src >= end,
                        k <= f,
                ;
                assert(src == (x + 1) * f * 3) by (nonlinear_arith)
                    requires
                        src == x * f * 3 + f * 3,
                ;
                lemma_strided_sum_bound(input@, base + 0, f as nat, 3);
                lemma_mean_mul_fits(f, strided_sum(input@, base + 0, f as nat, 3));
                lemma_shift_24(((red as u64) * multiplier) as u64);
                lemma_sample_offsets(w, h, 3, x as int, y as int, 0);
                lemma_sample_index_split(w, 3, x as int, y as int, 0);
                lemma_strided_sum_bound(input@, base + 1, f as nat, 3);
                lemma_mean_mul_fits(f, strided_sum(input@, base + 1, f as nat, 3));
                lemma_shift_24(((green as u64) * multiplier) as u64);
                lemma_sample_offsets(w, h, 3, x as int, y as int, 1);
                lemma_sample_index_split(w, 3, x as int, y as int, 1);
                lemma_strided_sum_bound(input@, base + 2, f as nat, 3);
                lemma_mean_mul_fits(f, strided_sum(input@, base + 2, f as nat, 3));
                lemma_shift_24(((blue as u64) * multiplier) as u64);
                lemma_sample_offsets(w, h, 3, x as int, y as int, 2);
                lemma_sample_index_split(w, 3, x as int, y as int, 2);
                lemma_sample_index_step(w, 3, x as int, y as int);
                assert(row_out + x * 3 == sample_index(w, 3, x as int, y as int, 0))
                    by (nonlinear_arith)
                    requires
                        row_out == y * w * 3,
                ;
            }
            let out_base = row_out + x * 3;
            output[out_base + 0] = (((red as u64) * multiplier) >> 24u64) as u8;
            output[out_base + 1] = (((green as u64) * multiplier) >> 24u64) as u8;
            output[out_base + 2] = (((blue as u64) * multiplier) >> 24u64) as u8;
            x += 1;
        }
        y += 1;
    }
    proof {
        lemma_sample_index_step(w, 3, 0, h);
        assert(output@ =~= expected);
    }
}

/// The 8-bit kernel for four bands: fixed-point means.
pub fn shrink_h_u8_sequential_4(
    factor: usize,
    input: &[u8],
    input_stride: usize,
    out_w: usize,
    out_h: usize,
    output: &mut [u8],
)
    requires
        shrink_h_geometry(
            factor as int,
            4,
            input_stride as int,
            out_w as int,
            out_h as int,
            input@.len() as int,
            old(output)@.len() as int,
        ),
    ensures
        final(output)@ == shrink_h_mul_samples(
            input@,
            4,
            input_stride as int,
            factor as int,
            out_w as int,
            out_h as int,
        ),
{
    let ghost f = factor as int;
    let ghost st = input_stride as int;
    let ghost w = out_w as int;
    let ghost h = out_h as int;
    let ghost expected = shrink_h_mul_samples(input@, 4, st, f, w, h);
    proof {
        vstd::slice::axiom_spec_len(input);
        vstd::slice::axiom_spec_len(output);
        lemma_shrink_h_entry(f, 4, st, w, h, input@.len() as int, output@.len() as int);
    }
    let amend = factor / 2;
    let multiplier = (1u64 << 32u64) / ((1u64 << 8u64) * factor as u64);
    let input_row_width = input_stride * 4;
    let output_row_width = out_w * 4;

    let mut y: usize = 0;
    while y < out_h
        invariant
            y <= out_h,
            f == factor,
            st == input_stride,
            w == out_w,
            h == out_h,
            amend == factor / 2,
            multiplier == box_multiplier(f),
            input_row_width == input_stride * 4,
            output_row_width == out_w * 4,
            shrink_h_geometry(f, 4, st, w, h, input@.len() as int, output@.len() as int),
            input@.len() <= usize::MAX,
            tile_fits(w, h, 4),
            output@.len() == w * h * 4,
            expected == shrink_h_mul_samples(input@, 4, st, f, w, h),
            forall|i: int|
                0 <= i < sample_index(w, 4, 0, y as int, 0) ==> #[trigger] output@[i]
                    == expected[i],
        decreases out_h - y,
    {
        proof {
            lemma_shrink_h_row(st, 4, h, y as int, input@.len() as int);
            lemma_sample_index_step(w, 4, 0, y as int);
            assert(y * (w * 4) == y * w * 4 && y * w * 4 <= w * h * 4) by (nonlinear_arith)
                requires
                    y < h,
                    0 <= w,
            ;
            assert(0 * factor * 4 == 0);
        }
        let row_base = y * input_row_width;
        let row_out = y * output_row_width;
        let mut src: usize = 0;
        let mut x: usize = 0;
        while x < out_w
            invariant
                y < out_h,
                x <= out_w,
                f == factor,
                st == input_stride,
                w == out_w,
                h == out_h,
                amend == factor / 2,
                multiplier == box_multiplier(f),
                row_base == y * st * 4,
                row_out == y * w * 4,
                src == x * factor * 4,
                shrink_h_geometry(f, 4, st, w, h, input@.len() as int, output@.len() as int),
                input@.len() <= usize::MAX,
                tile_fits(w, h, 4),
                output@.len() == w * h * 4,
                expected == shrink_h_mul_samples(input@, 4, st, f, w, h),
                forall|i: int|
                    0 <= i < sample_index(w, 4, x as int, y as int, 0) ==> #[trigger] output@[i]
                        == expected[i],
            decreases out_w - x,
        {
            let ghost base = sample_index(st, 4, x * f, y as int, 0);
            proof {
                lemma_window_index(f, 4, st, w, h, x as int, y as int, 0, 0);
                assert(row_base + src == base) by (nonlinear_arith)
                    requires
                        row_base == y * st * 4,
                        src == x * f * 4,
                        base == sample_index(st, 4, x * f, y as int, 0),
                ;
            }
            let end = src + factor * 4;
            let mut c0 = amend;
            let mut c1 = amend;
            let mut c2 = amend;
            let mut c3 = amend;
            let ghost mut k: int = 0;
            while src < end
                invariant
                    y < out_h,
                    x < out_w,
                    f == factor,
                    st == input_stride,
                    w == out_w,
                    h == out_h,
                    amend == factor / 2,
                    row_base == y * st * 4,
                    0 <= k <= f,
                    src == x * factor * 4 + k * 4,
                    end == x * factor * 4 + factor * 4,
                    row_base + x * factor * 4 == base,
                    base == sample_index(st, 4, x * f, y as int, 0),
                    shrink_h_geometry(f, 4, st, w, h, input@.len() as int, output@.len() as int),
                    input@.len() <= usize::MAX,
                    c0 == amend + strided_sum(input@, base + 0, k as nat, 4),
                    c1 == amend + strided_sum(input@, base + 1, k as nat, 4),
                    c2 == amend + strided_sum(input@, base + 2, k as nat, 4),
                    c3 == amend + strided_sum(input@, base + 3, k as nat, 4),
                decreases end - src,
            {
                proof {
                    assert(k < f) by (nonlinear_arith)
                        requires
                            src < end,
                            src == x * f * 4 + k * 4,
                            end == x * f * 4 + f * 4,
                    ;
                    lemma_window_index(f, 4, st, w, h, x as int, y as int, 0, k);
                    lemma_strided_sum_bound(input@, base + 0, k as nat, 4);
                    lemma_window_index(f, 4, st, w, h, x as int, y as int, 1, k);
                    lemma_strided_sum_bound(input@, base + 1, k as nat, 4);
                    lemma_window_index(f, 4, st, w, h, x as int, y as int, 2, k);
                    lemma_strided_sum_bound(input@, base + 2, k as nat, 4);
                    lemma_window_index(f, 4, st, w, h, x as int, y as int, 3, k);
                    lemma_strided_sum_bound(input@, base + 3, k as nat, 4);
                    assert(amend + 255 * k + 255 <= f * 256) by (nonlinear_arith)
                        requires
                            amend == f / 2,
                            k < f,
                    ;
                }
                c0 += input[row_base + src] as usize;
                c1 += input[row_base + src + 1] as usize;
                c2 += input[row_base + src + 2] as usize;
                c3 += input[row_base + src + 3] as usize;
                src += 4;
                proof {
                    k = k + 1;
                }
            }
            proof {
                assert(k == f) by (nonlinear_arith)
                    requires
                        src == x * f * 4 + k * 4,
                        end == x * f * 4 + f * 4,
                        src >= end,
                        k <= f,
                ;
                assert(src == (x + 1) * f * 4) by (nonlinear_arith)
                    requires
                        src == x * f * 4 + f * 4,
                ;
                lemma_strided_sum_bound(input@, base + 0, f as nat, 4);
                lemma_mean_mul_fits(f, strided_sum(input@, base + 0, f as nat, 4));
                lemma_shift_24(((c0 as u64) * multiplier) as u64);
                lemma_sample_offsets(w, h, 4, x as int, y as int, 0);
                lemma_sample_index_split(w, 4, x as int, y as int, 0);
                lemma_strided_sum_bound(input@, base + 1, f as nat, 4);
                lemma_mean_mul_fits(f, strided_sum(input@, base + 1, f as nat, 4));
                lemma_shift_24(((c1 as u64) * multiplier) as u64);
                lemma_sample_offsets(w, h, 4, x as int, y as int, 1);
                lemma_sample_index_split(w, 4, x as int, y as int, 1);
                lemma_strided_sum_bound(input@, base + 2, f as nat, 4);
                lemma_mean_mul_fits(f, strided_sum(input@, base + 2, f as nat, 4));
                lemma_shift_24(((c2 as u64) * multiplier) as u64);
                lemma_sample_offsets(w, h, 4, x as int, y as int, 2);
                lemma_sample_index_split(w, 4, x as int, y as int, 2);
                lemma_strided_sum_bound(input@, base + 3, f as nat, 4);
                lemma_mean_mul_fits(f, strided_sum(input@, base + 3, f as nat, 4));
                lemma_shift_24(((c3 as u64) * multiplier) as u64);
                lemma_sample_offsets(w, h, 4, x as int, y as int, 3);
                lemma_sample_index_split(w, 4, x as int, y as int, 3);
                lemma_sample_index_step(w, 4, x as int, y as int);
                assert(row_out + x * 4 == sample_index(w, 4, x as int, y as int, 0))
                    by (nonlinear_arith)
                    requires
                        row_out == y * w * 4,
                ;
            }
            let out_base = row_out + x * 4;
            output[out_base + 0] = (((c0 as u64) * multiplier) >> 24u64) as u8;
            output[out_base + 1] = (((c1 as u64) * multiplier) >> 24u64) as u8;
            output[out_base + 2] = (((c2 as u64) * multiplier) >> 24u64) as u8;
            output[out_base + 3] = (((c3 as u64) * multiplier) >> 24u64) as u8;
            x += 1;
        }
        y += 1;
    }
    proof {
        lemma_sample_index_step(w, 4, 0, h);
        assert(output@ =~= expected);
    }
}

/// The `out_w × out_h` tile that keeps the first `out_w` pixels of every input
/// row (the shrink by a factor of 1).
pub open spec fn copy_rows_samples(
    input: Seq<u8>,
    bands: int,
    stride: int,
    out_w: int,
    out_h: int,
) -> Seq<u8> {
    Seq::new(
        (out_w * out_h * bands) as nat,
        |i: int|
            input[sample_index(
                stride,
                bands,
                column_of(i, out_w, bands),
                row_of(i, out_w, bands),
                band_of(i, bands),
            )],
    )
}

/// The 8-bit shrink by a factor of 1: copies the first `out_w` pixels of
/// every input row.
pub fn copy_u8_rows(
    input: &[u8],
    bands: usize,
    input_stride: usize,
    out_w: usize,
    out_h: usize,
    output: &mut [u8],
)
    requires
        shrink_h_geometry(
            1,
            bands as int,
            input_stride as int,
            out_w as int,
            out_h as int,
            input@.len() as int,
            old(output)@.len() as int,
        ),
        input_stride * bands > 0,
        out_w * bands > 0,
    ensures
        final(output)@ == copy_rows_samples(
            input@,
            bands as int,
            input_stride as int,
            out_w as int,
            out_h as int,
        ),
{
    let ghost nb = bands as int;
    let ghost st = input_stride as int;
    let ghost w = out_w as int;
    let ghost h = out_h as int;
    let ghost expected = copy_rows_samples(input@, nb, st, w, h);
    proof {
        assert(1 <= w && 1 <= nb) by (nonlinear_arith)
            requires
                w * nb > 0,
                0 <= w,
                0 <= nb,
        ;
        vstd::slice::axiom_spec_len(input);
        vstd::slice::axiom_spec_len(output);
        lemma_shrink_h_entry(1, nb, st, w, h, input@.len() as int, output@.len() as int);
    }
    let input_row_width = input_stride * bands;
    let output_row_width = out_w * bands;
    let mut y: usize = 0;
    while y < out_h
        invariant
            y <= out_h,
            nb == bands,
            st == input_stride,
            w == out_w,
            h == out_h,
            1 <= w,
            1 <= nb,
            input_row_width == input_stride * bands,
            output_row_width == out_w * bands,
            shrink_h_geometry(1, nb, st, w, h, input@.len() as int, output@.len() as int),
            input@.len() <= usize::MAX,
            tile_fits(w, h, nb),
            output@.len() == w * h * nb,
            expected == copy_rows_samples(input@, nb, st, w, h),
            forall|i: int|
                0 <= i < sample_index(w, nb, 0, y as int, 0) ==> #[trigger] output@[i]
                    == expected[i],
        decreases out_h - y,
    {
        proof {
            lemma_shrink_h_row(st, nb, h, y as int, input@.len() as int);
            lemma_sample_index_step(w, nb, 0, y as int);
            assert(y * (w * nb) == y * w * nb && y * w * nb <= w * h * nb) by (nonlinear_arith)
                requires
                    y < h,
                    0 <= w,
                    0 <= nb,
            ;
            assert(w * nb <= st * nb) by (nonlinear_arith)
                requires
                    w <= st,
                    0 <= nb,
            ;
        }
        let in_base = y * input_row_width;
        let out_base = y * output_row_width;
        let mut j: usize = 0;
        while j < output_row_width
            invariant
                y < out_h,
                j <= output_row_width,
                nb == bands,
                st == input_stride,
                w == out_w,
                h == out_h,
                1 <= w,
                1 <= nb,
                output_row_width == w * nb,
                output_row_width <= st * nb,
                in_base == y * st * nb,
                out_base == y * w * nb,
                0 <= in_base,
                in_base + st * nb <= input@.len(),
                shrink_h_geometry(1, nb, st, w, h, input@.len() as int, output@.len() as int),
                input@.len() <= usize::MAX,
                tile_fits(w, h, nb),
                output@.len() == w * h * nb,
                expected == copy_rows_samples(input@, nb, st, w, h),
                forall|i: int|
                    0 <= i < out_base + j ==> #[trigger] output@[i] == expected[i],
            decreases output_row_width - j,
        {
            let ghost x = j as int / nb;
            let ghost b = j as int % nb;
            proof {
                lemma_fundamental_div_mod(j as int, nb);
                vstd::arithmetic::div_mod::lemma_mod_pos_bound(j as int, nb);
                vstd::arithmetic::div_mod::lemma_div_pos_is_pos(j as int, nb);
                assert(j == x * nb + b) by (nonlinear_arith)
                    requires
                        j == nb * (j as int / nb) + j as int % nb,
                        x == j as int / nb,
                        b == j as int % nb,
                ;
                assert(x < w) by (nonlinear_arith)
                    requires
                        j == x * nb + b,
                        0 <= b,
                        j < w * nb,
                        1 <= nb,
                ;
                lemma_sample_offsets(w, h, nb, x, y as int, b);
                lemma_sample_index_split(w, nb, x, y as int, b);
                assert(x < st);
                lemma_sample_offsets(st, h, nb, x, y as int, b);
                assert(out_base + j == sample_index(w, nb, x, y as int, b));
                assert(in_base + j == sample_index(st, nb, x, y as int, b));
            }
            output[out_base + j] = input[in_base + j];
            j += 1;
        }
        proof {
            lemma_sample_index_step(w, nb, w - 1, y as int);
            assert(out_base + output_row_width == sample_index(w, nb, 0, y + 1, 0))
                by (nonlinear_arith)
                requires
                    out_base == y * w * nb,
                    output_row_width == w * nb,
            ;
        }
        y += 1;
    }
    proof {
        lemma_sample_index_step(w, nb, 0, h);
        assert(output@ =~= expected);
    }
}

/// The 8-bit kernel for a factor of 2: exactly rounded pair means.
pub fn shrink_h_u8_factor2_scalar(
    input: &[u8],
    bands: usize,
    input_stride: usize,
    out_w: usize,
    out_h: usize,
    output: &mut [u8],
)
    requires
        shrink_h_geometry(
            2,
            bands as int,
            input_stride as int,
            out_w as int,
            out_h as int,
            input@.len() as int,
            old(output)@.len() as int,
        ),
        input_stride * bands > 0,
        out_w * bands > 0,
    ensures
        final(output)@ == shrink_h_div_samples(
            input@,
            bands as int,
            input_stride as int,
            2,
            out_w as int,
            out_h as int,
        ),
{
    let ghost nb = bands as int;
    let ghost st = input_stride as int;
    let ghost w = out_w as int;
    let ghost h = out_h as int;
    let ghost expected = shrink_h_div_samples(input@, nb, st, 2, w, h);
    proof {
        assert(1 <= w && 1 <= nb) by (nonlinear_arith)
            requires
                w * nb > 0,
                0 <= w,
                0 <= nb,
        ;
        vstd::slice::axiom_spec_len(input);
        vstd::slice::axiom_spec_len(output);
        lemma_shrink_h_entry(2, nb, st, w, h, input@.len() as int, output@.len() as int);
    }
    let input_row_width = input_stride * bands;
    let output_row_width = out_w * bands;

    let mut y: usize = 0;
    while y < out_h
        invariant
            y <= out_h,
            nb == bands,
            st == input_stride,
            w == out_w,
            h == out_h,
            1 <= nb,
            input_row_width == input_stride * bands,
            output_row_width == out_w * bands,
            shrink_h_geometry(2, nb, st, w, h, input@.len() as int, output@.len() as int),
            input@.len() <= usize::MAX,
            tile_fits(w, h, nb),
            output@.len() == w * h * nb,
            expected == shrink_h_div_samples(input@, nb, st, 2, w, h),
            forall|i: int|
                0 <= i < sample_index(w, nb, 0, y as int, 0) ==> #[trigger] output@[i]
                    == expected[i],
        decreases out_h - y,
    {
        proof {
            lemma_shrink_h_row(st, nb, h, y as int, input@.len() as int);
            lemma_sample_index_step(w, nb, 0, y as int);
        }
        let row_base = y * input_row_width;
        let mut x: usize = 0;
        while x < out_w
            invariant
                y < out_h,
                x <= out_w,
                nb == bands,
                st == input_stride,
                w == out_w,
                h == out_h,
                1 <= nb,
                row_base == y * st * nb,
                shrink_h_geometry(2, nb, st, w, h, input@.len() as int, output@.len() as int),
                input@.len() <= usize::MAX,
                tile_fits(w, h, nb),
                output@.len() == w * h * nb,
                expected == shrink_h_div_samples(input@, nb, st, 2, w, h),
                forall|i: int|
                    0 <= i < sample_index(w, nb, x as int, y as int, 0) ==> #[trigger] output@[i]
                        == expected[i],
            decreases out_w - x,
        {
            proof {
                lemma_window_index(2, nb, st, w, h, x as int, y as int, 0, 0);
            }
            let left = row_base + x * 2 * bands;
            let mut band: usize = 0;
            while band < bands
                invariant
                    y < out_h,
                    x < out_w,
                    band <= bands,
                    nb == bands,
                    st == input_stride,
                    w == out_w,
                    h == out_h,
                    1 <= nb,
                    row_base == y * st * nb,
                    left == row_base + x * 2 * nb,
                    shrink_h_geometry(2, nb, st, w, h, input@.len() as int, output@.len() as int),
                    input@.len() <= usize::MAX,
                    tile_fits(w, h, nb),
                    output@.len() == w * h * nb,
                    expected == shrink_h_div_samples(input@, nb, st, 2, w, h),
                    forall|i: int|
                        0 <= i < sample_index(w, nb, x as int, y as int, band as int)
                            ==> #[trigger] output@[i] == expected[i],
                decreases bands - band,
            {
                proof {
                    lemma_window_index(2, nb, st, w, h, x as int, y as int, band as int, 0);
                    lemma_window_index(2, nb, st, w, h, x as int, y as int, band as int, 1);
                    lemma_sample_offsets(w, h, nb, x as int, y as int, band as int);
                    lemma_sample_index_split(w, nb, x as int, y as int, band as int);
                    let base = sample_index(st, nb, x * 2, y as int, band as int);
                    assert(strided_sum(input@, base, 2, nb) == input@[base] + input@[base + nb]) by {
                        reveal_with_fuel(strided_sum, 3);
                    }
                    lemma_strided_sum_bound(input@, base, 2, nb);
                    lemma_mean_div_fits(2, strided_sum(input@, base, 2, nb));
                    assert(((input@[base] + input@[base + nb] + 1) as u16 >> 1u16) == (
                    input@[base] + input@[base + nb] + 1) / 2) by {
                        let v = (input@[base] + input@[base + nb] + 1) as u16;
                        assert(v >> 1u16 == v / 2) by (bit_vector);
                    }
                }
                let sum = input[left + band] as u16 + input[left + bands + band] as u16;
                let out_idx = (y * out_w + x) * bands + band;
                output[out_idx] = ((sum + 1) >> 1u16) as u8;
                band += 1;
            }
            proof {
                lemma_sample_index_step(w, nb, x as int, y as int);
            }
            x += 1;
        }
        y += 1;
    }
    proof {
        lemma_sample_index_step(w, nb, 0, h);
        assert(output@ =~= expected);
    }
}


/// Band counts with an exactly dividing factor-5 kernel.
pub open spec fn factor5_exact_bands(bands: int) -> bool {
    bands == 1 || bands == 3 || bands == 4
}

/// The factor-5 shrink: exact means for 1, 3 and 4 bands, fixed-point means
/// otherwise.
pub open spec fn shrink_h_factor5_samples(
    input: Seq<u8>,
    bands: int,
    stride: int,
    out_w: int,
    out_h: int,
) -> Seq<u8> {
    if factor5_exact_bands(bands) {
        shrink_h_div_samples(input, bands, stride, 5, out_w, out_h)
    } else {
        shrink_h_mul_samples(input, bands, stride, 5, out_w, out_h)
    }
}

/// What the factor-5 kernel accepts: whole input rows, windows inside them, an
/// output at least one tile long, and (for the fixed-point band counts) rows
/// that are not empty.
pub open spec fn factor5_geometry(
    bands: int,
    stride: int,
    out_w: int,
    out_h: int,
    input_len: int,
    output_len: int,
) -> bool {
    &&& 0 <= bands
    &&& 0 <= out_w
    &&& 0 <= out_h
    &&& stride * bands <= usize::MAX
    &&& out_w * 5 <= usize::MAX
    &&& stride >= out_w * 5
    &&& input_len == stride * bands * out_h
    &&& output_len >= out_w * bands * out_h
    &&& (out_h > 0 && !factor5_exact_bands(bands)) ==> (stride * bands > 0 && out_w * bands > 0)
}

/// The 8-bit kernel for a factor of 5: exact means for 1, 3 and 4 bands, the
/// generic kernel row by row otherwise. Samples past the output tile are left
/// as they were.
pub fn shrink_h_u8_factor5_scalar(
    input: &[u8],
    bands: usize,
    input_stride: usize,
    out_w: usize,
    out_h: usize,
    output: &mut [u8],
)
    requires
        factor5_geometry(
            bands as int,
            input_stride as int,
            out_w as int,
            out_h as int,
            input@.len() as int,
            old(output)@.len() as int,
        ),
    ensures
        final(output)@ == overwrite_prefix(
            old(output)@,
            shrink_h_factor5_samples(
                input@,
                bands as int,
                input_stride as int,
                out_w as int,
                out_h as int,
            ),
        ),
{
    let ghost nb = bands as int;
    let ghost st = input_stride as int;
    let ghost w = out_w as int;
    let ghost h = out_h as int;
    let ghost expected = shrink_h_factor5_samples(input@, nb, st, w, h);
    let ghost old_out = output@;
    let input_row_width = input_stride * bands;
    let exact = bands == 1 || bands == 3 || bands == 4;
    proof {
        vstd::slice::axiom_spec_len(input);
        vstd::slice::axiom_spec_len(output);
        assert((1u64 << 32u64) == 4294967296u64) by (bit_vector);
        assert((1u64 << 8u64) == 256u64) by (bit_vector);
        assert(sample_index(w, nb, 0, 0, 0) == 0) by (nonlinear_arith);
        if h > 0 && w > 0 && nb > 0 {
            assert(tile_fits(w, h, nb) && w * h * nb == w * nb * h && 5 * nb <= usize::MAX)
                by (nonlinear_arith)
                requires
                    0 < w,
                    0 < h,
                    0 < nb,
                    w * nb * h <= old_out.len(),
                    old_out.len() <= usize::MAX,
                    st >= w * 5,
                    st * nb <= usize::MAX,
            ;
        }
    }
    let amend = 5usize / 2;
    let multiplier = (1u64 << 32u64) / ((1u64 << 8u64) * 5u64);
    if out_w == 0 || bands == 0 {
        proof {
            assert(w * h * nb == 0) by (nonlinear_arith)
                requires
                    w == 0 || nb == 0,
            ;
            assert(output@ =~= overwrite_prefix(old_out, expected));
        }
        return;
    }

    let mut y: usize = 0;
    while y < out_h
        invariant
            y <= out_h,
            nb == bands,
            st == input_stride,
            w == out_w,
            h == out_h,
            1 <= nb,
            1 <= w,
            h > 0 ==> tile_fits(w, h, nb),
            h > 0 ==> 5 * nb <= usize::MAX,
            w * h * nb == w * nb * h,
            exact == factor5_exact_bands(nb),
            amend == 2,
            multiplier == box_multiplier(5),
            input_row_width == input_stride * bands,
            factor5_geometry(nb, st, w, h, input@.len() as int, old_out.len() as int),
            input@.len() <= usize::MAX,
            old_out.len() <= usize::MAX,
            output@.len() == old_out.len(),
            expected == shrink_h_factor5_samples(input@, nb, st, w, h),
            forall|i: int|
                0 <= i < sample_index(w, nb, 0, y as int, 0) ==> #[trigger] output@[i]
                    == expected[i],
            forall|i: int|
                sample_index(w, nb, 0, y as int, 0) <= i < old_out.len() ==> #[trigger] output@[i]
                    == old_out[i],
        decreases out_h - y,
    {
        proof {
            lemma_shrink_h_row(st, nb, h, y as int, input@.len() as int);
            lemma_sample_index_step(w, nb, 0, y as int);
        }
        let row_base = y * input_row_width;
        let mut x: usize = 0;
        while x < out_w
            invariant
                y < out_h,
                x <= out_w,
                nb == bands,
                st == input_stride,
                w == out_w,
                h == out_h,
                1 <= nb,
                1 <= w,
                tile_fits(w, h, nb),
                5 * nb <= usize::MAX,
                exact == factor5_exact_bands(nb),
                amend == 2,
                multiplier == box_multiplier(5),
                row_base == y * st * nb,
                factor5_geometry(nb, st, w, h, input@.len() as int, old_out.len() as int),
                input@.len() <= usize::MAX,
                old_out.len() <= usize::MAX,
                w * h * nb <= old_out.len(),
                output@.len() == old_out.len(),
                expected == shrink_h_factor5_samples(input@, nb, st, w, h),
                forall|i: int|
                    0 <= i < sample_index(w, nb, x as int, y as int, 0) ==> #[trigger] output@[i]
                        == expected[i],
                forall|i: int|
                    sample_index(w, nb, x as int, y as int, 0) <= i < old_out.len()
                        ==> #[trigger] output@[i] == old_out[i],
            decreases out_w - x,
        {
            proof {
                lemma_window_index(5, nb, st, w, h, x as int, y as int, 0, 0);
            }
            let pixel_base = row_base + x * 5 * bands;
            let mut band: usize = 0;
            while band < bands
                invariant
                    y < out_h,
                    x < out_w,
                    band <= bands,
                    nb == bands,
                    st == input_stride,
                    w == out_w,
                    h == out_h,
                    1 <= nb,
                    tile_fits(w, h, nb),
                    5 * nb <= usize::MAX,
                    exact == factor5_exact_bands(nb),
                    amend == 2,
                    multiplier == box_multiplier(5),
                    row_base == y * st * nb,
                    pixel_base == row_base + x * 5 * nb,
                    factor5_geometry(nb, st, w, h, input@.len() as int, old_out.len() as int),
                    input@.len() <= usize::MAX,
                    old_out.len() <= usize::MAX,
                    w * h * nb <= old_out.len(),
                    output@.len() == old_out.len(),
                    expected == shrink_h_factor5_samples(input@, nb, st, w, h),
                    forall|i: int|
                        0 <= i < sample_index(w, nb, x as int, y as int, band as int)
                            ==> #[trigger] output@[i] == expected[i],
                    forall|i: int|
                        sample_index(w, nb, x as int, y as int, band as int) <= i < old_out.len()
                            ==> #[trigger] output@[i] == old_out[i],
                decreases bands - band,
            {
                let ghost base = sample_index(st, nb, x * 5, y as int, band as int);
                let mut sum = amend;
                let mut k: usize = 0;
                while k < 5
                    invariant
                        y < out_h,
                        x < out_w,
                        band < bands,
                        k <= 5,
                        nb == bands,
                        st == input_stride,
                        w == out_w,
                        h == out_h,
                        row_base == y * st * nb,
                        pixel_base == row_base + x * 5 * nb,
                        base == sample_index(st, nb, x * 5, y as int, band as int),
                        factor5_geometry(nb, st, w, h, input@.len() as int, old_out.len() as int),
                        input@.len() <= usize::MAX,
                        amend == 2,
                        sum == amend + strided_sum(input@, base, k as nat, nb),
                    decreases 5 - k,
                {
                    proof {
                        lemma_window_index(
                            5,
                            nb,
                            st,
                            w,
                            h,
                            x as int,
                            y as int,
                            band as int,
                            k as int,
                        );
                        lemma_strided_sum_bound(input@, base, k as nat, nb);
                    }
                    sum += input[pixel_base + band + k * bands] as usize;
                    k += 1;
                }
                proof {
                    lemma_strided_sum_bound(input@, base, 5, nb);
                    lemma_mean_mul_fits(5, strided_sum(input@, base, 5, nb));
                    lemma_mean_div_fits(5, strided_sum(input@, base, 5, nb));
                    lemma_sample_offsets(w, h, nb, x as int, y as int, band as int);
                    lemma_sample_index_split(w, nb, x as int, y as int, band as int);
                    lemma_shift_24(((sum as u64) * multiplier) as u64);
                }
                let out_idx = (y * out_w + x) * bands + band;
                if exact {
                    output[out_idx] = (sum / 5) as u8;
                } else {
                    output[out_idx] = (((sum as u64) * multiplier) >> 24u64) as u8;
                }
                band += 1;
            }
            proof {
                lemma_sample_index_step(w, nb, x as int, y as int);
            }
            x += 1;
        }
        y += 1;
    }
    proof {
        if h > 0 {
            lemma_sample_index_step(w, nb, 0, h);
        } else {
            assert(w * h * nb == 0) by (nonlinear_arith)
                requires
                    h == 0,
            ;
            assert(sample_index(w, nb, 0, 0, 0) == 0) by (nonlinear_arith);
        }
        assert(output@ =~= overwrite_prefix(old_out, expected));
    }
}

/// The 8-bit horizontal shrink: the libvips fixed-point mean of every window,
/// except that a factor of 5 on 1, 3 or 4 bands divides exactly.
pub open spec fn shrink_h_u8_samples(
    input: Seq<u8>,
    bands: int,
    stride: int,
    factor: int,
    out_w: int,
    out_h: int,
) -> Seq<u8> {
    if factor == 5 && factor5_exact_bands(bands) {
        shrink_h_div_samples(input, bands, stride, 5, out_w, out_h)
    } else {
        shrink_h_mul_samples(input, bands, stride, factor, out_w, out_h)
    }
}

/// The kernels that cut the buffers into whole rows and pixels need rows and
/// pixels of at least one sample: factors 1 and 2, the generic kernel, and the
/// factor-5 kernel on other band counts than 1, 3 and 4 when there is a row.
pub open spec fn shrink_h_u8_cuts_rows(factor: int, bands: int, out_h: int) -> bool {
    ||| factor == 1
    ||| factor == 2
    ||| (factor != 5 && !factor5_exact_bands(bands))
    ||| (factor == 5 && !factor5_exact_bands(bands) && out_h > 0)
}

/// With a factor of 1 the fixed-point mean of a one-sample window is the sample.
pub proof fn lemma_mean_mul_unit(sum: int)
    requires
        0 <= sum,
    ensures
        mean_mul(1, sum) == sum,
{
    assert(box_multiplier(1) == 16777216) by {
        vstd::arithmetic::div_mod::lemma_fundamental_div_mod_converse(4294967296, 256, 16777216, 0);
    }
    vstd::arithmetic::div_mod::lemma_div_by_multiple(sum, 16777216);
}

/// With a factor of 2 the fixed-point mean is the exactly rounded mean.
pub proof fn lemma_mean_mul_pair(sum: int)
    requires
        0 <= sum,
    ensures
        mean_mul(2, sum) == mean_div(2, sum),
{
    assert(box_multiplier(2) == 8388608) by {
        vstd::arithmetic::div_mod::lemma_fundamental_div_mod_converse(4294967296, 512, 8388608, 0);
    }
    let t = 1 + sum;
    lemma_fundamental_div_mod(t, 2);
    vstd::arithmetic::div_mod::lemma_mod_pos_bound(t, 2);
    assert(t * 8388608 == (t / 2) * 16777216 + (t % 2) * 8388608) by (nonlinear_arith)
        requires
            t == 2 * (t / 2) + t % 2,
    ;
    vstd::arithmetic::div_mod::lemma_fundamental_div_mod_converse(
        t * 8388608,
        16777216,
        t / 2,
        (t % 2) * 8388608,
    );
}

/// Copying the first `out_w` pixels of every row is the shrink by a factor of 1.
pub proof fn lemma_copy_rows_is_unit_shrink(
    input: Seq<u8>,
    bands: int,
    stride: int,
    out_w: int,
    out_h: int,
)
    ensures
        copy_rows_samples(input, bands, stride, out_w, out_h) == shrink_h_mul_samples(
            input,
            bands,
            stride,
            1,
            out_w,
            out_h,
        ),
{
    let a = copy_rows_samples(input, bands, stride, out_w, out_h);
    let b = shrink_h_mul_samples(input, bands, stride, 1, out_w, out_h);
    assert forall|i: int| 0 <= i < a.len() implies a[i] == b[i] by {
        let x = column_of(i, out_w, bands);
        let y = row_of(i, out_w, bands);
        let c = band_of(i, bands);
        let idx = sample_index(stride, bands, x * 1, y, c);
        assert(x * 1 == x);
        assert(strided_sum(input, idx, 1, bands) == input[idx]) by {
            reveal_with_fuel(strided_sum, 2);
            assert(0 * bands == 0);
        }
        lemma_mean_mul_unit(input[idx] as int);
    }
    assert(a =~= b);
}

/// The exactly rounded pair mean is the fixed-point pair mean.
pub proof fn lemma_pair_shrink_is_fixed_point(
    input: Seq<u8>,
    bands: int,
    stride: int,
    out_w: int,
    out_h: int,
)
    ensures
        shrink_h_div_samples(input, bands, stride, 2, out_w, out_h) == shrink_h_mul_samples(
            input,
            bands,
            stride,
            2,
            out_w,
            out_h,
        ),
{
    let a = shrink_h_div_samples(input, bands, stride, 2, out_w, out_h);
    let b = shrink_h_mul_samples(input, bands, stride, 2, out_w, out_h);
    assert forall|i: int| 0 <= i < a.len() implies a[i] == b[i] by {
        let s = window_sum(
            input,
            bands,
            stride,
            2,
            column_of(i, out_w, bands),
            row_of(i, out_w, bands),
            band_of(i, bands),
        );
        lemma_strided_sum_bound(
            input,
            sample_index(
                stride,
                bands,
                column_of(i, out_w, bands) * 2,
                row_of(i, out_w, bands),
                band_of(i, bands),
            ),
            2,
            bands,
        );
        lemma_mean_mul_pair(s);
    }
    assert(a =~= b);
}

/// Shrinks an `out_w × out_h` tile of 8-bit samples horizontally by `factor`:
/// output pixel `x` of row `y` is the mean of input pixels `x * factor ..
/// (x + 1) * factor` of row `y`, read from rows `input_stride` pixels long.
pub fn shrink_h_u8(
    factor: usize,
    input: &[u8],
    bands: usize,
    input_stride: usize,
    out_w: usize,
    out_h: usize,
    output: &mut [u8],
)
    requires
        shrink_h_geometry(
            factor as int,
            bands as int,
            input_stride as int,
            out_w as int,
            out_h as int,
            input@.len() as int,
            old(output)@.len() as int,
        ),
        shrink_h_u8_cuts_rows(factor as int, bands as int, out_h as int) ==> (input_stride
            * bands > 0 && out_w * bands > 0),
    ensures
        final(output)@ == shrink_h_u8_samples(
            input@,
            bands as int,
            input_stride as int,
            factor as int,
            out_w as int,
            out_h as int,
        ),
{
    let ghost nb = bands as int;
    let ghost st = input_stride as int;
    let ghost w = out_w as int;
    let ghost h = out_h as int;
    let ghost old_out = output@;
    proof {
        assert(w * nb * h == w * h * nb) by (nonlinear_arith);
    }
    if factor == 1 {
        copy_u8_rows(input, bands, input_stride, out_w, out_h, output);
        proof {
            lemma_copy_rows_is_unit_shrink(input@, nb, st, w, h);
        }
        return;
    }
    if factor == 2 {
        shrink_h_u8_factor2_scalar(input, bands, input_stride, out_w, out_h, output);
        proof {
            lemma_pair_shrink_is_fixed_point(input@, nb, st, w, h);
        }
        return;
    }
    if factor == 5 {
        shrink_h_u8_factor5_scalar(input, bands, input_stride, out_w, out_h, output);
        proof {
            let e = shrink_h_factor5_samples(input@, nb, st, w, h);
            assert(e.len() == old_out.len());
            assert(overwrite_prefix(old_out, e) =~= e);
        }
        return;
    }
    if bands == 1 {
        shrink_h_u8_sequential_1(factor, input, input_stride, out_w, out_h, output);
    } else if bands == 3 {
        shrink_h_u8_sequential_3(factor, input, input_stride, out_w, out_h, output);
    } else if bands == 4 {
        shrink_h_u8_sequential_4(factor, input, input_stride, out_w, out_h, output);
    } else {
        shrink_h_u8_scalar(factor, input, bands, input_stride, out_w, out_h, output);
    }
}


/// `v` saturated to the `u32` range.
pub open spec fn saturate_u32(v: int) -> u32 {
    if v > u32::MAX {
        u32::MAX
    } else {
        v as u32
    }
}

/// `v` saturated to the `usize` range.
pub open spec fn saturate_usize(v: int) -> usize {
    if v > usize::MAX {
        usize::MAX
    } else {
        v as usize
    }
}

/// An output region that starts at the left edge and whose windows all lie
/// inside a known source row is served by whole source rows.
pub open spec fn borrows_full_rows(factor: u32, source_width: Option<usize>, output: Region) -> bool {
    match source_width {
        Some(w) => output.x == 0 && saturate_usize(output.width * factor) <= w,
        None => false,
    }
}

/// The input region a horizontal shrink reads for an output region: whole
/// source rows when they are known and cover the request, otherwise the
/// output columns scaled by the factor (saturating).
pub open spec fn shrink_h_input_region(
    factor: u32,
    source_width: Option<usize>,
    output: Region,
) -> Region {
    if borrows_full_rows(factor, source_width, output) {
        Region {
            x: 0,
            y: output.y,
            width: source_width.unwrap() as u32,
            height: output.height,
        }
    } else {
        Region {
            x: clamp_to_i32(output.x * factor),
            y: output.y,
            width: saturate_u32(output.width * factor),
            height: output.height,
        }
    }
}

/// Input tile width of a horizontal shrink for an output tile `tile_w` wide:
/// the scaled width, or the whole source row when that is wider.
pub open spec fn shrink_h_input_tile_width(
    factor: u32,
    source_width: Option<usize>,
    tile_w: u32,
) -> u32 {
    let requested = saturate_u32(tile_w * factor);
    match source_width {
        Some(w) => if requested >= (w as u32) {
            requested
        } else {
            w as u32
        },
        None => requested,
    }
}

/// Output width of a horizontal shrink: `input_w / factor`, rounded up when
/// `ceil` is set.
pub open spec fn shrink_h_output_width(factor: u32, ceil: bool, input_w: u32) -> u32 {
    if ceil {
        ((input_w + factor - 1) / (factor as int)) as u32
    } else {
        (input_w / factor) as u32
    }
}

fn validate_shrink_h_factor(factor: u32) -> (r: Result<(), BuildError>)
    ensures
        r is Ok <==> factor >= 1,
        r matches Err(e) ==> e.is_source_hint("shrink_h"@, "factor must be >= 1"@),
{
    if factor == 0 {
        return Err(
            BuildError::SourceHint { context: "shrink_h", message: "factor must be >= 1".to_string() },
        );
    }
    Ok(())
}

/// `value * factor`, saturated to the `i32` range.
pub(crate) fn saturating_scale_i32(value: i32, factor: u32) -> (r: i32)
    ensures
        r == clamp_to_i32(value * factor),
{
    proof {
        assert(-2147483648 * 4294967295 <= value * factor <= 2147483647 * 4294967295)
            by (nonlinear_arith)
            requires
                -2147483648 <= value <= 2147483647,
                0 <= factor <= 4294967295,
        ;
    }
    clamp_i64_to_i32((value as i64) * (factor as i64))
}

/// Horizontal integer shrink: every output pixel is the mean of `factor`
/// consecutive input pixels of its row. The factor is at least 1; a factor of
/// 1 is the identity.
pub struct ShrinkH<F: BandFormat> {
    factor: u32,
    ceil: bool,
    source_width: Option<usize>,
    _format: PhantomData<F>,
}

impl<F: BandFormat> ShrinkH<F> {
    #[verifier::type_invariant]
    spec fn factor_positive(self) -> bool {
        self.factor >= 1
    }

    /// The shrink factor.
    pub closed spec fn shrink_factor(&self) -> u32 {
        self.factor
    }

    /// Whether the output width is rounded up.
    pub closed spec fn rounds_up(&self) -> bool {
        self.ceil
    }

    /// Width of the source rows, when known.
    pub closed spec fn source_row_width(&self) -> Option<usize> {
        self.source_width
    }

    /// The shrink factor, which is at least 1.
    pub fn factor(&self) -> (r: u32)
        ensures
            r == self.shrink_factor(),
            r >= 1,
    {
        proof {
            use_type_invariant(self);
        }
        self.factor
    }

    /// Builds a shrink by `factor` that rounds the output width down; fails
    /// when the factor is zero.
    pub fn new(factor: u32) -> (r: Result<Self, BuildError>)
        ensures
            r is Ok <==> factor >= 1,
            r matches Ok(s) ==> s.shrink_factor() == factor && !s.rounds_up()
                && s.source_row_width() is None,
            r matches Err(e) ==> e.is_source_hint("shrink_h"@, "factor must be >= 1"@),
    {
        Self::new_with_ceil(factor, false)
    }

    /// Builds a shrink by `factor` whose output width is rounded up when
    /// `ceil` is set; fails when the factor is zero.
    pub fn new_with_ceil(factor: u32, ceil: bool) -> (r: Result<Self, BuildError>)
        ensures
            r is Ok <==> factor >= 1,
            r matches Ok(s) ==> s.shrink_factor() == factor && s.rounds_up() == ceil
                && s.source_row_width() is None,
            r matches Err(e) ==> e.is_source_hint("shrink_h"@, "factor must be >= 1"@),
    {
        match validate_shrink_h_factor(factor) {
            Ok(()) => Ok(ShrinkH { factor, ceil, source_width: None, _format: PhantomData }),
            Err(e) => Err(e),
        }
    }

    /// The same shrink with the given rounding of the output width.
    pub fn with_ceil(self, ceil: bool) -> (r: Self)
        ensures
            r.shrink_factor() == self.shrink_factor(),
            r.rounds_up() == ceil,
            r.source_row_width() == self.source_row_width(),
    {
        proof {
            use_type_invariant(&self);
        }
        ShrinkH { factor: self.factor, ceil, source_width: self.source_width, _format: PhantomData }
    }

    /// The same shrink, told that the source rows are `source_width` pixels
    /// wide.
    pub fn with_source_width(self, source_width: usize) -> (r: Self)
        ensures
            r.shrink_factor() == self.shrink_factor(),
            r.rounds_up() == self.rounds_up(),
            r.source_row_width() == Some(source_width),
    {
        proof {
            use_type_invariant(&self);
        }
        ShrinkH {
            factor: self.factor,
            ceil: self.ceil,
            source_width: Some(source_width),
            _format: PhantomData,
        }
    }

    /// Preferred tile shape: a horizontal shrink reads whole rows.
    pub fn demand_hint(&self) -> (r: DemandHint)
        ensures
            r == DemandHint::ThinStrip,
    {
        DemandHint::ThinStrip
    }

    /// The input region read for an output region; see
    /// [`shrink_h_input_region`].
    pub fn required_input_region(&self, output: &Region) -> (r: Region)
        ensures
            r == shrink_h_input_region(self.shrink_factor(), self.source_row_width(), *output),
    {
        let required_width = match (output.width as usize).checked_mul(self.factor as usize) {
            Some(v) => v,
            None => usize::MAX,
        };
        match self.source_width {
            Some(source_width) => {
                if output.x == 0 && required_width <= source_width {
                    return Region::new(0, output.y, source_width as u32, output.height);
                }
            },
            None => {},
        }
        let width = match output.width.checked_mul(self.factor) {
            Some(v) => v,
            None => u32::MAX,
        };
        Region::new(
            saturating_scale_i32(output.x, self.factor),
            output.y,
            width,
            output.height,
        )
    }

    /// Tile buffer sizes for a `tile_w × tile_h` output tile; see
    /// [`shrink_h_input_tile_width`].
    pub fn node_spec(&self, tile_w: u32, tile_h: u32) -> (r: NodeSpec)
        ensures
            r == (NodeSpec {
                input_tile_w: shrink_h_input_tile_width(
                    self.shrink_factor(),
                    self.source_row_width(),
                    tile_w,
                ),
                input_tile_h: tile_h,
                output_tile_w: tile_w,
                output_tile_h: tile_h,
            }),
    {
        let requested_input_tile_w = match tile_w.checked_mul(self.factor) {
            Some(v) => v,
            None => u32::MAX,
        };
        let input_tile_w = match self.source_width {
            Some(source_width) => {
                let source = source_width as u32;
                if requested_input_tile_w >= source {
                    requested_input_tile_w
                } else {
                    source
                }
            },
            None => requested_input_tile_w,
        };
        NodeSpec {
            input_tile_w,
            input_tile_h: tile_h,
            output_tile_w: tile_w,
            output_tile_h: tile_h,
        }
    }

    /// Output image width; see [`shrink_h_output_width`].
    pub fn output_width(&self, input_w: u32) -> (r: u32)
        ensures
            r == shrink_h_output_width(self.shrink_factor(), self.rounds_up(), input_w),
    {
        proof {
            use_type_invariant(self);
        }
        let whole = input_w / self.factor;
        if self.ceil && input_w % self.factor != 0 {
            proof {
                lemma_ceil_div(input_w as int, self.factor as int);
            }
            whole + 1
        } else {
            proof {
                if self.ceil {
                    lemma_ceil_div(input_w as int, self.factor as int);
                }
            }
            whole
        }
    }

    /// Output image height: a horizontal shrink keeps every row.
    pub fn output_height(&self, input_h: u32) -> (r: u32)
        ensures
            r == input_h,
    {
        input_h
    }
}

/// `(n + d - 1) / d` is `n / d`, plus one when `d` does not divide `n`.
proof fn lemma_ceil_div(n: int, d: int)
    requires
        0 <= n,
        1 <= d,
    ensures
        (n + d - 1) / d == n / d + (if n % d != 0 {
            1int
        } else {
            0int
        }),
        n / d <= n,
        n % d != 0 ==> n / d < n,
{
    lemma_fundamental_div_mod(n, d);
    vstd::arithmetic::div_mod::lemma_mod_pos_bound(n, d);
    vstd::arithmetic::div_mod::lemma_div_pos_is_pos(n, d);
    assert((n / d + 1) * d == d * (n / d) + d) by (nonlinear_arith);
    assert((n / d) * d == d * (n / d)) by (nonlinear_arith);
    if n % d != 0 {
        vstd::arithmetic::div_mod::lemma_fundamental_div_mod_converse(
            n + d - 1,
            d,
            n / d + 1,
            n % d - 1,
        );
    } else {
        vstd::arithmetic::div_mod::lemma_fundamental_div_mod_converse(n + d - 1, d, n / d, d - 1);
    }
    assert(n / d <= n && (n % d != 0 ==> n / d < n)) by (nonlinear_arith)
        requires
            n == d * (n / d) + n % d,
            0 <= n % d,
            1 <= d,
            0 <= n / d,
    ;
}

impl ShrinkH<U8> {
    /// Shrinks an 8-bit tile: output pixel `(x, y)` of the `output_region`
    /// tile is the mean of input pixels `x * factor .. (x + 1) * factor` of
    /// row `y`, read from rows `input_region.width` pixels long; see
    /// [`shrink_h_u8_samples`].
    pub fn process_region(
        &self,
        input_region: &Region,
        bands: u32,
        input: &[u8],
        output_region: &Region,
        output: &mut [u8],
    )
        requires
            shrink_h_geometry(
                self.shrink_factor() as int,
                bands as int,
                input_region.width as int,
                output_region.width as int,
                output_region.height as int,
                input@.len() as int,
                old(output)@.len() as int,
            ),
            shrink_h_u8_cuts_rows(
                self.shrink_factor() as int,
                bands as int,
                output_region.height as int,
            ) ==> (input_region.width * bands > 0 && output_region.width * bands > 0),
        ensures
            final(output)@ == shrink_h_u8_samples(
                input@,
                bands as int,
                input_region.width as int,
                self.shrink_factor() as int,
                output_region.width as int,
                output_region.height as int,
            ),
    {
        shrink_h_u8(
            self.factor as usize,
            input,
            bands as usize,
            input_region.width as usize,
            output_region.width as usize,
            output_region.height as usize,
            output,
        );
    }
}


/// Format-erased wrapper of [`ShrinkH`] that reports the shrunk image size.
pub struct ShrinkHBridge<F: BandFormat> {
    op: ShrinkH<F>,
    bands: u32,
}

impl<F: BandFormat> ShrinkHBridge<F> {
    /// The wrapped shrink.
    pub closed spec fn shrink(&self) -> ShrinkH<F> {
        self.op
    }

    /// Number of bands the bridge carries.
    pub closed spec fn band_count(&self) -> u32 {
        self.bands
    }

    /// Builds the bridge for a shrink by `factor` that rounds down; fails
    /// when the factor is zero.
    pub fn new(factor: u32, bands: u32) -> (r: Result<Self, BuildError>)
        ensures
            r is Ok <==> factor >= 1,
            r matches Ok(b) ==> b.shrink().shrink_factor() == factor && !b.shrink().rounds_up()
                && b.shrink().source_row_width() is None && b.band_count() == bands,
            r matches Err(e) ==> e.is_source_hint("shrink_h"@, "factor must be >= 1"@),
    {
        Self::new_with_ceil(factor, false, bands)
    }

    /// Builds the bridge for a shrink by `factor` that rounds the output width
    /// up when `ceil` is set; fails when the factor is zero.
    pub fn new_with_ceil(factor: u32, ceil: bool, bands: u32) -> (r: Result<Self, BuildError>)
        ensures
            r is Ok <==> factor >= 1,
            r matches Ok(b) ==> b.shrink().shrink_factor() == factor && b.shrink().rounds_up()
                == ceil && b.shrink().source_row_width() is None && b.band_count() == bands,
            r matches Err(e) ==> e.is_source_hint("shrink_h"@, "factor must be >= 1"@),
    {
        Self::new_with_ceil_and_source_width(factor, ceil, bands, None)
    }

    /// Builds the bridge, told the width of the source rows when it is
    /// known; fails when the factor is zero.
    pub fn new_with_ceil_and_source_width(
        factor: u32,
        ceil: bool,
        bands: u32,
        source_width: Option<u32>,
    ) -> (r: Result<Self, BuildError>)
        ensures
            r is Ok <==> factor >= 1,
            r matches Ok(b) ==> b.shrink().shrink_factor() == factor && b.shrink().rounds_up()
                == ceil && b.band_count() == bands && b.shrink().source_row_width() == (match source_width {
                Some(w) => Some(w as usize),
                None => None,
            }),
            r matches Err(e) ==> e.is_source_hint("shrink_h"@, "factor must be >= 1"@),
    {
        match ShrinkH::new_with_ceil(factor, ceil) {
            Ok(op) => {
                let op = match source_width {
                    Some(width) => op.with_source_width(width as usize),
                    None => op,
                };
                Ok(ShrinkHBridge { op, bands })
            },
            Err(e) => Err(e),
        }
    }
}

impl ShrinkHBridge<U8> {
    /// Runs the shrink on a tile of 8-bit samples; see
    /// [`ShrinkH::process_region`].
    pub fn dyn_process_region(
        &self,
        input: &[u8],
        output: &mut [u8],
        input_region: Region,
        output_region: Region,
    )
        requires
            shrink_h_geometry(
                self.shrink().shrink_factor() as int,
                self.band_count() as int,
                input_region.width as int,
                output_region.width as int,
                output_region.height as int,
                input@.len() as int,
                old(output)@.len() as int,
            ),
            shrink_h_u8_cuts_rows(
                self.shrink().shrink_factor() as int,
                self.band_count() as int,
                output_region.height as int,
            ) ==> (input_region.width * self.band_count() > 0 && output_region.width
                * self.band_count() > 0),
        ensures
            final(output)@ == shrink_h_u8_samples(
                input@,
                self.band_count() as int,
                input_region.width as int,
                self.shrink().shrink_factor() as int,
                output_region.width as int,
                output_region.height as int,
            ),
    {
        self.op.process_region(&input_region, self.bands, input, &output_region, output);
    }
}

impl<F: BandFormat> DynOperation for ShrinkHBridge<F> {
    open spec fn serves_region(&self, output: Region) -> bool {
        true
    }

    open spec fn serves_slot_region(&self, output: Region, slot: int) -> bool {
        self.serves_region(output)
    }

    open spec fn serves_tile(&self, tile_w: u32, tile_h: u32) -> bool {
        true
    }

    open spec fn input_format_of(&self) -> BandFormatId {
        F::format_id()
    }

    open spec fn output_format_of(&self) -> BandFormatId {
        F::format_id()
    }

    open spec fn bands_of(&self) -> u32 {
        self.band_count()
    }

    open spec fn demand_hint_of(&self) -> DemandHint {
        DemandHint::ThinStrip
    }

    open spec fn input_slots(&self) -> usize {
        1
    }

    open spec fn input_region_of(&self, output: Region) -> Region {
        shrink_h_input_region(
            self.shrink().shrink_factor(),
            self.shrink().source_row_width(),
            output,
        )
    }

    open spec fn slot_region_of(&self, output: Region, slot: int) -> Region {
        self.input_region_of(output)
    }

    open spec fn node_spec_of(&self, tile_w: u32, tile_h: u32) -> NodeSpec {
        NodeSpec {
            input_tile_w: shrink_h_input_tile_width(
                self.shrink().shrink_factor(),
                self.shrink().source_row_width(),
                tile_w,
            ),
            input_tile_h: tile_h,
            output_tile_w: tile_w,
            output_tile_h: tile_h,
        }
    }

    open spec fn output_width_of(&self, input_w: u32) -> u32 {
        shrink_h_output_width(self.shrink().shrink_factor(), self.shrink().rounds_up(), input_w)
    }

    /// A horizontal shrink keeps every row.
    open spec fn output_height_of(&self, input_h: u32) -> u32 {
        input_h
    }

    fn input_format(&self) -> BandFormatId {
        F::id()
    }

    fn output_format(&self) -> BandFormatId {
        F::id()
    }

    fn bands(&self) -> u32 {
        self.bands
    }

    fn demand_hint(&self) -> DemandHint {
        self.op.demand_hint()
    }

    fn input_slot_count(&self) -> usize {
        1
    }

    fn required_input_region(&self, output: &Region) -> Region {
        self.op.required_input_region(output)
    }

    fn required_input_region_slot(&self, output: &Region, _slot: usize) -> Region {
        self.op.required_input_region(output)
    }

    fn node_spec(&self, tile_w: u32, tile_h: u32) -> NodeSpec {
        self.op.node_spec(tile_w, tile_h)
    }

    fn output_width(&self, input_w: u32) -> u32 {
        self.op.output_width(input_w)
    }

    /// A horizontal shrink keeps every row.
    fn output_height(&self, input_h: u32) -> u32 {
        input_h
    }
}

/// Shrinking by a factor of 1 gives back the input tile.
pub proof fn lemma_shrink_h_unit_factor_is_identity(
    input: Seq<u8>,
    bands: int,
    width: int,
    height: int,
)
    requires
        0 <= width,
        0 <= height,
        0 <= bands,
        input.len() == width * height * bands,
    ensures
        shrink_h_u8_samples(input, bands, width, 1, width, height) == input,
{
    lemma_copy_rows_is_unit_shrink(input, bands, width, width, height);
    let kept = copy_rows_samples(input, bands, width, width, height);
    assert forall|i: int| 0 <= i < input.len() implies #[trigger] kept[i] == input[i] by {
        assert(0 < width && 0 < bands) by (nonlinear_arith)
            requires
                0 <= i < width * height * bands,
                0 <= width,
                0 <= height,
                0 <= bands,
        ;
        lemma_flat_index_split(i, width, height, bands);
    }
    assert(kept =~= input);
}

/// The rounded-up output width is the rounded-down one or one more.
pub proof fn lemma_shrink_h_ceil_width_bounds(factor: u32, input_w: u32)
    requires
        factor >= 1,
    ensures
        shrink_h_output_width(factor, false, input_w) <= shrink_h_output_width(
            factor,
            true,
            input_w,
        ) <= shrink_h_output_width(factor, false, input_w) + 1,
{
    lemma_ceil_div(input_w as int, factor as int);
}


/// A window of `count` samples that all equal `v` sums to `count * v`.
proof fn lemma_strided_sum_uniform(s: Seq<u8>, start: int, count: nat, step: int, v: u8)
    requires
        forall|k: int| 0 <= k < count ==> 0 <= #[trigger] (start + k * step) < s.len(),
        forall|i: int| 0 <= i < s.len() ==> #[trigger] s[i] == v,
    ensures
        strided_sum(s, start, count, step) == count * v,
    decreases count,
{
    if count > 0 {
        let k = count - 1;
        assert(0 <= start + k * step < s.len());
        assert(s[start + k * step] == v);
        assert(strided_sum(s, start, count, step) == strided_sum(
            s,
            start,
            (count - 1) as nat,
            step,
        ) + s[start + k * step]);
        lemma_strided_sum_uniform(s, start, (count - 1) as nat, step, v);
        assert((count - 1) * v + v == count * v) by (nonlinear_arith);
    } else {
        assert(count * v == 0) by (nonlinear_arith)
            requires
                count == 0,
        ;
    }
}

/// The fixed-point mean of `factor` samples equal to `v` is `v`, for every
/// factor up to 32768.
proof fn lemma_mean_mul_uniform(factor: int, v: int)
    requires
        1 <= factor <= 32768,
        0 <= v <= 255,
    ensures
        mean_mul(factor, factor * v) == v,
        mean_div(factor, factor * v) == v,
{
    let m = box_multiplier(factor);
    let d = 256 * factor;
    let h = factor / 2;
    lemma_fundamental_div_mod(4294967296, d);
    vstd::arithmetic::div_mod::lemma_mod_pos_bound(4294967296, d);
    assert(0 <= factor * v <= 255 * factor) by (nonlinear_arith)
        requires
            1 <= factor,
            0 <= v <= 255,
    ;
    lemma_mean_mul_fits(factor, factor * v);
    lemma_fundamental_div_mod(factor, 2);
    vstd::arithmetic::div_mod::lemma_mod_pos_bound(factor, 2);
    assert(factor * m >= 16777216 - factor + 1) by (nonlinear_arith)
        requires
            4294967296 == d * m + 4294967296int % d,
            4294967296int % d < d,
            d == 256 * factor,
    ;
    assert(2 * h >= factor - 1 && 2 * h <= factor);
    let total = h + factor * v;
    assert(v * 16777216 <= total * m < (v + 1) * 16777216) by (nonlinear_arith)
        requires
            1 <= factor <= 32768,
            0 <= v <= 255,
            0 <= m,
            factor * m <= 16777216,
            factor * m >= 16777216 - factor + 1,
            2 * h >= factor - 1,
            2 * h <= factor,
            0 <= h,
            total == h + factor * v,
    {
        assert(total * m == h * m + v * (factor * m));
        assert(2 * (h * m) <= factor * m);
        assert(v * (factor * m) <= v * 16777216);
        assert(v * (factor * m) >= v * 16777216 - v * (factor - 1));
        assert(factor * (2 * (h * m)) >= (factor - 1) * (factor * m));
        assert((factor - 1) * (factor * m) >= (factor - 1) * (16777216 - factor + 1));
        assert((factor - 1) * (16777216 - factor + 1) >= (factor - 1) * (510 * factor));
        assert(factor * (2 * (h * m)) >= factor * (510 * (factor - 1)));
        assert(2 * (h * m) >= 510 * (factor - 1));
        assert(h * m >= v * (factor - 1));
    }
    vstd::arithmetic::div_mod::lemma_fundamental_div_mod_converse(
        total * m,
        16777216,
        v,
        total * m - v * 16777216,
    );
    assert(h + factor * v == v * factor + h) by (nonlinear_arith);
    assert(0 <= h < factor);
    vstd::arithmetic::div_mod::lemma_fundamental_div_mod_converse(h + factor * v, factor, v, h);
}

/// Shrinking a tile whose samples all equal `v` by any factor up to 32768
/// gives a tile whose samples all equal `v`.
pub proof fn lemma_shrink_h_uniform_is_preserved(
    input: Seq<u8>,
    bands: int,
    stride: int,
    factor: int,
    out_w: int,
    out_h: int,
    v: u8,
)
    requires
        1 <= factor <= 32768,
        0 <= bands,
        0 <= out_w,
        0 <= out_h,
        stride >= out_w * factor,
        input.len() == stride * bands * out_h,
        forall|i: int| 0 <= i < input.len() ==> #[trigger] input[i] == v,
    ensures
        shrink_h_u8_samples(input, bands, stride, factor, out_w, out_h).len() == out_w * out_h
            * bands,
        forall|i: int|
            0 <= i < out_w * out_h * bands ==> #[trigger] shrink_h_u8_samples(
                input,
                bands,
                stride,
                factor,
                out_w,
                out_h,
            )[i] == v,
{
    assert(0 <= out_w * out_h * bands) by (nonlinear_arith)
        requires
            0 <= out_w,
            0 <= out_h,
            0 <= bands,
    ;
    let out = shrink_h_u8_samples(input, bands, stride, factor, out_w, out_h);
    assert forall|i: int| 0 <= i < out_w * out_h * bands implies #[trigger] out[i] == v by {
        assert(0 < out_w && 0 < bands) by (nonlinear_arith)
            requires
                0 <= i < out_w * out_h * bands,
                0 <= out_w,
                0 <= out_h,
                0 <= bands,
        ;
        lemma_flat_index_split(i, out_w, out_h, bands);
        let x = column_of(i, out_w, bands);
        let y = row_of(i, out_w, bands);
        let b = band_of(i, bands);
        let base = sample_index(stride, bands, x * factor, y, b);
        assert forall|k: int| 0 <= k < factor implies 0 <= #[trigger] (base + k * bands)
            < input.len() by {
            lemma_window_index(factor, bands, stride, out_w, out_h, x, y, b, k);
        }
        lemma_strided_sum_uniform(input, base, factor as nat, bands, v);
        lemma_mean_mul_uniform(factor, v as int);
        assert(factor * v == v * factor) by (nonlinear_arith);
    }
}


/// `x / d` whole windows of `d` pixels fit in `x` pixels.
proof fn lemma_whole_windows_fit(x: int, d: int)
    requires
        0 <= x,
        1 <= d,
    ensures
        0 <= x / d,
        (x / d) * d <= x,
{
    lemma_fundamental_div_mod(x, d);
    vstd::arithmetic::div_mod::lemma_mod_pos_bound(x, d);
    vstd::arithmetic::div_mod::lemma_div_pos_is_pos(x, d);
    assert((x / d) * d <= x) by (nonlinear_arith)
        requires
            x == d * (x / d) + x % d,
            0 <= x % d,
    ;
}

/// On a uniform tile, shrinking by `a` and then by `b` gives what shrinking
/// by `a * b` gives, for combined factors up to 32768.
pub proof fn lemma_shrink_h_uniform_composes(
    input: Seq<u8>,
    bands: int,
    width: int,
    height: int,
    a: int,
    b: int,
    v: u8,
)
    requires
        1 <= a,
        1 <= b,
        a * b <= 32768,
        0 <= bands,
        0 <= width,
        0 <= height,
        input.len() == width * bands * height,
        forall|i: int| 0 <= i < input.len() ==> #[trigger] input[i] == v,
    ensures
        shrink_h_u8_samples(
            shrink_h_u8_samples(input, bands, width, a, width / a, height),
            bands,
            width / a,
            b,
            width / a / b,
            height,
        ) == shrink_h_u8_samples(input, bands, width, a * b, width / (a * b), height),
{
    let w1 = width / a;
    let w2 = width / (a * b);
    vstd::arithmetic::div_mod::lemma_div_denominator(width, a, b);
    lemma_whole_windows_fit(width, a);
    lemma_whole_windows_fit(w1, b);
    lemma_whole_windows_fit(width, a * b);
    assert(a <= a * b && b <= a * b) by (nonlinear_arith)
        requires
            1 <= a,
            1 <= b,
    ;
    let mid = shrink_h_u8_samples(input, bands, width, a, w1, height);
    lemma_shrink_h_uniform_is_preserved(input, bands, width, a, w1, height, v);
    assert(mid.len() == w1 * bands * height) by (nonlinear_arith)
        requires
            mid.len() == w1 * height * bands,
    ;
    lemma_shrink_h_uniform_is_preserved(mid, bands, w1, b, w2, height, v);
    lemma_shrink_h_uniform_is_preserved(input, bands, width, a * b, w2, height, v);
    let twice = shrink_h_u8_samples(mid, bands, w1, b, w2, height);
    let once = shrink_h_u8_samples(input, bands, width, a * b, w2, height);
    assert(twice =~= once);
}

} // verus!
