//! The 8-bit fixed-point reduce convolution (libvips `reduceh` / `reducev`)
//! on a precomputed plan: every output column (horizontal) or row (vertical)
//! has a first source position and a coefficient phase; phase `p` selects a
//! table of `i16` taps with 12 fraction bits. Source positions outside the
//! input tile are clamped to its edge, and the sum of the taps is rounded half
//! up by a 12-bit shift and clamped to `0..=255`.
use vstd::prelude::*;

use crate::layout::{
    band_of, column_of, lemma_sample_index_split, lemma_sample_index_step, lemma_sample_offsets,
    lemma_flat_index_split, overwrite_prefix, row_of, sample_index,
};
use crate::region::Region;

verus! {

/// The index inside an axis `len` long, starting at `origin`, that source
/// position `pos` reads: `pos - origin`, clamped to `0..len`.
pub open spec fn clamp_axis_index(pos: int, origin: int, len: int) -> int {
    if pos - origin < 0 {
        0
    } else if pos - origin >= len {
        len - 1
    } else {
        pos - origin
    }
}

/// A fixed-point sum with 12 fraction bits, rounded half up and clamped to
/// an 8-bit sample: `clamp((acc + 2048) >> 12, 0, 255)`.
pub open spec fn fixed_to_u8(acc: int) -> u8 {
    let r = (acc + 2048) / 4096;
    if r < 0 {
        0
    } else if r > 255 {
        255
    } else {
        r as u8
    }
}

/// The first `k` taps of a horizontal window: `weights[t]` times band `b` of
/// the input pixel at clamped position `start + t` of row `y`.
pub open spec fn h_tap_sum(
    input: Seq<u8>,
    bands: int,
    origin: int,
    in_w: int,
    weights: Seq<i16>,
    start: int,
    y: int,
    b: int,
    k: nat,
) -> int
    decreases k,
{
    if k == 0 {
        0
    } else {
        h_tap_sum(input, bands, origin, in_w, weights, start, y, b, (k - 1) as nat) + weights[k
            - 1] * input[sample_index(
            in_w,
            bands,
            clamp_axis_index(start + k - 1, origin, in_w),
            y,
            b,
        )]
    }
}

/// The first `k` taps of a vertical window: `weights[t]` times sample `x` of
/// the input row at clamped position `start + t`, rows `row_stride` samples
/// apart.
pub open spec fn v_tap_sum(
    input: Seq<u8>,
    row_stride: int,
    origin: int,
    in_h: int,
    weights: Seq<i16>,
    start: int,
    x: int,
    k: nat,
) -> int
    decreases k,
{
    if k == 0 {
        0
    } else {
        v_tap_sum(input, row_stride, origin, in_h, weights, start, x, (k - 1) as nat) + weights[k
            - 1] * input[clamp_axis_index(start + k - 1, origin, in_h) * row_stride + x]
    }
}

/// The horizontal reduce of an `out_w × out_h` tile: output pixel `(x, y)`,
/// band `b`, is the rounded sum of the taps of phase `phases[x]` starting at
/// source column `starts[x]`, over row `y` of the input tile.
pub open spec fn reduce_h_u8_samples(
    input: Seq<u8>,
    bands: int,
    input_region: Region,
    coeffs: Seq<Vec<i16>>,
    starts: Seq<i64>,
    phases: Seq<u8>,
    out_w: int,
    out_h: int,
) -> Seq<u8> {
    Seq::new(
        (out_w * out_h * bands) as nat,
        |i: int|
            {
                let x = column_of(i, out_w, bands);
                let weights = coeffs[phases[x] as int]@;
                fixed_to_u8(
                    h_tap_sum(
                        input,
                        bands,
                        input_region.x as int,
                        input_region.width as int,
                        weights,
                        starts[x] as int,
                        row_of(i, out_w, bands),
                        band_of(i, bands),
                        weights.len(),
                    ),
                )
            },
    )
}

/// The vertical reduce of an `out_w × out_h` tile: sample `x` of output row
/// `y` is the rounded sum of the taps of phase `phases[y]` starting at source
/// row `starts[y]`, over sample `x` of the input rows.
pub open spec fn reduce_v_u8_samples(
    input: Seq<u8>,
    bands: int,
    input_region: Region,
    coeffs: Seq<Vec<i16>>,
    starts: Seq<i64>,
    phases: Seq<u8>,
    out_w: int,
    out_h: int,
) -> Seq<u8> {
    Seq::new(
        (out_w * out_h * bands) as nat,
        |i: int|
            {
                let y = i / (out_w * bands);
                let weights = coeffs[phases[y] as int]@;
                fixed_to_u8(
                    v_tap_sum(
                        input,
                        input_region.width * bands,
                        input_region.y as int,
                        input_region.height as int,
                        weights,
                        starts[y] as int,
                        i % (out_w * bands),
                        weights.len(),
                    ),
                )
            },
    )
}

/// The plan covers `count` outputs: a start and a phase for each, and a
/// table for each phase.
pub open spec fn plan_covers(
    coeffs: Seq<Vec<i16>>,
    starts: Seq<i64>,
    phases: Seq<u8>,
    count: int,
) -> bool {
    &&& starts.len() >= count
    &&& phases.len() >= count
    &&& forall|i: int| 0 <= i < count ==> (#[trigger] phases[i] as int) < coeffs.len()
}

/// Bound on `k` taps of `i16` weights on 8-bit samples.
proof fn lemma_h_tap_sum_bound(
    input: Seq<u8>,
    bands: int,
    origin: int,
    in_w: int,
    weights: Seq<i16>,
    start: int,
    y: int,
    b: int,
    k: nat,
)
    ensures
        -8355840 * k <= h_tap_sum(input, bands, origin, in_w, weights, start, y, b, k) <= 8355840
            * k,
    decreases k,
{
    if k > 0 {
        lemma_h_tap_sum_bound(input, bands, origin, in_w, weights, start, y, b, (k - 1) as nat);
        let w = weights[k - 1] as int;
        let s = input[sample_index(in_w, bands, clamp_axis_index(start + k - 1, origin, in_w), y, b)]
            as int;
        assert(-8355840 <= w * s <= 8355840) by (nonlinear_arith)
            requires
                -32768 <= w <= 32767,
                0 <= s <= 255,
        ;
    }
}

/// Bound on `k` taps of `i16` weights on 8-bit samples.
proof fn lemma_v_tap_sum_bound(
    input: Seq<u8>,
    row_stride: int,
    origin: int,
    in_h: int,
    weights: Seq<i16>,
    start: int,
    x: int,
    k: nat,
)
    ensures
        -8355840 * k <= v_tap_sum(input, row_stride, origin, in_h, weights, start, x, k) <= 8355840
            * k,
    decreases k,
{
    if k > 0 {
        lemma_v_tap_sum_bound(input, row_stride, origin, in_h, weights, start, x, (k - 1) as nat);
        let w = weights[k - 1] as int;
        let s = input[clamp_axis_index(start + k - 1, origin, in_h) * row_stride + x] as int;
        assert(-8355840 <= w * s <= 8355840) by (nonlinear_arith)
            requires
                -32768 <= w <= 32767,
                0 <= s <= 255,
        ;
    }
}

/// The index that source position `pos` reads on an axis `len` long starting
/// at `origin`: `pos - origin`, clamped to `0..len`.
pub fn clamp_axis(pos: i128, origin: i32, len: usize) -> (r: usize)
    requires
        len >= 1,
        -0x1_0000_0000_0000_0000_0000 <= pos <= 0x1_0000_0000_0000_0000_0000,
    ensures
        r == clamp_axis_index(pos as int, origin as int, len as int),
        r < len,
{
    let rel = pos - origin as i128;
    if rel < 0 {
        0
    } else if rel >= len as i128 {
        len - 1
    } else {
        rel as usize
    }
}

/// Rounds a fixed-point sum with 12 fraction bits half up and clamps it to
/// an 8-bit sample.
pub fn round_fixed_u8(acc: i128) -> (r: u8)
    requires
        -0x1_0000_0000_0000_0000_0000_0000 <= acc <= 0x1_0000_0000_0000_0000_0000_0000,
    ensures
        r == fixed_to_u8(acc as int),
{
    let t = acc + 2048;
    if t < 0 {
        assert((t as int) / 4096 < 0);
        return 0;
    }
    let q = t / 4096;
    if q > 255 {
        255
    } else {
        q as u8
    }
}

/// The portable horizontal kernel on a plan; see [`reduce_h_u8_samples`].
pub fn reduce_h_u8_scalar_planned(
    coeffs: &Vec<Vec<i16>>,
    input_region: &Region,
    input: &[u8],
    bands: u32,
    output_region: &Region,
    output: &mut [u8],
    starts: &[i64],
    phases: &[u8],
)
    requires
        plan_covers(coeffs@, starts@, phases@, output_region.width as int),
        input_region.width >= 1,
        input@.len() >= input_region.width * output_region.height * bands,
        old(output)@.len() >= output_region.width * output_region.height * bands,
    ensures
        final(output)@ == overwrite_prefix(
            old(output)@,
            reduce_h_u8_samples(
                input@,
                bands as int,
                *input_region,
                coeffs@,
                starts@,
                phases@,
                output_region.width as int,
                output_region.height as int,
            ),
        ),
{
    let ghost nb = bands as int;
    let ghost w = output_region.width as int;
    let ghost h = output_region.height as int;
    let ghost iw = input_region.width as int;
    let ghost old_out = output@;
    let ghost expected = reduce_h_u8_samples(
        input@,
        nb,
        *input_region,
        coeffs@,
        starts@,
        phases@,
        w,
        h,
    );
    proof {
        vstd::slice::axiom_spec_len(input);
        vstd::slice::axiom_spec_len(output);
        assert(sample_index(w, nb, 0, 0, 0) == 0) by (nonlinear_arith);
    }
    let out_w = output_region.width as usize;
    let out_h = output_region.height as usize;
    let in_w = input_region.width as usize;
    let bands = bands as usize;
    let mut y: usize = 0;
    while y < out_h
        invariant
            y <= out_h,
            nb == bands,
            w == out_w,
            h == out_h,
            iw == in_w,
            in_w >= 1,
            in_w == input_region.width,
            out_w == output_region.width,
            plan_covers(coeffs@, starts@, phases@, w),
            input@.len() >= iw * h * nb,
            w * h * nb <= old_out.len(),
            old_out.len() <= usize::MAX,
            input@.len() <= usize::MAX,
            output@.len() == old_out.len(),
            expected == reduce_h_u8_samples(
                input@,
                nb,
                *input_region,
                coeffs@,
                starts@,
                phases@,
                w,
                h,
            ),
            forall|i: int|
                0 <= i < sample_index(w, nb, 0, y as int, 0) ==> #[trigger] output@[i]
                    == expected[i],
            forall|i: int|
                sample_index(w, nb, 0, y as int, 0) <= i < old_out.len() ==> #[trigger] output@[i]
                    == old_out[i],
        decreases out_h - y,
    {
        let mut x: usize = 0;
        while x < out_w
            invariant
                y < out_h,
                x <= out_w,
                nb == bands,
                w == out_w,
                h == out_h,
                iw == in_w,
                in_w >= 1,
                in_w == input_region.width,
                plan_covers(coeffs@, starts@, phases@, w),
                input@.len() >= iw * h * nb,
                w * h * nb <= old_out.len(),
                old_out.len() <= usize::MAX,
                input@.len() <= usize::MAX,
                output@.len() == old_out.len(),
                expected == reduce_h_u8_samples(
                    input@,
                    nb,
                    *input_region,
                    coeffs@,
                    starts@,
                    phases@,
                    w,
                    h,
                ),
                forall|i: int|
                    0 <= i < sample_index(w, nb, x as int, y as int, 0) ==> #[trigger] output@[i]
                        == expected[i],
                forall|i: int|
                    sample_index(w, nb, x as int, y as int, 0) <= i < old_out.len()
                        ==> #[trigger] output@[i] == old_out[i],
            decreases out_w - x,
        {
            let start_x = starts[x];
            let phase = phases[x] as usize;
            assert((phases@[x as int] as int) < coeffs@.len());
            let weights = &coeffs[phase];
            let ghost ws = weights@;
            let mut band: usize = 0;
            while band < bands
                invariant
                    y < out_h,
                    x < out_w,
                    band <= bands,
                    nb == bands,
                    w == out_w,
                    h == out_h,
                    iw == in_w,
                    in_w >= 1,
                    in_w == input_region.width,
                    start_x == starts@[x as int],
                    phase == phases@[x as int],
                    phase < coeffs@.len(),
                    ws == coeffs@[phase as int]@,
                    ws == weights@,
                    input@.len() >= iw * h * nb,
                    w * h * nb <= old_out.len(),
                    old_out.len() <= usize::MAX,
                    input@.len() <= usize::MAX,
                    output@.len() == old_out.len(),
                    expected == reduce_h_u8_samples(
                        input@,
                        nb,
                        *input_region,
                        coeffs@,
                        starts@,
                        phases@,
                        w,
                        h,
                    ),
                    forall|i: int|
                        0 <= i < sample_index(w, nb, x as int, y as int, band as int)
                            ==> #[trigger] output@[i] == expected[i],
                    forall|i: int|
                        sample_index(w, nb, x as int, y as int, band as int) <= i < old_out.len()
                            ==> #[trigger] output@[i] == old_out[i],
                decreases bands - band,
            {
                let mut acc: i128 = 0;
                let mut tap: usize = 0;
                while tap < weights.len()
                    invariant
                        y < out_h,
                        band < bands,
                        nb == bands,
                        h == out_h,
                        iw == in_w,
                        in_w >= 1,
                        in_w == input_region.width,
                        tap <= ws.len(),
                        ws == weights@,
                        input@.len() >= iw * h * nb,
                        input@.len() <= usize::MAX,
                        acc == h_tap_sum(
                            input@,
                            nb,
                            input_region.x as int,
                            iw,
                            ws,
                            start_x as int,
                            y as int,
                            band as int,
                            tap as nat,
                        ),
                    decreases ws.len() - tap,
                {
                    let tile_x = clamp_axis(start_x as i128 + tap as i128, input_region.x, in_w);
                    proof {
                        lemma_sample_offsets(iw, h, nb, tile_x as int, y as int, band as int);
                        lemma_h_tap_sum_bound(
                            input@,
                            nb,
                            input_region.x as int,
                            iw,
                            ws,
                            start_x as int,
                            y as int,
                            band as int,
                            tap as nat,
                        );
                        assert(y * iw + tile_x <= (y * iw + tile_x) * nb) by (nonlinear_arith)
                            requires
                                0 <= y * iw + tile_x,
                                1 <= nb,
                        ;
                        assert(8355840 * tap <= 8355840 * 0x1_0000_0000_0000_0000) by (
                        nonlinear_arith)
                            requires
                                tap <= 0x1_0000_0000_0000_0000,
                        ;
                    }
                    let idx = (y * in_w + tile_x) * bands + band;
                    let weight = weights[tap];
                    let sample = input[idx];
                    proof {
                        assert(-8355840 <= (weight as int) * (sample as int) <= 8355840)
                            by (nonlinear_arith)
                            requires
                                -32768 <= weight <= 32767,
                                0 <= sample <= 255,
                        ;
                    }
                    acc = acc + (weight as i128) * (sample as i128);
                    tap += 1;
                }
                proof {
                    lemma_h_tap_sum_bound(
                        input@,
                        nb,
                        input_region.x as int,
                        iw,
                        ws,
                        start_x as int,
                        y as int,
                        band as int,
                        ws.len(),
                    );
                    assert(8355840 * ws.len() <= 8355840 * 0x1_0000_0000_0000_0000) by (
                    nonlinear_arith)
                        requires
                            ws.len() <= 0x1_0000_0000_0000_0000,
                    ;
                    lemma_sample_offsets(w, h, nb, x as int, y as int, band as int);
                    lemma_sample_index_split(w, nb, x as int, y as int, band as int);
                    assert(y * w + x <= (y * w + x) * nb) by (nonlinear_arith)
                        requires
                            0 <= y * w + x,
                            1 <= nb,
                    ;
                }
                let out_idx = (y * out_w + x) * bands + band;
                output[out_idx] = round_fixed_u8(acc);
                band += 1;
            }
            proof {
                lemma_sample_index_step(w, nb, x as int, y as int);
            }
            x += 1;
        }
        proof {
            lemma_sample_index_step(w, nb, w, y as int);
        }
        y += 1;
    }
    proof {
        if h > 0 {
            lemma_sample_index_step(w, nb, 0, h);
        } else {
            assert(w * h * nb == 0) by (nonlinear_arith)
                requires
                    h == 0,
            ;
        }
        assert(output@ =~= overwrite_prefix(old_out, expected));
    }
}


/// The portable vertical kernel on a plan; see [`reduce_v_u8_samples`].
pub fn reduce_v_u8_scalar_planned(
    coeffs: &Vec<Vec<i16>>,
    input_region: &Region,
    input: &[u8],
    bands: u32,
    output_region: &Region,
    starts: &[i64],
    phases: &[u8],
    output: &mut [u8],
)
    requires
        plan_covers(coeffs@, starts@, phases@, output_region.height as int),
        input_region.height >= 1,
        input_region.width * bands <= usize::MAX,
        output_region.width * bands <= usize::MAX,
        (input_region.height - 1) * (input_region.width * bands) + output_region.width * bands
            <= input@.len(),
        old(output)@.len() >= output_region.width * output_region.height * bands,
    ensures
        final(output)@ == overwrite_prefix(
            old(output)@,
            reduce_v_u8_samples(
                input@,
                bands as int,
                *input_region,
                coeffs@,
                starts@,
                phases@,
                output_region.width as int,
                output_region.height as int,
            ),
        ),
{
    let ghost h = output_region.height as int;
    let ghost ih = input_region.height as int;
    let ghost old_out = output@;
    let ghost expected = reduce_v_u8_samples(
        input@,
        bands as int,
        *input_region,
        coeffs@,
        starts@,
        phases@,
        output_region.width as int,
        h,
    );
    let out_h = output_region.height as usize;
    let in_h = input_region.height as usize;
    let row_stride = input_region.width as usize * bands as usize;
    let row_len = output_region.width as usize * bands as usize;
    let ghost rl = row_len as int;
    let ghost rs = row_stride as int;
    proof {
        vstd::slice::axiom_spec_len(input);
        vstd::slice::axiom_spec_len(output);
        assert(output_region.width * output_region.height * bands == h * rl) by (nonlinear_arith)
            requires
                rl == output_region.width * bands,
                h == output_region.height,
        ;
        assert(expected.len() == h * rl);
    }
    let mut base: usize = 0;
    let mut y: usize = 0;
    while y < out_h
        invariant
            y <= out_h,
            h == out_h,
            ih == in_h,
            in_h >= 1,
            in_h == input_region.height,
            rl == row_len,
            rs == row_stride,
            rl == output_region.width * bands,
            rs == input_region.width * bands,
            base == y * rl,
            plan_covers(coeffs@, starts@, phases@, h),
            (ih - 1) * rs + rl <= input@.len(),
            h * rl <= old_out.len(),
            old_out.len() <= usize::MAX,
            input@.len() <= usize::MAX,
            output@.len() == old_out.len(),
            expected.len() == h * rl,
            expected == reduce_v_u8_samples(
                input@,
                bands as int,
                *input_region,
                coeffs@,
                starts@,
                phases@,
                output_region.width as int,
                h,
            ),
            forall|i: int| 0 <= i < y * rl ==> #[trigger] output@[i] == expected[i],
            forall|i: int| y * rl <= i < old_out.len() ==> #[trigger] output@[i] == old_out[i],
        decreases out_h - y,
    {
        proof {
            assert(y * rl + rl <= h * rl && 0 <= y * rl) by (nonlinear_arith)
                requires
                    0 <= y < h,
                    0 <= rl,
            ;
        }
        let start_y = starts[y];
        let phase = phases[y] as usize;
        assert((phases@[y as int] as int) < coeffs@.len());
        let weights = &coeffs[phase];
        let ghost ws = weights@;
        let mut x: usize = 0;
        while x < row_len
            invariant
                y < out_h,
                x <= row_len,
                h == out_h,
                ih == in_h,
                in_h >= 1,
                in_h == input_region.height,
                rl == row_len,
                rs == row_stride,
                rl == output_region.width * bands,
                rs == input_region.width * bands,
                base == y * rl,
                y * rl + rl <= h * rl,
                0 <= y * rl,
                start_y == starts@[y as int],
                phase == phases@[y as int],
                phase < coeffs@.len(),
                ws == coeffs@[phase as int]@,
                ws == weights@,
                (ih - 1) * rs + rl <= input@.len(),
                h * rl <= old_out.len(),
                old_out.len() <= usize::MAX,
                input@.len() <= usize::MAX,
                output@.len() == old_out.len(),
                expected.len() == h * rl,
                expected == reduce_v_u8_samples(
                    input@,
                    bands as int,
                    *input_region,
                    coeffs@,
                    starts@,
                    phases@,
                    output_region.width as int,
                    h,
                ),
                forall|i: int| 0 <= i < y * rl + x ==> #[trigger] output@[i] == expected[i],
                forall|i: int|
                    y * rl + x <= i < old_out.len() ==> #[trigger] output@[i] == old_out[i],
            decreases row_len - x,
        {
            let mut acc: i128 = 0;
            let mut tap: usize = 0;
            while tap < weights.len()
                invariant
                    x < row_len,
                    ih == in_h,
                    in_h >= 1,
                    in_h == input_region.height,
                    rl == row_len,
                    rs == row_stride,
                    tap <= ws.len(),
                    ws == weights@,
                    (ih - 1) * rs + rl <= input@.len(),
                    input@.len() <= usize::MAX,
                    acc == v_tap_sum(
                        input@,
                        rs,
                        input_region.y as int,
                        ih,
                        ws,
                        start_y as int,
                        x as int,
                        tap as nat,
                    ),
                decreases ws.len() - tap,
            {
                let tile_y = clamp_axis(start_y as i128 + tap as i128, input_region.y, in_h);
                proof {
                    lemma_v_tap_sum_bound(
                        input@,
                        rs,
                        input_region.y as int,
                        ih,
                        ws,
                        start_y as int,
                        x as int,
                        tap as nat,
                    );
                    assert(8355840 * tap <= 8355840 * 0x1_0000_0000_0000_0000) by (nonlinear_arith)
                        requires
                            tap <= 0x1_0000_0000_0000_0000,
                    ;
                    assert(0 <= tile_y * rs <= (ih - 1) * rs) by (nonlinear_arith)
                        requires
                            0 <= tile_y <= ih - 1,
                            0 <= rs,
                    ;
                }
                let weight = weights[tap];
                let sample = input[tile_y * row_stride + x];
                proof {
                    assert(-8355840 <= (weight as int) * (sample as int) <= 8355840)
                        by (nonlinear_arith)
                        requires
                            -32768 <= weight <= 32767,
                            0 <= sample <= 255,
                    ;
                }
                acc = acc + (weight as i128) * (sample as i128);
                tap += 1;
            }
            proof {
                lemma_v_tap_sum_bound(
                    input@,
                    rs,
                    input_region.y as int,
                    ih,
                    ws,
                    start_y as int,
                    x as int,
                    ws.len(),
                );
                assert(8355840 * ws.len() <= 8355840 * 0x1_0000_0000_0000_0000) by (nonlinear_arith)
                    requires
                        ws.len() <= 0x1_0000_0000_0000_0000,
                ;
                let i = y * rl + x;
                vstd::arithmetic::div_mod::lemma_fundamental_div_mod_converse(i, rl, y as int, x as int);
            }
            output[base + x] = round_fixed_u8(acc);
            x += 1;
        }
        base = base + row_len;
        y += 1;
        proof {
            assert(y * rl == (y - 1) * rl + rl) by (nonlinear_arith);
        }
    }
    proof {
        assert(output@ =~= overwrite_prefix(old_out, expected));
    }
}

/// The horizontal reduce of an 8-bit tile on a plan; see
/// [`reduce_h_u8_samples`].
pub fn reduce_h_u8_planned(
    coeffs: &Vec<Vec<i16>>,
    input_region: &Region,
    input: &[u8],
    bands: u32,
    output_region: &Region,
    output: &mut [u8],
    starts: &[i64],
    phases: &[u8],
)
    requires
        plan_covers(coeffs@, starts@, phases@, output_region.width as int),
        input_region.width >= 1,
        input@.len() >= input_region.width * output_region.height * bands,
        old(output)@.len() >= output_region.width * output_region.height * bands,
    ensures
        final(output)@ == overwrite_prefix(
            old(output)@,
            reduce_h_u8_samples(
                input@,
                bands as int,
                *input_region,
                coeffs@,
                starts@,
                phases@,
                output_region.width as int,
                output_region.height as int,
            ),
        ),
{
    reduce_h_u8_scalar_planned(
        coeffs,
        input_region,
        input,
        bands,
        output_region,
        output,
        starts,
        phases,
    );
}

/// The vertical reduce of an 8-bit tile on a plan; see
/// [`reduce_v_u8_samples`].
pub fn reduce_v_u8(
    coeffs: &Vec<Vec<i16>>,
    input_region: &Region,
    input: &[u8],
    bands: u32,
    output_region: &Region,
    starts: &[i64],
    phases: &[u8],
    output: &mut [u8],
)
    requires
        plan_covers(coeffs@, starts@, phases@, output_region.height as int),
        input_region.height >= 1,
        input_region.width * bands <= usize::MAX,
        output_region.width * bands <= usize::MAX,
        (input_region.height - 1) * (input_region.width * bands) + output_region.width * bands
            <= input@.len(),
        old(output)@.len() >= output_region.width * output_region.height * bands,
    ensures
        final(output)@ == overwrite_prefix(
            old(output)@,
            reduce_v_u8_samples(
                input@,
                bands as int,
                *input_region,
                coeffs@,
                starts@,
                phases@,
                output_region.width as int,
                output_region.height as int,
            ),
        ),
{
    reduce_v_u8_scalar_planned(
        coeffs,
        input_region,
        input,
        bands,
        output_region,
        starts,
        phases,
        output,
    );
}


/// Sum of the first `k` weights of a table.
pub open spec fn weight_sum(weights: Seq<i16>, k: nat) -> int
    decreases k,
{
    if k == 0 {
        0
    } else {
        weight_sum(weights, (k - 1) as nat) + weights[k - 1]
    }
}

/// Every table of the plan sums to one in 12-bit fixed point.
pub open spec fn tables_normalized(coeffs: Seq<Vec<i16>>) -> bool {
    forall|p: int| 0 <= p < coeffs.len() ==> weight_sum(#[trigger] coeffs[p]@, coeffs[p]@.len())
        == 4096
}

/// A fixed-point one times `v` rounds back to `v`.
proof fn lemma_fixed_one(v: u8)
    ensures
        fixed_to_u8(4096 * v) == v,
{
    vstd::arithmetic::div_mod::lemma_fundamental_div_mod_converse(
        4096 * v + 2048,
        4096,
        v as int,
        2048,
    );
}

/// Over a uniform row the taps sum to the sample times the weights' sum.
proof fn lemma_h_tap_sum_uniform(
    input: Seq<u8>,
    bands: int,
    origin: int,
    in_w: int,
    in_h: int,
    weights: Seq<i16>,
    start: int,
    y: int,
    b: int,
    k: nat,
    v: u8,
)
    requires
        in_w >= 1,
        0 <= y < in_h,
        0 <= b < bands,
        input.len() >= in_w * in_h * bands,
        forall|i: int| 0 <= i < input.len() ==> #[trigger] input[i] == v,
    ensures
        h_tap_sum(input, bands, origin, in_w, weights, start, y, b, k) == v * weight_sum(
            weights,
            k,
        ),
    decreases k,
{
    if k > 0 {
        lemma_h_tap_sum_uniform(input, bands, origin, in_w, in_h, weights, start, y, b, (k - 1) as nat, v);
        let c = clamp_axis_index(start + k - 1, origin, in_w);
        lemma_sample_offsets(in_w, in_h, bands, c, y, b);
        let idx = sample_index(in_w, bands, c, y, b);
        assert(input[idx] == v);
        let w = weights[k - 1] as int;
        let s = weight_sum(weights, (k - 1) as nat);
        assert(v * s + w * v == v * (s + w)) by (nonlinear_arith);
    }
}

/// Over a uniform tile the column taps sum to the sample times the weights'
/// sum.
proof fn lemma_v_tap_sum_uniform(
    input: Seq<u8>,
    row_stride: int,
    origin: int,
    in_h: int,
    row_len: int,
    weights: Seq<i16>,
    start: int,
    x: int,
    k: nat,
    v: u8,
)
    requires
        in_h >= 1,
        0 <= x < row_len,
        0 <= row_stride,
        (in_h - 1) * row_stride + row_len <= input.len(),
        forall|i: int| 0 <= i < input.len() ==> #[trigger] input[i] == v,
    ensures
        v_tap_sum(input, row_stride, origin, in_h, weights, start, x, k) == v * weight_sum(
            weights,
            k,
        ),
    decreases k,
{
    if k > 0 {
        lemma_v_tap_sum_uniform(
            input,
            row_stride,
            origin,
            in_h,
            row_len,
            weights,
            start,
            x,
            (k - 1) as nat,
            v,
        );
        let c = clamp_axis_index(start + k - 1, origin, in_h);
        assert(0 <= c * row_stride <= (in_h - 1) * row_stride) by (nonlinear_arith)
            requires
                0 <= c <= in_h - 1,
                0 <= row_stride,
        ;
        assert(input[c * row_stride + x] == v);
        let w = weights[k - 1] as int;
        let s = weight_sum(weights, (k - 1) as nat);
        assert(v * s + w * v == v * (s + w)) by (nonlinear_arith);
    }
}

/// A horizontal reduce whose tables all sum to one keeps a uniform tile
/// uniform, whatever the plan's positions.
pub proof fn lemma_reduce_h_uniform_is_preserved(
    input: Seq<u8>,
    bands: int,
    input_region: Region,
    coeffs: Seq<Vec<i16>>,
    starts: Seq<i64>,
    phases: Seq<u8>,
    out_w: int,
    out_h: int,
    v: u8,
)
    requires
        0 <= out_w,
        0 <= out_h,
        0 <= bands,
        plan_covers(coeffs, starts, phases, out_w),
        tables_normalized(coeffs),
        input_region.width >= 1,
        input.len() >= input_region.width * out_h * bands,
        forall|i: int| 0 <= i < input.len() ==> #[trigger] input[i] == v,
    ensures
        forall|i: int|
            0 <= i < out_w * out_h * bands ==> #[trigger] reduce_h_u8_samples(
                input,
                bands,
                input_region,
                coeffs,
                starts,
                phases,
                out_w,
                out_h,
            )[i] == v,
{
    let out = reduce_h_u8_samples(input, bands, input_region, coeffs, starts, phases, out_w, out_h);
    assert forall|i: int| 0 <= i < out_w * out_h * bands implies #[trigger] out[i] == v by {
        assert(0 < out_w && 0 < bands) by (nonlinear_arith)
            requires
                0 <= i < out_w * out_h * bands,
                0 <= out_w,
                0 <= out_h,
                0 <= bands,
        ;
        lemma_flat_index_split(i, out_w, out_h, bands);
        let x = column_of(i, out_w, bands);
        let p = phases[x] as int;
        assert(p < coeffs.len());
        let ws = coeffs[p]@;
        lemma_h_tap_sum_uniform(
            input,
            bands,
            input_region.x as int,
            input_region.width as int,
            out_h,
            ws,
            starts[x] as int,
            row_of(i, out_w, bands),
            band_of(i, bands),
            ws.len(),
            v,
        );
        assert(weight_sum(ws, ws.len()) == 4096);
        assert(v * 4096 == 4096 * v);
        lemma_fixed_one(v);
    }
}

/// A vertical reduce whose tables all sum to one keeps a uniform tile
/// uniform, whatever the plan's positions.
pub proof fn lemma_reduce_v_uniform_is_preserved(
    input: Seq<u8>,
    bands: int,
    input_region: Region,
    coeffs: Seq<Vec<i16>>,
    starts: Seq<i64>,
    phases: Seq<u8>,
    out_w: int,
    out_h: int,
    v: u8,
)
    requires
        0 <= out_w,
        0 <= out_h,
        0 <= bands,
        plan_covers(coeffs, starts, phases, out_h),
        tables_normalized(coeffs),
        input_region.height >= 1,
        (input_region.height - 1) * (input_region.width * bands) + out_w * bands <= input.len(),
        forall|i: int| 0 <= i < input.len() ==> #[trigger] input[i] == v,
    ensures
        forall|i: int|
            0 <= i < out_w * out_h * bands ==> #[trigger] reduce_v_u8_samples(
                input,
                bands,
                input_region,
                coeffs,
                starts,
                phases,
                out_w,
                out_h,
            )[i] == v,
{
    let out = reduce_v_u8_samples(input, bands, input_region, coeffs, starts, phases, out_w, out_h);
    let rl = out_w * bands;
    assert forall|i: int| 0 <= i < out_w * out_h * bands implies #[trigger] out[i] == v by {
        assert(out_w * out_h * bands == out_h * rl) by (nonlinear_arith)
            requires
                rl == out_w * bands,
        ;
        assert(0 < rl) by (nonlinear_arith)
            requires
                0 <= i < out_h * rl,
                0 <= out_h,
        ;
        vstd::arithmetic::div_mod::lemma_fundamental_div_mod(i, rl);
        vstd::arithmetic::div_mod::lemma_mod_pos_bound(i, rl);
        vstd::arithmetic::div_mod::lemma_div_pos_is_pos(i, rl);
        let y = i / rl;
        assert(y < out_h) by (nonlinear_arith)
            requires
                i == rl * y + i % rl,
                0 <= i % rl,
                i < out_h * rl,
                rl > 0,
        ;
        let p = phases[y] as int;
        assert(p < coeffs.len());
        let ws = coeffs[p]@;
        lemma_v_tap_sum_uniform(
            input,
            input_region.width * bands,
            input_region.y as int,
            input_region.height as int,
            rl,
            ws,
            starts[y] as int,
            i % rl,
            ws.len(),
            v,
        );
        assert(weight_sum(ws, ws.len()) == 4096);
        assert(v * 4096 == 4096 * v);
        lemma_fixed_one(v);
    }
}


/// Table `weights` is the unit at tap `t`: 4096 (one in 12-bit fixed point)
/// there and zero at every other tap.
pub open spec fn unit_at_tap(weights: Seq<i16>, t: int) -> bool {
    &&& 0 <= t < weights.len()
    &&& weights[t] == 4096
    &&& forall|j: int| 0 <= j < weights.len() && j != t ==> #[trigger] weights[j] == 0
}

/// The first `k` taps of a table that is the unit at tap `t` add up to the
/// sample under tap `t` (once `k` passes `t`).
proof fn lemma_h_tap_sum_unit(
    input: Seq<u8>,
    bands: int,
    origin: int,
    in_w: int,
    weights: Seq<i16>,
    start: int,
    y: int,
    b: int,
    t: int,
    k: nat,
)
    requires
        unit_at_tap(weights, t),
        k <= weights.len(),
    ensures
        h_tap_sum(input, bands, origin, in_w, weights, start, y, b, k) == if t < k {
            4096 * input[sample_index(in_w, bands, clamp_axis_index(start + t, origin, in_w), y, b)]
        } else {
            0
        },
    decreases k,
{
    if k > 0 {
        lemma_h_tap_sum_unit(input, bands, origin, in_w, weights, start, y, b, t, (k - 1) as nat);
        if k - 1 != t {
            assert(weights[k - 1] == 0);
        }
    }
}

/// The first `k` taps of a table that is the unit at tap `t` add up to the
/// sample under tap `t` (once `k` passes `t`).
proof fn lemma_v_tap_sum_unit(
    input: Seq<u8>,
    row_stride: int,
    origin: int,
    in_h: int,
    weights: Seq<i16>,
    start: int,
    x: int,
    t: int,
    k: nat,
)
    requires
        unit_at_tap(weights, t),
        k <= weights.len(),
    ensures
        v_tap_sum(input, row_stride, origin, in_h, weights, start, x, k) == if t < k {
            4096 * input[clamp_axis_index(start + t, origin, in_h) * row_stride + x]
        } else {
            0
        },
    decreases k,
{
    if k > 0 {
        lemma_v_tap_sum_unit(input, row_stride, origin, in_h, weights, start, x, t, (k - 1) as nat);
        if k - 1 != t {
            assert(weights[k - 1] == 0);
        }
    }
}

/// Tap `t` of a horizontal window reads source column `starts[x] + t`: where
/// the table of output column `x` is the unit at tap `t`, output sample
/// `(x, y)`, band `b`, is band `b` of input pixel `(c, y)`, with `c` that
/// column's offset from the tile's left edge clamped into the tile.
pub proof fn lemma_reduce_h_unit_tap_reads_start_plus_tap(
    input: Seq<u8>,
    bands: int,
    input_region: Region,
    coeffs: Seq<Vec<i16>>,
    starts: Seq<i64>,
    phases: Seq<u8>,
    out_w: int,
    out_h: int,
    i: int,
    t: int,
)
    requires
        0 <= i < out_w * out_h * bands,
        0 <= phases[(i / bands) % out_w] < coeffs.len(),
        unit_at_tap(coeffs[phases[(i / bands) % out_w] as int]@, t),
    ensures
        ({
            let x = (i / bands) % out_w;
            let y = (i / bands) / out_w;
            let b = i % bands;
            let in_w = input_region.width as int;
            let offset = starts[x] + t - input_region.x;
            let c = if offset < 0 {
                0
            } else if offset > in_w - 1 {
                in_w - 1
            } else {
                offset
            };
            reduce_h_u8_samples(input, bands, input_region, coeffs, starts, phases, out_w, out_h)[i]
                == input[(y * in_w + c) * bands + b]
        }),
{
    let x = (i / bands) % out_w;
    let ws = coeffs[phases[x] as int]@;
    lemma_h_tap_sum_unit(
        input,
        bands,
        input_region.x as int,
        input_region.width as int,
        ws,
        starts[x] as int,
        (i / bands) / out_w,
        i % bands,
        t,
        ws.len(),
    );
    let s = input[sample_index(
        input_region.width as int,
        bands,
        clamp_axis_index(starts[x] + t, input_region.x as int, input_region.width as int),
        (i / bands) / out_w,
        i % bands,
    )];
    lemma_fixed_one(s);
    assert(4096 * s == 4096 * s);
}

/// Tap `t` of a vertical window reads source row `starts[y] + t`: where the
/// table of output row `y` is the unit at tap `t`, sample `x` of output row
/// `y` is sample `x` of input row `c`, with `c` that row's offset from the
/// tile's top edge clamped into the tile.
pub proof fn lemma_reduce_v_unit_tap_reads_start_plus_tap(
    input: Seq<u8>,
    bands: int,
    input_region: Region,
    coeffs: Seq<Vec<i16>>,
    starts: Seq<i64>,
    phases: Seq<u8>,
    out_w: int,
    out_h: int,
    i: int,
    t: int,
)
    requires
        0 <= i < out_w * out_h * bands,
        0 <= phases[i / (out_w * bands)] < coeffs.len(),
        unit_at_tap(coeffs[phases[i / (out_w * bands)] as int]@, t),
    ensures
        ({
            let y = i / (out_w * bands);
            let x = i % (out_w * bands);
            let in_h = input_region.height as int;
            let offset = starts[y] + t - input_region.y;
            let c = if offset < 0 {
                0
            } else if offset > in_h - 1 {
                in_h - 1
            } else {
                offset
            };
            reduce_v_u8_samples(input, bands, input_region, coeffs, starts, phases, out_w, out_h)[i]
                == input[c * (input_region.width * bands) + x]
        }),
{
    let y = i / (out_w * bands);
    let ws = coeffs[phases[y] as int]@;
    lemma_v_tap_sum_unit(
        input,
        input_region.width * bands,
        input_region.y as int,
        input_region.height as int,
        ws,
        starts[y] as int,
        i % (out_w * bands),
        t,
        ws.len(),
    );
    let s = input[clamp_axis_index(
        starts[y] + t,
        input_region.y as int,
        input_region.height as int,
    ) * (input_region.width * bands) + i % (out_w * bands)];
    lemma_fixed_one(s);
}

} // verus!
