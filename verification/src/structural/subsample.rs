//! Integer decimation: keep every `xfac`-th column of every `yfac`-th row.
use std::marker::PhantomData;

use vstd::prelude::*;

use crate::error::BuildError;
use crate::format::{BandFormat, BandFormatId};
use crate::layout::{
    band_of, column_of, lemma_flat_index_split, lemma_sample_index_split, lemma_sample_index_step, lemma_sample_offsets,
    overwrite_prefix, row_of, sample_index, tile_fits,
};
use crate::op::{DemandHint, DynOperation, NodeSpec};
use crate::region::Region;

verus! {

/// `value * factor - (factor - 1)`, floored at zero: the span from the first to
/// the last of `value` samples taken `factor` apart.
pub open spec fn sampled_span(value: int, factor: int) -> int {
    if value * factor >= factor - 1 {
        value * factor - (factor - 1)
    } else {
        0
    }
}

/// Index of the input sample that output sample `i` copies.
pub open spec fn subsample_source(
    i: int,
    input_width: int,
    out_w: int,
    bands: int,
    xfac: int,
    yfac: int,
) -> int {
    (row_of(i, out_w, bands) * yfac * input_width + column_of(i, out_w, bands) * xfac) * bands
        + band_of(i, bands)
}

/// An `out_w × out_h` tile that keeps input pixel `(x * xfac, y * yfac)` as
/// output pixel `(x, y)`, from an input tile `input_width` pixels wide.
pub open spec fn subsample_samples<T>(
    input: Seq<T>,
    input_width: int,
    out_w: int,
    out_h: int,
    bands: int,
    xfac: int,
    yfac: int,
) -> Seq<T> {
    Seq::new(
        (out_w * out_h * bands) as nat,
        |i: int| input[subsample_source(i, input_width, out_w, bands, xfac, yfac)],
    )
}

/// The reads of a subsample of an `out_w × out_h` tile stay inside an input
/// buffer of `input_len` samples, and every index it computes fits a `usize`.
pub open spec fn subsample_reads_fit(
    input_width: int,
    out_w: int,
    out_h: int,
    bands: int,
    xfac: int,
    yfac: int,
    input_len: int,
) -> bool {
    &&& out_h == 0 || (out_h - 1) * yfac <= usize::MAX
    &&& out_h == 0 || (out_h - 1) * yfac * input_width <= usize::MAX
    &&& out_w == 0 || out_h == 0 || (out_h - 1) * yfac * input_width + (out_w - 1) * xfac
        <= usize::MAX
    &&& out_w == 0 || out_h == 0 || ((out_h - 1) * yfac * input_width + (out_w - 1) * xfac + 1)
        * bands <= input_len
}

fn validate_subsample_factors(xfac: u32, yfac: u32) -> (r: Result<(), BuildError>)
    ensures
        r is Ok <==> (xfac >= 1 && yfac >= 1),
        r matches Err(e) ==> e.is_source_hint("subsample"@, "xfac and yfac must be >= 1"@),
{
    if xfac == 0 || yfac == 0 {
        return Err(
            BuildError::SourceHint {
                context: "subsample",
                message: "xfac and yfac must be >= 1".to_string(),
            },
        );
    }
    Ok(())
}

/// Decimates an image by integer factors, keeping every `xfac`-th pixel of
/// every `yfac`-th row. Both factors are at least 1.
pub struct Subsample<F: BandFormat> {
    xfac: u32,
    yfac: u32,
    _format: PhantomData<F>,
}

impl<F: BandFormat> Subsample<F> {
    #[verifier::type_invariant]
    spec fn factors_positive(self) -> bool {
        self.xfac >= 1 && self.yfac >= 1
    }

    /// Horizontal factor.
    pub closed spec fn xfactor(&self) -> u32 {
        self.xfac
    }

    /// Vertical factor.
    pub closed spec fn yfactor(&self) -> u32 {
        self.yfac
    }

    /// Builds a subsample; fails when a factor is zero.
    pub fn new(xfac: u32, yfac: u32) -> (r: Result<Self, BuildError>)
        ensures
            r is Ok <==> (xfac >= 1 && yfac >= 1),
            r matches Ok(s) ==> s.xfactor() == xfac && s.yfactor() == yfac,
            r matches Err(e) ==> e.is_source_hint("subsample"@, "xfac and yfac must be >= 1"@),
    {
        match validate_subsample_factors(xfac, yfac) {
            Ok(()) => Ok(Subsample { xfac, yfac, _format: PhantomData }),
            Err(e) => Err(e),
        }
    }

    /// Preferred tile shape.
    pub fn demand_hint(&self) -> (r: DemandHint)
        ensures
            r == DemandHint::ThinStrip,
    {
        DemandHint::ThinStrip
    }

    /// The input region that holds every sample an output region keeps: its
    /// corner scaled by the factors, its extent the span of the kept samples
    /// (empty for an empty output).
    pub fn required_input_region(&self, output: &Region) -> (r: Region)
        requires
            i32::MIN <= output.x * (self.xfactor() as i32) <= i32::MAX,
            i32::MIN <= output.y * (self.yfactor() as i32) <= i32::MAX,
            output.width * self.xfactor() <= u32::MAX,
            output.height * self.yfactor() <= u32::MAX,
        ensures
            r.x == output.x * (self.xfactor() as i32),
            r.y == output.y * (self.yfactor() as i32),
            r.width == if output.width == 0 || output.height == 0 {
                0
            } else {
                sampled_span(output.width as int, self.xfactor() as int)
            },
            r.height == if output.width == 0 || output.height == 0 {
                0
            } else {
                sampled_span(output.height as int, self.yfactor() as int)
            },
    {
        proof {
            use_type_invariant(self);
        }
        let x = output.x * self.xfac as i32;
        let y = output.y * self.yfac as i32;
        if output.is_empty() {
            return Region::new(x, y, 0, 0);
        }
        Region::new(
            x,
            y,
            (output.width * self.xfac).saturating_sub(self.xfac - 1),
            (output.height * self.yfac).saturating_sub(self.yfac - 1),
        )
    }

    /// Input tile size for a `tile_w × tile_h` output tile (empty for an empty
    /// output tile).
    pub fn node_spec(&self, tile_w: u32, tile_h: u32) -> (r: NodeSpec)
        requires
            tile_w * self.xfactor() <= u32::MAX,
            tile_h * self.yfactor() <= u32::MAX,
        ensures
            r.input_tile_w == if tile_w == 0 || tile_h == 0 {
                0
            } else {
                sampled_span(tile_w as int, self.xfactor() as int)
            },
            r.input_tile_h == if tile_w == 0 || tile_h == 0 {
                0
            } else {
                sampled_span(tile_h as int, self.yfactor() as int)
            },
            r.output_tile_w == tile_w,
            r.output_tile_h == tile_h,
    {
        proof {
            use_type_invariant(self);
        }
        if tile_w == 0 || tile_h == 0 {
            return NodeSpec {
                input_tile_w: 0,
                input_tile_h: 0,
                output_tile_w: tile_w,
                output_tile_h: tile_h,
            };
        }
        NodeSpec {
            input_tile_w: (tile_w * self.xfac).saturating_sub(self.xfac - 1),
            input_tile_h: (tile_h * self.yfac).saturating_sub(self.yfac - 1),
            output_tile_w: tile_w,
            output_tile_h: tile_h,
        }
    }

    /// Copies input pixel `(x * xfac, y * yfac)` to output pixel `(x, y)` for
    /// every pixel of the output tile; the samples past the tile in `output`
    /// are left as they were.
    pub fn process_region(
        &self,
        input_region: &Region,
        bands: u32,
        input: &[F::Sample],
        output_region: &Region,
        output: &mut [F::Sample],
    )
        requires
            tile_fits(output_region.width as int, output_region.height as int, bands as int),
            subsample_reads_fit(
                input_region.width as int,
                output_region.width as int,
                output_region.height as int,
                bands as int,
                self.xfactor() as int,
                self.yfactor() as int,
                input@.len() as int,
            ),
            old(output)@.len() >= output_region.area() * bands,
        ensures
            final(output)@ == overwrite_prefix(
                old(output)@,
                subsample_samples(
                    input@,
                    input_region.width as int,
                    output_region.width as int,
                    output_region.height as int,
                    bands as int,
                    self.xfactor() as int,
                    self.yfactor() as int,
                ),
            ),
    {
        let bands = bands as usize;
        let input_width = input_region.width as usize;
        let out_w = output_region.width as usize;
        let out_h = output_region.height as usize;
        let xfac = self.xfac as usize;
        let yfac = self.yfac as usize;
        let ghost w = out_w as int;
        let ghost h = out_h as int;
        let ghost nb = bands as int;
        let ghost iw = input_width as int;
        let ghost xf = xfac as int;
        let ghost yf = yfac as int;
        let ghost n = w * h * nb;
        let ghost expected = subsample_samples(input@, iw, w, h, nb, xf, yf);
        let ghost old_out = output@;
        proof {
            assert(sample_index(w, nb, 0, 0, 0) == 0) by (nonlinear_arith);
        }

        let mut row: usize = 0;
        while row < out_h
            invariant
                row <= out_h,
                w == out_w,
                h == out_h,
                nb == bands,
                iw == input_width,
                xf == xfac,
                yf == yfac,
                n == w * h * nb,
                tile_fits(w, h, nb),
                subsample_reads_fit(iw, w, h, nb, xf, yf, input@.len() as int),
                n <= old_out.len(),
                expected == subsample_samples(input@, iw, w, h, nb, xf, yf),
                output@.len() == old_out.len(),
                forall|i: int|
                    0 <= i < sample_index(w, nb, 0, row as int, 0) ==> #[trigger] output@[i]
                        == expected[i],
                forall|i: int|
                    sample_index(w, nb, 0, row as int, 0) <= i < old_out.len() ==> #[trigger] output@[i]
                        == old_out[i],
            decreases out_h - row,
        {
            proof {
                assert(row * yf <= (h - 1) * yf) by (nonlinear_arith)
                    requires
                        row < h,
                        0 <= yf,
                ;
            }
            let src_row = row * yfac;
            let mut col: usize = 0;
            while col < out_w
                invariant
                    row < out_h,
                    src_row == row * yfac,
                    col <= out_w,
                    w == out_w,
                    h == out_h,
                    nb == bands,
                    iw == input_width,
                    xf == xfac,
                    yf == yfac,
                    n == w * h * nb,
                    tile_fits(w, h, nb),
                    subsample_reads_fit(iw, w, h, nb, xf, yf, input@.len() as int),
                    n <= old_out.len(),
                    expected == subsample_samples(input@, iw, w, h, nb, xf, yf),
                    output@.len() == old_out.len(),
                    forall|i: int|
                        0 <= i < sample_index(w, nb, col as int, row as int, 0) ==> #[trigger] output@[i]
                            == expected[i],
                    forall|i: int|
                        sample_index(w, nb, col as int, row as int, 0) <= i < old_out.len()
                            ==> #[trigger] output@[i] == old_out[i],
                decreases out_w - col,
            {
                proof {
                    assert(col * xf <= (w - 1) * xf) by (nonlinear_arith)
                        requires
                            col < w,
                            0 <= xf,
                    ;
                }
                let src_col = col * xfac;
                proof {
                    let sr = src_row as int;
                    let sc = src_col as int;
                    assert(sr * iw <= (h - 1) * yf * iw) by (nonlinear_arith)
                        requires
                            sr == row * yf,
                            row < h,
                            0 <= yf,
                            0 <= iw,
                    ;
                    assert(0 <= sr * iw && 0 <= sc) by (nonlinear_arith)
                        requires
                            0 <= sr,
                            0 <= iw,
                            0 <= sc,
                    ;
                    assert((sr * iw + sc + 1) * nb <= input@.len()) by (nonlinear_arith)
                        requires
                            sr * iw <= (h - 1) * yf * iw,
                            sc <= (w - 1) * xf,
                            ((h - 1) * yf * iw + (w - 1) * xf + 1) * nb <= input@.len(),
                            0 <= nb,
                            0 <= sr * iw,
                            0 <= sc,
                    ;
                    assert((sr * iw + sc) * nb + nb == (sr * iw + sc + 1) * nb) by (nonlinear_arith);
                    assert(0 <= (sr * iw + sc) * nb) by (nonlinear_arith)
                        requires
                            0 <= nb,
                            0 <= sr * iw,
                            0 <= sc,
                    ;
                    assert(sr * iw + sc <= usize::MAX);
                    assert(input@.len() <= usize::MAX) by {
                        vstd::slice::axiom_spec_len(input);
                    }
                }
                let src_row_base = src_row * input_width;
                let src_pixel = src_row_base + src_col;
                let src_base = src_pixel * bands;
                let mut band: usize = 0;
                while band < bands
                    invariant
                        row < out_h,
                        src_row == row * yfac,
                        col < out_w,
                        src_col == col * xfac,
                        src_base == (src_row * input_width + src_col) * bands,
                        src_base + bands <= input@.len(),
                        input@.len() <= usize::MAX,
                        band <= bands,
                        w == out_w,
                        h == out_h,
                        nb == bands,
                        iw == input_width,
                        xf == xfac,
                        yf == yfac,
                        n == w * h * nb,
                        tile_fits(w, h, nb),
                        n <= old_out.len(),
                        expected == subsample_samples(input@, iw, w, h, nb, xf, yf),
                        output@.len() == old_out.len(),
                        forall|i: int|
                            0 <= i < sample_index(w, nb, col as int, row as int, band as int)
                                ==> #[trigger] output@[i] == expected[i],
                        forall|i: int|
                            sample_index(w, nb, col as int, row as int, band as int) <= i
                                < old_out.len() ==> #[trigger] output@[i] == old_out[i],
                    decreases bands - band,
                {
                    proof {
                        lemma_sample_offsets(w, h, nb, col as int, row as int, band as int);
                        lemma_sample_index_split(w, nb, col as int, row as int, band as int);
                        assert((row * w + col) * nb + band == row * w * nb + col * nb + band)
                            by (nonlinear_arith);
                        assert(src_base + band == (row * yf * iw + col * xf) * nb + band)
                            by (nonlinear_arith)
                            requires
                                src_base == (src_row * iw + src_col) * nb,
                                src_row == row * yf,
                                src_col == col * xf,
                        ;
                    }
                    let dst = (row * out_w + col) * bands + band;
                    output[dst] = input[src_base + band];
                    band += 1;
                }
                proof {
                    lemma_sample_index_step(w, nb, col as int, row as int);
                }
                col += 1;
            }
            proof {
                lemma_sample_index_step(w, nb, 0, row as int);
            }
            row += 1;
        }
        proof {
            lemma_sample_index_step(w, nb, 0, h);
            assert(sample_index(w, nb, 0, h, 0) == n) by (nonlinear_arith)
                requires
                    sample_index(w, nb, 0, h, 0) == h * w * nb,
                    n == w * h * nb,
            ;
            assert(output@ =~= overwrite_prefix(old_out, expected));
        }
    }
}

} // verus!

verus! {

/// Format-erased wrapper of [`Subsample`] that reports the decimated image size.
pub struct SubsampleBridge<F: BandFormat> {
    op: Subsample<F>,
    bands: u32,
}

impl<F: BandFormat> SubsampleBridge<F> {
    /// The wrapped decimation.
    pub closed spec fn decimation(&self) -> Subsample<F> {
        self.op
    }

    /// Number of bands the bridge carries.
    pub closed spec fn band_count(&self) -> u32 {
        self.bands
    }

    /// Builds the bridge; fails when a factor is zero.
    pub fn new(xfac: u32, yfac: u32, bands: u32) -> (r: Result<Self, BuildError>)
        ensures
            r is Ok <==> (xfac >= 1 && yfac >= 1),
            r matches Ok(b) ==> b.decimation().xfactor() == xfac && b.decimation().yfactor()
                == yfac && b.band_count() == bands,
            r matches Err(e) ==> e.is_source_hint("subsample"@, "xfac and yfac must be >= 1"@),
    {
        match Subsample::new(xfac, yfac) {
            Ok(op) => Ok(SubsampleBridge { op, bands }),
            Err(e) => Err(e),
        }
    }

    /// Runs the decimation on a tile; see [`Subsample::process_region`].
    pub fn dyn_process_region(
        &self,
        input: &[F::Sample],
        output: &mut [F::Sample],
        input_region: Region,
        output_region: Region,
    )
        requires
            tile_fits(
                output_region.width as int,
                output_region.height as int,
                self.band_count() as int,
            ),
            subsample_reads_fit(
                input_region.width as int,
                output_region.width as int,
                output_region.height as int,
                self.band_count() as int,
                self.decimation().xfactor() as int,
                self.decimation().yfactor() as int,
                input@.len() as int,
            ),
            old(output)@.len() >= output_region.area() * self.band_count(),
        ensures
            final(output)@ == overwrite_prefix(
                old(output)@,
                subsample_samples(
                    input@,
                    input_region.width as int,
                    output_region.width as int,
                    output_region.height as int,
                    self.band_count() as int,
                    self.decimation().xfactor() as int,
                    self.decimation().yfactor() as int,
                ),
            ),
    {
        self.op.process_region(&input_region, self.bands, input, &output_region, output);
    }
}

impl<F: BandFormat> DynOperation for SubsampleBridge<F> {
    open spec fn serves_region(&self, output: Region) -> bool {
        &&& i32::MIN <= output.x * (self.decimation().xfactor() as i32) <= i32::MAX
        &&& i32::MIN <= output.y * (self.decimation().yfactor() as i32) <= i32::MAX
        &&& output.width * self.decimation().xfactor() <= u32::MAX
        &&& output.height * self.decimation().yfactor() <= u32::MAX
    }

    open spec fn serves_slot_region(&self, output: Region, slot: int) -> bool {
        self.serves_region(output)
    }

    open spec fn serves_tile(&self, tile_w: u32, tile_h: u32) -> bool {
        &&& tile_w * self.decimation().xfactor() <= u32::MAX
        &&& tile_h * self.decimation().yfactor() <= u32::MAX
    }

    open spec fn input_format_of(&self) -> BandFormatId {
        F::format_id()
    }

    open spec fn output_format_of(&self) -> BandFormatId {
        F::format_id()
    }

    open spec fn bands_of(&self) -> u32 {
        self.band_count()
    }

    open spec fn demand_hint_of(&self) -> DemandHint {
        DemandHint::ThinStrip
    }

    open spec fn input_slots(&self) -> usize {
        1
    }

    open spec fn input_region_of(&self, output: Region) -> Region {
        let empty = output.width == 0 || output.height == 0;
        Region {
            x: (output.x * (self.decimation().xfactor() as i32)) as i32,
            y: (output.y * (self.decimation().yfactor() as i32)) as i32,
            width: if empty {
                0
            } else {
                sampled_span(output.width as int, self.decimation().xfactor() as int) as u32
            },
            height: if empty {
                0
            } else {
                sampled_span(output.height as int, self.decimation().yfactor() as int) as u32
            },
        }
    }

    open spec fn slot_region_of(&self, output: Region, slot: int) -> Region {
        self.input_region_of(output)
    }

    open spec fn node_spec_of(&self, tile_w: u32, tile_h: u32) -> NodeSpec {
        let empty = tile_w == 0 || tile_h == 0;
        NodeSpec {
            input_tile_w: if empty {
                0
            } else {
                sampled_span(tile_w as int, self.decimation().xfactor() as int) as u32
            },
            input_tile_h: if empty {
                0
            } else {
                sampled_span(tile_h as int, self.decimation().yfactor() as int) as u32
            },
            output_tile_w: tile_w,
            output_tile_h: tile_h,
        }
    }

    /// Whole output columns only: `input_w / xfac`.
    open spec fn output_width_of(&self, input_w: u32) -> u32 {
        (input_w / self.decimation().xfactor()) as u32
    }

    /// Whole output rows only: `input_h / yfac`.
    open spec fn output_height_of(&self, input_h: u32) -> u32 {
        (input_h / self.decimation().yfactor()) as u32
    }

    fn input_format(&self) -> BandFormatId {
        F::id()
    }

    fn output_format(&self) -> BandFormatId {
        F::id()
    }

    fn bands(&self) -> u32 {
        self.bands
    }

    fn demand_hint(&self) -> DemandHint {
        self.op.demand_hint()
    }

    fn input_slot_count(&self) -> usize {
        1
    }

    fn required_input_region(&self, output: &Region) -> Region {
        self.op.required_input_region(output)
    }

    fn required_input_region_slot(&self, output: &Region, _slot: usize) -> Region {
        self.op.required_input_region(output)
    }

    fn node_spec(&self, tile_w: u32, tile_h: u32) -> NodeSpec {
        self.op.node_spec(tile_w, tile_h)
    }

    /// Whole output columns only: `input_w / xfac`.
    fn output_width(&self, input_w: u32) -> u32 {
        proof {
            use_type_invariant(&self.op);
        }
        input_w / self.op.xfac
    }

    /// Whole output rows only: `input_h / yfac`.
    fn output_height(&self, input_h: u32) -> u32 {
        proof {
            use_type_invariant(&self.op);
        }
        input_h / self.op.yfac
    }
}

} // verus!

verus! {

/// Subsampling by factors of 1 keeps every pixel.
pub proof fn lemma_subsample_unit_factors_is_identity<T>(
    s: Seq<T>,
    width: int,
    height: int,
    bands: int,
)
    requires
        0 <= width,
        0 <= height,
        0 <= bands,
        s.len() == width * height * bands,
    ensures
        subsample_samples(s, width, width, height, bands, 1, 1) == s,
{
    let kept = subsample_samples(s, width, width, height, bands, 1, 1);
    assert forall|i: int| 0 <= i < s.len() implies #[trigger] kept[i] == s[i] by {
        assert(0 < width && 0 < bands) by (nonlinear_arith)
            requires
                0 <= i < width * height * bands,
                0 <= width,
                0 <= height,
                0 <= bands,
        ;
        lemma_flat_index_split(i, width, height, bands);
        let x = column_of(i, width, bands);
        let y = row_of(i, width, bands);
        assert(y * 1 * width + x * 1 == y * width + x) by (nonlinear_arith);
    }
    assert(kept =~= s);
}


/// A one-pixel output tile at the origin reads a one-pixel input region and
/// keeps that pixel, whatever the factors.
pub proof fn lemma_subsample_single_pixel_survives<T>(pixel: Seq<T>, xfac: int, yfac: int)
    requires
        1 <= xfac,
        1 <= yfac,
    ensures
        sampled_span(1, xfac) == 1,
        sampled_span(1, yfac) == 1,
        subsample_samples(pixel, 1, 1, 1, pixel.len() as int, xfac, yfac) == pixel,
{
    let bands = pixel.len() as int;
    let kept = subsample_samples(pixel, 1, 1, 1, bands, xfac, yfac);
    assert forall|i: int| 0 <= i < bands implies #[trigger] kept[i] == pixel[i] by {
        assert(1 * 1 * bands == bands);
        lemma_flat_index_split(i, 1, 1, bands);
        assert(column_of(i, 1, bands) == 0 && row_of(i, 1, bands) == 0);
        assert(0 * yfac * 1 + 0 * xfac == 0) by (nonlinear_arith);
        assert((0 * yfac * 1 + 0 * xfac) * bands + band_of(i, bands) == band_of(i, bands))
            by (nonlinear_arith)
            requires
                0 * yfac * 1 + 0 * xfac == 0,
        ;
        assert(i == (0int * 1 + 0) * bands + band_of(i, bands));
        assert((0int * 1 + 0) * bands == 0) by (nonlinear_arith);
    }
    assert(kept =~= pixel);
}

} // verus!
