//! Clockwise rotation by 90 degrees.
use std::marker::PhantomData;

use vstd::prelude::*;

use crate::format::{BandFormat, BandFormatId};
use crate::layout::{
    band_of, column_of, lemma_flat_index_split, lemma_sample_index_bound, lemma_sample_index_split,
    lemma_sample_index_step, lemma_sample_offsets, overwrite_prefix, row_of, sample_index,
    tile_fits,
};
use crate::structural::rotate180::{lemma_rotate180_twice, rotate180_samples};
use crate::op::{DemandHint, DynOperation, NodeSpec};
use crate::region::{clamp_i64_to_i32, clamp_to_i32, Region};

verus! {

/// An `out_w × out_h` output tile rotated clockwise from an `out_h × out_w`
/// input tile: output pixel `(x, y)` is input pixel `(y, out_w - 1 - x)`.
pub open spec fn rotate90_samples<T>(input: Seq<T>, out_w: int, out_h: int, bands: int) -> Seq<T> {
    Seq::new(
        (out_w * out_h * bands) as nat,
        |i: int|
            input[sample_index(
                out_h,
                bands,
                row_of(i, out_w, bands),
                out_w - 1 - column_of(i, out_w, bands),
                band_of(i, bands),
            )],
    )
}

/// Rotates a `image_width × image_height` image clockwise by 90 degrees; the
/// output image is `image_height × image_width`.
pub struct Rotate90<F: BandFormat> {
    image_width: u32,
    image_height: u32,
    _format: PhantomData<F>,
}

impl<F: BandFormat> Rotate90<F> {
    /// Width of the image before rotation.
    pub closed spec fn width(&self) -> u32 {
        self.image_width
    }

    /// Height of the image before rotation.
    pub closed spec fn height(&self) -> u32 {
        self.image_height
    }

    /// Rotates an image of the given size.
    pub fn new(image_width: u32, image_height: u32) -> (r: Self)
        ensures
            r.width() == image_width,
            r.height() == image_height,
    {
        Rotate90 { image_width, image_height, _format: PhantomData }
    }

    /// Preferred tile shape.
    pub fn preferred_tile_geometry(&self) -> (r: DemandHint)
        ensures
            r == DemandHint::SmallTile,
    {
        DemandHint::SmallTile
    }

    /// Output tile `(ox, oy, ow, oh)` reads input columns `[oy, oy + oh)` and
    /// rows `[H - ox - ow, H - ox)`: the transposed tile `(oy, H - ox - ow, oh, ow)`,
    /// its top edge saturated to the `i32` range.
    pub fn required_input_region(&self, output: &Region) -> (r: Region)
        ensures
            r == (Region {
                x: output.y,
                y: clamp_to_i32(self.height() - output.x - output.width),
                width: output.height,
                height: output.width,
            }),
    {
        Region::new(
            output.y,
            clamp_i64_to_i32(self.image_height as i64 - output.x as i64 - output.width as i64),
            output.height,
            output.width,
        )
    }

    /// The input tile is the output tile transposed.
    pub fn node_spec(&self, tile_w: u32, tile_h: u32) -> (r: NodeSpec)
        ensures
            r == (NodeSpec {
                input_tile_w: tile_h,
                input_tile_h: tile_w,
                output_tile_w: tile_w,
                output_tile_h: tile_h,
            }),
    {
        NodeSpec {
            input_tile_w: tile_h,
            input_tile_h: tile_w,
            output_tile_w: tile_w,
            output_tile_h: tile_h,
        }
    }

    /// Fills the output tile from the transposed input tile (`output.height`
    /// pixels wide, `output.width` rows), rotating clockwise; the samples past
    /// the tile in `output` are left as they were.
    pub fn process_region(
        &self,
        bands: u32,
        input: &[F::Sample],
        output_region: &Region,
        output: &mut [F::Sample],
    )
        requires
            tile_fits(output_region.width as int, output_region.height as int, bands as int),
            output_region.height * bands <= usize::MAX,
            input@.len() >= output_region.area() * bands,
            old(output)@.len() >= output_region.area() * bands,
        ensures
            final(output)@ == overwrite_prefix(
                old(output)@,
                rotate90_samples(
                    input@,
                    output_region.width as int,
                    output_region.height as int,
                    bands as int,
                ),
            ),
    {
        let bands = bands as usize;
        let ow = output_region.width as usize;
        let oh = output_region.height as usize;
        let input_row_stride = oh * bands;
        let ghost w = ow as int;
        let ghost h = oh as int;
        let ghost nb = bands as int;
        let ghost n = w * h * nb;
        let ghost expected = rotate90_samples(input@, w, h, nb);
        let ghost old_out = output@;
        proof {
            assert(sample_index(w, nb, 0, 0, 0) == 0) by (nonlinear_arith);
            assert(h * w == w * h && h * w * nb == w * h * nb) by (nonlinear_arith);
        }

        let mut row: usize = 0;
        while row < oh
            invariant
                row <= oh,
                w == ow,
                h == oh,
                nb == bands,
                input_row_stride == oh * bands,
                n == w * h * nb,
                tile_fits(w, h, nb),
                tile_fits(h, w, nb),
                n <= input@.len(),
                n <= old_out.len(),
                expected == rotate90_samples(input@, w, h, nb),
                output@.len() == old_out.len(),
                forall|i: int|
                    0 <= i < sample_index(w, nb, 0, row as int, 0) ==> #[trigger] output@[i]
                        == expected[i],
                forall|i: int|
                    sample_index(w, nb, 0, row as int, 0) <= i < old_out.len() ==> #[trigger] output@[i]
                        == old_out[i],
            decreases oh - row,
        {
            let mut col: usize = 0;
            while col < ow
                invariant
                    row < oh,
                    col <= ow,
                    w == ow,
                    h == oh,
                    nb == bands,
                    input_row_stride == oh * bands,
                    n == w * h * nb,
                    tile_fits(w, h, nb),
                    tile_fits(h, w, nb),
                    n <= input@.len(),
                    n <= old_out.len(),
                    expected == rotate90_samples(input@, w, h, nb),
                    output@.len() == old_out.len(),
                    forall|i: int|
                        0 <= i < sample_index(w, nb, col as int, row as int, 0) ==> #[trigger] output@[i]
                            == expected[i],
                    forall|i: int|
                        sample_index(w, nb, col as int, row as int, 0) <= i < old_out.len()
                            ==> #[trigger] output@[i] == old_out[i],
                decreases ow - col,
            {
                let input_col = row;
                let input_row = ow - 1 - col;
                let mut band: usize = 0;
                while band < bands
                    invariant
                        row < oh,
                        col < ow,
                        input_col == row,
                        input_row == ow - 1 - col,
                        band <= bands,
                        w == ow,
                        h == oh,
                        nb == bands,
                        input_row_stride == oh * bands,
                        n == w * h * nb,
                        tile_fits(w, h, nb),
                        tile_fits(h, w, nb),
                        n <= input@.len(),
                        n <= old_out.len(),
                        expected == rotate90_samples(input@, w, h, nb),
                        output@.len() == old_out.len(),
                        forall|i: int|
                            0 <= i < sample_index(w, nb, col as int, row as int, band as int)
                                ==> #[trigger] output@[i] == expected[i],
                        forall|i: int|
                            sample_index(w, nb, col as int, row as int, band as int) <= i
                                < old_out.len() ==> #[trigger] output@[i] == old_out[i],
                    decreases bands - band,
                {
                    proof {
                        lemma_sample_offsets(w, h, nb, col as int, row as int, band as int);
                        lemma_sample_offsets(
                            h,
                            w,
                            nb,
                            input_col as int,
                            input_row as int,
                            band as int,
                        );
                        lemma_sample_index_split(w, nb, col as int, row as int, band as int);
                        assert(input_row * input_row_stride == input_row * oh * bands)
                            by (nonlinear_arith)
                            requires
                                input_row_stride == oh * bands,
                        ;
                    }
                    let src = input_row * input_row_stride + input_col * bands + band;
                    let dst = row * ow * bands + col * bands + band;
                    output[dst] = input[src];
                    band += 1;
                }
                proof {
                    lemma_sample_index_step(w, nb, col as int, row as int);
                }
                col += 1;
            }
            proof {
                lemma_sample_index_step(w, nb, 0, row as int);
            }
            row += 1;
        }
        proof {
            lemma_sample_index_step(w, nb, 0, h);
            assert(sample_index(w, nb, 0, h, 0) == n) by (nonlinear_arith)
                requires
                    sample_index(w, nb, 0, h, 0) == h * w * nb,
                    n == w * h * nb,
            ;
            assert(output@ =~= overwrite_prefix(old_out, expected));
        }
    }
}

/// Format-erased wrapper of [`Rotate90`] that reports the rotated image size.
pub struct Rotate90Bridge<F: BandFormat> {
    op: Rotate90<F>,
    bands: u32,
}

impl<F: BandFormat> Rotate90Bridge<F> {
    /// The wrapped rotation.
    pub closed spec fn rotation(&self) -> Rotate90<F> {
        self.op
    }

    /// Number of bands the bridge carries.
    pub closed spec fn band_count(&self) -> u32 {
        self.bands
    }

    /// Rotates an `image_width × image_height` image of `bands` bands.
    pub fn new(image_width: u32, image_height: u32, bands: u32) -> (r: Self)
        ensures
            r.rotation().width() == image_width,
            r.rotation().height() == image_height,
            r.band_count() == bands,
    {
        Rotate90Bridge { op: Rotate90::new(image_width, image_height), bands }
    }

    /// Runs the rotation on a tile; see [`Rotate90::process_region`].
    pub fn dyn_process_region(
        &self,
        input: &[F::Sample],
        output: &mut [F::Sample],
        _input_region: Region,
        output_region: Region,
    )
        requires
            tile_fits(
                output_region.width as int,
                output_region.height as int,
                self.band_count() as int,
            ),
            output_region.height * self.band_count() <= usize::MAX,
            input@.len() >= output_region.area() * self.band_count(),
            old(output)@.len() >= output_region.area() * self.band_count(),
        ensures
            final(output)@ == overwrite_prefix(
                old(output)@,
                rotate90_samples(
                    input@,
                    output_region.width as int,
                    output_region.height as int,
                    self.band_count() as int,
                ),
            ),
    {
        self.op.process_region(self.bands, input, &output_region, output);
    }
}

impl<F: BandFormat> DynOperation for Rotate90Bridge<F> {
    open spec fn serves_region(&self, output: Region) -> bool {
        true
    }

    open spec fn serves_slot_region(&self, output: Region, slot: int) -> bool {
        self.serves_region(output)
    }

    open spec fn serves_tile(&self, tile_w: u32, tile_h: u32) -> bool {
        true
    }

    open spec fn input_format_of(&self) -> BandFormatId {
        F::format_id()
    }

    open spec fn output_format_of(&self) -> BandFormatId {
        F::format_id()
    }

    open spec fn bands_of(&self) -> u32 {
        self.band_count()
    }

    open spec fn demand_hint_of(&self) -> DemandHint {
        DemandHint::SmallTile
    }

    open spec fn input_slots(&self) -> usize {
        1
    }

    open spec fn input_region_of(&self, output: Region) -> Region {
        Region {
            x: output.y,
            y: clamp_to_i32(self.rotation().height() - output.x - output.width),
            width: output.height,
            height: output.width,
        }
    }

    open spec fn slot_region_of(&self, output: Region, slot: int) -> Region {
        self.input_region_of(output)
    }

    open spec fn node_spec_of(&self, tile_w: u32, tile_h: u32) -> NodeSpec {
        NodeSpec {
            input_tile_w: tile_h,
            input_tile_h: tile_w,
            output_tile_w: tile_w,
            output_tile_h: tile_h,
        }
    }

    /// The rotated image is as wide as the unrotated image is tall.
    open spec fn output_width_of(&self, input_w: u32) -> u32 {
        self.rotation().height()
    }

    /// The rotated image is as tall as the unrotated image is wide.
    open spec fn output_height_of(&self, input_h: u32) -> u32 {
        self.rotation().width()
    }

    fn input_format(&self) -> BandFormatId {
        F::id()
    }

    fn output_format(&self) -> BandFormatId {
        F::id()
    }

    fn bands(&self) -> u32 {
        self.bands
    }

    fn demand_hint(&self) -> DemandHint {
        self.op.preferred_tile_geometry()
    }

    fn input_slot_count(&self) -> usize {
        1
    }

    fn required_input_region(&self, output: &Region) -> Region {
        self.op.required_input_region(output)
    }

    fn required_input_region_slot(&self, output: &Region, _slot: usize) -> Region {
        self.op.required_input_region(output)
    }

    fn node_spec(&self, tile_w: u32, tile_h: u32) -> NodeSpec {
        self.op.node_spec(tile_w, tile_h)
    }

    /// The rotated image is as wide as the unrotated image is tall.
    fn output_width(&self, _input_w: u32) -> u32 {
        self.op.image_height
    }

    /// The rotated image is as tall as the unrotated image is wide.
    fn output_height(&self, _input_h: u32) -> u32 {
        self.op.image_width
    }
}

} // verus!

verus! {

/// Rotating a `width × height` tile clockwise twice (through the
/// `height × width` tile) rotates it by 180 degrees.
pub proof fn lemma_rotate90_twice<T>(s: Seq<T>, width: int, height: int, bands: int)
    requires
        0 <= width,
        0 <= height,
        0 <= bands,
        s.len() == width * height * bands,
    ensures
        rotate90_samples(rotate90_samples(s, height, width, bands), width, height, bands)
            == rotate180_samples(s, width, bands, height, height),
{
    let once = rotate90_samples(s, height, width, bands);
    let twice = rotate90_samples(once, width, height, bands);
    let half_turn = rotate180_samples(s, width, bands, height, height);
    assert(twice.len() == half_turn.len());
    assert forall|i: int| 0 <= i < twice.len() implies #[trigger] twice[i] == half_turn[i] by {
        assert(0 < width && 0 < bands && 0 < height) by (nonlinear_arith)
            requires
                0 <= i < width * height * bands,
                0 <= width,
                0 <= height,
                0 <= bands,
        ;
        lemma_flat_index_split(i, width, height, bands);
        let x = column_of(i, width, bands);
        let y = row_of(i, width, bands);
        let c = band_of(i, bands);
        lemma_sample_index_split(height, bands, y, width - 1 - x, c);
        lemma_sample_index_bound(height, width, bands, y, width - 1 - x, c);
        assert(height * width * bands == width * height * bands) by (nonlinear_arith);
    }
    assert(twice =~= half_turn);
}

/// Rotating a tile clockwise four times gives back the tile.
pub proof fn lemma_rotate90_four_times<T>(s: Seq<T>, width: int, height: int, bands: int)
    requires
        0 <= width,
        0 <= height,
        0 <= bands,
        s.len() == width * height * bands,
    ensures
        rotate90_samples(
            rotate90_samples(
                rotate90_samples(rotate90_samples(s, height, width, bands), width, height, bands),
                height,
                width,
                bands,
            ),
            width,
            height,
            bands,
        ) == s,
{
    let half = rotate90_samples(rotate90_samples(s, height, width, bands), width, height, bands);
    lemma_rotate90_twice(s, width, height, bands);
    assert(half.len() == width * height * bands);
    lemma_rotate90_twice(half, width, height, bands);
    lemma_rotate180_twice(s, width, height, bands);
}

} // verus!
