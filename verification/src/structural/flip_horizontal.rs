//! Horizontal flip (mirror left-right).
use std::marker::PhantomData;

use vstd::prelude::*;

use crate::format::BandFormat;
use crate::layout::{
    band_of, column_of, lemma_flat_index_split, lemma_sample_index_bound, lemma_sample_index_split,
    lemma_sample_index_step, lemma_sample_offsets, overwrite_prefix, row_of, sample_index,
    tile_fits,
};
use crate::op::DemandHint;
use crate::region::{clamp_i64_to_i32, clamp_to_i32, Region};

verus! {

/// The samples of a `width × height` tile mirrored left-right: output pixel
/// `(x, y)` is input pixel `(width - 1 - x, y)`, bands in their order.
pub open spec fn flip_h_samples<T>(input: Seq<T>, width: int, height: int, bands: int) -> Seq<T> {
    Seq::new(
        (width * height * bands) as nat,
        |i: int|
            input[sample_index(
                width,
                bands,
                width - 1 - column_of(i, width, bands),
                row_of(i, width, bands),
                band_of(i, bands),
            )],
    )
}

/// Mirrors an image of width `image_width` left-right: output pixel `(x, y)`
/// comes from input pixel `(W - 1 - x, y)`.
pub struct FlipHorizontal<F: BandFormat> {
    image_width: u32,
    _format: PhantomData<F>,
}

impl<F: BandFormat> FlipHorizontal<F> {
    /// Full width of the image being flipped.
    pub closed spec fn width(&self) -> u32 {
        self.image_width
    }

    /// Flips an image `image_width` pixels wide.
    pub fn new(image_width: u32) -> (r: Self)
        ensures
            r.width() == image_width,
    {
        FlipHorizontal { image_width, _format: PhantomData }
    }

    /// Preferred tile shape.
    pub fn demand_hint(&self) -> (r: DemandHint)
        ensures
            r == DemandHint::ThinStrip,
    {
        DemandHint::ThinStrip
    }

    /// Reflects output tile `(ox, oy, ow, oh)` to `(W - ox - ow, oy, ow, oh)`,
    /// the left edge saturated to the `i32` range.
    pub fn required_input_region(&self, output: &Region) -> (r: Region)
        ensures
            r == (Region {
                x: clamp_to_i32(self.width() - output.x - output.width),
                y: output.y,
                width: output.width,
                height: output.height,
            }),
    {
        let reflected_x = clamp_i64_to_i32(
            self.image_width as i64 - output.x as i64 - output.width as i64,
        );
        Region::new(reflected_x, output.y, output.width, output.height)
    }

    /// Reverses the pixel order of every row of the input tile; the samples
    /// past the tile in `output` are left as they were.
    pub fn process_region(
        &self,
        input_region: &Region,
        bands: u32,
        input: &[F::Sample],
        output: &mut [F::Sample],
    )
        requires
            tile_fits(input_region.width as int, input_region.height as int, bands as int),
            input@.len() >= input_region.area() * bands,
            old(output)@.len() >= input_region.area() * bands,
        ensures
            final(output)@ == overwrite_prefix(
                old(output)@,
                flip_h_samples(
                    input@,
                    input_region.width as int,
                    input_region.height as int,
                    bands as int,
                ),
            ),
    {
        let bands = bands as usize;
        let width = input_region.width as usize;
        let height = input_region.height as usize;
        let ghost w = width as int;
        let ghost h = height as int;
        let ghost nb = bands as int;
        let ghost n = w * h * nb;
        let ghost expected = flip_h_samples(input@, w, h, nb);
        let ghost old_out = output@;
        proof {
            assert(sample_index(w, nb, 0, 0, 0) == 0) by (nonlinear_arith);
        }

        let mut row: usize = 0;
        while row < height
            invariant
                row <= height,
                w == width,
                h == height,
                nb == bands,
                n == w * h * nb,
                tile_fits(w, h, nb),
                n <= input@.len(),
                n <= old_out.len(),
                expected == flip_h_samples(input@, w, h, nb),
                output@.len() == old_out.len(),
                forall|i: int|
                    0 <= i < sample_index(w, nb, 0, row as int, 0) ==> #[trigger] output@[i]
                        == expected[i],
                forall|i: int|
                    sample_index(w, nb, 0, row as int, 0) <= i < old_out.len() ==> #[trigger] output@[i]
                        == old_out[i],
            decreases height - row,
        {
            let mut col: usize = 0;
            while col < width
                invariant
                    row < height,
                    col <= width,
                    w == width,
                    h == height,
                    nb == bands,
                    n == w * h * nb,
                    tile_fits(w, h, nb),
                    n <= input@.len(),
                    n <= old_out.len(),
                    expected == flip_h_samples(input@, w, h, nb),
                    output@.len() == old_out.len(),
                    forall|i: int|
                        0 <= i < sample_index(w, nb, col as int, row as int, 0) ==> #[trigger] output@[i]
                            == expected[i],
                    forall|i: int|
                        sample_index(w, nb, col as int, row as int, 0) <= i < old_out.len()
                            ==> #[trigger] output@[i] == old_out[i],
                decreases width - col,
            {
                let src_col = width - 1 - col;
                let mut band: usize = 0;
                while band < bands
                    invariant
                        row < height,
                        col < width,
                        src_col == width - 1 - col,
                        band <= bands,
                        w == width,
                        h == height,
                        nb == bands,
                        n == w * h * nb,
                        tile_fits(w, h, nb),
                        n <= input@.len(),
                        n <= old_out.len(),
                        expected == flip_h_samples(input@, w, h, nb),
                        output@.len() == old_out.len(),
                        forall|i: int|
                            0 <= i < sample_index(w, nb, col as int, row as int, band as int)
                                ==> #[trigger] output@[i] == expected[i],
                        forall|i: int|
                            sample_index(w, nb, col as int, row as int, band as int) <= i
                                < old_out.len() ==> #[trigger] output@[i] == old_out[i],
                    decreases bands - band,
                {
                    proof {
                        lemma_sample_offsets(w, h, nb, col as int, row as int, band as int);
                        lemma_sample_offsets(w, h, nb, src_col as int, row as int, band as int);
                        lemma_sample_index_split(w, nb, col as int, row as int, band as int);
                    }
                    let row_start = row * width * bands;
                    let dst = row_start + col * bands + band;
                    let src = row_start + src_col * bands + band;
                    output[dst] = input[src];
                    band += 1;
                }
                proof {
                    lemma_sample_index_step(w, nb, col as int, row as int);
                }
                col += 1;
            }
            proof {
                lemma_sample_index_step(w, nb, 0, row as int);
            }
            row += 1;
        }
        proof {
            lemma_sample_index_step(w, nb, 0, h);
            assert(sample_index(w, nb, 0, h, 0) == n) by (nonlinear_arith)
                requires
                    sample_index(w, nb, 0, h, 0) == h * w * nb,
                    n == w * h * nb,
            ;
            assert(output@ =~= overwrite_prefix(old_out, expected));
        }
    }
}

} // verus!

verus! {

/// Flipping a tile left-right twice gives back the tile.
pub proof fn lemma_flip_h_twice<T>(s: Seq<T>, width: int, height: int, bands: int)
    requires
        0 <= width,
        0 <= height,
        0 <= bands,
        s.len() == width * height * bands,
    ensures
        flip_h_samples(flip_h_samples(s, width, height, bands), width, height, bands) == s,
{
    let once = flip_h_samples(s, width, height, bands);
    let twice = flip_h_samples(once, width, height, bands);
    assert forall|i: int| 0 <= i < s.len() implies #[trigger] twice[i] == s[i] by {
        assert(0 < width && 0 < bands) by (nonlinear_arith)
            requires
                0 <= i < width * height * bands,
                0 <= width,
                0 <= height,
                0 <= bands,
        ;
        lemma_flat_index_split(i, width, height, bands);
        let x = column_of(i, width, bands);
        let y = row_of(i, width, bands);
        let c = band_of(i, bands);
        lemma_sample_index_split(width, bands, width - 1 - x, y, c);
        lemma_sample_index_bound(width, height, bands, width - 1 - x, y, c);
    }
    assert(twice =~= s);
}

} // verus!
