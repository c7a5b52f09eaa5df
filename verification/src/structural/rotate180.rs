//! Rotation by 180 degrees.
use std::marker::PhantomData;

use vstd::arithmetic::div_mod::{lemma_div_pos_is_pos, lemma_fundamental_div_mod, lemma_mod_pos_bound};
use vstd::prelude::*;

use crate::format::BandFormat;
use crate::layout::{
    band_of, column_of, lemma_flat_index_split, lemma_sample_index_bound, lemma_sample_index_split,
    lemma_sample_index_step, lemma_sample_offsets, overwrite_prefix, row_of, sample_index,
    tile_fits,
};
use crate::op::DemandHint;
use crate::region::{clamp_i64_to_i32, clamp_to_i32, Region};

verus! {

/// Number of whole rows of `row_len` samples in a buffer of `len` samples.
pub open spec fn whole_rows(len: int, row_len: int) -> int {
    len / row_len
}

/// The first `rows` rows of a buffer `width` pixels wide, produced by rotating
/// the `input_rows` whole rows of `input` by 180 degrees: output pixel `(x, y)`
/// is input pixel `(width - 1 - x, input_rows - 1 - y)`.
pub open spec fn rotate180_samples<T>(
    input: Seq<T>,
    width: int,
    bands: int,
    input_rows: int,
    rows: int,
) -> Seq<T> {
    Seq::new(
        (width * rows * bands) as nat,
        |i: int|
            input[sample_index(
                width,
                bands,
                width - 1 - column_of(i, width, bands),
                input_rows - 1 - row_of(i, width, bands),
                band_of(i, bands),
            )],
    )
}

/// Rotates a `image_width × image_height` image by 180 degrees.
pub struct Rotate180<F: BandFormat> {
    image_width: u32,
    image_height: u32,
    _format: PhantomData<F>,
}

impl<F: BandFormat> Rotate180<F> {
    /// Width of the image.
    pub closed spec fn width(&self) -> u32 {
        self.image_width
    }

    /// Height of the image.
    pub closed spec fn height(&self) -> u32 {
        self.image_height
    }

    /// Rotates an image of the given size.
    pub fn new(image_width: u32, image_height: u32) -> (r: Self)
        ensures
            r.width() == image_width,
            r.height() == image_height,
    {
        Rotate180 { image_width, image_height, _format: PhantomData }
    }

    /// Preferred tile shape.
    pub fn preferred_tile_geometry(&self) -> (r: DemandHint)
        ensures
            r == DemandHint::FatStrip,
    {
        DemandHint::FatStrip
    }

    /// Reflects an output tile through the image centre on both axes, the
    /// corner saturated to the `i32` range.
    pub fn required_input_region(&self, output: &Region) -> (r: Region)
        ensures
            r == (Region {
                x: clamp_to_i32(self.width() - output.x - output.width),
                y: clamp_to_i32(self.height() - output.y - output.height),
                width: output.width,
                height: output.height,
            }),
    {
        Region::new(
            clamp_i64_to_i32(self.image_width as i64 - output.x as i64 - output.width as i64),
            clamp_i64_to_i32(self.image_height as i64 - output.y as i64 - output.height as i64),
            output.width,
            output.height,
        )
    }

    /// Rotates the input tile by 180 degrees, pixels kept whole (bands are not
    /// reordered). Rows are whole runs of `width * bands` samples: the last
    /// whole input row becomes the first output row, and as many output rows
    /// are written as both buffers hold; the rest of `output` is left as it was.
    pub fn process_region(
        &self,
        input_region: &Region,
        bands: u32,
        input: &[F::Sample],
        output: &mut [F::Sample],
    )
        requires
            0 < input_region.width * bands <= usize::MAX,
        ensures
            ({
                let row_len = input_region.width * bands;
                let input_rows = whole_rows(input@.len() as int, row_len);
                let rows = if input_rows <= whole_rows(old(output)@.len() as int, row_len) {
                    input_rows
                } else {
                    whole_rows(old(output)@.len() as int, row_len)
                };
                final(output)@ == overwrite_prefix(
                    old(output)@,
                    rotate180_samples(
                        input@,
                        input_region.width as int,
                        bands as int,
                        input_rows,
                        rows,
                    ),
                )
            }),
    {
        let bands = bands as usize;
        let width = input_region.width as usize;
        let row_len = width * bands;
        let input_rows = input.len() / row_len;
        let output_rows = output.len() / row_len;
        let rows = if input_rows <= output_rows {
            input_rows
        } else {
            output_rows
        };
        let ghost w = width as int;
        let ghost nb = bands as int;
        let ghost ir = input_rows as int;
        let ghost n = w * (rows as int) * nb;
        let ghost expected = rotate180_samples(input@, w, nb, ir, rows as int);
        let ghost old_out = output@;
        proof {
            assert(0 < w && 0 < nb) by (nonlinear_arith)
                requires
                    0 < w * nb,
                    0 <= w,
                    0 <= nb,
            ;
            lemma_fundamental_div_mod(input@.len() as int, row_len as int);
            lemma_mod_pos_bound(input@.len() as int, row_len as int);
            lemma_div_pos_is_pos(input@.len() as int, row_len as int);
            lemma_fundamental_div_mod(output@.len() as int, row_len as int);
            lemma_mod_pos_bound(output@.len() as int, row_len as int);
            lemma_div_pos_is_pos(output@.len() as int, row_len as int);
            assert(ir * (w * nb) <= input@.len()) by (nonlinear_arith)
                requires
                    input@.len() == row_len * ir + (input@.len() as int) % (row_len as int),
                    0 <= (input@.len() as int) % (row_len as int),
                    row_len == w * nb,
            ;
            assert(output_rows * (w * nb) <= output@.len()) by (nonlinear_arith)
                requires
                    output@.len() == row_len * output_rows + (output@.len() as int) % (row_len as int),
                    0 <= (output@.len() as int) % (row_len as int),
                    row_len == w * nb,
            ;
            assert(rows * (w * nb) <= output@.len()) by (nonlinear_arith)
                requires
                    output_rows * (w * nb) <= output@.len(),
                    rows <= output_rows,
                    0 <= w * nb,
            ;
            assert(w * ir * nb == ir * (w * nb)) by (nonlinear_arith);
            assert(w * rows * nb == rows * (w * nb)) by (nonlinear_arith);
            assert(w * ir <= w * ir * nb) by (nonlinear_arith)
                requires
                    0 < w,
                    0 <= ir,
                    1 <= nb,
            ;
            assert(w * rows <= w * rows * nb) by (nonlinear_arith)
                requires
                    0 < w,
                    0 <= rows,
                    1 <= nb,
            ;
            assert(sample_index(w, nb, 0, 0, 0) == 0) by (nonlinear_arith);
        }

        let mut row: usize = 0;
        while row < rows
            invariant
                row <= rows,
                rows <= input_rows,
                input_rows == ir,
                w == width,
                nb == bands,
                0 < w,
                0 < nb,
                n == w * rows * nb,
                tile_fits(w, ir, nb),
                tile_fits(w, rows as int, nb),
                w * ir * nb <= input@.len(),
                n <= old_out.len(),
                expected == rotate180_samples(input@, w, nb, ir, rows as int),
                output@.len() == old_out.len(),
                forall|i: int|
                    0 <= i < sample_index(w, nb, 0, row as int, 0) ==> #[trigger] output@[i]
                        == expected[i],
                forall|i: int|
                    sample_index(w, nb, 0, row as int, 0) <= i < old_out.len() ==> #[trigger] output@[i]
                        == old_out[i],
            decreases rows - row,
        {
            let src_row = input_rows - 1 - row;
            let mut col: usize = 0;
            while col < width
                invariant
                    row < rows,
                    rows <= input_rows,
                    input_rows == ir,
                    src_row == input_rows - 1 - row,
                    col <= width,
                    w == width,
                    nb == bands,
                    0 < w,
                    0 < nb,
                    n == w * rows * nb,
                    tile_fits(w, ir, nb),
                    tile_fits(w, rows as int, nb),
                    w * ir * nb <= input@.len(),
                    n <= old_out.len(),
                    expected == rotate180_samples(input@, w, nb, ir, rows as int),
                    output@.len() == old_out.len(),
                    forall|i: int|
                        0 <= i < sample_index(w, nb, col as int, row as int, 0) ==> #[trigger] output@[i]
                            == expected[i],
                    forall|i: int|
                        sample_index(w, nb, col as int, row as int, 0) <= i < old_out.len()
                            ==> #[trigger] output@[i] == old_out[i],
                decreases width - col,
            {
                let src_col = width - 1 - col;
                let mut band: usize = 0;
                while band < bands
                    invariant
                        row < rows,
                        rows <= input_rows,
                        input_rows == ir,
                        src_row == input_rows - 1 - row,
                        col < width,
                        src_col == width - 1 - col,
                        band <= bands,
                        w == width,
                        nb == bands,
                        0 < w,
                        0 < nb,
                        n == w * rows * nb,
                        tile_fits(w, ir, nb),
                        tile_fits(w, rows as int, nb),
                        w * ir * nb <= input@.len(),
                        n <= old_out.len(),
                        expected == rotate180_samples(input@, w, nb, ir, rows as int),
                        output@.len() == old_out.len(),
                        forall|i: int|
                            0 <= i < sample_index(w, nb, col as int, row as int, band as int)
                                ==> #[trigger] output@[i] == expected[i],
                        forall|i: int|
                            sample_index(w, nb, col as int, row as int, band as int) <= i
                                < old_out.len() ==> #[trigger] output@[i] == old_out[i],
                    decreases bands - band,
                {
                    proof {
                        lemma_sample_offsets(w, rows as int, nb, col as int, row as int, band as int);
                        lemma_sample_offsets(w, ir, nb, src_col as int, src_row as int, band as int);
                        lemma_sample_index_split(w, nb, col as int, row as int, band as int);
                    }
                    let dst = row * width * bands + col * bands + band;
                    let src = src_row * width * bands + src_col * bands + band;
                    output[dst] = input[src];
                    band += 1;
                }
                proof {
                    lemma_sample_index_step(w, nb, col as int, row as int);
                }
                col += 1;
            }
            proof {
                lemma_sample_index_step(w, nb, 0, row as int);
            }
            row += 1;
        }
        proof {
            lemma_sample_index_step(w, nb, 0, rows as int);
            assert(sample_index(w, nb, 0, rows as int, 0) == n) by (nonlinear_arith)
                requires
                    sample_index(w, nb, 0, rows as int, 0) == rows * w * nb,
                    n == w * rows * nb,
            ;
            assert(output@ =~= overwrite_prefix(old_out, expected));
        }
    }
}

} // verus!

verus! {

/// Rotating a whole tile by 180 degrees twice gives back the tile.
pub proof fn lemma_rotate180_twice<T>(s: Seq<T>, width: int, rows: int, bands: int)
    requires
        0 <= width,
        0 <= rows,
        0 <= bands,
        s.len() == width * rows * bands,
    ensures
        rotate180_samples(rotate180_samples(s, width, bands, rows, rows), width, bands, rows, rows)
            == s,
{
    let once = rotate180_samples(s, width, bands, rows, rows);
    let twice = rotate180_samples(once, width, bands, rows, rows);
    assert forall|i: int| 0 <= i < s.len() implies #[trigger] twice[i] == s[i] by {
        assert(0 < width && 0 < bands) by (nonlinear_arith)
            requires
                0 <= i < width * rows * bands,
                0 <= width,
                0 <= rows,
                0 <= bands,
        ;
        lemma_flat_index_split(i, width, rows, bands);
        let x = column_of(i, width, bands);
        let y = row_of(i, width, bands);
        let c = band_of(i, bands);
        lemma_sample_index_split(width, bands, width - 1 - x, rows - 1 - y, c);
        lemma_sample_index_bound(width, rows, bands, width - 1 - x, rows - 1 - y, c);
    }
    assert(twice =~= s);
}

} // verus!
