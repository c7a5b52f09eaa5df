//! Embedding an image into a larger canvas.
use std::marker::PhantomData;

use vstd::prelude::*;

use crate::format::{BandFormat, BandFormatId};
use crate::layout::{
    band_of, column_of, lemma_flat_index_split, lemma_sample_index_split, lemma_sample_index_step, lemma_sample_offsets,
    overwrite_prefix, row_of, sample_index, tile_fits,
};
use crate::op::{DemandHint, DynOperation, NodeSpec};
use crate::region::{clamp_i64_to_i32, clamp_to_i32, Region};

verus! {

/// How canvas pixels outside the embedded source are filled.
#[derive(Clone, Copy, Debug, PartialEq, Eq, Structural)]
pub enum ExtendMode {
    /// The zero sample of the format (black for unsigned formats).
    Black,
    /// The input pixel as read, which the source has already clamped to its
    /// nearest edge pixel.
    Edge,
}

/// The canvas pixel `(cx, cy)` shows a pixel of the source placed at
/// `(x_off, y_off)`.
pub open spec fn inside_source(
    cx: int,
    cy: int,
    x_off: int,
    y_off: int,
    src_width: int,
    src_height: int,
) -> bool {
    &&& 0 <= cx - x_off < src_width
    &&& 0 <= cy - y_off < src_height
}

/// Output sample `i` of the canvas tile `output_region` is copied from the
/// input tile (rather than zero-filled).
pub open spec fn embed_copies(
    i: int,
    output_region: Region,
    bands: int,
    x_off: int,
    y_off: int,
    src_width: int,
    src_height: int,
    extend: ExtendMode,
) -> bool {
    extend == ExtendMode::Edge || inside_source(
        output_region.x + column_of(i, output_region.width as int, bands),
        output_region.y + row_of(i, output_region.width as int, bands),
        x_off,
        y_off,
        src_width,
        src_height,
    )
}

/// The canvas tile `output_region`: each sample is the input sample at the same
/// index where [`embed_copies`] holds, and `zero` elsewhere.
pub open spec fn embed_samples<T>(
    input: Seq<T>,
    output_region: Region,
    bands: int,
    x_off: int,
    y_off: int,
    src_width: int,
    src_height: int,
    extend: ExtendMode,
    zero: T,
) -> Seq<T> {
    Seq::new(
        output_region.area() * (bands as nat),
        |i: int|
            if embed_copies(i, output_region, bands, x_off, y_off, src_width, src_height, extend) {
                input[i]
            } else {
                zero
            },
    )
}

/// Places a `src_width × src_height` image at `(x_off, y_off)` on a
/// `dst_width × dst_height` canvas, filling the rest according to `extend`.
pub struct Embed<F: BandFormat> {
    dst_width: u32,
    dst_height: u32,
    x_off: u32,
    y_off: u32,
    src_width: u32,
    src_height: u32,
    extend: ExtendMode,
    _fmt: PhantomData<F>,
}

impl<F: BandFormat> Embed<F> {
    /// Canvas width.
    pub closed spec fn canvas_width(&self) -> u32 {
        self.dst_width
    }

    /// Canvas height.
    pub closed spec fn canvas_height(&self) -> u32 {
        self.dst_height
    }

    /// Left edge of the source on the canvas.
    pub closed spec fn offset_x(&self) -> u32 {
        self.x_off
    }

    /// Top edge of the source on the canvas.
    pub closed spec fn offset_y(&self) -> u32 {
        self.y_off
    }

    /// Source width.
    pub closed spec fn source_width(&self) -> u32 {
        self.src_width
    }

    /// Source height.
    pub closed spec fn source_height(&self) -> u32 {
        self.src_height
    }

    /// Fill mode.
    pub closed spec fn extend_mode(&self) -> ExtendMode {
        self.extend
    }

    /// Embeds a `src_width × src_height` source at `(x_off, y_off)` on a
    /// `dst_width × dst_height` canvas.
    pub fn new(
        dst_width: u32,
        dst_height: u32,
        x_off: u32,
        y_off: u32,
        src_width: u32,
        src_height: u32,
        extend: ExtendMode,
    ) -> (r: Self)
        ensures
            r.canvas_width() == dst_width,
            r.canvas_height() == dst_height,
            r.offset_x() == x_off,
            r.offset_y() == y_off,
            r.source_width() == src_width,
            r.source_height() == src_height,
            r.extend_mode() == extend,
    {
        Embed {
            dst_width,
            dst_height,
            x_off,
            y_off,
            src_width,
            src_height,
            extend,
            _fmt: PhantomData,
        }
    }

    /// Preferred tile shape.
    pub fn demand_hint(&self) -> (r: DemandHint)
        ensures
            r == DemandHint::ThinStrip,
    {
        DemandHint::ThinStrip
    }

    /// A canvas region maps to the source by subtracting the offset; the corner
    /// is saturated to the `i32` range and may lie outside the source.
    pub fn required_input_region(&self, output: &Region) -> (r: Region)
        ensures
            r == (Region {
                x: clamp_to_i32(output.x - self.offset_x()),
                y: clamp_to_i32(output.y - self.offset_y()),
                width: output.width,
                height: output.height,
            }),
    {
        Region::new(
            clamp_i64_to_i32(output.x as i64 - self.x_off as i64),
            clamp_i64_to_i32(output.y as i64 - self.y_off as i64),
            output.width,
            output.height,
        )
    }

    /// Fills the canvas tile `output_region`: samples of pixels that show the
    /// source (or every sample, in `Edge` mode) are copied from the input tile,
    /// which has the same layout; the others are zero. Samples past the tile
    /// in `output` are left as they were.
    pub fn process_region(
        &self,
        input: &[F::Sample],
        output_region: &Region,
        bands: u32,
        output: &mut [F::Sample],
    )
        requires
            tile_fits(output_region.width as int, output_region.height as int, bands as int),
            old(output)@.len() >= output_region.area() * bands,
            forall|i: int|
                0 <= i < output_region.area() * bands && #[trigger] embed_copies(
                    i,
                    *output_region,
                    bands as int,
                    self.offset_x() as int,
                    self.offset_y() as int,
                    self.source_width() as int,
                    self.source_height() as int,
                    self.extend_mode(),
                ) ==> i < input@.len(),
        ensures
            final(output)@ == overwrite_prefix(
                old(output)@,
                embed_samples(
                    input@,
                    *output_region,
                    bands as int,
                    self.offset_x() as int,
                    self.offset_y() as int,
                    self.source_width() as int,
                    self.source_height() as int,
                    self.extend_mode(),
                    F::zero_sample(),
                ),
            ),
    {
        let bands = bands as usize;
        let tile_width = output_region.width as usize;
        let tile_height = output_region.height as usize;
        let canvas_origin_x = output_region.x as i64;
        let canvas_origin_y = output_region.y as i64;
        let x_off = self.x_off as i64;
        let y_off = self.y_off as i64;
        let src_width = self.src_width as i64;
        let src_height = self.src_height as i64;
        let ghost w = tile_width as int;
        let ghost h = tile_height as int;
        let ghost nb = bands as int;
        let ghost n = w * h * nb;
        let ghost expected = embed_samples(
            input@,
            *output_region,
            nb,
            self.offset_x() as int,
            self.offset_y() as int,
            self.source_width() as int,
            self.source_height() as int,
            self.extend_mode(),
            F::zero_sample(),
        );
        let ghost old_out = output@;
        proof {
            assert(sample_index(w, nb, 0, 0, 0) == 0) by (nonlinear_arith);
            assert(output_region.area() * nb == n) by (nonlinear_arith)
                requires
                    n == w * h * nb,
                    w == output_region.width,
                    h == output_region.height,
                    output_region.area() == output_region.width as nat * output_region.height as nat,
            ;
        }

        let mut row: usize = 0;
        while row < tile_height
            invariant
                row <= tile_height,
                w == tile_width,
                h == tile_height,
                w == output_region.width,
                h == output_region.height,
                nb == bands,
                n == w * h * nb,
                n == output_region.area() * nb,
                canvas_origin_x == output_region.x,
                canvas_origin_y == output_region.y,
                x_off == self.x_off,
                y_off == self.y_off,
                src_width == self.src_width,
                src_height == self.src_height,
                tile_fits(w, h, nb),
                n <= old_out.len(),
                forall|i: int|
                    0 <= i < n && #[trigger] embed_copies(
                        i,
                        *output_region,
                        nb,
                        self.offset_x() as int,
                        self.offset_y() as int,
                        self.source_width() as int,
                        self.source_height() as int,
                        self.extend_mode(),
                    ) ==> i < input@.len(),
                expected == embed_samples(
                    input@,
                    *output_region,
                    nb,
                    self.offset_x() as int,
                    self.offset_y() as int,
                    self.source_width() as int,
                    self.source_height() as int,
                    self.extend_mode(),
                    F::zero_sample(),
                ),
                output@.len() == old_out.len(),
                forall|i: int|
                    0 <= i < sample_index(w, nb, 0, row as int, 0) ==> #[trigger] output@[i]
                        == expected[i],
                forall|i: int|
                    sample_index(w, nb, 0, row as int, 0) <= i < old_out.len() ==> #[trigger] output@[i]
                        == old_out[i],
            decreases tile_height - row,
        {
            let canvas_y = canvas_origin_y + row as i64;
            let mut col: usize = 0;
            while col < tile_width
                invariant
                    row < tile_height,
                    canvas_y == canvas_origin_y + row,
                    col <= tile_width,
                    w == tile_width,
                    h == tile_height,
                    w == output_region.width,
                    h == output_region.height,
                    nb == bands,
                    n == w * h * nb,
                    n == output_region.area() * nb,
                    canvas_origin_x == output_region.x,
                    canvas_origin_y == output_region.y,
                    x_off == self.x_off,
                    y_off == self.y_off,
                    src_width == self.src_width,
                    src_height == self.src_height,
                    tile_fits(w, h, nb),
                    n <= old_out.len(),
                    forall|i: int|
                        0 <= i < n && #[trigger] embed_copies(
                            i,
                            *output_region,
                            nb,
                            self.offset_x() as int,
                            self.offset_y() as int,
                            self.source_width() as int,
                            self.source_height() as int,
                            self.extend_mode(),
                        ) ==> i < input@.len(),
                    expected == embed_samples(
                        input@,
                        *output_region,
                        nb,
                        self.offset_x() as int,
                        self.offset_y() as int,
                        self.source_width() as int,
                        self.source_height() as int,
                        self.extend_mode(),
                        F::zero_sample(),
                    ),
                    output@.len() == old_out.len(),
                    forall|i: int|
                        0 <= i < sample_index(w, nb, col as int, row as int, 0) ==> #[trigger] output@[i]
                            == expected[i],
                    forall|i: int|
                        sample_index(w, nb, col as int, row as int, 0) <= i < old_out.len()
                            ==> #[trigger] output@[i] == old_out[i],
                decreases tile_width - col,
            {
                let canvas_x = canvas_origin_x + col as i64;
                let src_x = canvas_x - x_off;
                let src_y = canvas_y - y_off;
                let in_bounds = src_x >= 0 && src_x < src_width && src_y >= 0 && src_y < src_height;
                let copy = in_bounds || self.extend == ExtendMode::Edge;
                let mut band: usize = 0;
                while band < bands
                    invariant
                        row < tile_height,
                        col < tile_width,
                        canvas_y == canvas_origin_y + row,
                        canvas_x == canvas_origin_x + col,
                        src_x == canvas_x - x_off,
                        src_y == canvas_y - y_off,
                        in_bounds == (0 <= src_x < src_width && 0 <= src_y < src_height),
                        copy == (in_bounds || self.extend == ExtendMode::Edge),
                        band <= bands,
                        w == tile_width,
                        h == tile_height,
                        w == output_region.width,
                        h == output_region.height,
                        nb == bands,
                        n == w * h * nb,
                        n == output_region.area() * nb,
                        canvas_origin_x == output_region.x,
                        canvas_origin_y == output_region.y,
                        x_off == self.x_off,
                        y_off == self.y_off,
                        src_width == self.src_width,
                        src_height == self.src_height,
                        tile_fits(w, h, nb),
                        n <= old_out.len(),
                        forall|i: int|
                            0 <= i < n && #[trigger] embed_copies(
                                i,
                                *output_region,
                                nb,
                                self.offset_x() as int,
                                self.offset_y() as int,
                                self.source_width() as int,
                                self.source_height() as int,
                                self.extend_mode(),
                            ) ==> i < input@.len(),
                        expected == embed_samples(
                            input@,
                            *output_region,
                            nb,
                            self.offset_x() as int,
                            self.offset_y() as int,
                            self.source_width() as int,
                            self.source_height() as int,
                            self.extend_mode(),
                            F::zero_sample(),
                        ),
                        output@.len() == old_out.len(),
                        forall|i: int|
                            0 <= i < sample_index(w, nb, col as int, row as int, band as int)
                                ==> #[trigger] output@[i] == expected[i],
                        forall|i: int|
                            sample_index(w, nb, col as int, row as int, band as int) <= i
                                < old_out.len() ==> #[trigger] output@[i] == old_out[i],
                    decreases bands - band,
                {
                    proof {
                        lemma_sample_offsets(w, h, nb, col as int, row as int, band as int);
                        lemma_sample_index_split(w, nb, col as int, row as int, band as int);
                        let k = sample_index(w, nb, col as int, row as int, band as int);
                        assert(embed_copies(
                            k,
                            *output_region,
                            nb,
                            self.offset_x() as int,
                            self.offset_y() as int,
                            self.source_width() as int,
                            self.source_height() as int,
                            self.extend_mode(),
                        ) == copy);
                    }
                    let idx = (row * tile_width + col) * bands + band;
                    if copy {
                        output[idx] = input[idx];
                    } else {
                        output[idx] = F::zero();
                    }
                    band += 1;
                }
                proof {
                    lemma_sample_index_step(w, nb, col as int, row as int);
                }
                col += 1;
            }
            proof {
                lemma_sample_index_step(w, nb, 0, row as int);
            }
            row += 1;
        }
        proof {
            lemma_sample_index_step(w, nb, 0, h);
            assert(sample_index(w, nb, 0, h, 0) == n) by (nonlinear_arith)
                requires
                    sample_index(w, nb, 0, h, 0) == h * w * nb,
                    n == w * h * nb,
            ;
            assert(output@ =~= overwrite_prefix(old_out, expected));
        }
    }
}

/// Format-erased wrapper of [`Embed`] that reports the canvas size.
pub struct EmbedBridge<F: BandFormat> {
    op: Embed<F>,
    bands: u32,
}

impl<F: BandFormat> EmbedBridge<F> {
    /// The wrapped embedding.
    pub closed spec fn embedding(&self) -> Embed<F> {
        self.op
    }

    /// Number of bands the bridge carries.
    pub closed spec fn band_count(&self) -> u32 {
        self.bands
    }

    /// Embeds a `src_width × src_height` source of `bands` bands at
    /// `(x_off, y_off)` on a `dst_width × dst_height` canvas.
    pub fn new(
        dst_width: u32,
        dst_height: u32,
        x_off: u32,
        y_off: u32,
        src_width: u32,
        src_height: u32,
        extend: ExtendMode,
        bands: u32,
    ) -> (r: Self)
        ensures
            r.embedding().canvas_width() == dst_width,
            r.embedding().canvas_height() == dst_height,
            r.embedding().offset_x() == x_off,
            r.embedding().offset_y() == y_off,
            r.embedding().source_width() == src_width,
            r.embedding().source_height() == src_height,
            r.embedding().extend_mode() == extend,
            r.band_count() == bands,
    {
        EmbedBridge {
            op: Embed::new(dst_width, dst_height, x_off, y_off, src_width, src_height, extend),
            bands,
        }
    }

    /// Runs the embedding on a tile; see [`Embed::process_region`].
    pub fn dyn_process_region(
        &self,
        input: &[F::Sample],
        output: &mut [F::Sample],
        _input_region: Region,
        output_region: Region,
    )
        requires
            tile_fits(
                output_region.width as int,
                output_region.height as int,
                self.band_count() as int,
            ),
            old(output)@.len() >= output_region.area() * self.band_count(),
            forall|i: int|
                0 <= i < output_region.area() * self.band_count() && #[trigger] embed_copies(
                    i,
                    output_region,
                    self.band_count() as int,
                    self.embedding().offset_x() as int,
                    self.embedding().offset_y() as int,
                    self.embedding().source_width() as int,
                    self.embedding().source_height() as int,
                    self.embedding().extend_mode(),
                ) ==> i < input@.len(),
        ensures
            final(output)@ == overwrite_prefix(
                old(output)@,
                embed_samples(
                    input@,
                    output_region,
                    self.band_count() as int,
                    self.embedding().offset_x() as int,
                    self.embedding().offset_y() as int,
                    self.embedding().source_width() as int,
                    self.embedding().source_height() as int,
                    self.embedding().extend_mode(),
                    F::zero_sample(),
                ),
            ),
    {
        self.op.process_region(input, &output_region, self.bands, output);
    }
}

impl<F: BandFormat> DynOperation for EmbedBridge<F> {
    open spec fn serves_region(&self, output: Region) -> bool {
        true
    }

    open spec fn serves_slot_region(&self, output: Region, slot: int) -> bool {
        self.serves_region(output)
    }

    open spec fn serves_tile(&self, tile_w: u32, tile_h: u32) -> bool {
        true
    }

    open spec fn input_format_of(&self) -> BandFormatId {
        F::format_id()
    }

    open spec fn output_format_of(&self) -> BandFormatId {
        F::format_id()
    }

    open spec fn bands_of(&self) -> u32 {
        self.band_count()
    }

    open spec fn demand_hint_of(&self) -> DemandHint {
        DemandHint::ThinStrip
    }

    open spec fn input_slots(&self) -> usize {
        1
    }

    open spec fn input_region_of(&self, output: Region) -> Region {
        Region {
            x: clamp_to_i32(output.x - self.embedding().offset_x()),
            y: clamp_to_i32(output.y - self.embedding().offset_y()),
            width: output.width,
            height: output.height,
        }
    }

    open spec fn slot_region_of(&self, output: Region, slot: int) -> Region {
        self.input_region_of(output)
    }

    open spec fn node_spec_of(&self, tile_w: u32, tile_h: u32) -> NodeSpec {
        NodeSpec {
            input_tile_w: tile_w,
            input_tile_h: tile_h,
            output_tile_w: tile_w,
            output_tile_h: tile_h,
        }
    }

    /// The output image is the canvas.
    open spec fn output_width_of(&self, input_w: u32) -> u32 {
        self.embedding().canvas_width()
    }

    /// The output image is the canvas.
    open spec fn output_height_of(&self, input_h: u32) -> u32 {
        self.embedding().canvas_height()
    }

    fn input_format(&self) -> BandFormatId {
        F::id()
    }

    fn output_format(&self) -> BandFormatId {
        F::id()
    }

    fn bands(&self) -> u32 {
        self.bands
    }

    fn demand_hint(&self) -> DemandHint {
        self.op.demand_hint()
    }

    fn input_slot_count(&self) -> usize {
        1
    }

    fn required_input_region(&self, output: &Region) -> Region {
        self.op.required_input_region(output)
    }

    fn required_input_region_slot(&self, output: &Region, _slot: usize) -> Region {
        self.op.required_input_region(output)
    }

    fn node_spec(&self, tile_w: u32, tile_h: u32) -> NodeSpec {
        NodeSpec::identity(tile_w, tile_h)
    }

    /// The output image is the canvas.
    fn output_width(&self, _input_w: u32) -> u32 {
        self.op.dst_width
    }

    /// The output image is the canvas.
    fn output_height(&self, _input_h: u32) -> u32 {
        self.op.dst_height
    }
}

} // verus!

verus! {

/// Embedding a `width × height` source at offset `(0, 0)` on a canvas of the
/// same size, black-filled, reproduces the source tile covering the canvas.
pub proof fn lemma_embed_in_place_is_identity<T>(
    s: Seq<T>,
    width: u32,
    height: u32,
    bands: int,
    zero: T,
)
    requires
        0 <= bands,
        s.len() == width * height * bands,
    ensures
        embed_samples(
            s,
            Region { x: 0, y: 0, width, height },
            bands,
            0,
            0,
            width as int,
            height as int,
            ExtendMode::Black,
            zero,
        ) == s,
{
    let r = Region { x: 0, y: 0, width, height };
    let e = embed_samples(s, r, bands, 0, 0, width as int, height as int, ExtendMode::Black, zero);
    assert forall|i: int| 0 <= i < s.len() implies #[trigger] e[i] == s[i] by {
        assert(0 < width && 0 < bands) by (nonlinear_arith)
            requires
                0 <= i < width * height * bands,
                0 <= bands,
        ;
        lemma_flat_index_split(i, width as int, height as int, bands);
    }
    assert(e =~= s);
}

/// In `Black` mode, a canvas sample whose pixel lies outside the embedded
/// source is the zero sample.
pub proof fn lemma_embed_black_outside_is_zero<T>(
    s: Seq<T>,
    output_region: Region,
    bands: int,
    x_off: int,
    y_off: int,
    src_width: int,
    src_height: int,
    zero: T,
    i: int,
)
    requires
        0 <= bands,
        0 <= i < output_region.area() * bands,
        !inside_source(
            output_region.x + column_of(i, output_region.width as int, bands),
            output_region.y + row_of(i, output_region.width as int, bands),
            x_off,
            y_off,
            src_width,
            src_height,
        ),
    ensures
        embed_samples(
            s,
            output_region,
            bands,
            x_off,
            y_off,
            src_width,
            src_height,
            ExtendMode::Black,
            zero,
        )[i] == zero,
{
}


/// What each canvas sample is: sample `i` of the canvas tile `output_region`
/// belongs to canvas pixel `(cx, cy)`. In `Black` mode it is the zero sample
/// when that pixel lies left of, right of, above or below the source placed
/// at `(x_off, y_off)` (`cx < x_off`, `cx >= x_off + src_width`,
/// `cy < y_off` or `cy >= y_off + src_height`) and the input sample at the
/// same index otherwise; in `Edge` mode it is always the input sample.
pub proof fn lemma_embed_sample_placement<T>(
    s: Seq<T>,
    output_region: Region,
    bands: int,
    x_off: int,
    y_off: int,
    src_width: int,
    src_height: int,
    extend: ExtendMode,
    zero: T,
    i: int,
)
    requires
        0 <= bands,
        0 <= i < output_region.area() * bands,
    ensures
        ({
            let w = output_region.width as int;
            let cx = output_region.x + (i / bands) % w;
            let cy = output_region.y + (i / bands) / w;
            let outside = cx < x_off || cx >= x_off + src_width || cy < y_off || cy >= y_off
                + src_height;
            let e = embed_samples(
                s,
                output_region,
                bands,
                x_off,
                y_off,
                src_width,
                src_height,
                extend,
                zero,
            );
            &&& (extend == ExtendMode::Black && outside) ==> e[i] == zero
            &&& (extend == ExtendMode::Black && !outside) ==> e[i] == s[i]
            &&& extend == ExtendMode::Edge ==> e[i] == s[i]
        }),
{
}

} // verus!
