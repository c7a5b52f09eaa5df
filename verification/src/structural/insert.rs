//! Overlay of a sub-image on a main image.
use vstd::arithmetic::div_mod::lemma_fundamental_div_mod_converse;
use vstd::prelude::*;

use crate::format::{sample_bytes, sample_size_bytes, BandFormatId};
use crate::layout::overwrite_prefix;
use crate::op::{DemandHint, DynOperation, NodeSpec};
use crate::region::{clamp_i64_to_i32, clamp_to_i32, Region};

verus! {

/// Extent of an insert along one axis: the main extent, grown to reach the far
/// edge of the sub-image (placed at `offset`, negative offsets counted as 0,
/// saturating at `u32::MAX`) when `expand` is set.
pub open spec fn insert_extent(main: u32, offset: i32, sub: u32, expand: bool) -> u32 {
    if expand {
        let start: int = if offset > 0 {
            offset as int
        } else {
            0
        };
        let end: int = if start + sub > u32::MAX {
            u32::MAX as int
        } else {
            start + sub
        };
        if main >= end {
            main
        } else {
            end as u32
        }
    } else {
        main
    }
}

/// Smaller of two integers.
pub open spec fn min_int(a: int, b: int) -> int {
    if a <= b {
        a
    } else {
        b
    }
}

/// Larger of two integers.
pub open spec fn max_int(a: int, b: int) -> int {
    if a >= b {
        a
    } else {
        b
    }
}

/// The part of `output` covered by the `pw × ph` rectangle at `(px, py)`,
/// in that rectangle's own coordinates (right and bottom edges saturated to
/// the `i32` range); the empty region at the origin when they do not overlap.
pub open spec fn intersect_translate(output: Region, px: int, py: int, pw: int, ph: int) -> Region {
    let left = max_int(output.x as int, px);
    let top = max_int(output.y as int, py);
    let right = min_int(
        clamp_to_i32(output.x + output.width) as int,
        clamp_to_i32(px + pw) as int,
    );
    let bottom = min_int(
        clamp_to_i32(output.y + output.height) as int,
        clamp_to_i32(py + ph) as int,
    );
    if right <= left || bottom <= top {
        Region { x: 0, y: 0, width: 0, height: 0 }
    } else {
        Region {
            x: (left - px) as i32,
            y: (top - py) as i32,
            width: (right - left) as u32,
            height: (bottom - top) as u32,
        }
    }
}

/// The translated corner of [`intersect_translate`] fits an `i32`.
pub open spec fn intersect_translate_fits(
    output: Region,
    px: int,
    py: int,
    pw: int,
    ph: int,
) -> bool {
    let left = max_int(output.x as int, px);
    let top = max_int(output.y as int, py);
    let right = min_int(
        clamp_to_i32(output.x + output.width) as int,
        clamp_to_i32(px + pw) as int,
    );
    let bottom = min_int(
        clamp_to_i32(output.y + output.height) as int,
        clamp_to_i32(py + ph) as int,
    );
    right <= left || bottom <= top || {
        &&& left - px <= i32::MAX
        &&& top - py <= i32::MAX
        &&& right - left <= i32::MAX
        &&& bottom - top <= i32::MAX
    }
}

/// The part of `output` covered by the `pw × ph` rectangle at `(px, py)`, in
/// that rectangle's coordinates; see [`intersect_translate`].
pub fn intersect_and_translate(output: Region, px: i32, py: i32, pw: u32, ph: u32) -> (r: Region)
    requires
        intersect_translate_fits(output, px as int, py as int, pw as int, ph as int),
    ensures
        r == intersect_translate(output, px as int, py as int, pw as int, ph as int),
{
    let left = if output.x >= px {
        output.x
    } else {
        px
    };
    let top = if output.y >= py {
        output.y
    } else {
        py
    };
    let out_right = clamp_i64_to_i32(output.x as i64 + output.width as i64);
    let place_right = clamp_i64_to_i32(px as i64 + pw as i64);
    let right = if out_right <= place_right {
        out_right
    } else {
        place_right
    };
    let out_bottom = clamp_i64_to_i32(output.y as i64 + output.height as i64);
    let place_bottom = clamp_i64_to_i32(py as i64 + ph as i64);
    let bottom = if out_bottom <= place_bottom {
        out_bottom
    } else {
        place_bottom
    };

    if right <= left || bottom <= top {
        return Region::new(0, 0, 0, 0);
    }
    Region::new(left - px, top - py, (right - left) as u32, (bottom - top) as u32)
}

/// Where a paste of `input_region` lands in `output_region`: the pasted
/// rectangle lies inside the output tile, so every row is written in place.
pub open spec fn paste_fits(input_region: Region, output_region: Region, px: int, py: int) -> bool {
    let ox = px + input_region.x - output_region.x;
    let oy = py + input_region.y - output_region.y;
    &&& 0 <= ox
    &&& 0 <= oy
    &&& ox + input_region.width <= output_region.width
    &&& oy + input_region.height <= output_region.height
}

/// A paste writes something: its input region holds pixels.
pub open spec fn pastes(input_region: Region) -> bool {
    input_region.width != 0 && input_region.height != 0
}

/// The bytes a paste writes, up to pixel row `rows` of the input region and
/// within that row up to byte `bytes`: `input_region` (packed rows of
/// `pixel_bytes`-byte pixels) copied over `out` at its place in
/// `output_region`, the pasted rectangle's corner being the input region's
/// corner moved by `(px, py)`.
pub open spec fn paste_partial(
    out: Seq<u8>,
    input: Seq<u8>,
    input_region: Region,
    output_region: Region,
    px: int,
    py: int,
    pixel_bytes: int,
    rows: int,
    bytes: int,
) -> Seq<u8> {
    let orb = output_region.width * pixel_bytes;
    let rb = input_region.width * pixel_bytes;
    let ox = (px + input_region.x - output_region.x) * pixel_bytes;
    let oy = py + input_region.y - output_region.y;
    Seq::new(
        out.len(),
        |i: int|
            {
                let r = i / orb - oy;
                let c = i % orb - ox;
                if orb > 0 && 0 <= r < input_region.height && 0 <= c < rb && (r < rows || (r
                    == rows && c < bytes)) {
                    input[r * rb + c]
                } else {
                    out[i]
                }
            },
    )
}

/// `input_region` pasted over `out` at its place in `output_region`.
pub open spec fn paste(
    out: Seq<u8>,
    input: Seq<u8>,
    input_region: Region,
    output_region: Region,
    px: int,
    py: int,
    pixel_bytes: int,
) -> Seq<u8> {
    if pastes(input_region) {
        paste_partial(
            out,
            input,
            input_region,
            output_region,
            px,
            py,
            pixel_bytes,
            input_region.height as int,
            0,
        )
    } else {
        out
    }
}

/// A paste reads inside its input and writes inside its output, and its byte
/// offsets fit a `usize`.
pub open spec fn paste_in_bounds(
    input_len: int,
    input_region: Region,
    output_len: int,
    output_region: Region,
    px: int,
    py: int,
    pixel_bytes: int,
) -> bool {
    let orb = output_region.width * pixel_bytes;
    let ox = px + input_region.x - output_region.x;
    let oy = py + input_region.y - output_region.y;
    pastes(input_region) ==> {
        &&& paste_fits(input_region, output_region, px, py)
        &&& input_region.area() * pixel_bytes <= input_len
        &&& output_region.area() * pixel_bytes <= usize::MAX
        &&& (oy + input_region.height - 1) * orb + (ox + input_region.width) * pixel_bytes
            <= output_len
    }
}

/// The output tile of an insert: zeros, the main image pasted at its place,
/// then the sub-image pasted over it at `(x, y)`.
pub open spec fn insert_samples(
    output_len: int,
    main: Seq<u8>,
    main_region: Region,
    sub: Seq<u8>,
    sub_region: Region,
    output_region: Region,
    x: int,
    y: int,
    pixel_bytes: int,
) -> Seq<u8> {
    paste(
        paste(
            Seq::new(output_len as nat, |i: int| 0u8),
            main,
            main_region,
            output_region,
            0,
            0,
            pixel_bytes,
        ),
        sub,
        sub_region,
        output_region,
        x,
        y,
        pixel_bytes,
    )
}

proof fn lemma_paste_position(orb: int, oy: int, ox: int, row: int, j: int, pixel_bytes: int)
    requires
        0 <= pixel_bytes,
        0 <= ox,
        0 <= oy,
        0 <= row,
        0 <= j,
        ox * pixel_bytes + j < orb,
    ensures
        ((oy + row) * orb + ox * pixel_bytes + j) / orb - oy == row,
        ((oy + row) * orb + ox * pixel_bytes + j) % orb - ox * pixel_bytes == j,
{
    assert(0 <= ox * pixel_bytes) by (nonlinear_arith)
        requires
            0 <= pixel_bytes,
            0 <= ox,
    ;
    lemma_fundamental_div_mod_converse(
        (oy + row) * orb + ox * pixel_bytes + j,
        orb,
        oy + row,
        ox * pixel_bytes + j,
    );
}

proof fn lemma_paste_position_unique(i: int, orb: int, q: int, r: int)
    requires
        orb > 0,
        i / orb == q,
        i % orb == r,
    ensures
        i == q * orb + r,
{
    vstd::arithmetic::div_mod::lemma_fundamental_div_mod(i, orb);
    assert(orb * (i / orb) == q * orb) by (nonlinear_arith)
        requires
            i / orb == q,
    ;
}

fn paste_region(
    input: &[u8],
    input_region: Region,
    output: &mut [u8],
    output_region: Region,
    px: i32,
    py: i32,
    pixel_bytes: usize,
)
    requires
        paste_in_bounds(
            input@.len() as int,
            input_region,
            old(output)@.len() as int,
            output_region,
            px as int,
            py as int,
            pixel_bytes as int,
        ),
    ensures
        final(output)@ == paste(
            old(output)@,
            input@,
            input_region,
            output_region,
            px as int,
            py as int,
            pixel_bytes as int,
        ),
{
    if input_region.is_empty() {
        return;
    }
    let ghost old_out = output@;
    let ghost pb = pixel_bytes as int;
    let ghost iw = input_region.width as int;
    let ghost ih = input_region.height as int;
    let ghost ow = output_region.width as int;
    let ghost oh = output_region.height as int;
    proof {
        vstd::slice::axiom_spec_len(input);
        vstd::slice::axiom_spec_len(output);
        assert(iw * pb <= ow * pb && ih * iw * pb <= usize::MAX && ow * pb <= usize::MAX
            && ih * iw * pb == input_region.area() * pb) by (nonlinear_arith)
            requires
                iw <= ow,
                1 <= ih <= oh,
                0 <= pb,
                0 <= iw,
                input_region.area() == iw * ih,
                input_region.area() * pb <= input@.len(),
                input@.len() <= usize::MAX,
                output_region.area() == ow * oh,
                output_region.area() * pb <= usize::MAX,
        ;
        assert(ih * (iw * pb) == ih * iw * pb) by (nonlinear_arith);
    }
    let row_bytes = input_region.width as usize * pixel_bytes;
    let output_row_bytes = output_region.width as usize * pixel_bytes;
    let out_x = (px as i64 + input_region.x as i64 - output_region.x as i64) as usize;
    let out_y = (py as i64 + input_region.y as i64 - output_region.y as i64) as usize;
    let ghost rb = row_bytes as int;
    let ghost orb = output_row_bytes as int;
    let ghost ox = out_x as int;
    let ghost oy = out_y as int;
    proof {
        assert(ox * pb + rb <= orb && 0 <= ox * pb) by (nonlinear_arith)
            requires
                ox + iw <= ow,
                rb == iw * pb,
                orb == ow * pb,
                0 <= pb,
                0 <= ox,
        ;
    }
    let height = input_region.height as usize;
    let mut row: usize = 0;
    while row < height
        invariant
            row <= height,
            height == ih,
            1 <= ih,
            rb == iw * pb,
            orb == ow * pb,
            pb == pixel_bytes,
            rb == row_bytes,
            orb == output_row_bytes,
            ox == out_x,
            oy == out_y,
            0 <= ox,
            0 <= oy,
            ox * pb + rb <= orb,
            0 <= ox * pb,
            ih * rb <= input@.len(),
            input@.len() <= usize::MAX,
            oy + ih <= u32::MAX,
            (oy + ih - 1) * orb + (ox + iw) * pb <= old_out.len(),
            old_out.len() <= usize::MAX,
            ih * iw * pb <= usize::MAX,
            pastes(input_region),
            iw == input_region.width,
            ih == input_region.height,
            ox == px + input_region.x - output_region.x,
            oy == py + input_region.y - output_region.y,
            ow == output_region.width,
            output@ == paste_partial(
                old_out,
                input@,
                input_region,
                output_region,
                px as int,
                py as int,
                pb,
                row as int,
                0,
            ),
        decreases height - row,
    {
        proof {
            assert((ox + iw) * pb == ox * pb + iw * pb) by (nonlinear_arith);
            assert(row * rb + rb <= ih * rb && (oy + row) * orb + ox * pb + rb <= old_out.len()
                && 0 <= row * rb && 0 <= (oy + row) * orb) by (nonlinear_arith)
                requires
                    row < ih,
                    0 <= rb,
                    0 <= orb,
                    0 <= oy,
                    0 <= ox * pb,
                    (oy + ih - 1) * orb + (ox + iw) * pb <= old_out.len(),
                    rb == iw * pb,
                    (ox + iw) * pb == ox * pb + iw * pb,
            ;
        }
        let src_start = row * row_bytes;
        let dst_start = (out_y + row) * output_row_bytes + out_x * pixel_bytes;
        let mut j: usize = 0;
        while j < row_bytes
            invariant
                row < height,
                j <= row_bytes,
                height == ih,
                rb == iw * pb,
                orb == ow * pb,
                pb == pixel_bytes,
                rb == row_bytes,
                orb == output_row_bytes,
                ox == out_x,
                oy == out_y,
                0 <= ox,
                0 <= oy,
                ox * pb + rb <= orb,
                src_start == row * rb,
                dst_start == (oy + row) * orb + ox * pb,
                src_start + rb <= input@.len(),
                input@.len() <= usize::MAX,
                dst_start + rb <= old_out.len(),
                old_out.len() <= usize::MAX,
                pastes(input_region),
                iw == input_region.width,
                ih == input_region.height,
                ox == px + input_region.x - output_region.x,
                oy == py + input_region.y - output_region.y,
                ow == output_region.width,
                output@ == paste_partial(
                    old_out,
                    input@,
                    input_region,
                    output_region,
                    px as int,
                    py as int,
                    pb,
                    row as int,
                    j as int,
                ),
            decreases row_bytes - j,
        {
            proof {
                lemma_paste_position(orb, oy, ox, row as int, j as int, pb);
            }
            output[dst_start + j] = input[src_start + j];
            proof {
                let next = paste_partial(
                    old_out,
                    input@,
                    input_region,
                    output_region,
                    px as int,
                    py as int,
                    pb,
                    row as int,
                    j + 1,
                );
                assert forall|i: int| 0 <= i < output@.len() implies #[trigger] output@[i]
                    == next[i] by {
                    if i != dst_start + j && orb > 0 && i / orb - oy == row && i % orb - ox * pb
                        == j {
                        lemma_paste_position_unique(i, orb, oy + row, ox * pb + j);
                    }
                }
                assert(output@ =~= next);
            }
            j += 1;
        }
        proof {
            assert(output@ =~= paste_partial(
                old_out,
                input@,
                input_region,
                output_region,
                px as int,
                py as int,
                pb,
                row + 1,
                0,
            ));
        }
        row += 1;
    }
}

/// The pasted rectangle of a region computed by [`intersect_translate`] lies
/// inside the output tile it was computed for: the input regions an insert
/// asks for always paste in place.
pub proof fn lemma_intersect_translate_pastes_inside(
    output: Region,
    px: int,
    py: int,
    pw: int,
    ph: int,
)
    requires
        i32::MIN <= px <= i32::MAX,
        i32::MIN <= py <= i32::MAX,
        0 <= pw,
        0 <= ph,
        intersect_translate_fits(output, px, py, pw, ph),
    ensures
        pastes(intersect_translate(output, px, py, pw, ph)) ==> paste_fits(
            intersect_translate(output, px, py, pw, ph),
            output,
            px,
            py,
        ),
{
}

/// Overlays a `sub_width × sub_height` image at `(x, y)` on a
/// `main_width × main_height` image. With `expand` the canvas grows to hold
/// the whole sub-image (to the right and down); uncovered pixels are zero.
pub struct Insert {
    main_width: u32,
    main_height: u32,
    sub_width: u32,
    sub_height: u32,
    x: i32,
    y: i32,
    expand: bool,
    bands: u32,
    format: BandFormatId,
}

impl Insert {
    /// Width of the main image.
    pub closed spec fn main_w(&self) -> u32 {
        self.main_width
    }

    /// Height of the main image.
    pub closed spec fn main_h(&self) -> u32 {
        self.main_height
    }

    /// Width of the sub-image.
    pub closed spec fn sub_w(&self) -> u32 {
        self.sub_width
    }

    /// Height of the sub-image.
    pub closed spec fn sub_h(&self) -> u32 {
        self.sub_height
    }

    /// Left edge of the sub-image on the main image.
    pub closed spec fn at_x(&self) -> i32 {
        self.x
    }

    /// Top edge of the sub-image on the main image.
    pub closed spec fn at_y(&self) -> i32 {
        self.y
    }

    /// Whether the canvas grows to hold the sub-image.
    pub closed spec fn expands(&self) -> bool {
        self.expand
    }

    /// Bands per pixel.
    pub closed spec fn band_count(&self) -> u32 {
        self.bands
    }

    /// Sample format of both images.
    pub closed spec fn sample_format(&self) -> BandFormatId {
        self.format
    }

    /// Bytes per pixel.
    pub open spec fn pixel_bytes(&self) -> int {
        self.band_count() * sample_bytes(self.sample_format())
    }

    /// Placement `(x, y, width, height)` of input `slot` on the canvas: the
    /// main image at the origin, the sub-image at `(x, y)`, nothing for any
    /// other slot.
    pub open spec fn placement_of(&self, slot: int) -> (int, int, int, int) {
        if slot == 0 {
            (0, 0, self.main_w() as int, self.main_h() as int)
        } else if slot == 1 {
            (self.at_x() as int, self.at_y() as int, self.sub_w() as int, self.sub_h() as int)
        } else {
            (0, 0, 0, 0)
        }
    }

    /// Region of input `slot` that an output region reads.
    pub open spec fn slot_region(&self, output: Region, slot: int) -> Region {
        let p = self.placement_of(slot);
        intersect_translate(output, p.0, p.1, p.2, p.3)
    }

    /// Builds an insert of a `sub_width × sub_height` image at `(x, y)` on a
    /// `main_width × main_height` image of `bands` bands of `format`.
    pub fn new(
        main_width: u32,
        main_height: u32,
        sub_width: u32,
        sub_height: u32,
        x: i32,
        y: i32,
        expand: bool,
        bands: u32,
        format: BandFormatId,
    ) -> (r: Self)
        ensures
            r.main_w() == main_width,
            r.main_h() == main_height,
            r.sub_w() == sub_width,
            r.sub_h() == sub_height,
            r.at_x() == x,
            r.at_y() == y,
            r.expands() == expand,
            r.band_count() == bands,
            r.sample_format() == format,
    {
        Insert { main_width, main_height, sub_width, sub_height, x, y, expand, bands, format }
    }

    /// Width of the result: the main width, grown to reach the sub-image's
    /// right edge when expanding.
    pub fn output_width(&self) -> (r: u32)
        ensures
            r == insert_extent(self.main_w(), self.at_x(), self.sub_w(), self.expands()),
    {
        if self.expand {
            let start: u32 = if self.x > 0 {
                self.x as u32
            } else {
                0
            };
            let end = start.saturating_add(self.sub_width);
            if self.main_width >= end {
                self.main_width
            } else {
                end
            }
        } else {
            self.main_width
        }
    }

    /// Height of the result: the main height, grown to reach the sub-image's
    /// bottom edge when expanding.
    pub fn output_height(&self) -> (r: u32)
        ensures
            r == insert_extent(self.main_h(), self.at_y(), self.sub_h(), self.expands()),
    {
        if self.expand {
            let start: u32 = if self.y > 0 {
                self.y as u32
            } else {
                0
            };
            let end = start.saturating_add(self.sub_height);
            if self.main_height >= end {
                self.main_height
            } else {
                end
            }
        } else {
            self.main_height
        }
    }

    fn placement(&self, slot: usize) -> (r: (i32, i32, u32, u32))
        ensures
            (r.0 as int, r.1 as int, r.2 as int, r.3 as int) == self.placement_of(slot as int),
    {
        match slot {
            0 => (0, 0, self.main_width, self.main_height),
            1 => (self.x, self.y, self.sub_width, self.sub_height),
            _ => (0, 0, 0, 0),
        }
    }

    /// The single-input entry point of a two-input operation: it copies as
    /// many samples of `input` as `output` holds and leaves the rest of
    /// `output` as it was. Callers compose inserts with
    /// [`Insert::dyn_process_region_multi`].
    pub fn dyn_process_region(
        &self,
        input: &[u8],
        output: &mut [u8],
        _input_region: Region,
        _output_region: Region,
    )
        ensures
            final(output)@ == overwrite_prefix(
                old(output)@,
                input@.take(min_int(old(output)@.len() as int, input@.len() as int)),
            ),
    {
        let len = if output.len() <= input.len() {
            output.len()
        } else {
            input.len()
        };
        let ghost old_out = output@;
        let mut i: usize = 0;
        while i < len
            invariant
                len <= output@.len(),
                len <= input@.len(),
                len == min_int(old_out.len() as int, input@.len() as int),
                output@.len() == old_out.len(),
                i <= len,
                forall|k: int| 0 <= k < i ==> #[trigger] output@[k] == input@[k],
                forall|k: int| i <= k < old_out.len() ==> #[trigger] output@[k] == old_out[k],
            decreases len - i,
        {
            output[i] = input[i];
            i += 1;
        }
        proof {
            assert(output@ =~= overwrite_prefix(old_out, input@.take(len as int)));
        }
    }

    /// Composes an output tile from the tiles of both inputs: the tile is
    /// zeroed, the main tile is pasted at its place, then the sub-image tile
    /// over it. `input_regions` are the regions the input tiles cover, as
    /// [`DynOperation::required_input_region_slot`] gives them.
    pub fn dyn_process_region_multi(
        &self,
        inputs: &[&[u8]],
        output: &mut [u8],
        input_regions: &[Region],
        output_region: Region,
    )
        requires
            inputs@.len() == 2,
            input_regions@.len() == 2,
            self.pixel_bytes() <= usize::MAX,
            paste_in_bounds(
                inputs@[0]@.len() as int,
                input_regions@[0],
                old(output)@.len() as int,
                output_region,
                0,
                0,
                self.pixel_bytes(),
            ),
            paste_in_bounds(
                inputs@[1]@.len() as int,
                input_regions@[1],
                old(output)@.len() as int,
                output_region,
                self.at_x() as int,
                self.at_y() as int,
                self.pixel_bytes(),
            ),
        ensures
            final(output)@ == insert_samples(
                old(output)@.len() as int,
                inputs@[0]@,
                input_regions@[0],
                inputs@[1]@,
                input_regions@[1],
                output_region,
                self.at_x() as int,
                self.at_y() as int,
                self.pixel_bytes(),
            ),
    {
        let len = output.len();
        let mut i: usize = 0;
        while i < len
            invariant
                len == output@.len(),
                i <= len,
                forall|k: int| 0 <= k < i ==> #[trigger] output@[k] == 0u8,
            decreases len - i,
        {
            output[i] = 0;
            i += 1;
        }
        proof {
            assert(output@ =~= Seq::new(len as nat, |k: int| 0u8));
        }

        let pixel_bytes = self.bands as usize * sample_size_bytes(self.format);
        paste_region(inputs[0], input_regions[0], output, output_region, 0, 0, pixel_bytes);
        paste_region(inputs[1], input_regions[1], output, output_region, self.x, self.y, pixel_bytes);
    }
}

impl DynOperation for Insert {
    /// The canvas region is returned as it is, for any region.
    open spec fn serves_region(&self, output: Region) -> bool {
        true
    }

    /// The corner of the region of input `slot`, translated into that
    /// input's coordinates, fits an `i32`.
    open spec fn serves_slot_region(&self, output: Region, slot: int) -> bool {
        let p = self.placement_of(slot);
        intersect_translate_fits(output, p.0, p.1, p.2, p.3)
    }

    open spec fn serves_tile(&self, tile_w: u32, tile_h: u32) -> bool {
        true
    }

    open spec fn input_format_of(&self) -> BandFormatId {
        self.sample_format()
    }

    open spec fn output_format_of(&self) -> BandFormatId {
        self.sample_format()
    }

    open spec fn bands_of(&self) -> u32 {
        self.band_count()
    }

    open spec fn demand_hint_of(&self) -> DemandHint {
        DemandHint::ThinStrip
    }

    open spec fn input_slots(&self) -> usize {
        2
    }

    /// The canvas region itself (the scheduler asks each slot separately).
    open spec fn input_region_of(&self, output: Region) -> Region {
        output
    }

    /// The part of input `slot` that the output region shows, in that input's
    /// own coordinates.
    open spec fn slot_region_of(&self, output: Region, slot: int) -> Region {
        self.slot_region(output, slot)
    }

    open spec fn node_spec_of(&self, tile_w: u32, tile_h: u32) -> NodeSpec {
        NodeSpec {
            input_tile_w: tile_w,
            input_tile_h: tile_h,
            output_tile_w: tile_w,
            output_tile_h: tile_h,
        }
    }

    open spec fn output_width_of(&self, input_w: u32) -> u32 {
        insert_extent(self.main_w(), self.at_x(), self.sub_w(), self.expands())
    }

    open spec fn output_height_of(&self, input_h: u32) -> u32 {
        insert_extent(self.main_h(), self.at_y(), self.sub_h(), self.expands())
    }

    fn input_format(&self) -> BandFormatId {
        self.format
    }

    fn output_format(&self) -> BandFormatId {
        self.format
    }

    fn bands(&self) -> u32 {
        self.bands
    }

    fn demand_hint(&self) -> DemandHint {
        DemandHint::ThinStrip
    }

    fn input_slot_count(&self) -> usize {
        2
    }

    /// The canvas region itself (the scheduler asks each slot separately).
    fn required_input_region(&self, output: &Region) -> Region {
        *output
    }

    /// The part of input `slot` that the output region shows, in that input's
    /// own coordinates.
    fn required_input_region_slot(&self, output: &Region, slot: usize) -> Region {
        let (px, py, pw, ph) = self.placement(slot);
        intersect_and_translate(*output, px, py, pw, ph)
    }

    fn node_spec(&self, tile_w: u32, tile_h: u32) -> NodeSpec {
        NodeSpec::identity(tile_w, tile_h)
    }

    fn output_width(&self, _input_w: u32) -> u32 {
        Insert::output_width(self)
    }

    fn output_height(&self, _input_h: u32) -> u32 {
        Insert::output_height(self)
    }
}


/// The extent of an insert along one axis: without `expand` it is the main
/// extent; with `expand` it is the larger of the main extent and the far edge
/// of the sub-image (`max(offset, 0) + sub`, saturated at `u32::MAX`), so the
/// canvas holds both images.
pub proof fn lemma_insert_extent_holds_both_images(main: u32, offset: i32, sub: u32, expand: bool)
    ensures
        ({
            let start: int = if offset > 0 {
                offset as int
            } else {
                0
            };
            let far = if start + sub > u32::MAX {
                u32::MAX as int
            } else {
                start + sub
            };
            let r = insert_extent(main, offset, sub, expand) as int;
            &&& !expand ==> r == main
            &&& expand ==> r >= main && r >= far
            &&& expand ==> (r == main || r == far)
        }),
{
}

} // verus!
