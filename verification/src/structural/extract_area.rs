//! Crop: a pure coordinate remap onto a rectangle of the source.
use std::marker::PhantomData;

use vstd::prelude::*;

use crate::format::BandFormat;
use crate::op::DemandHint;
use crate::region::{clamp_i64_to_i32, clamp_to_i32, Region};

verus! {

/// Extracts the `width × height` rectangle whose top-left corner is `(x, y)`
/// in the source. Output tiles are read from the source shifted by `(x, y)`.
pub struct ExtractArea<F: BandFormat> {
    x: u32,
    y: u32,
    width: u32,
    height: u32,
    _format: PhantomData<F>,
}

impl<F: BandFormat> ExtractArea<F> {
    /// Left edge of the crop in source coordinates.
    pub closed spec fn left(&self) -> u32 {
        self.x
    }

    /// Top edge of the crop in source coordinates.
    pub closed spec fn top(&self) -> u32 {
        self.y
    }

    /// Width of the crop.
    pub closed spec fn crop_width(&self) -> u32 {
        self.width
    }

    /// Height of the crop.
    pub closed spec fn crop_height(&self) -> u32 {
        self.height
    }

    /// Crops the `width × height` rectangle at `(x, y)`.
    pub fn new(x: u32, y: u32, width: u32, height: u32) -> (r: Self)
        ensures
            r.left() == x,
            r.top() == y,
            r.crop_width() == width,
            r.crop_height() == height,
    {
        ExtractArea { x, y, width, height, _format: PhantomData }
    }

    /// Preferred tile shape.
    pub fn demand_hint(&self) -> (r: DemandHint)
        ensures
            r == DemandHint::ThinStrip,
    {
        DemandHint::ThinStrip
    }

    /// The source region an output region reads: shifted by `(x, y)`, with the
    /// corner saturated to the `i32` range.
    pub fn required_input_region(&self, output: &Region) -> (r: Region)
        ensures
            r == (Region {
                x: clamp_to_i32(output.x + self.left()),
                y: clamp_to_i32(output.y + self.top()),
                width: output.width,
                height: output.height,
            }),
    {
        Region::new(
            clamp_i64_to_i32(output.x as i64 + self.x as i64),
            clamp_i64_to_i32(output.y as i64 + self.y as i64),
            output.width,
            output.height,
        )
    }

    /// The output width is the crop width, whatever the input width.
    pub fn output_width(&self, _input_width: u32) -> (r: u32)
        ensures
            r == self.crop_width(),
    {
        self.width
    }

    /// The output height is the crop height, whatever the input height.
    pub fn output_height(&self, _input_height: u32) -> (r: u32)
        ensures
            r == self.crop_height(),
    {
        self.height
    }
}

} // verus!
