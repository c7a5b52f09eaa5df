//! Scheduling metadata shared by all operations.
use vstd::prelude::*;

use crate::format::BandFormatId;
use crate::region::Region;

verus! {

/// The tile shape an operation prefers to be driven with.
#[derive(Clone, Copy, Debug, PartialEq, Eq, Structural)]
pub enum DemandHint {
    /// Full-width strips a few rows tall.
    ThinStrip,
    /// Full-width strips many rows tall.
    FatStrip,
    /// Small square tiles.
    SmallTile,
}

/// Tile buffer sizes an operation needs for a given output tile size.
#[derive(Clone, Copy, Debug, PartialEq, Eq, Structural)]
pub struct NodeSpec {
    pub input_tile_w: u32,
    pub input_tile_h: u32,
    pub output_tile_w: u32,
    pub output_tile_h: u32,
}

impl NodeSpec {
    /// Input and output tiles of the same size.
    pub fn identity(tile_w: u32, tile_h: u32) -> (r: NodeSpec)
        ensures
            r == (NodeSpec {
                input_tile_w: tile_w,
                input_tile_h: tile_h,
                output_tile_w: tile_w,
                output_tile_h: tile_h,
            }),
    {
        NodeSpec {
            input_tile_w: tile_w,
            input_tile_h: tile_h,
            output_tile_w: tile_w,
            output_tile_h: tile_h,
        }
    }
}

/// Format-erased view of an operation, as a pipeline scheduler sees it. Each
/// query has a spec function that says what it answers.
pub trait DynOperation {
    /// The output regions whose input regions the operation can compute
    /// without overflowing its coordinate arithmetic.
    spec fn serves_region(&self, output: Region) -> bool;

    /// The output regions whose region of input `slot` the operation can
    /// compute without overflowing its coordinate arithmetic.
    spec fn serves_slot_region(&self, output: Region, slot: int) -> bool;

    /// The output tile sizes whose buffer sizes the operation can compute
    /// without overflowing.
    spec fn serves_tile(&self, tile_w: u32, tile_h: u32) -> bool;

    /// Format of the samples read.
    spec fn input_format_of(&self) -> BandFormatId;

    /// Format of the samples written.
    spec fn output_format_of(&self) -> BandFormatId;

    /// Number of bands per pixel.
    spec fn bands_of(&self) -> u32;

    /// Preferred tile shape.
    spec fn demand_hint_of(&self) -> DemandHint;

    /// Number of input images.
    spec fn input_slots(&self) -> usize;

    /// Input region needed for an output region.
    spec fn input_region_of(&self, output: Region) -> Region;

    /// Region of input `slot` needed for an output region.
    spec fn slot_region_of(&self, output: Region, slot: int) -> Region;

    /// Tile buffer sizes for an output tile.
    spec fn node_spec_of(&self, tile_w: u32, tile_h: u32) -> NodeSpec;

    /// Output image width for an input image width.
    spec fn output_width_of(&self, input_w: u32) -> u32;

    /// Output image height for an input image height.
    spec fn output_height_of(&self, input_h: u32) -> u32;

    /// Format of the samples read.
    fn input_format(&self) -> (r: BandFormatId)
        ensures
            r == self.input_format_of(),
    ;

    /// Format of the samples written.
    fn output_format(&self) -> (r: BandFormatId)
        ensures
            r == self.output_format_of(),
    ;

    /// Number of bands per pixel.
    fn bands(&self) -> (r: u32)
        ensures
            r == self.bands_of(),
    ;

    /// Preferred tile shape.
    fn demand_hint(&self) -> (r: DemandHint)
        ensures
            r == self.demand_hint_of(),
    ;

    /// Number of input images.
    fn input_slot_count(&self) -> (r: usize)
        ensures
            r == self.input_slots(),
    ;

    /// Input region (of the only or first input) needed for an output region.
    fn required_input_region(&self, output: &Region) -> (r: Region)
        requires
            self.serves_region(*output),
        ensures
            r == self.input_region_of(*output),
    ;

    /// Input region of input `slot` needed for an output region.
    fn required_input_region_slot(&self, output: &Region, slot: usize) -> (r: Region)
        requires
            self.serves_slot_region(*output, slot as int),
        ensures
            r == self.slot_region_of(*output, slot as int),
    ;

    /// Tile buffer sizes for an output tile of `tile_w × tile_h`.
    fn node_spec(&self, tile_w: u32, tile_h: u32) -> (r: NodeSpec)
        requires
            self.serves_tile(tile_w, tile_h),
        ensures
            r == self.node_spec_of(tile_w, tile_h),
    ;

    /// Output image width for an input image width.
    fn output_width(&self, input_w: u32) -> (r: u32)
        ensures
            r == self.output_width_of(input_w),
    ;

    /// Output image height for an input image height.
    fn output_height(&self, input_h: u32) -> (r: u32)
        ensures
            r == self.output_height_of(input_h),
    ;
}

} // verus!
