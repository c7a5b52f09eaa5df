//! Rectangular pixel regions and the saturating coordinate helper.
use vstd::prelude::*;

verus! {

/// Clamps a mathematical integer into the `i32` range.
pub open spec fn clamp_to_i32(v: int) -> i32 {
    if v < i32::MIN {
        i32::MIN
    } else if v > i32::MAX {
        i32::MAX
    } else {
        v as i32
    }
}

/// Saturating conversion from `i64` to `i32`.
pub fn clamp_i64_to_i32(v: i64) -> (r: i32)
    ensures
        r == clamp_to_i32(v as int),
{
    if v < i32::MIN as i64 {
        i32::MIN
    } else if v > i32::MAX as i64 {
        i32::MAX
    } else {
        v as i32
    }
}

/// A rectangle of pixels: top-left corner `(x, y)`, extent `width × height`.
#[derive(Clone, Copy, Debug, PartialEq, Eq, Structural)]
pub struct Region {
    pub x: i32,
    pub y: i32,
    pub width: u32,
    pub height: u32,
}

impl Region {
    /// Number of pixels in the rectangle.
    pub open spec fn area(self) -> nat {
        (self.width as nat) * (self.height as nat)
    }

    /// Creates a region from its corner and extent.
    pub fn new(x: i32, y: i32, width: u32, height: u32) -> (r: Region)
        ensures
            r == (Region { x, y, width, height }),
    {
        Region { x, y, width, height }
    }

    /// True when the region holds no pixel.
    pub fn is_empty(&self) -> (b: bool)
        ensures
            b == (self.width == 0 || self.height == 0),
    {
        self.width == 0 || self.height == 0
    }

    /// Number of pixels, `width * height`.
    pub fn pixel_count(&self) -> (n: usize)
        requires
            self.area() <= usize::MAX,
        ensures
            n == self.area(),
    {
        self.width as usize * self.height as usize
    }

    /// Number of pixels, or `None` when it does not fit a `usize`.
    pub fn checked_pixel_count(&self) -> (r: Option<usize>)
        ensures
            r == (if self.area() <= usize::MAX {
                Some(self.area() as usize)
            } else {
                None::<usize>
            }),
    {
        (self.width as usize).checked_mul(self.height as usize)
    }
}

} // verus!
