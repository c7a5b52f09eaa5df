//! Verified tile-level image operations: structural transforms (crop, flip,
//! rotate, subsample, embed, insert), integer box-filter shrinks and the
//! 8-bit fixed-point reduce convolution.
//!
//! Every operation works on packed, row-major sample buffers: the sample of
//! band `b` of pixel `(x, y)` in a tile of width `w` with `bands` bands sits at
//! index `(y * w + x) * bands + b`.
use vstd::prelude::*;

pub mod error;
pub mod format;
pub mod layout;
pub mod op;
pub mod region;
pub mod resample;
pub mod structural;

pub use error::{BuildError, ViprsError};
pub use format::{BandFormat, BandFormatId, I16, I32, U16, U32, U8};
pub use op::{DemandHint, DynOperation, NodeSpec};
pub use region::{clamp_i64_to_i32, Region};
