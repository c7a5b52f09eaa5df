//! Integer downscaling: box-filter shrinks and the fixed-point reduce
//! convolution.
pub mod shrinkh;
pub mod shrink;
pub mod reduce;
