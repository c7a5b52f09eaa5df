# viprs

Tile-level image operations in the style of libvips, written in Verus with
their behaviour stated as contracts and proved.

Images are packed, row-major sample buffers: band `b` of pixel `(x, y)` of a
tile `w` pixels wide with `bands` bands is sample `(y * w + x) * bands + b`.
Every operation answers the scheduling questions of a pipeline (which input
region an output region needs, which tile sizes to allocate, how large the
output image is) and fills an output tile from its input tiles.

Layout:

- `src/region.rs`, `src/format.rs`, `src/op.rs`, `src/error.rs`: regions,
  sample formats, scheduling metadata and the format-erased `DynOperation`
  view, errors.
- `src/layout.rs`: the addressing of sample buffers and the arithmetic facts
  the tile loops rely on.
- `src/structural/`: crop (`ExtractArea`), horizontal flip, rotations by 90 and
  180 degrees, integer subsampling, embedding on a larger canvas, insertion of
  one image into another.
- `src/resample/`: integer box-filter shrinks: `ShrinkH` (horizontal, with the
  libvips 8-bit fixed-point rounding and its exact factor-5 kernel) and
  `Shrink` (horizontal then vertical, with a direct 2×2 kernel); the 8-bit
  fixed-point reduce convolution (`reduce_h_u8_planned`, `reduce_v_u8`) on a
  plan of source positions, phases and `i16` coefficient tables.
- `tests/`: the behaviour on concrete images.
- `app/`: the floating-point parts (the `F32`/`F64` formats, alpha
  premultiplication, the `f64` shrink of samples wider than 8 bits), which are
  not verified.

The laws the operations obey (a flip or half turn applied twice gives the tile
back, four quarter turns give the image back, unit factors are the identity, a
uniform tile keeps its value under a shrink, the direct 2×2 kernel agrees with
the two passes, a reduce whose tables sum to one keeps a uniform tile)
are public proof functions next to the operations.
