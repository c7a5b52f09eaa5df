//! Addressing of packed, row-major sample buffers and the arithmetic facts the
//! tile loops rely on.
use vstd::arithmetic::div_mod::{
    lemma_div_pos_is_pos, lemma_fundamental_div_mod, lemma_fundamental_div_mod_converse,
    lemma_mod_pos_bound, lemma_multiply_divide_lt,
};
use vstd::prelude::*;

verus! {

/// Index of band `b` of pixel `(x, y)` in a buffer whose rows are `width` pixels long.
pub open spec fn sample_index(width: int, bands: int, x: int, y: int, b: int) -> int {
    (y * width + x) * bands + b
}

/// Band of the sample stored at flat index `i`.
pub open spec fn band_of(i: int, bands: int) -> int {
    i % bands
}

/// Column of the pixel that holds flat index `i`.
pub open spec fn column_of(i: int, width: int, bands: int) -> int {
    (i / bands) % width
}

/// Row of the pixel that holds flat index `i`.
pub open spec fn row_of(i: int, width: int, bands: int) -> int {
    (i / bands) / width
}

/// `prefix` written over the start of `old`, the rest of `old` kept.
pub open spec fn overwrite_prefix<T>(old: Seq<T>, prefix: Seq<T>) -> Seq<T> {
    prefix + old.subrange(prefix.len() as int, old.len() as int)
}

/// A sample index splits back into the coordinates it was built from.
pub proof fn lemma_sample_index_split(width: int, bands: int, x: int, y: int, b: int)
    requires
        0 <= x < width,
        0 <= b < bands,
        0 <= y,
    ensures
        band_of(sample_index(width, bands, x, y, b), bands) == b,
        column_of(sample_index(width, bands, x, y, b), width, bands) == x,
        row_of(sample_index(width, bands, x, y, b), width, bands) == y,
{
    let p = y * width + x;
    lemma_fundamental_div_mod_converse(sample_index(width, bands, x, y, b), bands, p, b);
    lemma_fundamental_div_mod_converse(p, width, y, x);
}

/// Coordinates inside a `width × height` tile address a sample inside the buffer.
pub proof fn lemma_sample_index_bound(width: int, height: int, bands: int, x: int, y: int, b: int)
    requires
        0 <= x < width,
        0 <= y < height,
        0 <= b < bands,
    ensures
        0 <= sample_index(width, bands, x, y, b) < width * height * bands,
        sample_index(width, bands, x, y, b) + bands - b <= width * height * bands,
{
    assert(0 <= y * width + x < width * height) by (nonlinear_arith)
        requires
            0 <= x < width,
            0 <= y < height,
    ;
    let p = y * width + x;
    assert(0 <= p * bands + b && p * bands + bands <= width * height * bands) by (nonlinear_arith)
        requires
            0 <= p < width * height,
            0 <= b < bands,
    ;
}

/// Buffers of a `width × height` tile with `bands` bands can be addressed with
/// machine integers.
pub open spec fn tile_fits(width: int, height: int, bands: int) -> bool {
    &&& 0 <= width
    &&& 0 <= height
    &&& 0 <= bands
    &&& width * height <= usize::MAX
    &&& width * height * bands <= usize::MAX
}

/// The partial products a tile loop computes on its way to a sample index
/// never exceed the sample count, and they add up to the sample index.
pub proof fn lemma_sample_offsets(width: int, height: int, bands: int, x: int, y: int, b: int)
    requires
        0 <= x < width,
        0 <= y < height,
        0 <= b < bands,
    ensures
        0 <= y * width <= width * height,
        y * width + x < width * height,
        0 <= y * width * bands <= width * height * bands,
        0 <= x * bands <= width * height * bands,
        y * width * bands + x * bands + b == sample_index(width, bands, x, y, b),
        (y * width + x) * bands == y * width * bands + x * bands,
        0 <= sample_index(width, bands, x, y, b) < width * height * bands,
{
    assert(0 <= y * width <= width * height) by (nonlinear_arith)
        requires
            0 <= x < width,
            0 <= y < height,
    ;
    assert(y * width + x < width * height) by (nonlinear_arith)
        requires
            0 <= x < width,
            0 <= y < height,
    ;
    assert(0 <= y * width * bands <= width * height * bands) by (nonlinear_arith)
        requires
            0 <= y * width <= width * height,
            0 <= bands,
    ;
    assert(0 <= x * bands <= width * height * bands) by (nonlinear_arith)
        requires
            0 <= x < width,
            0 <= y < height,
            0 <= bands,
    ;
    assert((y * width + x) * bands == y * width * bands + x * bands) by (nonlinear_arith);
    lemma_sample_index_bound(width, height, bands, x, y, b);
}

/// Every flat index inside a `width × height` tile is the sample index of its
/// own coordinates, and those coordinates are in range.
pub proof fn lemma_flat_index_split(i: int, width: int, height: int, bands: int)
    requires
        0 <= i < width * height * bands,
        0 < width,
        0 < bands,
    ensures
        0 <= band_of(i, bands) < bands,
        0 <= column_of(i, width, bands) < width,
        0 <= row_of(i, width, bands) < height,
        i == sample_index(
            width,
            bands,
            column_of(i, width, bands),
            row_of(i, width, bands),
            band_of(i, bands),
        ),
{
    let p = i / bands;
    lemma_fundamental_div_mod(i, bands);
    lemma_mod_pos_bound(i, bands);
    lemma_div_pos_is_pos(i, bands);
    assert(i < bands * (width * height)) by (nonlinear_arith)
        requires
            i < width * height * bands,
    ;
    lemma_multiply_divide_lt(i, bands, width * height);
    lemma_fundamental_div_mod(p, width);
    lemma_mod_pos_bound(p, width);
    lemma_div_pos_is_pos(p, width);
    assert(p < width * height);
    assert(p / width < height) by {
        assert(p < width * height);
        lemma_multiply_divide_lt(p, width, height);
    }
    assert(p == (p / width) * width + p % width) by (nonlinear_arith)
        requires
            p == width * (p / width) + p % width,
    ;
    assert(i == p * bands + i % bands) by (nonlinear_arith)
        requires
            i == bands * p + i % bands,
    ;
}

/// Consecutive bands of a pixel have consecutive indices, and the band after the
/// last band of a row's last pixel is the first band of the next row.
pub proof fn lemma_sample_index_step(width: int, bands: int, x: int, y: int)
    ensures
        sample_index(width, bands, x, y, bands) == sample_index(width, bands, x + 1, y, 0),
        sample_index(width, bands, width, y, 0) == sample_index(width, bands, 0, y + 1, 0),
        sample_index(width, bands, 0, y, 0) == y * width * bands,
{
    assert(sample_index(width, bands, x, y, bands) == sample_index(width, bands, x + 1, y, 0))
        by (nonlinear_arith);
    assert(sample_index(width, bands, width, y, 0) == sample_index(width, bands, 0, y + 1, 0))
        by (nonlinear_arith);
    assert(sample_index(width, bands, 0, y, 0) == y * width * bands) by (nonlinear_arith);
}

} // verus!
