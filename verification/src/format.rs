//! Sample formats: the runtime format tag and the compile-time format markers.
use vstd::prelude::*;

verus! {

/// Runtime tag of a band format.
#[derive(Clone, Copy, Debug, PartialEq, Eq, Structural)]
pub enum BandFormatId {
    U8,
    U16,
    I16,
    U32,
    I32,
    F32,
    F64,
}

/// Width in bytes of one sample of the given format.
pub open spec fn sample_bytes(format: BandFormatId) -> nat {
    match format {
        BandFormatId::U8 => 1,
        BandFormatId::U16 | BandFormatId::I16 => 2,
        BandFormatId::U32 | BandFormatId::I32 | BandFormatId::F32 => 4,
        BandFormatId::F64 => 8,
    }
}

/// Width in bytes of one sample of the given format.
pub fn sample_size_bytes(format: BandFormatId) -> (n: usize)
    ensures
        n == sample_bytes(format),
{
    match format {
        BandFormatId::U8 => 1,
        BandFormatId::U16 | BandFormatId::I16 => 2,
        BandFormatId::U32 | BandFormatId::I32 | BandFormatId::F32 => 4,
        BandFormatId::F64 => 8,
    }
}

/// A compile-time sample format: its sample type, its tag and its zero sample.
pub trait BandFormat {
    type Sample: Copy;

    spec fn format_id() -> BandFormatId;

    spec fn zero_sample() -> Self::Sample;

    /// The runtime tag of this format.
    fn id() -> (r: BandFormatId)
        ensures
            r == Self::format_id(),
    ;

    /// The all-zero sample (black for unsigned formats).
    fn zero() -> (r: Self::Sample)
        ensures
            r == Self::zero_sample(),
    ;
}

/// Unsigned 8-bit samples.
pub struct U8;

/// Unsigned 16-bit samples.
pub struct U16;

/// Signed 16-bit samples.
pub struct I16;

/// Unsigned 32-bit samples.
pub struct U32;

/// Signed 32-bit samples.
pub struct I32;

impl BandFormat for U8 {
    type Sample = u8;

    open spec fn format_id() -> BandFormatId {
        BandFormatId::U8
    }

    open spec fn zero_sample() -> u8 {
        0
    }

    fn id() -> (r: BandFormatId) {
        BandFormatId::U8
    }

    fn zero() -> (r: u8) {
        0
    }
}

impl BandFormat for U16 {
    type Sample = u16;

    open spec fn format_id() -> BandFormatId {
        BandFormatId::U16
    }

    open spec fn zero_sample() -> u16 {
        0
    }

    fn id() -> (r: BandFormatId) {
        BandFormatId::U16
    }

    fn zero() -> (r: u16) {
        0
    }
}

impl BandFormat for I16 {
    type Sample = i16;

    open spec fn format_id() -> BandFormatId {
        BandFormatId::I16
    }

    open spec fn zero_sample() -> i16 {
        0
    }

    fn id() -> (r: BandFormatId) {
        BandFormatId::I16
    }

    fn zero() -> (r: i16) {
        0
    }
}

impl BandFormat for U32 {
    type Sample = u32;

    open spec fn format_id() -> BandFormatId {
        BandFormatId::U32
    }

    open spec fn zero_sample() -> u32 {
        0
    }

    fn id() -> (r: BandFormatId) {
        BandFormatId::U32
    }

    fn zero() -> (r: u32) {
        0
    }
}

impl BandFormat for I32 {
    type Sample = i32;

    open spec fn format_id() -> BandFormatId {
        BandFormatId::I32
    }

    open spec fn zero_sample() -> i32 {
        0
    }

    fn id() -> (r: BandFormatId) {
        BandFormatId::I32
    }

    fn zero() -> (r: i32) {
        0
    }
}

} // verus!
