//! Errors reported when an operation is configured with invalid parameters.
use vstd::prelude::*;

verus! {

/// An operation could not be built from the parameters it was given.
#[derive(Debug)]
pub enum BuildError {
    /// A parameter was out of its accepted range; `context` names the operation.
    SourceHint { context: &'static str, message: String },
}

impl BuildError {
    /// This error is a `SourceHint` with the given context and message text.
    pub open spec fn is_source_hint(self, context: Seq<char>, message: Seq<char>) -> bool {
        match self {
            BuildError::SourceHint { context: c, message: m } => c@ == context && m@ == message,
        }
    }
}

/// A request could not be served at run time.
#[derive(Debug)]
pub enum ViprsError {
    /// A buffer of `width × height` pixels of `bands` bands (`bytes` samples)
    /// would not fit in the `limit_bytes` of addressable memory.
    ImageTooLarge {
        width: u32,
        height: u32,
        bands: u32,
        bytes: u128,
        limit_bytes: u128,
        details: &'static str,
    },
}

} // verus!
