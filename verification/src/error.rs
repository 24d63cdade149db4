//! The ways an operation of this crate can fail. Nothing is retried or
//! logged internally: every failure is reported to the immediate caller.

use vstd::prelude::*;

verus! {

/// Failure reported by entry construction or argument encoding.
#[derive(Clone, Copy, Debug, PartialEq, Eq, Structural)]
pub enum TokenizeError {
    /// A domain or format string holds a zero byte where only the
    /// terminator may be zero.
    InvalidContent,
    /// A fixed-capacity destination cannot hold the token plus the whole
    /// encoded argument sequence; no partial output is valid.
    BufferExhausted,
    /// An open-ended destination reported failure mid-write.
    Write,
}

} // verus!
