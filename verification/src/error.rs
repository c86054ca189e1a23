//! Error taxonomy of the core. Every failure aborts the current call and is
//! surfaced verbatim; nothing is retried or converted to a default value.

use vstd::prelude::*;

verus! {

/// Failures of the per-epoch deposit-processing path.
#[derive(Clone, Copy, Debug, PartialEq, Eq, Structural)]
pub enum EpochProcessingError {
    /// A checked balance or counter addition exceeded the representable range.
    ArithmeticOverflow,
    /// A spec parameter is malformed (the effective-balance increment is zero).
    ConfigurationError,
}

/// Failures of the fork-versioned payload path.
#[derive(Clone, Copy, Debug, PartialEq, Eq, Structural)]
pub enum PayloadError {
    /// A decode was requested for a fork that predates execution payloads.
    UnsupportedFork,
    /// A fork-specific field was read on a payload of the wrong variant.
    IncorrectVariant,
    /// The wire bytes do not form a payload of the requested variant.
    DecodeError,
}

} // verus!
