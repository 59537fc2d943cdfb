//! Error taxonomy of the crate.
//!
//! `Deserialize(Incomplete)` and `NoData` are benign: the caller should wait
//! for more bytes.  Every other variant is fatal to the current operation.

use vstd::prelude::*;

verus! {

/// Outcome class of a failed deserialization.
#[derive(Debug, Clone, Copy, PartialEq, Eq, Structural)]
pub enum ParseFault {
    /// Not enough bytes yet; wait for more input.
    Incomplete,
    /// The bytes can never become a valid frame or message.
    Malformed,
}

/// Possible errors issued by this crate.
#[derive(Debug, Clone, PartialEq, Eq)]
pub enum Error {
    /// Framing or message deserialization failed.
    Deserialize(ParseFault),
    /// A message would not fit in one envelope given the configured MTU;
    /// carries the number of bytes the framed message would need.
    PayloadTooLarge(usize),
    /// A size or count did not fit the wire width.
    IntegerConversion,
    /// A configuration line could not be parsed.
    InvalidConfig { linenum: usize, line: String },
    /// A numeric configuration value could not be parsed.
    ParseInt,
    /// No chunk is buffered at all.
    NoData,
}

/// Convenient result alias used throughout the crate.
pub type OnewayResult<T> = Result<T, Error>;

} // verus!
