//! One-way file transfer protocol core.
//!
//! A sender streams file creation notices and file contents over an
//! unreliable, strictly unidirectional datagram transport; a receiver
//! reconstructs the files under a configured root.  Robustness against loss
//! comes from blind repetition at the sender and duplicate suppression plus
//! reassembly at the receiver.  This crate holds the protocol logic: the
//! wire framing, the message codec, the retransmit and reassembly layers,
//! the configuration parser and the per-peer session state machine.  All
//! socket and file input/output lives outside the crate; callers hand in
//! plain byte buffers and apply the actions handed back.

use vstd::prelude::*;

pub mod config;
pub mod envelope;
mod error;
pub mod messages;
pub mod retransmit;
pub mod sender;
pub mod session;
pub mod utils;

pub use config::Config;

pub use error::{Error, OnewayResult, ParseFault};

verus! {

/// Outcome of parsing a wire item from a byte sequence, at the
/// specification level: either a model value together with the number of
/// bytes consumed, or one of the two failure classes.
pub enum ParseOutcome<M> {
    Parsed { value: M, used: int },
    Incomplete,
    Malformed,
}

/// Trait used to serialize and deserialize data to and from the wire.
///
/// Each implementor chooses a mathematical `Model` of its wire content,
/// a byte-level encoding `wire_bytes` of that model and a byte-level
/// parsing function `wire_parse`; the executable methods are proved to
/// follow both.
pub trait Wire: Sized {
    /// Mathematical model of the value as it appears on the wire.
    type Model;

    /// The model of this value.
    spec fn model(&self) -> Self::Model;

    /// Well-formedness demanded of a value before it is serialized.
    spec fn wire_wf(&self) -> bool;

    /// Whether serialization of this value succeeds.
    spec fn wire_encodes(&self) -> bool;

    /// The byte encoding of a model value.
    spec fn wire_bytes(m: Self::Model) -> Seq<u8>;

    /// The byte-level parsing function.
    spec fn wire_parse(input: Seq<u8>) -> ParseOutcome<Self::Model>;

    /// Serialization function.
    fn to_wire(&self) -> (r: OnewayResult<Vec<u8>>)
        requires
            self.wire_wf(),
        ensures
            r is Ok <==> self.wire_encodes(),
            (r matches Ok(v) ==> v@ == Self::wire_bytes(self.model())),
    ;

    /// Deserialization function; on success also reports how many bytes
    /// of `input` were consumed.
    fn from_wire(input: &[u8]) -> (r: OnewayResult<(Self, usize)>)
        ensures
            (match Self::wire_parse(input@) {
                ParseOutcome::Parsed { value, used } => {
                    &&& r matches Ok(p) && p.0.model() == value && p.1 as int == used
                    &&& r matches Ok(p) && p.0.wire_wf()
                    &&& used <= input@.len()
                },
                ParseOutcome::Incomplete => r matches Err(
                    Error::Deserialize(ParseFault::Incomplete),
                ),
                ParseOutcome::Malformed => r matches Err(
                    Error::Deserialize(ParseFault::Malformed),
                ),
            }),
    ;
}

} // verus!
