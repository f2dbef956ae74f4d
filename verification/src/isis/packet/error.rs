//! What can be wrong with a received PDU.

use vstd::prelude::*;

verus! {

/// IS-IS decode errors. Each one carries the offending field.
#[derive(Clone, Copy, Debug, PartialEq, Eq, Structural)]
pub enum DecodeError {
    IncompletePdu,
    InvalidHeaderLength(u8),
    InvalidIrdpDiscriminator(u8),
    InvalidVersion(u8),
    InvalidIdLength(u8),
    UnknownPduType(u8),
    InvalidPduLength(u16),
    InvalidTlvLength(u8),
    InvalidAreaAddrLen(u8),
    InvalidPrefixLen(u8),
    InvalidHelloCircuitType(u8),
    InvalidHelloHoldtime(u16),
}

/// What decoding gives.
pub type DecodeResult<T> = Result<T, DecodeError>;

} // verus!
