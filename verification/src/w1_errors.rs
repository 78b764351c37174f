//! Error taxonomy of the one-wire sensor subsystem. The four kinds call for
//! different remedies: `Io` and `BadSerialConnection` are transient bus
//! faults, `MissingMarker` and `Parse` point at a firmware or protocol
//! mismatch. None of them may abort the control loop.
use vstd::prelude::*;

verus! {

/// Why a numeric suffix failed to parse as a millidegree count.
#[derive(Clone, Copy, Debug, PartialEq, Eq, Structural)]
pub enum NumError {
    /// The suffix was empty after trimming.
    Empty,
    /// A character other than an ASCII digit (or a single leading sign).
    InvalidDigit,
    /// The value does not fit in a 64-bit signed count.
    Overflow,
}

/// A failed attempt to obtain a temperature from a probe.
#[derive(Clone, Copy, Debug, PartialEq, Eq, Structural)]
pub enum W1Error {
    /// The device file could not be read (missing device, permission,
    /// disconnection). Retryable.
    Io,
    /// The record carries no `YES` transfer/CRC confirmation: a transient
    /// bus fault. Retryable.
    BadSerialConnection,
    /// The record carries no `t=` temperature marker: a malformed record.
    MissingMarker,
    /// The suffix after `t=` is not a well-formed integer.
    Parse(NumError),
}

} // verus!
