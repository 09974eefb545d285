//! The failures of one call across the boundary.

use vstd::prelude::*;

verus! {

/// Why an encode, a decode, a scan or a whole handshake did not succeed.
///
/// Every failure ends the call it occurred in; nothing is retried.
#[derive(Debug, Clone, Copy, PartialEq, Eq, Structural)]
pub enum ExchangeError {
    /// The base-64 text of the payload, with the sentinel, is longer than an
    /// encoded string may be.
    EncodingTooLarge,
    /// The received bytes are not UTF-8 text.
    MalformedUtf8,
    /// The received text does not end in the sentinel.
    MissingSentinel,
    /// The received text ends in the sentinel, but what precedes it is not
    /// base-64.
    BadBase64,
    /// No sentinel within the bytes the scanner is allowed to probe.
    ScanExhausted,
    /// The guest could not reserve the requested range.
    AllocationFailed,
    /// The encoded string could not be written into the reserved range.
    MemoryWriteFailed,
    /// The guest function faulted in place of returning an address.
    GuestTrap,
}

} // verus!
