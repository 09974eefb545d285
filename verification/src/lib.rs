//! Exchange of byte buffers with a sandboxed guest over a boundary that
//! carries nothing but 32-bit integers.
//!
//! A payload crosses the boundary as an *encoded string*: its base-64 text
//! followed by a one-character sentinel that the base-64 alphabet does not
//! contain. The receiving side gets only the address of the first byte and
//! recovers the exact byte range by scanning forward to the sentinel, which the
//! length bound on encoded strings keeps within a fixed number of probes.
//!
//! * [`codec`] builds and takes apart encoded strings.
//! * [`transport`] finds the end of an encoded string in guest memory.
//! * [`handshake`] decides, step by step, what the host does during one call
//!   into the guest: reserve, write, invoke, scan, decode, release.
//! * [`accounting`] proves that a handshake releases what it reserved, once.
//! * [`guest`] holds what a guest computes on the buffers it is handed.
//! * [`bindings`] holds the calls into code that is not verified here.

pub mod accounting;
pub mod bindings;
pub mod codec;
pub mod error;
pub mod guest;
pub mod handshake;
pub mod transport;

pub use crate::codec::{
    decode_with_termination, encode_with_termination, get_max_length, get_termination_sequence,
};
pub use crate::error::ExchangeError;
