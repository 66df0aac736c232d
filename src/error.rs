//! The errors of the link driver and the packet codec.
use vstd::prelude::*;

verus! {

/// What went wrong while reading the radio's output or a packet.
#[derive(Clone, Copy, Debug, PartialEq, Eq, Structural)]
pub enum Error {
    /// Malformed ASCII: a bad hex digit, a bad prefix, a wrong length or separator,
    /// or the broadcast address where a single node was required.
    InvalidData,
    /// The data ended in the middle of a field.
    UnexpectedEof,
    /// The radio answered a command with an unexpected reply.
    Protocol,
}

} // verus!
