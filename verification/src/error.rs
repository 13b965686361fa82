//! The errors that meshguard's verified functions report.
use vstd::prelude::*;

verus! {

/// Why an operation of the library failed.
#[derive(Debug)]
pub enum MeshError {
    /// A NodeId's bytes are not a valid ed25519 point.
    NotAPoint,
    /// A NodeId text is not valid unpadded base32.
    InvalidNodeId(data_encoding::DecodeError),
    /// A NodeId text is longer than the base32 decoder accepts.
    NodeIdTooLong,
    /// A NodeId text decodes to this many bytes instead of 32.
    WrongKeyLength(usize),
    /// iroh refused a NodeId text.
    NodeIdRejected(iroh_base::KeyParsingError),
    /// A packet came out of the tunnel different from what went in.
    PacketCorrupted { sent: usize, received: usize },
}

} // verus!
