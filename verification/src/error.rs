//! What can go wrong with a packet.

use vstd::prelude::*;

verus! {

/// Why a descriptor chain does not make up a packet, or why a packet cannot be written back.
#[derive(Clone, Copy, Debug, PartialEq, Eq)]
pub enum VsockError {
    /// The chain has less room for data than the packet needs.
    BufDescTooSmall,
    /// A data descriptor was announced, but the chain has none.
    BufDescMissing,
    /// Guest memory could not be translated, read or written.
    GuestMemory,
    /// The chain has no descriptor for the packet header.
    HdrDescMissing,
    /// The head descriptor, whose length is given, does not have room for the packet header.
    HdrDescTooSmall(u32),
    /// The length field of the packet header holds a value that the packet cannot have.
    InvalidPktLen(u32),
    /// The device was to read from a descriptor that is there to be written.
    UnreadableDescriptor,
    /// The device was to write to a descriptor that is there to be read.
    UnwritableDescriptor,
}

} // verus!
