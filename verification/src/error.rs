use vstd::prelude::*;

verus! {

/// Errors surfaced by the packfile encoder and the pkt-line codec.
///
/// Every fallible operation in the crate reports one of these values; none of
/// the verified functions panic for caller-controlled inputs.
#[derive(Debug, Clone, Copy, PartialEq, Eq, Structural)]
pub enum Error {
    /// The four length bytes of a pkt-line frame were not valid UTF-8.
    ParseLengthBytes,
    /// The four length bytes of a pkt-line frame were not a hexadecimal number.
    ParseLengthAsHex,
    /// A pkt-line frame declared a length outside the range the protocol
    /// allows; carries the allowed range and the offending value.
    PacketLengthExceedsSpec { min: usize, max: usize, found: usize },
    /// Writing bytes into the zlib compressor failed.
    CompressWrite,
    /// Finishing the zlib compression stream failed.
    Compress,
    /// More entries were handed to a packfile than its 32-bit entry count can
    /// hold; carries the offending entry count.
    EntriesExceedsU32(usize),
}

} // verus!
