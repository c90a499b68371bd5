//! `packfile` is a library providing utilities to generate Git packfiles in
//! memory and to frame them, and other payloads, in the pkt-line wire format
//! used by the Git protocol.
//!
//! The encoders serialize commit, tree and blob objects with their
//! variable-length size headers, per-object zlib compression and the whole
//! file SHA-1 trailer; the pkt-line framer wraps byte payloads in
//! length-prefixed packets; and the pkt-line decoder incrementally
//! reassembles client commands from arbitrarily chunked network bytes.

pub mod codec;
mod error;
pub mod low_level;
mod packet_line;
mod util;

pub use error::Error;
pub use packet_line::PktLine;
pub use util::ArcOrCowStr;
